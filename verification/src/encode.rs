//! Encoding of owned values with schema nodes.
use vstd::prelude::*;
use vstd::string::*;

use crate::decoder::{CustomDecoder, DecoderRegistry, RegisteredDecoder};
use crate::editor::{
    array_prefix_count, encode_error, encode_error_is, encode_integer, encode_packed_unsigned,
    encode_primitive, integer_encoding, is_perfect_square, narrowing_input,
    packed_unsigned_encoding, primitive_encoding, square_of,
};
use crate::schema::{ArrayCount, PrimitiveType, SchemaNode, SchemaNodeKind};
use crate::bytes::push_all;
use crate::text::{decimal, push_decimal};
use crate::value::{OwnedFieldValue, SemanticError, SpecOwnedValue};

verus! {

/// An encoding result with its bytes taken by view.
pub open spec fn bytes_of(res: Result<Vec<u8>, SemanticError>) -> Result<Seq<u8>, SemanticError> {
    match res {
        Ok(v) => Ok(v@),
        Err(e) => Err(e),
    }
}

/// Whether an encoding failed with an encoding error at `path` carrying `message`.
pub open spec fn fails_at(out: Result<Seq<u8>, SemanticError>, path: Seq<char>, message: Seq<char>) -> bool {
    out matches Err(e) && encode_error_is(e, path, message)
}

/// Whether an encoding result is the specified bytes, or the specified error at `path`.
pub open spec fn is_encoding(
    out: Result<Seq<u8>, SemanticError>,
    spec: Result<Seq<u8>, Seq<char>>,
    path: Seq<char>,
) -> bool {
    match spec {
        Ok(b) => out == Ok::<Seq<u8>, SemanticError>(b),
        Err(m) => fails_at(out, path, m),
    }
}

/// The outcomes that a float-narrowing function may give: `narrowed(bits, r)` when it
/// may return `r` for the binary64 bits `bits`.
#[verifier::opaque]
pub open spec fn narrowing_of<N: Fn(u64) -> u32>(narrow: N) -> spec_fn(u64, u32) -> bool {
    |bits: u64, r: u32| narrow.ensures((bits,), r)
}

/// The outcomes that a union selector may give for a union node, a candidate variant
/// index and the bytes that the variant encodes.
#[verifier::opaque]
pub open spec fn selection_of<S: Fn(&SchemaNode, usize, &Vec<u8>) -> Result<Option<i64>, SemanticError>>(
    selector: S,
) -> spec_fn(SchemaNode, usize, Seq<u8>, Result<Option<i64>, SemanticError>) -> bool {
    |node: SchemaNode, index: usize, bytes: Seq<u8>, sel: Result<Option<i64>, SemanticError>|
        exists|p: Vec<u8>| p@ == bytes && #[trigger] selector.ensures((&node, index, &p), sel)
}

/// Whether a selector relation allows `sel` for a union node, variant index and bytes.
pub open spec fn picks(
    selects: spec_fn(SchemaNode, usize, Seq<u8>, Result<Option<i64>, SemanticError>) -> bool,
    node: SchemaNode,
    index: usize,
    bytes: Seq<u8>,
    sel: Result<Option<i64>, SemanticError>,
) -> bool {
    selects(node, index, bytes, sel)
}

/// Marks a candidate intermediate result; every result is one.
pub open spec fn candidate(r: Result<Seq<u8>, SemanticError>) -> bool {
    true
}

/// Marks a candidate union choice; every choice is one.
pub open spec fn candidate_choice(c: Result<(nat, Seq<u8>), SemanticError>) -> bool {
    true
}

/// The byte of an optional terminator.
pub open spec fn opt_byte(b: Option<u8>) -> Seq<u8> {
    match b {
        Some(x) => seq![x],
        None => Seq::empty(),
    }
}

/// The count stored for `len` items: the length itself, or the side of a square matrix.
pub open spec fn prefix_count(len: nat, square: bool) -> Option<nat> {
    if !square {
        Some(len)
    } else if is_perfect_square(len) {
        Some(choose|r: nat| square_of(r) == len)
    } else {
        None
    }
}

/// The count header written before the items of an array of `len` elements.
pub open spec fn array_header(count: ArrayCount, len: nat) -> Result<Seq<u8>, Seq<char>> {
    match count {
        ArrayCount::Fixed { count } => if len != count {
            Err("array expects "@ + decimal(count as nat) + " elements, got "@ + decimal(len))
        } else {
            Ok(Seq::empty())
        },
        ArrayCount::Prefixed { integer, terminator } => if integer.signed {
            Err("array count prefix must be unsigned"@)
        } else {
            match integer_encoding(integer, len as u64) {
                Some(b) => Ok(b + opt_byte(terminator)),
                None => Err("integer does not fit schema width"@),
            }
        },
        ArrayCount::PackedPrefixed { square, terminator } => match prefix_count(len, square) {
            None => Err("matrix array length is not a perfect square"@),
            Some(c) => match packed_unsigned_encoding(c as u64) {
                Some(b) => Ok(b + opt_byte(terminator)),
                None => Err("packed integer exceeds 30 bits"@),
            },
        },
        ArrayCount::SquaredPrefixed { integer, terminator } => if integer.signed {
            Err("array count prefix must be unsigned"@)
        } else {
            match prefix_count(len, true) {
                None => Err("matrix array length is not a perfect square"@),
                Some(c) => match integer_encoding(integer, c as u64) {
                    Some(b) => Ok(b + opt_byte(terminator)),
                    None => Err("integer does not fit schema width"@),
                },
            }
        },
        _ => Ok(Seq::empty()),
    }
}

/// Whether every length-prefixed string in a schema subtree reserves room for its prefix.
pub open spec fn prefixes_reserved(node: SchemaNode) -> bool
    decreases node, 0nat,
{
    match node.kind {
        SchemaNodeKind::Primitive { primitive } => match primitive {
            PrimitiveType::String { string } => match string.length_prefix {
                Some(prefix) => prefix.offset >= prefix.width,
                None => true,
            },
            _ => true,
        },
        SchemaNodeKind::Struct { fields } => all_prefixes_reserved(fields@),
        SchemaNodeKind::Array { element, .. } => prefixes_reserved(*element),
        SchemaNodeKind::Union { variants, .. } => all_prefixes_reserved(variants@),
        SchemaNodeKind::Terminated { child, .. } => prefixes_reserved(*child),
        SchemaNodeKind::Subrecord { payload, .. } => prefixes_reserved(*payload),
        SchemaNodeKind::Compressed { child } => prefixes_reserved(*child),
        _ => true,
    }
}

/// Whether every node of a list reserves room for its string prefixes.
pub open spec fn all_prefixes_reserved(nodes: Seq<SchemaNode>) -> bool
    decreases nodes, 0nat,
{
    if nodes.len() == 0 {
        true
    } else {
        all_prefixes_reserved(nodes.drop_last()) && prefixes_reserved(nodes.last())
    }
}

/// Whether `out` is a possible result of encoding `value` with `node`.
///
/// Primitives encode by their type; four-byte floats use a value that `narrowed` allows
/// for the binary64 bits. Structs encode their members in order and arrays
/// their count header then their items, stopping at the first error. A union encodes
/// with the first variant that encodes the value and that `selects` picks for the
/// encoded bytes. Custom nodes use the registered decoder, terminated nodes append
/// their terminator, and other kinds need a specialized encoder.
pub open spec fn encodes<D: CustomDecoder>(
    decoders: Map<Seq<char>, RegisteredDecoder<D>>,
    localized: bool,
    selects: spec_fn(SchemaNode, usize, Seq<u8>, Result<Option<i64>, SemanticError>) -> bool,
    narrowed: spec_fn(u64, u32) -> bool,
    node: SchemaNode,
    value: SpecOwnedValue,
    out: Result<Seq<u8>, SemanticError>,
) -> bool
    decreases node, 0nat,
{
    let path = node.path@;
    match node.kind {
        SchemaNodeKind::Primitive { primitive } => match narrowing_input(primitive, value) {
            Some(bits) => exists|r: u32|
                narrowed(bits, r) && is_encoding(
                    out,
                    primitive_encoding(primitive, value, localized, r),
                    path,
                ),
            None => is_encoding(out, primitive_encoding(primitive, value, localized, 0), path),
        },
        SchemaNodeKind::Struct { fields } => match value {
            SpecOwnedValue::Struct(values) => if fields@.len() != values.len() {
                fails_at(
                    out,
                    path,
                    "struct expects "@ + decimal(fields@.len()) + " fields, got "@ + decimal(
                        values.len(),
                    ),
                )
            } else {
                encodes_list(decoders, localized, selects, narrowed, fields@, values, out)
            },
            _ => fails_at(out, path, "expected a struct value"@),
        },
        SchemaNodeKind::Array { element, count } => match value {
            SpecOwnedValue::Array(values) => match array_header(count, values.len()) {
                Err(m) => fails_at(out, path, m),
                Ok(header) => exists|r: Result<Seq<u8>, SemanticError>|
                    #[trigger] candidate(r) && encodes_items(decoders, localized, selects, narrowed, *element, values, r)
                        && match r {
                        Ok(b) => out == Ok::<Seq<u8>, SemanticError>(header + b),
                        Err(e) => out == Err::<Seq<u8>, SemanticError>(e),
                    },
            },
            _ => fails_at(out, path, "expected an array value"@),
        },
        SchemaNodeKind::Union { variants, .. } => exists|c: Result<(nat, Seq<u8>), SemanticError>|
            #[trigger] candidate_choice(c) && union_choice(
                decoders,
                localized,
                selects,
                narrowed,
                node,
                variants@,
                0,
                value,
                c,
            ) && match c {
                Ok((_, b)) => out == Ok::<Seq<u8>, SemanticError>(b),
                Err(e) => out == Err::<Seq<u8>, SemanticError>(e),
            },
        SchemaNodeKind::Custom { decoder, .. } => if decoders.contains_key(decoder@) {
            match decoders[decoder@].spec_encode(value) {
                Some(b) => out == Ok::<Seq<u8>, SemanticError>(b),
                None => out is Err,
            }
        } else {
            out matches Err(SemanticError::MissingDecoder(m)) && m@ == decoder@
        },
        SchemaNodeKind::Terminated { terminator, child } => exists|r: Result<Seq<u8>, SemanticError>|
            #[trigger] candidate(r) && encodes(decoders, localized, selects, narrowed, *child, value, r) && match r {
                Ok(b) => out == Ok::<Seq<u8>, SemanticError>(b.push(terminator)),
                Err(e) => out == Err::<Seq<u8>, SemanticError>(e),
            },
        _ => fails_at(out, path, "this schema node requires a specialized encoder"@),
    }
}

/// Whether `out` is a possible result of encoding the values with the nodes, in order,
/// stopping at the first error.
pub open spec fn encodes_list<D: CustomDecoder>(
    decoders: Map<Seq<char>, RegisteredDecoder<D>>,
    localized: bool,
    selects: spec_fn(SchemaNode, usize, Seq<u8>, Result<Option<i64>, SemanticError>) -> bool,
    narrowed: spec_fn(u64, u32) -> bool,
    nodes: Seq<SchemaNode>,
    values: Seq<SpecOwnedValue>,
    out: Result<Seq<u8>, SemanticError>,
) -> bool
    decreases nodes, 0nat,
{
    if nodes.len() == 0 {
        out == Ok::<Seq<u8>, SemanticError>(Seq::empty())
    } else {
        exists|init: Result<Seq<u8>, SemanticError>|
            #[trigger] candidate(init) && encodes_list(
                decoders,
                localized,
                selects,
                narrowed,
                nodes.drop_last(),
                values.take(nodes.len() - 1),
                init,
            ) && match init {
                Err(e) => out == Err::<Seq<u8>, SemanticError>(e),
                Ok(prefix) => exists|last: Result<Seq<u8>, SemanticError>|
                    #[trigger] candidate(last) && encodes(
                        decoders,
                        localized,
                        selects,
                        narrowed,
                        nodes.last(),
                        values[nodes.len() - 1],
                        last,
                    ) && match last {
                        Ok(b) => out == Ok::<Seq<u8>, SemanticError>(prefix + b),
                        Err(e) => out == Err::<Seq<u8>, SemanticError>(e),
                    },
            }
    }
}

/// Whether `out` is a possible result of encoding every value with the same element
/// node, in order, stopping at the first error.
pub open spec fn encodes_items<D: CustomDecoder>(
    decoders: Map<Seq<char>, RegisteredDecoder<D>>,
    localized: bool,
    selects: spec_fn(SchemaNode, usize, Seq<u8>, Result<Option<i64>, SemanticError>) -> bool,
    narrowed: spec_fn(u64, u32) -> bool,
    element: SchemaNode,
    values: Seq<SpecOwnedValue>,
    out: Result<Seq<u8>, SemanticError>,
) -> bool
    decreases element, values.len(),
{
    if values.len() == 0 {
        out == Ok::<Seq<u8>, SemanticError>(Seq::empty())
    } else {
        exists|init: Result<Seq<u8>, SemanticError>|
            #[trigger] candidate(init) && encodes_items(decoders, localized, selects, narrowed, element, values.drop_last(), init)
                && match init {
                Err(e) => out == Err::<Seq<u8>, SemanticError>(e),
                Ok(prefix) => exists|last: Result<Seq<u8>, SemanticError>|
                    #[trigger] candidate(last) && encodes(decoders, localized, selects, narrowed, element, values.last(), last)
                        && match last {
                        Ok(b) => out == Ok::<Seq<u8>, SemanticError>(prefix + b),
                        Err(e) => out == Err::<Seq<u8>, SemanticError>(e),
                    },
            }
    }
}

/// Whether `out` is a possible outcome of choosing a union variant from index `k` on,
/// as the variant's index and the bytes it encodes: a variant that fails to encode the
/// value is skipped, the selector's error ends the search, and the first variant that
/// the selector picks for its own bytes wins.
pub open spec fn union_choice<D: CustomDecoder>(
    decoders: Map<Seq<char>, RegisteredDecoder<D>>,
    localized: bool,
    selects: spec_fn(SchemaNode, usize, Seq<u8>, Result<Option<i64>, SemanticError>) -> bool,
    narrowed: spec_fn(u64, u32) -> bool,
    node: SchemaNode,
    variants: Seq<SchemaNode>,
    k: nat,
    value: SpecOwnedValue,
    out: Result<(nat, Seq<u8>), SemanticError>,
) -> bool
    decreases variants, variants.len() - k,
{
    if k >= variants.len() {
        out matches Err(e) && encode_error_is(
            e,
            node.path@,
            "value does not match the selected union variant"@,
        )
    } else {
        exists|r: Result<Seq<u8>, SemanticError>|
            #[trigger] candidate(r) && encodes(
                decoders,
                localized,
                selects,
                narrowed,
                variants[k as int],
                value,
                r,
            ) && match r {
                Err(_) => union_choice(
                    decoders,
                    localized,
                    selects,
                    narrowed,
                    node,
                    variants,
                    k + 1,
                    value,
                    out,
                ),
                Ok(b) => exists|index: usize, sel: Result<Option<i64>, SemanticError>|
                    index == k && #[trigger] picks(selects, node, index, b, sel) && match sel {
                        Err(e) => out == Err::<(nat, Seq<u8>), SemanticError>(e),
                        Ok(Some(s)) => if s == k {
                            out == Ok::<(nat, Seq<u8>), SemanticError>((k, b))
                        } else {
                            union_choice(
                                decoders,
                                localized,
                                selects,
                                narrowed,
                                node,
                                variants,
                                k + 1,
                                value,
                                out,
                            )
                        },
                        Ok(None) => union_choice(
                            decoders,
                            localized,
                            selects,
                            narrowed,
                            node,
                            variants,
                            k + 1,
                            value,
                            out,
                        ),
                    },
            }
    }
}

pub(crate) proof fn lemma_reserved_at(nodes: Seq<SchemaNode>, i: int)
    requires
        all_prefixes_reserved(nodes),
        0 <= i < nodes.len(),
    ensures
        prefixes_reserved(nodes[i]),
    decreases nodes.len(),
{
    if i < nodes.len() - 1 {
        lemma_reserved_at(nodes.drop_last(), i);
    }
}

proof fn lemma_square_root_unique(r: nat, c: nat)
    requires
        square_of(r) == square_of(c),
    ensures
        r == c,
{
    if r < c {
        assert(r * r < c * c) by (nonlinear_arith)
            requires
                r < c,
        ;
    } else if c < r {
        assert(c * c < r * r) by (nonlinear_arith)
            requires
                c < r,
        ;
    }
}

proof fn lemma_prefix_count(len: nat, c: nat)
    requires
        square_of(c) == len,
    ensures
        prefix_count(len, true) == Some(c),
{
    assert(is_perfect_square(len));
    let r = choose|r: nat| square_of(r) == len;
    lemma_square_root_unique(r, c);
}

/// Whether every choice that `s1` allows, `s2` allows too.
pub open spec fn narrower_selection(s1: spec_fn(SchemaNode, usize, Seq<u8>, Result<Option<i64>, SemanticError>) -> bool, s2: spec_fn(SchemaNode, usize, Seq<u8>, Result<Option<i64>, SemanticError>) -> bool) -> bool {
    forall|n: SchemaNode, i: usize, b: Seq<u8>, sel: Result<Option<i64>, SemanticError>|
        #[trigger] s1(n, i, b, sel) ==> s2(n, i, b, sel)
}

/// An encoding under a selection is one under any selection that allows more choices.
pub proof fn lemma_encodes_wider<D: CustomDecoder>(
    decoders: Map<Seq<char>, RegisteredDecoder<D>>,
    localized: bool,
    s1: spec_fn(SchemaNode, usize, Seq<u8>, Result<Option<i64>, SemanticError>) -> bool,
    s2: spec_fn(SchemaNode, usize, Seq<u8>, Result<Option<i64>, SemanticError>) -> bool,
    narrowed: spec_fn(u64, u32) -> bool,
    node: SchemaNode,
    value: SpecOwnedValue,
    out: Result<Seq<u8>, SemanticError>,
)
    requires
        narrower_selection(s1, s2),
        encodes(decoders, localized, s1, narrowed, node, value, out),
    ensures
        encodes(decoders, localized, s2, narrowed, node, value, out),
    decreases node, 0nat,
{
    match node.kind {
        SchemaNodeKind::Struct { fields } => match value {
            SpecOwnedValue::Struct(values) => if fields@.len() == values.len() {
                lemma_list_wider(decoders, localized, s1, s2, narrowed, fields@, values, out);
            },
            _ => {},
        },
        SchemaNodeKind::Array { element, count } => match value {
            SpecOwnedValue::Array(values) => match array_header(count, values.len()) {
                Err(_) => {},
                Ok(header) => {
                    let r = choose|r: Result<Seq<u8>, SemanticError>|
                        #[trigger] candidate(r) && encodes_items(decoders, localized, s1, narrowed, *element, values, r)
                            && match r {
                            Ok(b) => out == Ok::<Seq<u8>, SemanticError>(header + b),
                            Err(e) => out == Err::<Seq<u8>, SemanticError>(e),
                        };
                    lemma_items_wider(decoders, localized, s1, s2, narrowed, *element, values, r);
                },
            },
            _ => {},
        },
        SchemaNodeKind::Union { variants, .. } => {
            let c = choose|c: Result<(nat, Seq<u8>), SemanticError>|
                #[trigger] candidate_choice(c) && union_choice(decoders, localized, s1, narrowed, node, variants@, 0, value, c)
                    && match c {
                    Ok((_, b)) => out == Ok::<Seq<u8>, SemanticError>(b),
                    Err(e) => out == Err::<Seq<u8>, SemanticError>(e),
                };
            lemma_choice_wider(decoders, localized, s1, s2, narrowed, node, variants@, 0, value, c);
        },
        SchemaNodeKind::Terminated { terminator, child } => {
            let r = choose|r: Result<Seq<u8>, SemanticError>|
                #[trigger] candidate(r) && encodes(decoders, localized, s1, narrowed, *child, value, r) && match r {
                    Ok(b) => out == Ok::<Seq<u8>, SemanticError>(b.push(terminator)),
                    Err(e) => out == Err::<Seq<u8>, SemanticError>(e),
                };
            lemma_encodes_wider(decoders, localized, s1, s2, narrowed, *child, value, r);
        },
        _ => {},
    }
}

proof fn lemma_list_wider<D: CustomDecoder>(
    decoders: Map<Seq<char>, RegisteredDecoder<D>>,
    localized: bool,
    s1: spec_fn(SchemaNode, usize, Seq<u8>, Result<Option<i64>, SemanticError>) -> bool,
    s2: spec_fn(SchemaNode, usize, Seq<u8>, Result<Option<i64>, SemanticError>) -> bool,
    narrowed: spec_fn(u64, u32) -> bool,
    nodes: Seq<SchemaNode>,
    values: Seq<SpecOwnedValue>,
    out: Result<Seq<u8>, SemanticError>,
)
    requires
        narrower_selection(s1, s2),
        encodes_list(decoders, localized, s1, narrowed, nodes, values, out),
    ensures
        encodes_list(decoders, localized, s2, narrowed, nodes, values, out),
    decreases nodes, 0nat,
{
    if nodes.len() > 0 {
        let init = choose|init: Result<Seq<u8>, SemanticError>|
            #[trigger] candidate(init) && encodes_list(
                decoders,
                localized,
                s1,
                narrowed,
                nodes.drop_last(),
                values.take(nodes.len() - 1),
                init,
            ) && match init {
                Err(e) => out == Err::<Seq<u8>, SemanticError>(e),
                Ok(prefix) => exists|last: Result<Seq<u8>, SemanticError>|
                    #[trigger] candidate(last) && encodes(decoders, localized, s1, narrowed, nodes.last(), values[nodes.len() - 1], last)
                        && match last {
                        Ok(b) => out == Ok::<Seq<u8>, SemanticError>(prefix + b),
                        Err(e) => out == Err::<Seq<u8>, SemanticError>(e),
                    },
            };
        lemma_list_wider(decoders, localized, s1, s2, narrowed, nodes.drop_last(), values.take(nodes.len() - 1), init);
        if let Ok(prefix) = init {
            let last = choose|last: Result<Seq<u8>, SemanticError>|
                #[trigger] candidate(last) && encodes(decoders, localized, s1, narrowed, nodes.last(), values[nodes.len() - 1], last)
                    && match last {
                    Ok(b) => out == Ok::<Seq<u8>, SemanticError>(prefix + b),
                    Err(e) => out == Err::<Seq<u8>, SemanticError>(e),
                };
            lemma_encodes_wider(decoders, localized, s1, s2, narrowed, nodes.last(), values[nodes.len() - 1], last);
        }
    }
}

proof fn lemma_items_wider<D: CustomDecoder>(
    decoders: Map<Seq<char>, RegisteredDecoder<D>>,
    localized: bool,
    s1: spec_fn(SchemaNode, usize, Seq<u8>, Result<Option<i64>, SemanticError>) -> bool,
    s2: spec_fn(SchemaNode, usize, Seq<u8>, Result<Option<i64>, SemanticError>) -> bool,
    narrowed: spec_fn(u64, u32) -> bool,
    element: SchemaNode,
    values: Seq<SpecOwnedValue>,
    out: Result<Seq<u8>, SemanticError>,
)
    requires
        narrower_selection(s1, s2),
        encodes_items(decoders, localized, s1, narrowed, element, values, out),
    ensures
        encodes_items(decoders, localized, s2, narrowed, element, values, out),
    decreases element, values.len(),
{
    if values.len() > 0 {
        let init = choose|init: Result<Seq<u8>, SemanticError>|
            #[trigger] candidate(init) && encodes_items(decoders, localized, s1, narrowed, element, values.drop_last(), init)
                && match init {
                Err(e) => out == Err::<Seq<u8>, SemanticError>(e),
                Ok(prefix) => exists|last: Result<Seq<u8>, SemanticError>|
                    #[trigger] candidate(last) && encodes(decoders, localized, s1, narrowed, element, values.last(), last)
                        && match last {
                        Ok(b) => out == Ok::<Seq<u8>, SemanticError>(prefix + b),
                        Err(e) => out == Err::<Seq<u8>, SemanticError>(e),
                    },
            };
        lemma_items_wider(decoders, localized, s1, s2, narrowed, element, values.drop_last(), init);
        if let Ok(prefix) = init {
            let last = choose|last: Result<Seq<u8>, SemanticError>|
                #[trigger] candidate(last) && encodes(decoders, localized, s1, narrowed, element, values.last(), last)
                    && match last {
                    Ok(b) => out == Ok::<Seq<u8>, SemanticError>(prefix + b),
                    Err(e) => out == Err::<Seq<u8>, SemanticError>(e),
                };
            lemma_encodes_wider(decoders, localized, s1, s2, narrowed, element, values.last(), last);
        }
    }
}

proof fn lemma_choice_wider<D: CustomDecoder>(
    decoders: Map<Seq<char>, RegisteredDecoder<D>>,
    localized: bool,
    s1: spec_fn(SchemaNode, usize, Seq<u8>, Result<Option<i64>, SemanticError>) -> bool,
    s2: spec_fn(SchemaNode, usize, Seq<u8>, Result<Option<i64>, SemanticError>) -> bool,
    narrowed: spec_fn(u64, u32) -> bool,
    node: SchemaNode,
    variants: Seq<SchemaNode>,
    k: nat,
    value: SpecOwnedValue,
    out: Result<(nat, Seq<u8>), SemanticError>,
)
    requires
        narrower_selection(s1, s2),
        union_choice(decoders, localized, s1, narrowed, node, variants, k, value, out),
    ensures
        union_choice(decoders, localized, s2, narrowed, node, variants, k, value, out),
    decreases variants, variants.len() - k,
{
    if k < variants.len() {
        let r = choose|r: Result<Seq<u8>, SemanticError>|
            #[trigger] candidate(r) && encodes(decoders, localized, s1, narrowed, variants[k as int], value, r) && match r {
                Err(_) => union_choice(decoders, localized, s1, narrowed, node, variants, k + 1, value, out),
                Ok(b) => exists|index: usize, sel: Result<Option<i64>, SemanticError>|
                    index == k && #[trigger] picks(s1, node, index, b, sel) && match sel {
                        Err(e) => out == Err::<(nat, Seq<u8>), SemanticError>(e),
                        Ok(Some(s)) => if s == k {
                            out == Ok::<(nat, Seq<u8>), SemanticError>((k, b))
                        } else {
                            union_choice(decoders, localized, s1, narrowed, node, variants, k + 1, value, out)
                        },
                        Ok(None) => union_choice(decoders, localized, s1, narrowed, node, variants, k + 1, value, out),
                    },
            };
        lemma_encodes_wider(decoders, localized, s1, s2, narrowed, variants[k as int], value, r);
        match r {
            Err(_) => {
                lemma_choice_wider(decoders, localized, s1, s2, narrowed, node, variants, k + 1, value, out);
            },
            Ok(b) => {
                let (index, sel) = choose|index: usize, sel: Result<Option<i64>, SemanticError>|
                    index == k && #[trigger] picks(s1, node, index, b, sel) && match sel {
                        Err(e) => out == Err::<(nat, Seq<u8>), SemanticError>(e),
                        Ok(Some(s)) => if s == k {
                            out == Ok::<(nat, Seq<u8>), SemanticError>((k, b))
                        } else {
                            union_choice(decoders, localized, s1, narrowed, node, variants, k + 1, value, out)
                        },
                        Ok(None) => union_choice(decoders, localized, s1, narrowed, node, variants, k + 1, value, out),
                    };
                assert(s1(node, index, b, sel));
                assert(picks(s2, node, index, b, sel));
                match sel {
                    Err(_) => {},
                    Ok(Some(s)) => if s != k {
                        lemma_choice_wider(decoders, localized, s1, s2, narrowed, node, variants, k + 1, value, out);
                    },
                    Ok(None) => {
                        lemma_choice_wider(decoders, localized, s1, s2, narrowed, node, variants, k + 1, value, out);
                    },
                }
            },
        }
    }
}

/// One more element encoded after a successful prefix extends the list result.
proof fn lemma_list_step<D: CustomDecoder>(
    decoders: Map<Seq<char>, RegisteredDecoder<D>>,
    localized: bool,
    selects: spec_fn(SchemaNode, usize, Seq<u8>, Result<Option<i64>, SemanticError>) -> bool,
    narrowed: spec_fn(u64, u32) -> bool,
    nodes: Seq<SchemaNode>,
    values: Seq<SpecOwnedValue>,
    i: int,
    prefix: Seq<u8>,
    r: Result<Seq<u8>, SemanticError>,
)
    requires
        0 <= i < nodes.len(),
        i < values.len(),
        encodes_list(decoders, localized, selects, narrowed, nodes.take(i), values.take(i), Ok(prefix)),
        encodes(decoders, localized, selects, narrowed, nodes[i], values[i], r),
    ensures
        encodes_list(
            decoders,
            localized,
            selects,
            narrowed,
            nodes.take(i + 1),
            values.take(i + 1),
            match r {
                Ok(b) => Ok(prefix + b),
                Err(e) => Err(e),
            },
        ),
{
    let n2 = nodes.take(i + 1);
    let v2 = values.take(i + 1);
    assert(n2.drop_last() =~= nodes.take(i));
    assert(v2.take(n2.len() - 1) =~= values.take(i));
    assert(encodes_list(decoders, localized, selects, narrowed, n2.drop_last(), v2.take(n2.len() - 1), Ok(prefix)));
    assert(n2.last() == nodes[i]);
    assert(v2[n2.len() - 1] == values[i]);
    assert(encodes(decoders, localized, selects, narrowed, n2.last(), v2[n2.len() - 1], r));
    assert(candidate(Ok(prefix)) && candidate(r));
}

/// An error in a list stays the result of every longer list.
proof fn lemma_list_error<D: CustomDecoder>(
    decoders: Map<Seq<char>, RegisteredDecoder<D>>,
    localized: bool,
    selects: spec_fn(SchemaNode, usize, Seq<u8>, Result<Option<i64>, SemanticError>) -> bool,
    narrowed: spec_fn(u64, u32) -> bool,
    nodes: Seq<SchemaNode>,
    values: Seq<SpecOwnedValue>,
    i: int,
    e: SemanticError,
)
    requires
        0 <= i <= nodes.len(),
        nodes.len() <= values.len(),
        encodes_list(decoders, localized, selects, narrowed, nodes.take(i), values.take(i), Err(e)),
    ensures
        encodes_list(
            decoders,
            localized,
            selects,
            narrowed,
            nodes.take(nodes.len() as int),
            values.take(nodes.len() as int),
            Err(e),
        ),
    decreases nodes.len() - i,
{
    if i < nodes.len() {
        let next = i + 1;
        let n2 = nodes.take(next);
        let v2 = values.take(next);
        assert(n2.drop_last() =~= nodes.take(i));
        assert(v2.take(n2.len() - 1) =~= values.take(i));
        assert(encodes_list(decoders, localized, selects, narrowed, n2.drop_last(), v2.take(n2.len() - 1), Err(e)));
        assert(candidate(Err(e)));
        assert(encodes_list(
            decoders,
            localized,
            selects,
            narrowed,
            nodes.take(next),
            values.take(next),
            Err(e),
        ));
        lemma_list_error(decoders, localized, selects, narrowed, nodes, values, next, e);
    }
}

/// One more item encoded after a successful prefix extends the items result.
proof fn lemma_items_step<D: CustomDecoder>(
    decoders: Map<Seq<char>, RegisteredDecoder<D>>,
    localized: bool,
    selects: spec_fn(SchemaNode, usize, Seq<u8>, Result<Option<i64>, SemanticError>) -> bool,
    narrowed: spec_fn(u64, u32) -> bool,
    element: SchemaNode,
    values: Seq<SpecOwnedValue>,
    i: int,
    prefix: Seq<u8>,
    r: Result<Seq<u8>, SemanticError>,
)
    requires
        0 <= i < values.len(),
        encodes_items(decoders, localized, selects, narrowed, element, values.take(i), Ok(prefix)),
        encodes(decoders, localized, selects, narrowed, element, values[i], r),
    ensures
        encodes_items(
            decoders,
            localized,
            selects,
            narrowed,
            element,
            values.take(i + 1),
            match r {
                Ok(b) => Ok(prefix + b),
                Err(e) => Err(e),
            },
        ),
{
    let v2 = values.take(i + 1);
    assert(v2.drop_last() =~= values.take(i));
    assert(encodes_items(decoders, localized, selects, narrowed, element, v2.drop_last(), Ok(prefix)));
    assert(v2.last() == values[i]);
    assert(encodes(decoders, localized, selects, narrowed, element, v2.last(), r));
    assert(candidate(Ok(prefix)) && candidate(r));
}

/// An error among the items stays the result of every longer run of items.
proof fn lemma_items_error<D: CustomDecoder>(
    decoders: Map<Seq<char>, RegisteredDecoder<D>>,
    localized: bool,
    selects: spec_fn(SchemaNode, usize, Seq<u8>, Result<Option<i64>, SemanticError>) -> bool,
    narrowed: spec_fn(u64, u32) -> bool,
    element: SchemaNode,
    values: Seq<SpecOwnedValue>,
    i: int,
    e: SemanticError,
)
    requires
        0 <= i <= values.len(),
        encodes_items(decoders, localized, selects, narrowed, element, values.take(i), Err(e)),
    ensures
        encodes_items(decoders, localized, selects, narrowed, element, values, Err(e)),
    decreases values.len() - i,
{
    if i < values.len() {
        let v2 = values.take(i + 1);
        assert(v2.drop_last() =~= values.take(i));
        assert(encodes_items(decoders, localized, selects, narrowed, element, v2.drop_last(), Err(e)));
        assert(candidate(Err(e)));
        assert(encodes_items(
            decoders,
            localized,
            selects,
            narrowed,
            element,
            values.take(i + 1),
            Err(e),
        ));
        lemma_items_error(decoders, localized, selects, narrowed, element, values, i + 1, e);
    } else {
        assert(values.take(i) =~= values);
    }
}

fn push_terminator(out: &mut Vec<u8>, terminator: Option<u8>)
    ensures
        final(out)@ == old(out)@ + opt_byte(terminator),
{
    match terminator {
        Some(t) => {
            out.push(t);
        },
        None => {},
    }
    assert(final(out)@ =~= old(out)@ + opt_byte(terminator));
}

fn array_count_message(expected: u32, actual: usize) -> (res: String)
    ensures
        res@ == "array expects "@ + decimal(expected as nat) + " elements, got "@ + decimal(
            actual as nat,
        ),
{
    let mut message = String::from_str("array expects ");
    push_decimal(&mut message, expected as u64);
    message.append(" elements, got ");
    push_decimal(&mut message, actual as u64);
    message
}

/// Writes the count header of an array of `len` elements.
fn encode_array_header(count: &ArrayCount, len: usize, path: &str) -> (res: Result<Vec<u8>, SemanticError>)
    ensures
        is_encoding(bytes_of(res), array_header(*count, len as nat), path@),
{
    let mut output: Vec<u8> = Vec::new();
    match count {
        ArrayCount::Fixed { count } => {
            if len as u64 != *count as u64 {
                let message = array_count_message(*count, len);
                return Err(encode_error(path, message.as_str()));
            }
        },
        ArrayCount::Prefixed { integer, terminator } => {
            if integer.signed {
                return Err(encode_error(path, "array count prefix must be unsigned"));
            }
            match encode_integer(*integer, len as u64, path) {
                Ok(b) => push_all(&mut output, &b),
                Err(e) => {
                    return Err(e);
                },
            }
            push_terminator(&mut output, *terminator);
        },
        ArrayCount::PackedPrefixed { square, terminator } => {
            let c = match array_prefix_count(len, *square, path) {
                Ok(c) => c,
                Err(e) => {
                    proof {
                        if *square {
                            assert(prefix_count(len as nat, true) is None);
                        }
                    }
                    return Err(e);
                },
            };
            proof {
                if *square {
                    lemma_prefix_count(len as nat, c as nat);
                }
            }
            match encode_packed_unsigned(c, path) {
                Ok(b) => push_all(&mut output, &b),
                Err(e) => {
                    return Err(e);
                },
            }
            push_terminator(&mut output, *terminator);
        },
        ArrayCount::SquaredPrefixed { integer, terminator } => {
            if integer.signed {
                return Err(encode_error(path, "array count prefix must be unsigned"));
            }
            let c = match array_prefix_count(len, true, path) {
                Ok(c) => c,
                Err(e) => {
                    return Err(e);
                },
            };
            proof {
                lemma_prefix_count(len as nat, c as nat);
            }
            match encode_integer(*integer, c, path) {
                Ok(b) => push_all(&mut output, &b),
                Err(e) => {
                    return Err(e);
                },
            }
            push_terminator(&mut output, *terminator);
        },
        _ => {},
    }
    proof {
        assert(output@ =~= array_header(*count, len as nat)->Ok_0);
    }
    Ok(output)
}

/// One candidate variant tried: its outcome and the selector's answer decide the choice.
proof fn lemma_union_step<D: CustomDecoder>(
    decoders: Map<Seq<char>, RegisteredDecoder<D>>,
    localized: bool,
    selects: spec_fn(SchemaNode, usize, Seq<u8>, Result<Option<i64>, SemanticError>) -> bool,
    narrowed: spec_fn(u64, u32) -> bool,
    node: SchemaNode,
    variants: Seq<SchemaNode>,
    k: usize,
    value: SpecOwnedValue,
    r: Result<Seq<u8>, SemanticError>,
    sel: Result<Option<i64>, SemanticError>,
    out: Result<(nat, Seq<u8>), SemanticError>,
)
    requires
        k < variants.len(),
        encodes(decoders, localized, selects, narrowed, variants[k as int], value, r),
        match r {
            Err(_) => union_choice(decoders, localized, selects, narrowed, node, variants, (k + 1) as nat, value, out),
            Ok(b) => picks(selects, node, k, b, sel) && match sel {
                Err(e) => out == Err::<(nat, Seq<u8>), SemanticError>(e),
                Ok(Some(s)) => if s == k {
                    out == Ok::<(nat, Seq<u8>), SemanticError>((k as nat, b))
                } else {
                    union_choice(decoders, localized, selects, narrowed, node, variants, (k + 1) as nat, value, out)
                },
                Ok(None) => union_choice(decoders, localized, selects, narrowed, node, variants, (k + 1) as nat, value, out),
            },
        },
    ensures
        union_choice(decoders, localized, selects, narrowed, node, variants, k as nat, value, out),
{
    assert(candidate(r));
}

/// A chosen union variant is one of the variants from index `k` on.
pub proof fn lemma_choice_in_range<D: CustomDecoder>(
    decoders: Map<Seq<char>, RegisteredDecoder<D>>,
    localized: bool,
    selects: spec_fn(SchemaNode, usize, Seq<u8>, Result<Option<i64>, SemanticError>) -> bool,
    narrowed: spec_fn(u64, u32) -> bool,
    node: SchemaNode,
    variants: Seq<SchemaNode>,
    k: nat,
    value: SpecOwnedValue,
    i: nat,
    b: Seq<u8>,
)
    requires
        union_choice(decoders, localized, selects, narrowed, node, variants, k, value, Ok((i, b))),
    ensures
        k <= i < variants.len(),
    decreases variants.len() - k,
{
    if k < variants.len() {
        let r = choose|r: Result<Seq<u8>, SemanticError>|
            #[trigger] candidate(r) && encodes(
                decoders,
                localized,
                selects,
                narrowed,
                variants[k as int],
                value,
                r,
            ) && match r {
                Err(_) => union_choice(
                    decoders,
                    localized,
                    selects,
                    narrowed,
                    node,
                    variants,
                    k + 1,
                    value,
                    Ok((i, b)),
                ),
                Ok(bytes) => exists|index: usize, sel: Result<Option<i64>, SemanticError>|
                    index == k && #[trigger] picks(selects, node, index, bytes, sel) && match sel {
                        Err(e) => Ok::<(nat, Seq<u8>), SemanticError>((i, b)) == Err::<
                            (nat, Seq<u8>),
                            SemanticError,
                        >(e),
                        Ok(Some(s)) => if s == k {
                            Ok::<(nat, Seq<u8>), SemanticError>((i, b)) == Ok::<
                                (nat, Seq<u8>),
                                SemanticError,
                            >((k, bytes))
                        } else {
                            union_choice(
                                decoders,
                                localized,
                                selects,
                                narrowed,
                                node,
                                variants,
                                k + 1,
                                value,
                                Ok((i, b)),
                            )
                        },
                        Ok(None) => union_choice(
                            decoders,
                            localized,
                            selects,
                            narrowed,
                            node,
                            variants,
                            k + 1,
                            value,
                            Ok((i, b)),
                        ),
                    },
            };
        match r {
            Err(_) => {
                lemma_choice_in_range(decoders, localized, selects, narrowed, node, variants, k + 1, value, i, b);
            },
            Ok(bytes) => {
                let (index, sel) = choose|index: usize, sel: Result<Option<i64>, SemanticError>|
                    index == k && #[trigger] picks(selects, node, index, bytes, sel) && match sel {
                        Err(e) => Ok::<(nat, Seq<u8>), SemanticError>((i, b)) == Err::<
                            (nat, Seq<u8>),
                            SemanticError,
                        >(e),
                        Ok(Some(s)) => if s == k {
                            Ok::<(nat, Seq<u8>), SemanticError>((i, b)) == Ok::<
                                (nat, Seq<u8>),
                                SemanticError,
                            >((k, bytes))
                        } else {
                            union_choice(
                                decoders,
                                localized,
                                selects,
                                narrowed,
                                node,
                                variants,
                                k + 1,
                                value,
                                Ok((i, b)),
                            )
                        },
                        Ok(None) => union_choice(
                            decoders,
                            localized,
                            selects,
                            narrowed,
                            node,
                            variants,
                            k + 1,
                            value,
                            Ok((i, b)),
                        ),
                    };
                match sel {
                    Ok(Some(s)) => {
                        if s != k {
                            lemma_choice_in_range(decoders, localized, selects, narrowed, node, variants, k + 1, value, i, b);
                        }
                    },
                    Ok(None) => {
                        lemma_choice_in_range(decoders, localized, selects, narrowed, node, variants, k + 1, value, i, b);
                    },
                    Err(_) => {},
                }
            },
        }
    }
}

pub(crate) fn struct_count_message(expected: usize, actual: usize) -> (res: String)
    ensures
        res@ == "struct expects "@ + decimal(expected as nat) + " fields, got "@ + decimal(
            actual as nat,
        ),
{
    let mut message = String::from_str("struct expects ");
    push_decimal(&mut message, expected as u64);
    message.append(" fields, got ");
    push_decimal(&mut message, actual as u64);
    message
}

/// Encodes an owned value with a schema node.
///
/// For a union node, `selector` is given the node, a candidate variant's index and the
/// bytes that the variant encodes, and reports the integer that the union's selector
/// yields for them (`None` when it yields none). `narrow` maps binary64 bits to the
/// binary32 bits of a four-byte float.
pub fn encode_node<D, S, N>(
    node: &SchemaNode,
    value: &OwnedFieldValue,
    localized: bool,
    decoders: &DecoderRegistry<D>,
    selector: &S,
    narrow: &N,
) -> (res: Result<Vec<u8>, SemanticError>)
    where
        D: CustomDecoder,
        S: Fn(&SchemaNode, usize, &Vec<u8>) -> Result<Option<i64>, SemanticError>,
        N: Fn(u64) -> u32,
    requires
        decoders.wf(),
        prefixes_reserved(*node),
        forall|bits: u64| narrow.requires((bits,)),
        forall|n: &SchemaNode, i: usize, p: &Vec<u8>| selector.requires((n, i, p)),
    ensures
        encodes(decoders@, localized, selection_of(*selector), narrowing_of(*narrow), *node, value@, bytes_of(res)),
    decreases node, 1nat,
{
    let path = node.path.as_str();
    match &node.kind {
        SchemaNodeKind::Primitive { primitive } => {
            let res = encode_primitive(primitive, value, localized, path, narrow);
            proof {
                reveal(narrowing_of);
                match narrowing_input(*primitive, value@) {
                    Some(bits) => {
                        let r = choose|r: u32|
                            narrow.ensures((bits,), r) && crate::editor::encoded_as(
                                res,
                                primitive_encoding(*primitive, value@, localized, r),
                                path@,
                            );
                        assert(is_encoding(
                            bytes_of(res),
                            primitive_encoding(*primitive, value@, localized, r),
                            path@,
                        ));
                    },
                    None => {},
                }
            }
            res
        },
        SchemaNodeKind::Struct { fields } => match value {
            OwnedFieldValue::Struct(values) => {
                if fields.len() != values.len() {
                    let message = struct_count_message(fields.len(), values.len());
                    return Err(encode_error(path, message.as_str()));
                }
                let ghost vs = value@->Struct_0;
                let mut output: Vec<u8> = Vec::new();
                let mut i: usize = 0;
                proof {
                    assert(fields@.take(0) =~= Seq::<SchemaNode>::empty());
                    assert(vs.take(0) =~= Seq::<SpecOwnedValue>::empty());
                    assert(output@ =~= Seq::<u8>::empty());
                }
                while i < fields.len()
                    invariant
                        node.kind matches SchemaNodeKind::Struct { fields: f } && f == *fields,
                        value@ == SpecOwnedValue::Struct(vs),
                        vs.len() == values@.len() == fields@.len(),
                        forall|j: int| 0 <= j < vs.len() ==> vs[j] == (#[trigger] values@[j])@,
                        prefixes_reserved(*node),
                        decoders.wf(),
                        forall|bits: u64| narrow.requires((bits,)),
                        forall|n: &SchemaNode, k: usize, p: &Vec<u8>| selector.requires((n, k, p)),
                        i <= fields@.len(),
                        encodes_list(
                            decoders@,
                            localized,
                            selection_of(*selector),
                            narrowing_of(*narrow),
                            fields@.take(i as int),
                            vs.take(i as int),
                            Ok(output@),
                        ),
                    decreases fields.len() - i,
                {
                    assert(decreases_to!(*node => fields@[i as int]));
                    proof {
                        lemma_reserved_at(fields@, i as int);
                    }
                    let r = encode_node(&fields[i], &values[i], localized, decoders, selector, narrow);
                    proof {
                        lemma_list_step(
                            decoders@,
                            localized,
                            selection_of(*selector),
                            narrowing_of(*narrow),
                            fields@,
                            vs,
                            i as int,
                            output@,
                            bytes_of(r),
                        );
                    }
                    match r {
                        Ok(b) => {
                            push_all(&mut output, &b);
                        },
                        Err(e) => {
                            proof {
                                lemma_list_error(
                                    decoders@,
                                    localized,
                                    selection_of(*selector),
                                    narrowing_of(*narrow),
                                    fields@,
                                    vs,
                                    i + 1,
                                    e,
                                );
                                assert(fields@.take(fields@.len() as int) =~= fields@);
                                assert(vs.take(fields@.len() as int) =~= vs);
                            }
                            return Err(e);
                        },
                    }
                    i += 1;
                }
                proof {
                    assert(fields@.take(i as int) =~= fields@);
                    assert(vs.take(i as int) =~= vs);
                }
                Ok(output)
            },
            _ => Err(encode_error(path, "expected a struct value")),
        },
        SchemaNodeKind::Array { element, count } => match value {
            OwnedFieldValue::Array(values) => {
                let ghost vs = value@->Array_0;
                let mut output = match encode_array_header(count, values.len(), path) {
                    Ok(h) => h,
                    Err(e) => {
                        return Err(e);
                    },
                };
                let ghost header = output@;
                let mut i: usize = 0;
                proof {
                    assert(vs.take(0) =~= Seq::<SpecOwnedValue>::empty());
                    assert(output@.skip(header.len() as int) =~= Seq::<u8>::empty());
                    assert(output@.take(header.len() as int) =~= header);
                }
                while i < values.len()
                    invariant
                        node.kind matches SchemaNodeKind::Array { element: el, count: c } && el == *element
                            && c == *count,
                        array_header(*count, vs.len()) == Ok::<Seq<u8>, Seq<char>>(header),
                        value@ == SpecOwnedValue::Array(vs),
                        vs.len() == values@.len(),
                        forall|j: int| 0 <= j < vs.len() ==> vs[j] == (#[trigger] values@[j])@,
                        prefixes_reserved(*node),
                        decoders.wf(),
                        forall|bits: u64| narrow.requires((bits,)),
                        forall|n: &SchemaNode, k: usize, p: &Vec<u8>| selector.requires((n, k, p)),
                        i <= values@.len(),
                        output@.len() >= header.len(),
                        output@.take(header.len() as int) == header,
                        encodes_items(
                            decoders@,
                            localized,
                            selection_of(*selector),
                            narrowing_of(*narrow),
                            **element,
                            vs.take(i as int),
                            Ok(output@.skip(header.len() as int)),
                        ),
                    decreases values.len() - i,
                {
                    assert(decreases_to!(*node => **element));
                    let r = encode_node(element, &values[i], localized, decoders, selector, narrow);
                    let ghost before = output@;
                    proof {
                        lemma_items_step(
                            decoders@,
                            localized,
                            selection_of(*selector),
                            narrowing_of(*narrow),
                            **element,
                            vs,
                            i as int,
                            before.skip(header.len() as int),
                            bytes_of(r),
                        );
                    }
                    match r {
                        Ok(b) => {
                            push_all(&mut output, &b);
                            proof {
                                assert(output@.take(header.len() as int) =~= header);
                                assert(output@.skip(header.len() as int) =~= before.skip(
                                    header.len() as int,
                                ) + b@);
                            }
                        },
                        Err(e) => {
                            proof {
                                lemma_items_error(
                                    decoders@,
                                    localized,
                                    selection_of(*selector),
                                    narrowing_of(*narrow),
                                    **element,
                                    vs,
                                    i + 1,
                                    e,
                                );
                                assert(candidate(Err(e)));
                            }
                            return Err(e);
                        },
                    }
                    i += 1;
                }
                proof {
                    assert(vs.take(i as int) =~= vs);
                    assert(output@ =~= header + output@.skip(header.len() as int));
                    assert(candidate(Ok(output@.skip(header.len() as int))));
                }
                Ok(output)
            },
            _ => Err(encode_error(path, "expected an array value")),
        },
        SchemaNodeKind::Union { .. } => {
            let chosen = select_union_variant(node, value, localized, decoders, selector, narrow);
            proof {
                assert(candidate_choice(choice_of(chosen)));
            }
            match chosen {
                Ok((_, bytes)) => Ok(bytes),
                Err(e) => Err(e),
            }
        },
        SchemaNodeKind::Custom { decoder, .. } => match decoders.get(decoder.as_str()) {
            None => Err(SemanticError::MissingDecoder(decoder.clone())),
            Some(d) => d.encode(value),
        },
        SchemaNodeKind::Terminated { terminator, child } => {
            assert(decreases_to!(*node => **child));
            let r = encode_node(child, value, localized, decoders, selector, narrow);
            proof {
                assert(candidate(bytes_of(r)));
            }
            match r {
                Ok(mut out) => {
                    out.push(*terminator);
                    Ok(out)
                },
                Err(e) => Err(e),
            }
        },
        _ => Err(encode_error(path, "this schema node requires a specialized encoder")),
    }
}

/// A union variant as its index and its bytes, or the result of choosing one.
pub open spec fn choice_of(res: Result<(usize, Vec<u8>), SemanticError>) -> Result<(nat, Seq<u8>), SemanticError> {
    match res {
        Ok((i, v)) => Ok((i as nat, v@)),
        Err(e) => Err(e),
    }
}

/// Chooses the variant of a union node that encodes `value`: the first variant, in order,
/// that encodes it and that `selector` picks for the bytes it encodes. Returns the
/// variant's index and those bytes.
pub fn select_union_variant<D, S, N>(
    node: &SchemaNode,
    value: &OwnedFieldValue,
    localized: bool,
    decoders: &DecoderRegistry<D>,
    selector: &S,
    narrow: &N,
) -> (res: Result<(usize, Vec<u8>), SemanticError>)
    where
        D: CustomDecoder,
        S: Fn(&SchemaNode, usize, &Vec<u8>) -> Result<Option<i64>, SemanticError>,
        N: Fn(u64) -> u32,
    requires
        node.kind is Union,
        decoders.wf(),
        prefixes_reserved(*node),
        forall|bits: u64| narrow.requires((bits,)),
        forall|n: &SchemaNode, i: usize, p: &Vec<u8>| selector.requires((n, i, p)),
    ensures
        union_choice(
            decoders@,
            localized,
            selection_of(*selector),
            narrowing_of(*narrow),
            *node,
            node.kind->Union_variants@,
            0,
            value@,
            choice_of(res),
        ),
    decreases node, 0nat,
{
    let variants = match &node.kind {
        SchemaNodeKind::Union { variants, .. } => variants,
        _ => {
            return Err(encode_error(node.path.as_str(), "value does not match the selected union variant"));
        },
    };
    let ghost sels = selection_of(*selector);
    let ghost nars = narrowing_of(*narrow);
    let mut i: usize = 0;
    while i < variants.len()
        invariant
            node.kind matches SchemaNodeKind::Union { variants: vs, .. } && vs == *variants,
            prefixes_reserved(*node),
            decoders.wf(),
            sels == selection_of(*selector),
            nars == narrowing_of(*narrow),
            forall|bits: u64| narrow.requires((bits,)),
            forall|n: &SchemaNode, k: usize, p: &Vec<u8>| selector.requires((n, k, p)),
            i <= variants@.len(),
            forall|out: Result<(nat, Seq<u8>), SemanticError>|
                union_choice(decoders@, localized, sels, nars, *node, variants@, i as nat, value@, out)
                    ==> #[trigger] union_choice(
                    decoders@,
                    localized,
                    sels,
                    nars,
                    *node,
                    variants@,
                    0,
                    value@,
                    out,
                ),
        decreases variants.len() - i,
    {
        assert(decreases_to!(*node => variants@[i as int]));
        proof {
            lemma_reserved_at(variants@, i as int);
        }
        let r = encode_node(&variants[i], value, localized, decoders, selector, narrow);
        let ghost rr = bytes_of(r);
        let ghost mut sel_g: Result<Option<i64>, SemanticError> = Ok(None);
        match r {
            Err(_) => {},
            Ok(encoded) => {
                let selected = selector(node, i, &encoded);
                proof {
                    assert(picks(sels, *node, i, encoded@, selected)) by {
                        reveal(selection_of);
                    }
                    sel_g = selected;
                }
                match selected {
                    Err(e) => {
                        proof {
                            lemma_union_step(
                                decoders@,
                                localized,
                                sels,
                                nars,
                                *node,
                                variants@,
                                i,
                                value@,
                                rr,
                                selected,
                                Err(e),
                            );
                            assert(union_choice(
                                decoders@,
                                localized,
                                sels,
                                nars,
                                *node,
                                variants@,
                                0,
                                value@,
                                Err(e),
                            ));
                        }
                        return Err(e);
                    },
                    Ok(Some(s)) => {
                        if s >= 0 && s as u64 == i as u64 {
                            proof {
                                lemma_union_step(
                                    decoders@,
                                    localized,
                                    sels,
                                    nars,
                                    *node,
                                    variants@,
                                    i,
                                    value@,
                                    rr,
                                    selected,
                                    Ok((i as nat, encoded@)),
                                );
                                assert(union_choice(
                                    decoders@,
                                    localized,
                                    sels,
                                    nars,
                                    *node,
                                    variants@,
                                    0,
                                    value@,
                                    Ok((i as nat, encoded@)),
                                ));
                            }
                            return Ok((i, encoded));
                        }
                    },
                    Ok(None) => {},
                }
            },
        }
        proof {
            assert forall|out: Result<(nat, Seq<u8>), SemanticError>|
                union_choice(decoders@, localized, sels, nars, *node, variants@, (i + 1) as nat, value@, out)
                    implies union_choice(decoders@, localized, sels, nars, *node, variants@, i as nat, value@, out) by {
                lemma_union_step(
                    decoders@,
                    localized,
                    sels,
                    nars,
                    *node,
                    variants@,
                    i,
                    value@,
                    rr,
                    sel_g,
                    out,
                );
            }
        }
        i += 1;
    }
    let res = Err(encode_error(node.path.as_str(), "value does not match the selected union variant"));
    proof {
        assert(union_choice(decoders@, localized, sels, nars, *node, variants@, i as nat, value@, choice_of(res)));
        assert(union_choice(decoders@, localized, sels, nars, *node, variants@, 0, value@, choice_of(res)));
    }
    res
}

} // verus!
