//! Fresh values built from a schema node, for fields that an edit creates.
use vstd::prelude::*;
use vstd::string::*;

use crate::assignment::{default_primitive, default_primitive_value};
use crate::editor::{encode_error, encode_error_is};
use crate::schema::{ArrayCount, SchemaNode, SchemaNodeKind};
use crate::value::{OwnedFieldValue, SemanticError, SpecOwnedValue};

verus! {

/// How deep a default value may nest before the schema is taken to be cyclic.
pub const DEFAULT_DEPTH_LIMIT: usize = 128;

/// An owned result taken by view.
pub open spec fn owned_result(res: Result<OwnedFieldValue, SemanticError>) -> Result<SpecOwnedValue, SemanticError> {
    match res {
        Ok(v) => Ok(v@),
        Err(e) => Err(e),
    }
}

/// The views of a list of owned values.
pub open spec fn owned_views(values: Seq<OwnedFieldValue>) -> Seq<SpecOwnedValue> {
    values.map_values(|v: OwnedFieldValue| v@)
}

/// The integers that a default union selector may report for a union node.
#[verifier::opaque]
pub open spec fn picking_of<C: Fn(&SchemaNode) -> Result<i64, SemanticError>>(
    pick: C,
) -> spec_fn(SchemaNode, Result<i64, SemanticError>) -> bool {
    |node: SchemaNode, r: Result<i64, SemanticError>| pick.ensures((&node,), r)
}

/// The outcomes that the default-value callbacks of a node may give for a fresh value
/// built at the given array indices.
#[verifier::opaque]
pub open spec fn finishing_of<F: Fn(&SchemaNode, OwnedFieldValue, &Vec<usize>) -> Result<OwnedFieldValue, SemanticError>>(
    finish: F,
) -> spec_fn(SchemaNode, SpecOwnedValue, Seq<usize>, Result<SpecOwnedValue, SemanticError>) -> bool {
    |node: SchemaNode, value: SpecOwnedValue, indices: Seq<usize>, r: Result<SpecOwnedValue, SemanticError>|
        exists|v: OwnedFieldValue, ix: Vec<usize>, res: Result<OwnedFieldValue, SemanticError>|
            v@ == value && ix@ == indices && owned_result(res) == r && #[trigger] finish.ensures(
                (&node, v, &ix),
                res,
            )
}

/// Marks a candidate fresh value; every one is.
pub open spec fn candidate_default(r: Result<SpecOwnedValue, SemanticError>) -> bool {
    true
}

/// Marks a candidate selector answer; every one is.
pub open spec fn candidate_pick(r: Result<i64, SemanticError>) -> bool {
    true
}

/// The variant that a default union selector's integer names among `count` variants, or
/// the message of the error it gives.
pub open spec fn default_variant(selected: i64, count: nat) -> Result<nat, Seq<char>> {
    if selected < 0 {
        Err("default union selector returned a negative"@)
    } else if selected >= count {
        Err("default union selector is out of range"@)
    } else {
        Ok(selected as nat)
    }
}

/// Whether `out` is a possible fresh value for `node` at nesting depth `depth` and array
/// indices `indices`.
///
/// A primitive starts at its zero value, a struct with fresh members, an array with the
/// fixed number of fresh items (none for other counts), a union with the variant that
/// `picks` names, and wrapping nodes with their child; the first error ends the build.
/// Custom and grammar nodes have no default. The value built is then handed to the
/// node's default-value callbacks, which `finishes` relates to their outcome.
pub open spec fn defaults(
    localized: bool,
    picks: spec_fn(SchemaNode, Result<i64, SemanticError>) -> bool,
    finishes: spec_fn(SchemaNode, SpecOwnedValue, Seq<usize>, Result<SpecOwnedValue, SemanticError>) -> bool,
    node: SchemaNode,
    depth: nat,
    indices: Seq<usize>,
    out: Result<SpecOwnedValue, SemanticError>,
) -> bool
    decreases node, 0nat,
{
    let path = node.path@;
    if depth >= DEFAULT_DEPTH_LIMIT {
        out matches Err(e) && encode_error_is(e, path, "schema default recursion exceeds 128 nodes"@)
    } else {
        exists|v: Result<SpecOwnedValue, SemanticError>|
            #[trigger] candidate_default(v) && match node.kind {
                SchemaNodeKind::Primitive { primitive } => v == Ok::<SpecOwnedValue, SemanticError>(
                    default_primitive(primitive, localized),
                ),
                SchemaNodeKind::Struct { fields } => defaults_fields(
                    localized,
                    picks,
                    finishes,
                    fields@,
                    depth + 1,
                    indices,
                    0,
                    Seq::empty(),
                    v,
                ),
                SchemaNodeKind::Array { element, count } => defaults_items(
                    localized,
                    picks,
                    finishes,
                    *element,
                    depth + 1,
                    indices,
                    0,
                    match count {
                        ArrayCount::Fixed { count } => count as nat,
                        _ => 0,
                    },
                    Seq::empty(),
                    v,
                ),
                SchemaNodeKind::Union { variants, .. } => exists|s: Result<i64, SemanticError>|
                    #[trigger] candidate_pick(s) && picks(node, s) && match s {
                        Err(e) => v == Err::<SpecOwnedValue, SemanticError>(e),
                        Ok(selected) => match default_variant(selected, variants@.len()) {
                            Err(m) => v matches Err(e) && encode_error_is(e, path, m),
                            Ok(i) => defaults(
                                localized,
                                picks,
                                finishes,
                                variants@[i as int],
                                depth + 1,
                                indices,
                                v,
                            ),
                        },
                    },
                SchemaNodeKind::Subrecord { payload, .. } => defaults(
                    localized,
                    picks,
                    finishes,
                    *payload,
                    depth + 1,
                    indices,
                    v,
                ),
                SchemaNodeKind::Compressed { child } => defaults(
                    localized,
                    picks,
                    finishes,
                    *child,
                    depth + 1,
                    indices,
                    v,
                ),
                SchemaNodeKind::Terminated { child, .. } => defaults(
                    localized,
                    picks,
                    finishes,
                    *child,
                    depth + 1,
                    indices,
                    v,
                ),
                SchemaNodeKind::Custom { decoder, .. } => v matches Err(e) && encode_error_is(
                    e,
                    path,
                    "custom decoder "@ + decoder@ + " has no schema-native default"@,
                ),
                _ => v matches Err(e) && encode_error_is(
                    e,
                    path,
                    "this schema node has no editable default value"@,
                ),
            } && match v {
                Ok(x) => finishes(node, x, indices, out),
                Err(e) => out == Err::<SpecOwnedValue, SemanticError>(e),
            }
    }
}

/// The build of struct members from member `k` on, after the fresh members `built`;
/// it gives the struct of all of them.
pub open spec fn defaults_fields(
    localized: bool,
    picks: spec_fn(SchemaNode, Result<i64, SemanticError>) -> bool,
    finishes: spec_fn(SchemaNode, SpecOwnedValue, Seq<usize>, Result<SpecOwnedValue, SemanticError>) -> bool,
    fields: Seq<SchemaNode>,
    depth: nat,
    indices: Seq<usize>,
    k: nat,
    built: Seq<SpecOwnedValue>,
    out: Result<SpecOwnedValue, SemanticError>,
) -> bool
    decreases fields, fields.len() - k,
{
    if k >= fields.len() {
        out == Ok::<SpecOwnedValue, SemanticError>(SpecOwnedValue::Struct(built))
    } else {
        exists|r: Result<SpecOwnedValue, SemanticError>|
            #[trigger] candidate_default(r) && defaults(
                localized,
                picks,
                finishes,
                fields[k as int],
                depth,
                indices,
                r,
            ) && match r {
                Ok(x) => defaults_fields(
                    localized,
                    picks,
                    finishes,
                    fields,
                    depth,
                    indices,
                    k + 1,
                    built.push(x),
                    out,
                ),
                Err(e) => out == Err::<SpecOwnedValue, SemanticError>(e),
            }
    }
}

/// The build of array items from item `k` up to `count`, each at its own index appended
/// to `indices`, after the fresh items `built`; it gives the array of all of them.
pub open spec fn defaults_items(
    localized: bool,
    picks: spec_fn(SchemaNode, Result<i64, SemanticError>) -> bool,
    finishes: spec_fn(SchemaNode, SpecOwnedValue, Seq<usize>, Result<SpecOwnedValue, SemanticError>) -> bool,
    element: SchemaNode,
    depth: nat,
    indices: Seq<usize>,
    k: nat,
    count: nat,
    built: Seq<SpecOwnedValue>,
    out: Result<SpecOwnedValue, SemanticError>,
) -> bool
    decreases element, count - k,
{
    if k >= count {
        out == Ok::<SpecOwnedValue, SemanticError>(SpecOwnedValue::Array(built))
    } else {
        exists|r: Result<SpecOwnedValue, SemanticError>|
            #[trigger] candidate_default(r) && defaults(
                localized,
                picks,
                finishes,
                element,
                depth,
                indices.push(k as usize),
                r,
            ) && match r {
                Ok(x) => defaults_items(
                    localized,
                    picks,
                    finishes,
                    element,
                    depth,
                    indices,
                    k + 1,
                    count,
                    built.push(x),
                    out,
                ),
                Err(e) => out == Err::<SpecOwnedValue, SemanticError>(e),
            }
    }
}

/// One member built: its outcome decides how the struct's build goes on.
proof fn lemma_fields_step(
    localized: bool,
    picks: spec_fn(SchemaNode, Result<i64, SemanticError>) -> bool,
    finishes: spec_fn(SchemaNode, SpecOwnedValue, Seq<usize>, Result<SpecOwnedValue, SemanticError>) -> bool,
    fields: Seq<SchemaNode>,
    depth: nat,
    indices: Seq<usize>,
    k: nat,
    built: Seq<SpecOwnedValue>,
    r: Result<SpecOwnedValue, SemanticError>,
    out: Result<SpecOwnedValue, SemanticError>,
)
    requires
        k < fields.len(),
        defaults(localized, picks, finishes, fields[k as int], depth, indices, r),
        match r {
            Ok(x) => defaults_fields(localized, picks, finishes, fields, depth, indices, k + 1, built.push(x), out),
            Err(e) => out == Err::<SpecOwnedValue, SemanticError>(e),
        },
    ensures
        defaults_fields(localized, picks, finishes, fields, depth, indices, k, built, out),
{
    assert(candidate_default(r));
}

/// One item built: its outcome decides how the array's build goes on.
proof fn lemma_items_step(
    localized: bool,
    picks: spec_fn(SchemaNode, Result<i64, SemanticError>) -> bool,
    finishes: spec_fn(SchemaNode, SpecOwnedValue, Seq<usize>, Result<SpecOwnedValue, SemanticError>) -> bool,
    element: SchemaNode,
    depth: nat,
    indices: Seq<usize>,
    k: nat,
    count: nat,
    built: Seq<SpecOwnedValue>,
    r: Result<SpecOwnedValue, SemanticError>,
    out: Result<SpecOwnedValue, SemanticError>,
)
    requires
        k < count,
        defaults(localized, picks, finishes, element, depth, indices.push(k as usize), r),
        match r {
            Ok(x) => defaults_items(localized, picks, finishes, element, depth, indices, k + 1, count, built.push(x), out),
            Err(e) => out == Err::<SpecOwnedValue, SemanticError>(e),
        },
    ensures
        defaults_items(localized, picks, finishes, element, depth, indices, k, count, built, out),
{
    assert(candidate_default(r));
}

/// The array indices of an item: the enclosing indices with the item's own appended.
pub(crate) fn item_indices(indices: &Vec<usize>, index: usize) -> (res: Vec<usize>)
    ensures
        res@ == indices@.push(index),
{
    let mut res: Vec<usize> = Vec::new();
    let mut i: usize = 0;
    while i < indices.len()
        invariant
            i <= indices@.len(),
            res@ == indices@.take(i as int),
        decreases indices.len() - i,
    {
        res.push(indices[i]);
        i += 1;
        assert(res@ =~= indices@.take(i as int));
    }
    assert(indices@.take(i as int) =~= indices@);
    res.push(index);
    res
}

/// Builds a fresh value for `node` at nesting depth `depth`, for an item at the array
/// indices `array_indices`.
///
/// `pick` reports the integer that a union node's selector yields for a fresh value,
/// and `finish` runs the node's default-value callbacks on the value built, at the
/// given array indices.
pub fn default_value_for_node<C, F>(
    node: &SchemaNode,
    localized: bool,
    depth: usize,
    array_indices: &Vec<usize>,
    pick: &C,
    finish: &F,
) -> (res: Result<OwnedFieldValue, SemanticError>)
    where
        C: Fn(&SchemaNode) -> Result<i64, SemanticError>,
        F: Fn(&SchemaNode, OwnedFieldValue, &Vec<usize>) -> Result<OwnedFieldValue, SemanticError>,
    requires
        forall|n: &SchemaNode| pick.requires((n,)),
        forall|n: &SchemaNode, v: OwnedFieldValue, ix: &Vec<usize>| finish.requires((n, v, ix)),
    ensures
        defaults(
            localized,
            picking_of(*pick),
            finishing_of(*finish),
            *node,
            depth as nat,
            array_indices@,
            owned_result(res),
        ),
    decreases node,
{
    let ghost picks = picking_of(*pick);
    let ghost finishes = finishing_of(*finish);
    let path = node.path.as_str();
    if depth >= DEFAULT_DEPTH_LIMIT {
        return Err(encode_error(path, "schema default recursion exceeds 128 nodes"));
    }
    let next_depth = depth + 1;
    let value = match &node.kind {
        SchemaNodeKind::Primitive { primitive } => default_primitive_value(primitive, localized),
        SchemaNodeKind::Struct { fields } => {
            let mut values: Vec<OwnedFieldValue> = Vec::new();
            let mut i: usize = 0;
            assert(owned_views(values@) =~= Seq::<SpecOwnedValue>::empty());
            while i < fields.len()
                invariant
                    node.kind matches SchemaNodeKind::Struct { fields: f } && f == *fields,
                    next_depth == depth + 1,
                    depth < DEFAULT_DEPTH_LIMIT,
                    forall|n: &SchemaNode| pick.requires((n,)),
                    forall|n: &SchemaNode, v: OwnedFieldValue, ix: &Vec<usize>| finish.requires((n, v, ix)),
                    picks == picking_of(*pick),
                    finishes == finishing_of(*finish),
                    i <= fields@.len(),
                    forall|out: Result<SpecOwnedValue, SemanticError>|
                        defaults_fields(
                            localized,
                            picks,
                            finishes,
                            fields@,
                            next_depth as nat,
                            array_indices@,
                            i as nat,
                            owned_views(values@),
                            out,
                        ) ==> #[trigger] defaults_fields(
                            localized,
                            picks,
                            finishes,
                            fields@,
                            next_depth as nat,
                            array_indices@,
                            0,
                            Seq::empty(),
                            out,
                        ),
                decreases fields.len() - i,
            {
                assert(decreases_to!(*node => fields@[i as int]));
                let r = default_value_for_node(&fields[i], localized, next_depth, array_indices, pick, finish);
                let ghost before = owned_views(values@);
                match r {
                    Ok(v) => {
                        values.push(v);
                        proof {
                            assert(owned_views(values@) =~= before.push(v@));
                            assert forall|out: Result<SpecOwnedValue, SemanticError>|
                                defaults_fields(
                                    localized,
                                    picks,
                                    finishes,
                                    fields@,
                                    next_depth as nat,
                                    array_indices@,
                                    (i + 1) as nat,
                                    owned_views(values@),
                                    out,
                                ) implies #[trigger] defaults_fields(
                                localized,
                                picks,
                                finishes,
                                fields@,
                                next_depth as nat,
                                array_indices@,
                                0,
                                Seq::empty(),
                                out,
                            ) by {
                                lemma_fields_step(
                                    localized,
                                    picks,
                                    finishes,
                                    fields@,
                                    next_depth as nat,
                                    array_indices@,
                                    i as nat,
                                    before,
                                    Ok(v@),
                                    out,
                                );
                            }
                        }
                    },
                    Err(e) => {
                        proof {
                            lemma_fields_step(
                                localized,
                                picks,
                                finishes,
                                fields@,
                                next_depth as nat,
                                array_indices@,
                                i as nat,
                                before,
                                Err(e),
                                Err(e),
                            );
                            assert(defaults_fields(
                                localized,
                                picks,
                                finishes,
                                fields@,
                                next_depth as nat,
                                array_indices@,
                                0,
                                Seq::empty(),
                                Err(e),
                            ));
                            assert(candidate_default(Err(e)));
                        }
                        return Err(e);
                    },
                }
                i += 1;
            }
            let ghost built = owned_views(values@);
            let value = OwnedFieldValue::Struct(values);
            proof {
                assert(value@->Struct_0 =~= built);
                assert(defaults_fields(
                    localized,
                    picks,
                    finishes,
                    fields@,
                    next_depth as nat,
                    array_indices@,
                    0,
                    Seq::empty(),
                    Ok(value@),
                ));
            }
            value
        },
        SchemaNodeKind::Array { element, count } => {
            let total: usize = match count {
                ArrayCount::Fixed { count } => *count as usize,
                _ => 0,
            };
            let mut values: Vec<OwnedFieldValue> = Vec::new();
            let mut i: usize = 0;
            assert(owned_views(values@) =~= Seq::<SpecOwnedValue>::empty());
            while i < total
                invariant
                    node.kind matches SchemaNodeKind::Array { element: el, count: c } && el == *element
                        && c == *count,
                    total as nat == match *count {
                        ArrayCount::Fixed { count } => count as nat,
                        _ => 0,
                    },
                    next_depth == depth + 1,
                    depth < DEFAULT_DEPTH_LIMIT,
                    forall|n: &SchemaNode| pick.requires((n,)),
                    forall|n: &SchemaNode, v: OwnedFieldValue, ix: &Vec<usize>| finish.requires((n, v, ix)),
                    picks == picking_of(*pick),
                    finishes == finishing_of(*finish),
                    i <= total,
                    forall|out: Result<SpecOwnedValue, SemanticError>|
                        defaults_items(
                            localized,
                            picks,
                            finishes,
                            **element,
                            next_depth as nat,
                            array_indices@,
                            i as nat,
                            total as nat,
                            owned_views(values@),
                            out,
                        ) ==> #[trigger] defaults_items(
                            localized,
                            picks,
                            finishes,
                            **element,
                            next_depth as nat,
                            array_indices@,
                            0,
                            total as nat,
                            Seq::empty(),
                            out,
                        ),
                decreases total - i,
            {
                assert(decreases_to!(*node => **element));
                let child_indices = item_indices(array_indices, i);
                let r = default_value_for_node(element, localized, next_depth, &child_indices, pick, finish);
                let ghost before = owned_views(values@);
                match r {
                    Ok(v) => {
                        values.push(v);
                        proof {
                            assert(owned_views(values@) =~= before.push(v@));
                            assert forall|out: Result<SpecOwnedValue, SemanticError>|
                                defaults_items(
                                    localized,
                                    picks,
                                    finishes,
                                    **element,
                                    next_depth as nat,
                                    array_indices@,
                                    (i + 1) as nat,
                                    total as nat,
                                    owned_views(values@),
                                    out,
                                ) implies #[trigger] defaults_items(
                                localized,
                                picks,
                                finishes,
                                **element,
                                next_depth as nat,
                                array_indices@,
                                0,
                                total as nat,
                                Seq::empty(),
                                out,
                            ) by {
                                lemma_items_step(
                                    localized,
                                    picks,
                                    finishes,
                                    **element,
                                    next_depth as nat,
                                    array_indices@,
                                    i as nat,
                                    total as nat,
                                    before,
                                    Ok(v@),
                                    out,
                                );
                            }
                        }
                    },
                    Err(e) => {
                        proof {
                            lemma_items_step(
                                localized,
                                picks,
                                finishes,
                                **element,
                                next_depth as nat,
                                array_indices@,
                                i as nat,
                                total as nat,
                                before,
                                Err(e),
                                Err(e),
                            );
                            assert(defaults_items(
                                localized,
                                picks,
                                finishes,
                                **element,
                                next_depth as nat,
                                array_indices@,
                                0,
                                total as nat,
                                Seq::empty(),
                                Err(e),
                            ));
                            assert(candidate_default(Err(e)));
                        }
                        return Err(e);
                    },
                }
                i += 1;
            }
            let ghost built = owned_views(values@);
            let value = OwnedFieldValue::Array(values);
            proof {
                assert(value@->Array_0 =~= built);
                assert(defaults_items(
                    localized,
                    picks,
                    finishes,
                    **element,
                    next_depth as nat,
                    array_indices@,
                    0,
                    total as nat,
                    Seq::empty(),
                    Ok(value@),
                ));
            }
            value
        },
        SchemaNodeKind::Union { variants, .. } => {
            let picked = pick(node);
            proof {
                reveal(picking_of);
                assert(candidate_pick(picked));
            }
            let selected = match picked {
                Ok(s) => s,
                Err(e) => {
                    assert(candidate_default(Err(e)));
                    return Err(e);
                },
            };
            if selected < 0 {
                let e = encode_error(path, "default union selector returned a negative");
                assert(candidate_default(Err(e)));
                return Err(e);
            }
            if selected as u64 >= variants.len() as u64 {
                let e = encode_error(path, "default union selector is out of range");
                assert(candidate_default(Err(e)));
                return Err(e);
            }
            let index = selected as usize;
            assert(decreases_to!(*node => variants@[index as int]));
            match default_value_for_node(&variants[index], localized, next_depth, array_indices, pick, finish) {
                Ok(v) => v,
                Err(e) => {
                    assert(candidate_default(Err(e)));
                    return Err(e);
                },
            }
        },
        SchemaNodeKind::Subrecord { payload, .. } => {
            assert(decreases_to!(*node => **payload));
            match default_value_for_node(payload, localized, next_depth, array_indices, pick, finish) {
                Ok(v) => v,
                Err(e) => {
                    assert(candidate_default(Err(e)));
                    return Err(e);
                },
            }
        },
        SchemaNodeKind::Compressed { child } => {
            assert(decreases_to!(*node => **child));
            match default_value_for_node(child, localized, next_depth, array_indices, pick, finish) {
                Ok(v) => v,
                Err(e) => {
                    assert(candidate_default(Err(e)));
                    return Err(e);
                },
            }
        },
        SchemaNodeKind::Terminated { child, .. } => {
            assert(decreases_to!(*node => **child));
            match default_value_for_node(child, localized, next_depth, array_indices, pick, finish) {
                Ok(v) => v,
                Err(e) => {
                    assert(candidate_default(Err(e)));
                    return Err(e);
                },
            }
        },
        SchemaNodeKind::Custom { decoder, .. } => {
            let mut message = String::from_str("custom decoder ");
            message.append(decoder.as_str());
            message.append(" has no schema-native default");
            let e = encode_error(path, message.as_str());
            assert(candidate_default(Err(e)));
            return Err(e);
        },
        _ => {
            let e = encode_error(path, "this schema node has no editable default value");
            assert(candidate_default(Err(e)));
            return Err(e);
        },
    };
    let ghost built = value@;
    let ghost given = value;
    let res = finish(node, value, array_indices);
    proof {
        reveal(finishing_of);
        assert(finish.ensures((node, given, array_indices), res));
        assert(finishes(*node, built, array_indices@, owned_result(res)));
        assert(candidate_default(Ok(built)));
    }
    res
}

} // verus!
