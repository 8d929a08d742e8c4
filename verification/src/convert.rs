//! Conversion of owned values to the decoded shape that schema callbacks read.
use vstd::prelude::*;
use vstd::string::*;

use crate::decoder::{CustomDecoder, DecoderRegistry, RegisteredDecoder};
use crate::editor::{encode_error, encode_error_is, leaf_handler_value, owned_leaf_to_handler_value};
use crate::encode::{
    candidate_choice, choice_of, narrowing_of, prefixes_reserved, select_union_variant,
    selection_of, union_choice,
};
use crate::schema::{SchemaNode, SchemaNodeKind};
use crate::text::decimal;
use crate::value::{
    ByteSpan, FieldValue, NamedValue, OwnedFieldValue, SemanticError, SpecFieldValue,
    SpecNamedValue, SpecOwnedValue,
};

verus! {

/// A conversion result with its value taken by view.
pub open spec fn value_of(res: Result<FieldValue, SemanticError>) -> Result<SpecFieldValue, SemanticError> {
    match res {
        Ok(v) => Ok(v@),
        Err(e) => Err(e),
    }
}

/// Marks a candidate converted value; every value is one.
pub open spec fn candidate_value(r: Result<SpecFieldValue, SemanticError>) -> bool {
    true
}

/// Marks a candidate list of converted members; every list is one.
pub open spec fn candidate_members(r: Result<Seq<SpecNamedValue>, SemanticError>) -> bool {
    true
}

/// Marks a candidate list of converted items; every list is one.
pub open spec fn candidate_items(r: Result<Seq<SpecFieldValue>, SemanticError>) -> bool {
    true
}

/// The decoded form of a struct member converted with its schema node.
pub open spec fn member_of(field: SchemaNode, value: SpecFieldValue) -> SpecNamedValue {
    SpecNamedValue {
        node_id: field.id,
        path: field.path@,
        effective_path: None,
        name: field.name@,
        span: ByteSpan { start: 0, end: 0 },
        value,
    }
}

/// Whether `out` is a possible decoded shape of `value` read with `node`: struct members
/// carry their schema node's identity, arrays convert item by item, a union converts with
/// the variant it encodes with, wrapping nodes convert with their child, and any other
/// value keeps its own shape. A struct with the wrong number of members, or a union no
/// variant of which is chosen, gives the encoding error.
pub open spec fn converts<D: CustomDecoder>(
    decoders: Map<Seq<char>, RegisteredDecoder<D>>,
    localized: bool,
    selects: spec_fn(SchemaNode, usize, Seq<u8>, Result<Option<i64>, SemanticError>) -> bool,
    narrowed: spec_fn(u64, u32) -> bool,
    node: SchemaNode,
    value: SpecOwnedValue,
    out: Result<SpecFieldValue, SemanticError>,
) -> bool
    decreases node, 0nat,
{
    match (node.kind, value) {
        (SchemaNodeKind::Struct { fields }, SpecOwnedValue::Struct(values)) => if fields@.len()
            != values.len() {
            out matches Err(e) && encode_error_is(
                e,
                node.path@,
                "struct expects "@ + decimal(fields@.len()) + " fields, got "@ + decimal(
                    values.len(),
                ),
            )
        } else {
            exists|r: Result<Seq<SpecNamedValue>, SemanticError>|
                #[trigger] candidate_members(r) && converts_members(
                    decoders,
                    localized,
                    selects,
                    narrowed,
                    fields@,
                    values,
                    r,
                ) && match r {
                    Ok(members) => out == Ok::<SpecFieldValue, SemanticError>(
                        SpecFieldValue::Struct(members),
                    ),
                    Err(e) => out == Err::<SpecFieldValue, SemanticError>(e),
                }
        },
        (SchemaNodeKind::Array { element, .. }, SpecOwnedValue::Array(values)) => exists|
            r: Result<Seq<SpecFieldValue>, SemanticError>,
        |
            #[trigger] candidate_items(r) && converts_items(
                decoders,
                localized,
                selects,
                narrowed,
                *element,
                values,
                r,
            ) && match r {
                Ok(items) => out == Ok::<SpecFieldValue, SemanticError>(SpecFieldValue::Array(items)),
                Err(e) => out == Err::<SpecFieldValue, SemanticError>(e),
            },
        (SchemaNodeKind::Union { variants, .. }, _) => exists|
            c: Result<(nat, Seq<u8>), SemanticError>,
        |
            #[trigger] candidate_choice(c) && union_choice(
                decoders,
                localized,
                selects,
                narrowed,
                node,
                variants@,
                0,
                value,
                c,
            ) && match c {
                Ok((i, _)) => i < variants@.len() && converts(
                    decoders,
                    localized,
                    selects,
                    narrowed,
                    variants@[i as int],
                    value,
                    out,
                ),
                Err(e) => out == Err::<SpecFieldValue, SemanticError>(e),
            },
        (SchemaNodeKind::Subrecord { payload, .. }, _) => converts(
            decoders,
            localized,
            selects,
            narrowed,
            *payload,
            value,
            out,
        ),
        (SchemaNodeKind::Compressed { child }, _) => converts(
            decoders,
            localized,
            selects,
            narrowed,
            *child,
            value,
            out,
        ),
        (SchemaNodeKind::Terminated { child, .. }, _) => converts(
            decoders,
            localized,
            selects,
            narrowed,
            *child,
            value,
            out,
        ),
        _ => out == Ok::<SpecFieldValue, SemanticError>(leaf_handler_value(value)),
    }
}

/// Whether `out` is a possible list of struct members converted with their nodes, in
/// order, stopping at the first error.
pub open spec fn converts_members<D: CustomDecoder>(
    decoders: Map<Seq<char>, RegisteredDecoder<D>>,
    localized: bool,
    selects: spec_fn(SchemaNode, usize, Seq<u8>, Result<Option<i64>, SemanticError>) -> bool,
    narrowed: spec_fn(u64, u32) -> bool,
    fields: Seq<SchemaNode>,
    values: Seq<SpecOwnedValue>,
    out: Result<Seq<SpecNamedValue>, SemanticError>,
) -> bool
    decreases fields, 0nat,
{
    if fields.len() == 0 {
        out == Ok::<Seq<SpecNamedValue>, SemanticError>(Seq::empty())
    } else {
        exists|init: Result<Seq<SpecNamedValue>, SemanticError>|
            #[trigger] candidate_members(init) && converts_members(
                decoders,
                localized,
                selects,
                narrowed,
                fields.drop_last(),
                values,
                init,
            ) && match init {
                Err(e) => out == Err::<Seq<SpecNamedValue>, SemanticError>(e),
                Ok(prefix) => exists|last: Result<SpecFieldValue, SemanticError>|
                    #[trigger] candidate_value(last) && converts(
                        decoders,
                        localized,
                        selects,
                        narrowed,
                        fields.last(),
                        values[fields.len() - 1],
                        last,
                    ) && match last {
                        Ok(v) => out == Ok::<Seq<SpecNamedValue>, SemanticError>(
                            prefix.push(member_of(fields.last(), v)),
                        ),
                        Err(e) => out == Err::<Seq<SpecNamedValue>, SemanticError>(e),
                    },
            }
    }
}

/// Whether `out` is a possible list of array items converted with the element node, in
/// order, stopping at the first error.
pub open spec fn converts_items<D: CustomDecoder>(
    decoders: Map<Seq<char>, RegisteredDecoder<D>>,
    localized: bool,
    selects: spec_fn(SchemaNode, usize, Seq<u8>, Result<Option<i64>, SemanticError>) -> bool,
    narrowed: spec_fn(u64, u32) -> bool,
    element: SchemaNode,
    values: Seq<SpecOwnedValue>,
    out: Result<Seq<SpecFieldValue>, SemanticError>,
) -> bool
    decreases element, values.len(),
{
    if values.len() == 0 {
        out == Ok::<Seq<SpecFieldValue>, SemanticError>(Seq::empty())
    } else {
        exists|init: Result<Seq<SpecFieldValue>, SemanticError>|
            #[trigger] candidate_items(init) && converts_items(
                decoders,
                localized,
                selects,
                narrowed,
                element,
                values.drop_last(),
                init,
            ) && match init {
                Err(e) => out == Err::<Seq<SpecFieldValue>, SemanticError>(e),
                Ok(prefix) => exists|last: Result<SpecFieldValue, SemanticError>|
                    #[trigger] candidate_value(last) && converts(
                        decoders,
                        localized,
                        selects,
                        narrowed,
                        element,
                        values.last(),
                        last,
                    ) && match last {
                        Ok(v) => out == Ok::<Seq<SpecFieldValue>, SemanticError>(prefix.push(v)),
                        Err(e) => out == Err::<Seq<SpecFieldValue>, SemanticError>(e),
                    },
            }
    }
}

/// The views of decoded struct members.
pub open spec fn member_views(members: Seq<NamedValue>) -> Seq<SpecNamedValue> {
    Seq::new(members.len(), |i: int| members[i]@)
}

/// The views of decoded values.
pub open spec fn field_views(items: Seq<FieldValue>) -> Seq<SpecFieldValue> {
    Seq::new(items.len(), |i: int| items[i]@)
}

proof fn lemma_struct_view(members: Vec<NamedValue>)
    ensures
        FieldValue::Struct(members)@ == SpecFieldValue::Struct(member_views(members@)),
{
    assert(FieldValue::Struct(members)@->Struct_0 =~= member_views(members@));
}

proof fn lemma_array_view(items: Vec<FieldValue>)
    ensures
        FieldValue::Array(items)@ == SpecFieldValue::Array(field_views(items@)),
{
    assert(FieldValue::Array(items)@->Array_0 =~= field_views(items@));
}

proof fn lemma_members_step<D: CustomDecoder>(
    decoders: Map<Seq<char>, RegisteredDecoder<D>>,
    localized: bool,
    selects: spec_fn(SchemaNode, usize, Seq<u8>, Result<Option<i64>, SemanticError>) -> bool,
    narrowed: spec_fn(u64, u32) -> bool,
    fields: Seq<SchemaNode>,
    values: Seq<SpecOwnedValue>,
    i: int,
    prefix: Seq<SpecNamedValue>,
    r: Result<SpecFieldValue, SemanticError>,
)
    requires
        0 <= i < fields.len(),
        converts_members(decoders, localized, selects, narrowed, fields.take(i), values, Ok(prefix)),
        converts(decoders, localized, selects, narrowed, fields[i], values[i], r),
    ensures
        converts_members(
            decoders,
            localized,
            selects,
            narrowed,
            fields.take(i + 1),
            values,
            match r {
                Ok(v) => Ok(prefix.push(member_of(fields[i], v))),
                Err(e) => Err(e),
            },
        ),
{
    let f2 = fields.take(i + 1);
    assert(f2.drop_last() =~= fields.take(i));
    assert(f2.last() == fields[i]);
    assert(candidate_members(Ok(prefix)) && candidate_value(r));
    assert(converts_members(decoders, localized, selects, narrowed, f2.drop_last(), values, Ok(prefix)));
    assert(converts(decoders, localized, selects, narrowed, f2.last(), values[f2.len() - 1], r));
}

proof fn lemma_members_error<D: CustomDecoder>(
    decoders: Map<Seq<char>, RegisteredDecoder<D>>,
    localized: bool,
    selects: spec_fn(SchemaNode, usize, Seq<u8>, Result<Option<i64>, SemanticError>) -> bool,
    narrowed: spec_fn(u64, u32) -> bool,
    fields: Seq<SchemaNode>,
    values: Seq<SpecOwnedValue>,
    i: int,
    e: SemanticError,
)
    requires
        0 <= i <= fields.len(),
        converts_members(decoders, localized, selects, narrowed, fields.take(i), values, Err(e)),
    ensures
        converts_members(decoders, localized, selects, narrowed, fields, values, Err(e)),
    decreases fields.len() - i,
{
    if i < fields.len() {
        let f2 = fields.take(i + 1);
        assert(f2.drop_last() =~= fields.take(i));
        assert(candidate_members(Err(e)));
        assert(converts_members(decoders, localized, selects, narrowed, f2.drop_last(), values, Err(e)));
        assert(converts_members(decoders, localized, selects, narrowed, f2, values, Err(e)));
        lemma_members_error(decoders, localized, selects, narrowed, fields, values, i + 1, e);
    } else {
        assert(fields.take(i) =~= fields);
    }
}

proof fn lemma_items_step<D: CustomDecoder>(
    decoders: Map<Seq<char>, RegisteredDecoder<D>>,
    localized: bool,
    selects: spec_fn(SchemaNode, usize, Seq<u8>, Result<Option<i64>, SemanticError>) -> bool,
    narrowed: spec_fn(u64, u32) -> bool,
    element: SchemaNode,
    values: Seq<SpecOwnedValue>,
    i: int,
    prefix: Seq<SpecFieldValue>,
    r: Result<SpecFieldValue, SemanticError>,
)
    requires
        0 <= i < values.len(),
        converts_items(decoders, localized, selects, narrowed, element, values.take(i), Ok(prefix)),
        converts(decoders, localized, selects, narrowed, element, values[i], r),
    ensures
        converts_items(
            decoders,
            localized,
            selects,
            narrowed,
            element,
            values.take(i + 1),
            match r {
                Ok(v) => Ok(prefix.push(v)),
                Err(e) => Err(e),
            },
        ),
{
    let v2 = values.take(i + 1);
    assert(v2.drop_last() =~= values.take(i));
    assert(v2.last() == values[i]);
    assert(candidate_items(Ok(prefix)) && candidate_value(r));
    assert(converts_items(decoders, localized, selects, narrowed, element, v2.drop_last(), Ok(prefix)));
    assert(converts(decoders, localized, selects, narrowed, element, v2.last(), r));
}

proof fn lemma_items_error<D: CustomDecoder>(
    decoders: Map<Seq<char>, RegisteredDecoder<D>>,
    localized: bool,
    selects: spec_fn(SchemaNode, usize, Seq<u8>, Result<Option<i64>, SemanticError>) -> bool,
    narrowed: spec_fn(u64, u32) -> bool,
    element: SchemaNode,
    values: Seq<SpecOwnedValue>,
    i: int,
    e: SemanticError,
)
    requires
        0 <= i <= values.len(),
        converts_items(decoders, localized, selects, narrowed, element, values.take(i), Err(e)),
    ensures
        converts_items(decoders, localized, selects, narrowed, element, values, Err(e)),
    decreases values.len() - i,
{
    if i < values.len() {
        let v2 = values.take(i + 1);
        assert(v2.drop_last() =~= values.take(i));
        assert(candidate_items(Err(e)));
        assert(converts_items(decoders, localized, selects, narrowed, element, v2.drop_last(), Err(e)));
        assert(converts_items(decoders, localized, selects, narrowed, element, v2, Err(e)));
        lemma_items_error(decoders, localized, selects, narrowed, element, values, i + 1, e);
    } else {
        assert(values.take(i) =~= values);
    }
}

/// Converts an owned value to the decoded shape that schema callbacks read, using the
/// schema node it is encoded with.
///
/// Unions convert with the variant that `select_union_variant` chooses for the value.
pub fn owned_to_handler_value<D, S, N>(
    node: &SchemaNode,
    value: &OwnedFieldValue,
    localized: bool,
    decoders: &DecoderRegistry<D>,
    selector: &S,
    narrow: &N,
) -> (res: Result<FieldValue, SemanticError>)
    where
        D: CustomDecoder,
        S: Fn(&SchemaNode, usize, &Vec<u8>) -> Result<Option<i64>, SemanticError>,
        N: Fn(u64) -> u32,
    requires
        decoders.wf(),
        prefixes_reserved(*node),
        forall|bits: u64| narrow.requires((bits,)),
        forall|n: &SchemaNode, i: usize, p: &Vec<u8>| selector.requires((n, i, p)),
    ensures
        converts(
            decoders@,
            localized,
            selection_of(*selector),
            narrowing_of(*narrow),
            *node,
            value@,
            value_of(res),
        ),
    decreases node,
{
    let ghost sels = selection_of(*selector);
    let ghost nars = narrowing_of(*narrow);
    match &node.kind {
        SchemaNodeKind::Struct { fields } => match value {
            OwnedFieldValue::Struct(values) => {
                if fields.len() != values.len() {
                    let mut message = String::from_str("struct expects ");
                    crate::text::push_decimal(&mut message, fields.len() as u64);
                    message.append(" fields, got ");
                    crate::text::push_decimal(&mut message, values.len() as u64);
                    return Err(encode_error(node.path.as_str(), message.as_str()));
                }
                let ghost vs = value@->Struct_0;
                let mut members: Vec<NamedValue> = Vec::new();
                let mut i: usize = 0;
                proof {
                    assert(fields@.take(0) =~= Seq::<SchemaNode>::empty());
                    assert(member_views(members@) =~= Seq::<SpecNamedValue>::empty());
                }
                while i < fields.len()
                    invariant
                        node.kind matches SchemaNodeKind::Struct { fields: f } && f == *fields,
                        value@ == SpecOwnedValue::Struct(vs),
                        vs.len() == values@.len() == fields@.len(),
                        forall|j: int| 0 <= j < vs.len() ==> vs[j] == (#[trigger] values@[j])@,
                        prefixes_reserved(*node),
                        decoders.wf(),
                        sels == selection_of(*selector),
                        nars == narrowing_of(*narrow),
                        forall|bits: u64| narrow.requires((bits,)),
                        forall|n: &SchemaNode, k: usize, p: &Vec<u8>| selector.requires((n, k, p)),
                        i <= fields@.len(),
                        members@.len() == i,
                        converts_members(
                            decoders@,
                            localized,
                            sels,
                            nars,
                            fields@.take(i as int),
                            vs,
                            Ok(member_views(members@)),
                        ),
                    decreases fields.len() - i,
                {
                    assert(decreases_to!(*node => fields@[i as int]));
                    proof {
                        crate::encode::lemma_reserved_at(fields@, i as int);
                    }
                    let field = &fields[i];
                    let r = owned_to_handler_value(field, &values[i], localized, decoders, selector, narrow);
                    proof {
                        lemma_members_step(
                            decoders@,
                            localized,
                            sels,
                            nars,
                            fields@,
                            vs,
                            i as int,
                            member_views(members@),
                            value_of(r),
                        );
                    }
                    match r {
                        Ok(v) => {
                            let ghost before = members@;
                            let ghost vv = v@;
                            members.push(
                                NamedValue {
                                    node_id: field.id,
                                    path: field.path.clone(),
                                    effective_path: None,
                                    name: field.name.clone(),
                                    span: ByteSpan { start: 0, end: 0 },
                                    value: v,
                                },
                            );
                            proof {
                                assert(members@[i as int]@ == member_of(fields@[i as int], vv));
                                assert(member_views(members@) =~= member_views(before).push(
                                    member_of(fields@[i as int], vv),
                                ));
                            }
                        },
                        Err(e) => {
                            proof {
                                lemma_members_error(
                                    decoders@,
                                    localized,
                                    sels,
                                    nars,
                                    fields@,
                                    vs,
                                    i + 1,
                                    e,
                                );
                                assert(candidate_members(Err(e)));
                            }
                            return Err(e);
                        },
                    }
                    i += 1;
                }
                proof {
                    assert(fields@.take(i as int) =~= fields@);
                    lemma_struct_view(members);
                    assert(candidate_members(Ok(member_views(members@))));
                }
                Ok(FieldValue::Struct(members))
            },
            _ => Ok(owned_leaf_to_handler_value(value)),
        },
        SchemaNodeKind::Array { element, .. } => match value {
            OwnedFieldValue::Array(values) => {
                let ghost vs = value@->Array_0;
                let mut items: Vec<FieldValue> = Vec::new();
                let mut i: usize = 0;
                proof {
                    assert(vs.take(0) =~= Seq::<SpecOwnedValue>::empty());
                    assert(field_views(items@) =~= Seq::<SpecFieldValue>::empty());
                }
                while i < values.len()
                    invariant
                        node.kind matches SchemaNodeKind::Array { element: el, .. } && el == *element,
                        value@ == SpecOwnedValue::Array(vs),
                        vs.len() == values@.len(),
                        forall|j: int| 0 <= j < vs.len() ==> vs[j] == (#[trigger] values@[j])@,
                        prefixes_reserved(*node),
                        decoders.wf(),
                        sels == selection_of(*selector),
                        nars == narrowing_of(*narrow),
                        forall|bits: u64| narrow.requires((bits,)),
                        forall|n: &SchemaNode, k: usize, p: &Vec<u8>| selector.requires((n, k, p)),
                        i <= values@.len(),
                        items@.len() == i,
                        converts_items(
                            decoders@,
                            localized,
                            sels,
                            nars,
                            **element,
                            vs.take(i as int),
                            Ok(field_views(items@)),
                        ),
                    decreases values.len() - i,
                {
                    assert(decreases_to!(*node => **element));
                    let r = owned_to_handler_value(element, &values[i], localized, decoders, selector, narrow);
                    proof {
                        lemma_items_step(
                            decoders@,
                            localized,
                            sels,
                            nars,
                            **element,
                            vs,
                            i as int,
                            field_views(items@),
                            value_of(r),
                        );
                    }
                    match r {
                        Ok(v) => {
                            let ghost before = items@;
                            let ghost vv = v@;
                            items.push(v);
                            proof {
                                assert(field_views(items@) =~= field_views(before).push(vv));
                            }
                        },
                        Err(e) => {
                            proof {
                                lemma_items_error(
                                    decoders@,
                                    localized,
                                    sels,
                                    nars,
                                    **element,
                                    vs,
                                    i + 1,
                                    e,
                                );
                                assert(candidate_items(Err(e)));
                            }
                            return Err(e);
                        },
                    }
                    i += 1;
                }
                proof {
                    assert(vs.take(i as int) =~= vs);
                    lemma_array_view(items);
                    assert(candidate_items(Ok(field_views(items@))));
                }
                Ok(FieldValue::Array(items))
            },
            _ => Ok(owned_leaf_to_handler_value(value)),
        },
        SchemaNodeKind::Union { variants, .. } => {
            let chosen = select_union_variant(node, value, localized, decoders, selector, narrow);
            proof {
                assert(candidate_choice(choice_of(chosen)));
            }
            match chosen {
                Ok((index, bytes)) => {
                    proof {
                        crate::encode::lemma_choice_in_range(
                            decoders@,
                            localized,
                            sels,
                            nars,
                            *node,
                            variants@,
                            0,
                            value@,
                            index as nat,
                            bytes@,
                        );
                    }
                    assert(decreases_to!(*node => variants@[index as int]));
                    proof {
                        crate::encode::lemma_reserved_at(variants@, index as int);
                    }
                    owned_to_handler_value(&variants[index], value, localized, decoders, selector, narrow)
                },
                Err(e) => Err(e),
            }
        },
        SchemaNodeKind::Subrecord { payload, .. } => {
            assert(decreases_to!(*node => **payload));
            owned_to_handler_value(payload, value, localized, decoders, selector, narrow)
        },
        SchemaNodeKind::Compressed { child } => {
            assert(decreases_to!(*node => **child));
            owned_to_handler_value(child, value, localized, decoders, selector, narrow)
        },
        SchemaNodeKind::Terminated { child, .. } => {
            assert(decreases_to!(*node => **child));
            owned_to_handler_value(child, value, localized, decoders, selector, narrow)
        },
        _ => Ok(owned_leaf_to_handler_value(value)),
    }
}

} // verus!
