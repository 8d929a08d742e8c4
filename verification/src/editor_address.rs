//! Exact structural edits of a field value along the value steps of a field address.
use vstd::prelude::*;

use crate::address::{
    hex_lower, schema_hash_hex, structure_hash, structure_preimage, Field, FieldAddress, RepeatScope,
    ValueStep,
};
use crate::external::spec_sha256;
use crate::model::{FormId, Signature};
use crate::editor::encode_error_is;
use crate::text::text_eq;
use crate::value::{FieldValue, OwnedFieldValue, SemanticError, SpecFieldValue, SpecOwnedValue};

verus! {

/// The owned and decoded children that one step selects, or why the step does not apply.
///
/// A struct step must name the decoded member's schema path at its index; an array
/// step must stay inside both the decoded and the owned items.
pub open spec fn descend(
    step: ValueStep,
    owned: SpecOwnedValue,
    decoded: SpecFieldValue,
) -> Result<(SpecOwnedValue, SpecFieldValue), Seq<char>> {
    match (step, owned, decoded) {
        (
            ValueStep::Field { index, path },
            SpecOwnedValue::Struct(values),
            SpecFieldValue::Struct(fields),
        ) => if index < fields.len() && fields[index as int].path == path@ {
            if index < values.len() {
                Ok((values[index as int], fields[index as int].value))
            } else {
                Err("struct index is out of bounds"@)
            }
        } else {
            Err("struct step does not match decoded schema path"@)
        },
        (ValueStep::Index { index }, SpecOwnedValue::Array(values), SpecFieldValue::Array(items)) => {
            if index < items.len() && index < values.len() {
                Ok((values[index as int], items[index as int]))
            } else {
                Err("array index is out of bounds"@)
            }
        },
        _ => Err("address step does not match decoded value kind"@),
    }
}

/// The owned value with the child that a step selects replaced.
pub open spec fn with_child(step: ValueStep, owned: SpecOwnedValue, child: SpecOwnedValue) -> SpecOwnedValue {
    match (step, owned) {
        (ValueStep::Field { index, .. }, SpecOwnedValue::Struct(values)) => SpecOwnedValue::Struct(
            values.update(index as int, child),
        ),
        (ValueStep::Index { index }, SpecOwnedValue::Array(values)) => SpecOwnedValue::Array(
            values.update(index as int, child),
        ),
        _ => owned,
    }
}

/// The owned and decoded values that a sequence of steps selects.
pub open spec fn target(
    owned: SpecOwnedValue,
    decoded: SpecFieldValue,
    steps: Seq<ValueStep>,
) -> Result<(SpecOwnedValue, SpecFieldValue), Seq<char>>
    decreases steps.len(),
{
    if steps.len() == 0 {
        Ok((owned, decoded))
    } else {
        match descend(steps[0], owned, decoded) {
            Ok((o, d)) => target(o, d, steps.drop_first()),
            Err(e) => Err(e),
        }
    }
}

/// The owned value with the value that a sequence of steps selects replaced.
pub open spec fn replaced(
    owned: SpecOwnedValue,
    decoded: SpecFieldValue,
    steps: Seq<ValueStep>,
    value: SpecOwnedValue,
) -> Result<SpecOwnedValue, Seq<char>>
    decreases steps.len(),
{
    if steps.len() == 0 {
        Ok(value)
    } else {
        match descend(steps[0], owned, decoded) {
            Ok((o, d)) => match replaced(o, d, steps.drop_first(), value) {
                Ok(c) => Ok(with_child(steps[0], owned, c)),
                Err(e) => Err(e),
            },
            Err(e) => Err(e),
        }
    }
}

/// The field value after removing what the steps address: `None` removes the whole
/// subrecord, an array item is dropped from its array, and a struct member becomes absent.
pub open spec fn removed(
    owned: SpecOwnedValue,
    decoded: SpecFieldValue,
    steps: Seq<ValueStep>,
) -> Result<Option<SpecOwnedValue>, Seq<char>> {
    if steps.len() == 0 {
        Ok(None)
    } else {
        let prefix = steps.drop_last();
        match target(owned, decoded, prefix) {
            Err(e) => Err(e),
            Ok((parent, _)) => match (steps.last(), parent) {
                (ValueStep::Index { index }, SpecOwnedValue::Array(items)) if index < items.len() => {
                    match replaced(
                        owned,
                        decoded,
                        prefix,
                        SpecOwnedValue::Array(items.remove(index as int)),
                    ) {
                        Ok(v) => Ok(Some(v)),
                        Err(e) => Err(e),
                    }
                },
                (ValueStep::Field { .. }, _) => match replaced(
                    owned,
                    decoded,
                    steps,
                    SpecOwnedValue::Absent,
                ) {
                    Ok(v) => Ok(Some(v)),
                    Err(e) => Err(e),
                },
                _ => Err("address does not select a removable item"@),
            },
        }
    }
}

/// The field value after inserting `value` at what the steps address: an addressed array
/// gets the value appended, an addressed array item gets it inserted before it, and an
/// empty address gives `None`, which inserts a new subrecord before the addressed one.
pub open spec fn inserted(
    owned: SpecOwnedValue,
    decoded: SpecFieldValue,
    steps: Seq<ValueStep>,
    value: SpecOwnedValue,
) -> Result<Option<SpecOwnedValue>, Seq<char>> {
    match target(owned, decoded, steps) {
        Err(e) => Err(e),
        Ok((t, _)) => match t {
            SpecOwnedValue::Array(items) => match replaced(
                owned,
                decoded,
                steps,
                SpecOwnedValue::Array(items.push(value)),
            ) {
                Ok(v) => Ok(Some(v)),
                Err(e) => Err(e),
            },
            _ => if steps.len() > 0 && steps.last() is Index {
                let index = steps.last()->Index_index;
                let prefix = steps.drop_last();
                match target(owned, decoded, prefix) {
                    Err(e) => Err(e),
                    Ok((parent, _)) => match parent {
                        SpecOwnedValue::Array(items) => if index > items.len() {
                            Err("array insertion index is out of bounds"@)
                        } else {
                            match replaced(
                                owned,
                                decoded,
                                prefix,
                                SpecOwnedValue::Array(items.insert(index as int, value)),
                            ) {
                                Ok(v) => Ok(Some(v)),
                                Err(e) => Err(e),
                            }
                        },
                        _ => Err("array item has no array parent"@),
                    },
                }
            } else if steps.len() == 0 {
                Ok(None)
            } else {
                Err("insertion requires an array or subrecord"@)
            },
        },
    }
}

/// Replacing succeeds exactly where selecting does, with the same error.
pub proof fn replaced_fails_as_target(
    owned: SpecOwnedValue,
    decoded: SpecFieldValue,
    steps: Seq<ValueStep>,
    value: SpecOwnedValue,
)
    ensures
        replaced(owned, decoded, steps, value) is Ok <==> target(owned, decoded, steps) is Ok,
        target(owned, decoded, steps) matches Err(e) ==> replaced(owned, decoded, steps, value)
            == Err::<SpecOwnedValue, Seq<char>>(e),
    decreases steps.len(),
{
    if steps.len() > 0 {
        if let Ok((o, d)) = descend(steps[0], owned, decoded) {
            replaced_fails_as_target(o, d, steps.drop_first(), value);
        }
    }
}

/// Reading back a replaced value gives the value that was written, next to the same
/// decoded value as before.
pub proof fn read_after_replace(
    owned: SpecOwnedValue,
    decoded: SpecFieldValue,
    steps: Seq<ValueStep>,
    value: SpecOwnedValue,
)
    requires
        replaced(owned, decoded, steps, value) is Ok,
    ensures
        target(owned, decoded, steps) is Ok,
        target(replaced(owned, decoded, steps, value)->Ok_0, decoded, steps) == Ok::<
            (SpecOwnedValue, SpecFieldValue),
            Seq<char>,
        >((value, target(owned, decoded, steps)->Ok_0.1)),
    decreases steps.len(),
{
    if steps.len() > 0 {
        let (o, d) = descend(steps[0], owned, decoded)->Ok_0;
        read_after_replace(o, d, steps.drop_first(), value);
        let c = replaced(o, d, steps.drop_first(), value)->Ok_0;
        assert(descend(steps[0], with_child(steps[0], owned, c), decoded) == Ok::<
            (SpecOwnedValue, SpecFieldValue),
            Seq<char>,
        >((c, d)));
    }
}

/// Writing back the value that is already there changes nothing.
pub proof fn replace_with_current(owned: SpecOwnedValue, decoded: SpecFieldValue, steps: Seq<ValueStep>)
    requires
        target(owned, decoded, steps) is Ok,
    ensures
        replaced(owned, decoded, steps, target(owned, decoded, steps)->Ok_0.0) == Ok::<
            SpecOwnedValue,
            Seq<char>,
        >(owned),
    decreases steps.len(),
{
    if steps.len() > 0 {
        let (o, d) = descend(steps[0], owned, decoded)->Ok_0;
        replace_with_current(o, d, steps.drop_first());
        match (steps[0], owned) {
            (ValueStep::Field { index, .. }, SpecOwnedValue::Struct(values)) => {
                assert(values.update(index as int, o) =~= values);
            },
            (ValueStep::Index { index }, SpecOwnedValue::Array(values)) => {
                assert(values.update(index as int, o) =~= values);
            },
            _ => {},
        }
    }
}

/// A second replacement at the same address overrides the first.
pub proof fn replace_twice(
    owned: SpecOwnedValue,
    decoded: SpecFieldValue,
    steps: Seq<ValueStep>,
    first: SpecOwnedValue,
    second: SpecOwnedValue,
)
    requires
        replaced(owned, decoded, steps, first) is Ok,
    ensures
        replaced(replaced(owned, decoded, steps, first)->Ok_0, decoded, steps, second) == replaced(
            owned,
            decoded,
            steps,
            second,
        ),
    decreases steps.len(),
{
    if steps.len() > 0 {
        let (o, d) = descend(steps[0], owned, decoded)->Ok_0;
        replace_twice(o, d, steps.drop_first(), first, second);
        replaced_fails_as_target(o, d, steps.drop_first(), second);
        let c = replaced(o, d, steps.drop_first(), first)->Ok_0;
        assert(descend(steps[0], with_child(steps[0], owned, c), decoded) == Ok::<
            (SpecOwnedValue, SpecFieldValue),
            Seq<char>,
        >((c, d)));
        match (steps[0], owned) {
            (ValueStep::Field { index, .. }, SpecOwnedValue::Struct(values)) => {
                let c2 = replaced(o, d, steps.drop_first(), second)->Ok_0;
                assert(values.update(index as int, c).update(index as int, c2) =~= values.update(
                    index as int,
                    c2,
                ));
            },
            (ValueStep::Index { index }, SpecOwnedValue::Array(values)) => {
                let c2 = replaced(o, d, steps.drop_first(), second)->Ok_0;
                assert(values.update(index as int, c).update(index as int, c2) =~= values.update(
                    index as int,
                    c2,
                ));
            },
            _ => {},
        }
    }
}

proof fn target_push(
    owned: SpecOwnedValue,
    decoded: SpecFieldValue,
    prefix: Seq<ValueStep>,
    last: ValueStep,
)
    ensures
        target(owned, decoded, prefix.push(last)) == match target(owned, decoded, prefix) {
            Ok((p, pd)) => descend(last, p, pd),
            Err(e) => Err(e),
        },
    decreases prefix.len(),
{
    if prefix.len() == 0 {
        assert(prefix.push(last).drop_first() =~= Seq::<ValueStep>::empty());
        assert(prefix.push(last)[0] == last);
        if let Ok((o, d)) = descend(last, owned, decoded) {
            assert(target(o, d, Seq::<ValueStep>::empty()) == Ok::<
                (SpecOwnedValue, SpecFieldValue),
                Seq<char>,
            >((o, d)));
        }
    } else {
        assert(prefix.push(last)[0] == prefix[0]);
        assert(prefix.push(last).drop_first() =~= prefix.drop_first().push(last));
        if let Ok((o, d)) = descend(prefix[0], owned, decoded) {
            target_push(o, d, prefix.drop_first(), last);
        }
    }
}

/// Inserting before an addressed array item and then removing at the same address
/// gives back the original field value.
pub proof fn remove_undoes_insert(
    owned: SpecOwnedValue,
    decoded: SpecFieldValue,
    steps: Seq<ValueStep>,
    value: SpecOwnedValue,
)
    requires
        steps.len() > 0,
        steps.last() is Index,
        target(owned, decoded, steps) is Ok,
        !(target(owned, decoded, steps)->Ok_0.0 is Array),
    ensures
        inserted(owned, decoded, steps, value) is Ok,
        inserted(owned, decoded, steps, value)->Ok_0 is Some,
        removed(inserted(owned, decoded, steps, value)->Ok_0->Some_0, decoded, steps) == Ok::<
            Option<SpecOwnedValue>,
            Seq<char>,
        >(Some(owned)),
{
    let prefix = steps.drop_last();
    let last = steps.last();
    let index = last->Index_index;
    assert(steps =~= prefix.push(last));
    target_push(owned, decoded, prefix, last);
    let (parent, pd) = target(owned, decoded, prefix)->Ok_0;
    let items = parent->Array_0;
    let grown = SpecOwnedValue::Array(items.insert(index as int, value));
    replaced_fails_as_target(owned, decoded, prefix, grown);
    let after = replaced(owned, decoded, prefix, grown)->Ok_0;
    assert(inserted(owned, decoded, steps, value) == Ok::<Option<SpecOwnedValue>, Seq<char>>(
        Some(after),
    ));
    read_after_replace(owned, decoded, prefix, grown);
    assert(items.insert(index as int, value).remove(index as int) =~= items);
    replace_twice(owned, decoded, prefix, grown, SpecOwnedValue::Array(items));
    replace_with_current(owned, decoded, prefix);
}

/// The views of a list of owned values.
pub open spec fn owned_views(items: Seq<OwnedFieldValue>) -> Seq<SpecOwnedValue> {
    Seq::new(items.len(), |i: int| items[i]@)
}

proof fn lemma_list_views(items: Vec<OwnedFieldValue>)
    ensures
        OwnedFieldValue::Array(items)@ == SpecOwnedValue::Array(owned_views(items@)),
        OwnedFieldValue::Struct(items)@ == SpecOwnedValue::Struct(owned_views(items@)),
{
    assert(OwnedFieldValue::Array(items)@->Array_0 =~= owned_views(items@));
    assert(OwnedFieldValue::Struct(items)@->Struct_0 =~= owned_views(items@));
}

/// The encoding error for an address that cannot be applied at a schema path.
pub fn address_error(path: &str, message: &str) -> (res: SemanticError)
    ensures
        encode_error_is(res, path@, message@),
{
    SemanticError::Encode { path: path.to_owned(), message: message.to_owned() }
}

/// Selects the owned value that `steps[k..end]` address.
fn target_at<'a>(
    owned: &'a OwnedFieldValue,
    decoded: &FieldValue,
    steps: &[ValueStep],
    k: usize,
    end: usize,
    context: &str,
) -> (res: Result<&'a OwnedFieldValue, SemanticError>)
    requires
        k <= end <= steps@.len(),
    ensures
        match target(owned@, decoded@, steps@.subrange(k as int, end as int)) {
            Ok((o, _)) => res matches Ok(r) && r@ == o,
            Err(m) => res matches Err(e) && encode_error_is(e, context@, m),
        },
    decreases end - k,
{
    if k == end {
        return Ok(owned);
    }
    proof {
        let s = steps@.subrange(k as int, end as int);
        assert(s[0] == steps@[k as int]);
        assert(s.drop_first() =~= steps@.subrange(k + 1, end as int));
    }
    match &steps[k] {
        ValueStep::Field { index, path } => {
            let index = *index;
            match owned {
                OwnedFieldValue::Struct(values) => match decoded {
                    FieldValue::Struct(fields) => {
                        if index < fields.len() && text_eq(fields[index].path.as_str(), path.as_str()) {
                            if index < values.len() {
                                target_at(&values[index], &fields[index].value, steps, k + 1, end, context)
                            } else {
                                Err(address_error(context, "struct index is out of bounds"))
                            }
                        } else {
                            Err(address_error(context, "struct step does not match decoded schema path"))
                        }
                    },
                    _ => Err(address_error(context, "address step does not match decoded value kind")),
                },
                _ => Err(address_error(context, "address step does not match decoded value kind")),
            }
        },
        ValueStep::Index { index } => {
            let index = *index;
            match owned {
                OwnedFieldValue::Array(values) => match decoded {
                    FieldValue::Array(items) => {
                        if index < items.len() && index < values.len() {
                            target_at(&values[index], &items[index], steps, k + 1, end, context)
                        } else {
                            Err(address_error(context, "array index is out of bounds"))
                        }
                    },
                    _ => Err(address_error(context, "address step does not match decoded value kind")),
                },
                _ => Err(address_error(context, "address step does not match decoded value kind")),
            }
        },
    }
}

/// Replaces the owned value that `steps[k..end]` address.
fn replace_at(
    owned: OwnedFieldValue,
    decoded: &FieldValue,
    steps: &[ValueStep],
    k: usize,
    end: usize,
    context: &str,
    value: OwnedFieldValue,
) -> (res: Result<OwnedFieldValue, SemanticError>)
    requires
        k <= end <= steps@.len(),
    ensures
        match replaced(owned@, decoded@, steps@.subrange(k as int, end as int), value@) {
            Ok(o) => res matches Ok(r) && r@ == o,
            Err(m) => res matches Err(e) && encode_error_is(e, context@, m),
        },
    decreases end - k,
{
    if k == end {
        return Ok(value);
    }
    let ghost old_view = owned@;
    proof {
        let s = steps@.subrange(k as int, end as int);
        assert(s[0] == steps@[k as int]);
        assert(s.drop_first() =~= steps@.subrange(k + 1, end as int));
    }
    match &steps[k] {
        ValueStep::Field { index, path } => {
            let index = *index;
            match owned {
                OwnedFieldValue::Struct(mut values) => match decoded {
                    FieldValue::Struct(fields) => {
                        if index < fields.len() && text_eq(fields[index].path.as_str(), path.as_str()) {
                            if index < values.len() {
                                proof {
                                    lemma_list_views(values);
                                }
                                let ghost old_values = values@;
                                let child = values.remove(index);
                                match replace_at(child, &fields[index].value, steps, k + 1, end, context, value) {
                                    Ok(c) => {
                                        values.insert(index, c);
                                        proof {
                                            lemma_list_views(values);
                                            assert(owned_views(values@) =~= owned_views(old_values).update(
                                                index as int,
                                                c@,
                                            ));
                                        }
                                        Ok(OwnedFieldValue::Struct(values))
                                    },
                                    Err(e) => Err(e),
                                }
                            } else {
                                Err(address_error(context, "struct index is out of bounds"))
                            }
                        } else {
                            Err(address_error(context, "struct step does not match decoded schema path"))
                        }
                    },
                    _ => Err(address_error(context, "address step does not match decoded value kind")),
                },
                _ => Err(address_error(context, "address step does not match decoded value kind")),
            }
        },
        ValueStep::Index { index } => {
            let index = *index;
            match owned {
                OwnedFieldValue::Array(mut values) => match decoded {
                    FieldValue::Array(items) => {
                        if index < items.len() && index < values.len() {
                            proof {
                                lemma_list_views(values);
                            }
                            let ghost old_values = values@;
                            let child = values.remove(index);
                            match replace_at(child, &items[index], steps, k + 1, end, context, value) {
                                Ok(c) => {
                                    values.insert(index, c);
                                    proof {
                                        lemma_list_views(values);
                                        assert(owned_views(values@) =~= owned_views(old_values).update(
                                            index as int,
                                            c@,
                                        ));
                                    }
                                    Ok(OwnedFieldValue::Array(values))
                                },
                                Err(e) => Err(e),
                            }
                        } else {
                            Err(address_error(context, "array index is out of bounds"))
                        }
                    },
                    _ => Err(address_error(context, "address step does not match decoded value kind")),
                },
                _ => Err(address_error(context, "address step does not match decoded value kind")),
            }
        },
    }
}

/// Selects the owned value that an address's value steps reach, checking each step
/// against the decoded value; errors name `context`.
pub fn owned_target<'a>(
    owned: &'a OwnedFieldValue,
    decoded: &FieldValue,
    steps: &[ValueStep],
    context: &str,
) -> (res: Result<&'a OwnedFieldValue, SemanticError>)
    ensures
        match target(owned@, decoded@, steps@) {
            Ok((o, _)) => res matches Ok(r) && r@ == o,
            Err(m) => res matches Err(e) && encode_error_is(e, context@, m),
        },
{
    proof {
        assert(steps@.subrange(0, steps@.len() as int) =~= steps@);
    }
    target_at(owned, decoded, steps, 0, steps.len(), context)
}

/// The field value after replacing what the value steps address with `value`.
///
/// `updated` is the owned form of the addressed field and `decoded` its decoded value.
pub fn set_at_value(
    updated: OwnedFieldValue,
    decoded: &FieldValue,
    steps: &[ValueStep],
    path: &str,
    value: &OwnedFieldValue,
) -> (res: Result<OwnedFieldValue, SemanticError>)
    ensures
        match replaced(updated@, decoded@, steps@, value@) {
            Ok(o) => res matches Ok(r) && r@ == o,
            Err(m) => res matches Err(e) && encode_error_is(e, path@, m),
        },
{
    proof {
        assert(steps@.subrange(0, steps@.len() as int) =~= steps@);
    }
    replace_at(updated, decoded, steps, 0, steps.len(), path, value.clone())
}

/// The field value after removing what the value steps address.
///
/// `Ok(None)` means that the address selects the whole subrecord, which is removed.
pub fn remove_at_value(
    updated: OwnedFieldValue,
    decoded: &FieldValue,
    steps: &[ValueStep],
    path: &str,
) -> (res: Result<Option<OwnedFieldValue>, SemanticError>)
    ensures
        match removed(updated@, decoded@, steps@) {
            Ok(None) => res matches Ok(None),
            Ok(Some(o)) => res matches Ok(Some(r)) && r@ == o,
            Err(m) => res matches Err(e) && encode_error_is(e, path@, m),
        },
{
    let n = steps.len();
    if n == 0 {
        return Ok(None);
    }
    proof {
        assert(steps@.subrange(0, n - 1) =~= steps@.drop_last());
        assert(steps@.subrange(0, n as int) =~= steps@);
    }
    let parent = match target_at(&updated, decoded, steps, 0, n - 1, path) {
        Ok(p) => p.clone(),
        Err(e) => {
            return Err(e);
        },
    };
    match &steps[n - 1] {
        ValueStep::Index { index } => {
            let index = *index;
            match parent {
                OwnedFieldValue::Array(mut items) => {
                    if index < items.len() {
                        proof {
                            lemma_list_views(items);
                        }
                        let ghost old_items = items@;
                        items.remove(index);
                        proof {
                            lemma_list_views(items);
                            assert(owned_views(items@) =~= owned_views(old_items).remove(index as int));
                        }
                        match replace_at(updated, decoded, steps, 0, n - 1, path, OwnedFieldValue::Array(items)) {
                            Ok(v) => Ok(Some(v)),
                            Err(e) => Err(e),
                        }
                    } else {
                        Err(address_error(path, "address does not select a removable item"))
                    }
                },
                _ => Err(address_error(path, "address does not select a removable item")),
            }
        },
        ValueStep::Field { .. } => {
            match replace_at(updated, decoded, steps, 0, n, path, OwnedFieldValue::Absent) {
                Ok(v) => Ok(Some(v)),
                Err(e) => Err(e),
            }
        },
    }
}

/// The field value after inserting `value` where the value steps address: appended to
/// an addressed array, or inserted before an addressed array item.
///
/// `Ok(None)` means that the address selects the whole subrecord, before which a new
/// subrecord holding the value is inserted.
pub fn insert_at_value(
    updated: OwnedFieldValue,
    decoded: &FieldValue,
    steps: &[ValueStep],
    path: &str,
    value: &OwnedFieldValue,
) -> (res: Result<Option<OwnedFieldValue>, SemanticError>)
    ensures
        match inserted(updated@, decoded@, steps@, value@) {
            Ok(None) => res matches Ok(None),
            Ok(Some(o)) => res matches Ok(Some(r)) && r@ == o,
            Err(m) => res matches Err(e) && encode_error_is(e, path@, m),
        },
{
    let n = steps.len();
    proof {
        assert(steps@.subrange(0, n as int) =~= steps@);
    }
    let selected = match target_at(&updated, decoded, steps, 0, n, path) {
        Ok(t) => t.clone(),
        Err(e) => {
            return Err(e);
        },
    };
    match selected {
        OwnedFieldValue::Array(mut items) => {
            proof {
                lemma_list_views(items);
            }
            let ghost old_items = items@;
            items.push(value.clone());
            proof {
                lemma_list_views(items);
                assert(owned_views(items@) =~= owned_views(old_items).push(value@));
            }
            match replace_at(updated, decoded, steps, 0, n, path, OwnedFieldValue::Array(items)) {
                Ok(v) => Ok(Some(v)),
                Err(e) => Err(e),
            }
        },
        _ => {
            if n == 0 {
                return Ok(None);
            }
            proof {
                assert(steps@.subrange(0, n - 1) =~= steps@.drop_last());
            }
            match &steps[n - 1] {
                ValueStep::Index { index } => {
                    let index = *index;
                    let parent = match target_at(&updated, decoded, steps, 0, n - 1, path) {
                        Ok(p) => p.clone(),
                        Err(e) => {
                            return Err(e);
                        },
                    };
                    match parent {
                        OwnedFieldValue::Array(mut items) => {
                            if index > items.len() {
                                Err(address_error(path, "array insertion index is out of bounds"))
                            } else {
                                proof {
                                    lemma_list_views(items);
                                }
                                let ghost old_items = items@;
                                items.insert(index, value.clone());
                                proof {
                                    lemma_list_views(items);
                                    assert(owned_views(items@) =~= owned_views(old_items).insert(
                                        index as int,
                                        value@,
                                    ));
                                }
                                match replace_at(
                                    updated,
                                    decoded,
                                    steps,
                                    0,
                                    n - 1,
                                    path,
                                    OwnedFieldValue::Array(items),
                                ) {
                                    Ok(v) => Ok(Some(v)),
                                    Err(e) => Err(e),
                                }
                            }
                        },
                        _ => Err(address_error(path, "array item has no array parent")),
                    }
                },
                ValueStep::Field { .. } => Err(
                    address_error(path, "insertion requires an array or subrecord"),
                ),
            }
        },
    }
}

/// Whether two repeat stacks name the same repetitions.
pub open spec fn same_scopes(a: Seq<RepeatScope>, b: Seq<RepeatScope>) -> bool {
    &&& a.len() == b.len()
    &&& forall|i: int|
        #![trigger a[i]]
        0 <= i < a.len() ==> a[i].path@ == b[i].path@ && a[i].occurrence == b[i].occurrence
}

/// Whether a decoded field is the grammar assignment that an address names.
pub open spec fn field_matches(field: Field, address: FieldAddress) -> bool {
    &&& field.subrecord_index == address.subrecord_index
    &&& field.path@ == address.subrecord_path@
    &&& same_scopes(field.repeat_scopes@, address.repeat_scopes@)
}

/// Whether an address was issued for this record and schema package.
pub open spec fn address_identity_matches(
    address: FieldAddress,
    record_signature: Signature,
    form_id: FormId,
    schema_payload_sha256: Seq<u8>,
) -> bool {
    &&& address.record_signature@ == record_signature.0@
    &&& address.form_id == form_id.0
    &&& address.schema_payload_sha256@ == hex_lower(schema_payload_sha256)
}

fn same_scopes_exec(a: &Vec<RepeatScope>, b: &Vec<RepeatScope>) -> (res: bool)
    ensures
        res == same_scopes(a@, b@),
{
    if a.len() != b.len() {
        return false;
    }
    let mut i: usize = 0;
    while i < a.len()
        invariant
            i <= a@.len(),
            a@.len() == b@.len(),
            forall|j: int|
                #![trigger a@[j]]
                0 <= j < i ==> a@[j].path@ == b@[j].path@ && a@[j].occurrence == b@[j].occurrence,
        decreases a.len() - i,
    {
        if !text_eq(a[i].path.as_str(), b[i].path.as_str()) || a[i].occurrence != b[i].occurrence {
            return false;
        }
        i += 1;
    }
    true
}

/// The decoded field that an address selects.
///
/// The address must have been issued for this record (`record_signature`, `form_id`),
/// for the schema package whose payload digest is `schema_payload_sha256`, and for a
/// snapshot with the structure of `fields`; the selected field is the first one with the
/// address's subrecord index, path and repeat stack.
pub fn addressed_field(
    address: &FieldAddress,
    record_signature: Signature,
    form_id: FormId,
    schema_payload_sha256: &[u8; 32],
    fields: Vec<Field>,
) -> (res: Result<Field, SemanticError>)
    ensures
        !address_identity_matches(*address, record_signature, form_id, schema_payload_sha256@) ==> (
        res matches Err(e) && encode_error_is(
            e,
            address.subrecord_path@,
            "address belongs to another record or schema"@,
        )),
        address_identity_matches(*address, record_signature, form_id, schema_payload_sha256@)
            && address.structure_hash@ != hex_lower(spec_sha256(structure_preimage(fields@))) ==> (
        res matches Err(e) && encode_error_is(
            e,
            address.subrecord_path@,
            "stale address; refresh the record snapshot"@,
        )),
        address_identity_matches(*address, record_signature, form_id, schema_payload_sha256@)
            && address.structure_hash@ == hex_lower(spec_sha256(structure_preimage(fields@))) ==> (
        match res {
            Ok(f) => exists|i: int|
                0 <= i < fields@.len() && field_matches(#[trigger] fields@[i], *address) && (forall|j: int|
                    0 <= j < i ==> !field_matches(#[trigger] fields@[j], *address)) && f == fields@[i],
            Err(e) => (forall|i: int| 0 <= i < fields@.len() ==> !field_matches(#[trigger] fields@[i], *address))
                && encode_error_is(
                e,
                address.subrecord_path@,
                "address does not match a grammar assignment"@,
            ),
        }),
{
    let expected_schema = schema_hash_hex(schema_payload_sha256);
    let same_signature = address.record_signature[0] == record_signature.0[0]
        && address.record_signature[1] == record_signature.0[1]
        && address.record_signature[2] == record_signature.0[2]
        && address.record_signature[3] == record_signature.0[3];
    proof {
        if same_signature {
            assert(address.record_signature@ =~= record_signature.0@);
        }
    }
    if !same_signature || address.form_id != form_id.0 || !text_eq(
        address.schema_payload_sha256.as_str(),
        expected_schema.as_str(),
    ) {
        return Err(address_error(&address.subrecord_path, "address belongs to another record or schema"));
    }
    let current = structure_hash(fields.as_slice());
    if !text_eq(address.structure_hash.as_str(), current.as_str()) {
        return Err(address_error(&address.subrecord_path, "stale address; refresh the record snapshot"));
    }
    let ghost all = fields@;
    let mut candidates = fields;
    let mut i: usize = 0;
    while i < candidates.len()
        invariant
            candidates@ == all,
            all == fields@,
            i <= all.len(),
            address_identity_matches(*address, record_signature, form_id, schema_payload_sha256@),
            address.structure_hash@ == hex_lower(spec_sha256(structure_preimage(all))),
            forall|j: int| 0 <= j < i ==> !field_matches(#[trigger] all[j], *address),
        decreases candidates.len() - i,
    {
        if candidates[i].subrecord_index == address.subrecord_index && text_eq(
            candidates[i].path.as_str(),
            address.subrecord_path.as_str(),
        ) && same_scopes_exec(&candidates[i].repeat_scopes, &address.repeat_scopes) {
            assert(field_matches(all[i as int], *address));
            let field = candidates.remove(i);
            return Ok(field);
        }
        i += 1;
    }
    Err(address_error(&address.subrecord_path, "address does not match a grammar assignment"))
}

} // verus!
