//! Integer values that schema expressions read from sibling fields.
use vstd::prelude::*;

use crate::decoded::{DecodedEntry, DecodedValues};
use crate::schema::{SchemaNode, SchemaNodeKind};
use crate::value::{FieldValue, OwnedFieldValue, SpecFieldValue, SpecNamedValue, SpecOwnedValue};

verus! {

/// Integer field values keyed by schema path, each path at most once.
pub struct ExpressionValues {
    entries: Vec<(String, i64)>,
}

impl View for ExpressionValues {
    type V = Map<Seq<char>, i64>;

    closed spec fn view(&self) -> Map<Seq<char>, i64> {
        Map::new(
            |k: Seq<char>| exists|i: int| 0 <= i < self.entries@.len() && (#[trigger] self.entries@[i]).0@ == k,
            |k: Seq<char>|
                self.entries@[choose|i: int|
                    0 <= i < self.entries@.len() && (#[trigger] self.entries@[i]).0@ == k].1,
        )
    }
}

impl ExpressionValues {
    /// Each path occurs once.
    pub closed spec fn wf(&self) -> bool {
        forall|i: int, j: int|
            0 <= i < j < self.entries@.len() ==> (#[trigger] self.entries@[i]).0@ != (
            #[trigger] self.entries@[j]).0@
    }

    proof fn lemma_at(&self, i: int)
        requires
            self.wf(),
            0 <= i < self.entries@.len(),
        ensures
            self@.contains_key(self.entries@[i].0@),
            self@[self.entries@[i].0@] == self.entries@[i].1,
    {
        let k = self.entries@[i].0@;
        assert(exists|j: int| 0 <= j < self.entries@.len() && (#[trigger] self.entries@[j]).0@ == k);
        let j = choose|j: int| 0 <= j < self.entries@.len() && (#[trigger] self.entries@[j]).0@ == k;
        if j < i {
            assert(self.entries@[j].0@ != self.entries@[i].0@);
        } else if j > i {
            assert(self.entries@[i].0@ != self.entries@[j].0@);
        }
    }

    fn position(&self, path: &str) -> (res: Option<usize>)
        requires
            self.wf(),
        ensures
            match res {
                Some(i) => i < self.entries@.len() && self.entries@[i as int].0@ == path@,
                None => !self@.contains_key(path@),
            },
    {
        let mut i: usize = 0;
        while i < self.entries.len()
            invariant
                i <= self.entries@.len(),
                forall|j: int| 0 <= j < i ==> (#[trigger] self.entries@[j]).0@ != path@,
            decreases self.entries.len() - i,
        {
            if crate::text::text_eq(self.entries[i].0.as_str(), path) {
                return Some(i);
            }
            i += 1;
        }
        None
    }

    /// Creates an empty collection.
    pub fn new() -> (res: Self)
        ensures
            res.wf(),
            res@ == Map::<Seq<char>, i64>::empty(),
    {
        let res = ExpressionValues { entries: Vec::new() };
        assert(res@ =~= Map::<Seq<char>, i64>::empty());
        res
    }

    /// Returns the value stored for a path.
    pub fn get(&self, path: &str) -> (res: Option<i64>)
        requires
            self.wf(),
        ensures
            match res {
                Some(v) => self@.contains_key(path@) && self@[path@] == v,
                None => !self@.contains_key(path@),
            },
    {
        match self.position(path) {
            Some(i) => {
                proof {
                    self.lemma_at(i as int);
                }
                Some(self.entries[i].1)
            },
            None => None,
        }
    }

    /// Stores a value for a path, replacing any value it had.
    pub fn insert(&mut self, path: &str, value: i64)
        requires
            old(self).wf(),
        ensures
            final(self).wf(),
            final(self)@ == old(self)@.insert(path@, value),
    {
        let ghost old_self = *self;
        let ghost old_map = self@;
        match self.position(path) {
            Some(i) => {
                self.entries.set(i, (path.to_owned(), value));
                proof {
                    assert forall|k: Seq<char>| #![auto] self@.contains_key(k) <==> old_map.insert(path@, value).contains_key(k) by {
                        if old_map.contains_key(k) {
                            let j = choose|j: int| 0 <= j < old_self.entries@.len() && (#[trigger] old_self.entries@[j]).0@ == k;
                            assert(self.entries@[j].0@ == k);
                        }
                        if self@.contains_key(k) {
                            let j = choose|j: int| 0 <= j < self.entries@.len() && (#[trigger] self.entries@[j]).0@ == k;
                            assert(old_self.entries@[j].0@ == k);
                        }
                        if k == path@ {
                            assert(self.entries@[i as int].0@ == k);
                        }
                    }
                    assert forall|k: Seq<char>| #[trigger] self@.contains_key(k) implies self@[k] == old_map.insert(path@, value)[k] by {
                        let j = choose|j: int| 0 <= j < self.entries@.len() && (#[trigger] self.entries@[j]).0@ == k;
                        self.lemma_at(j);
                        if j != i {
                            old_self.lemma_at(j);
                        }
                    }
                    assert(self@ =~= old_map.insert(path@, value));
                }
            },
            None => {
                self.entries.push((path.to_owned(), value));
                proof {
                    let n = old_self.entries@.len() as int;
                    assert forall|a: int, b: int| 0 <= a < b < self.entries@.len() implies (
                    #[trigger] self.entries@[a]).0@ != (#[trigger] self.entries@[b]).0@ by {
                        if b == n {
                            assert(old_self.entries@[a].0@ != path@) by {
                                if old_self.entries@[a].0@ == path@ {
                                    old_self.lemma_at(a);
                                }
                            }
                        } else {
                            assert(self.entries@[a] == old_self.entries@[a]);
                            assert(self.entries@[b] == old_self.entries@[b]);
                        }
                    }
                    assert forall|k: Seq<char>| #![auto] self@.contains_key(k) <==> old_map.insert(path@, value).contains_key(k) by {
                        if old_map.contains_key(k) {
                            let j = choose|j: int| 0 <= j < old_self.entries@.len() && (#[trigger] old_self.entries@[j]).0@ == k;
                            assert(self.entries@[j].0@ == k);
                        }
                        if self@.contains_key(k) {
                            let j = choose|j: int| 0 <= j < self.entries@.len() && (#[trigger] self.entries@[j]).0@ == k;
                            if j < n {
                                assert(old_self.entries@[j].0@ == k);
                            }
                        }
                        if k == path@ {
                            assert(self.entries@[n].0@ == k);
                        }
                    }
                    assert forall|k: Seq<char>| #[trigger] self@.contains_key(k) implies self@[k] == old_map.insert(path@, value)[k] by {
                        let j = choose|j: int| 0 <= j < self.entries@.len() && (#[trigger] self.entries@[j]).0@ == k;
                        self.lemma_at(j);
                        if j < n {
                            old_self.lemma_at(j);
                        }
                    }
                    assert(self@ =~= old_map.insert(path@, value));
                }
            },
        }
    }
}

/// The integer values a decoded value contributes, folded into `m` in order: integers
/// under their path (unsigned ones only when they fit `i64`), struct members under their
/// own paths, array items under the array's path, so later values win.
pub open spec fn collect_values(
    path: Seq<char>,
    v: SpecFieldValue,
    m: Map<Seq<char>, i64>,
) -> Map<Seq<char>, i64>
    decreases v,
{
    match v {
        SpecFieldValue::Int(x) => m.insert(path, x),
        SpecFieldValue::UInt(x) => if x <= i64::MAX {
            m.insert(path, x as i64)
        } else {
            m
        },
        SpecFieldValue::Flags { value, .. } => if value <= i64::MAX {
            m.insert(path, value as i64)
        } else {
            m
        },
        SpecFieldValue::Enumeration { value, .. } => m.insert(path, value),
        SpecFieldValue::Struct(members) => collect_members(members, m),
        SpecFieldValue::Array(items) => collect_items(path, items, m),
        _ => m,
    }
}

/// Folds the members of a struct, in order.
pub open spec fn collect_members(members: Seq<SpecNamedValue>, m: Map<Seq<char>, i64>) -> Map<
    Seq<char>,
    i64,
>
    decreases members,
{
    if members.len() == 0 {
        m
    } else {
        collect_values(
            members.last().path,
            members.last().value,
            collect_members(members.drop_last(), m),
        )
    }
}

/// Folds the items of an array, in order, all under the array's path.
pub open spec fn collect_items(path: Seq<char>, items: Seq<SpecFieldValue>, m: Map<Seq<char>, i64>) -> Map<
    Seq<char>,
    i64,
>
    decreases items,
{
    if items.len() == 0 {
        m
    } else {
        collect_values(path, items.last(), collect_items(path, items.drop_last(), m))
    }
}

/// Records the integer values of a decoded value for expression evaluation.
pub fn collect_expression_field_values(path: &str, value: &FieldValue, output: &mut ExpressionValues)
    requires
        old(output).wf(),
    ensures
        final(output).wf(),
        final(output)@ == collect_values(path@, value@, old(output)@),
    decreases value,
{
    match value {
        FieldValue::Int(v) => output.insert(path, *v),
        FieldValue::UInt(v) => {
            if *v <= i64::MAX as u64 {
                output.insert(path, *v as i64);
            }
        },
        FieldValue::Flags { value: v, .. } => {
            if *v <= i64::MAX as u64 {
                output.insert(path, *v as i64);
            }
        },
        FieldValue::Enumeration { value: v, .. } => output.insert(path, *v),
        FieldValue::Struct(members) => {
            let ghost view_members = match value@ {
                SpecFieldValue::Struct(x) => x,
                _ => Seq::empty(),
            };
            let ghost start = output@;
            let mut i: usize = 0;
            while i < members.len()
                invariant
                    value matches FieldValue::Struct(x) && x == *members,
                    view_members.len() == members@.len(),
                    forall|j: int| 0 <= j < members@.len() ==> view_members[j] == members@[j]@,
                    i <= members.len(),
                    output.wf(),
                    output@ == collect_members(view_members.take(i as int), start),
                decreases members.len() - i,
            {
                assert(decreases_to!(*value => members@[i as int].value));
                collect_expression_field_values(members[i].path.as_str(), &members[i].value, output);
                i += 1;
                assert(view_members.take(i as int).drop_last() =~= view_members.take((i - 1) as int));
            }
            assert(view_members.take(i as int) =~= view_members);
        },
        FieldValue::Array(items) => {
            let ghost view_items = match value@ {
                SpecFieldValue::Array(x) => x,
                _ => Seq::empty(),
            };
            let ghost start = output@;
            let mut i: usize = 0;
            while i < items.len()
                invariant
                    value matches FieldValue::Array(x) && x == *items,
                    view_items.len() == items@.len(),
                    forall|j: int| 0 <= j < items@.len() ==> view_items[j] == items@[j]@,
                    i <= items.len(),
                    output.wf(),
                    output@ == collect_items(path@, view_items.take(i as int), start),
                decreases items.len() - i,
            {
                assert(decreases_to!(*value => items@[i as int]));
                collect_expression_field_values(path, &items[i], output);
                i += 1;
                assert(view_items.take(i as int).drop_last() =~= view_items.take((i - 1) as int));
            }
            assert(view_items.take(i as int) =~= view_items);
        },
        _ => {},
    }
}

/// Folds the values of decoded entries, in key order.
pub open spec fn collect_entries(entries: Seq<DecodedEntry>) -> Map<Seq<char>, i64>
    decreases entries.len(),
{
    if entries.len() == 0 {
        Map::empty()
    } else {
        collect_values(
            entries.last().path@,
            entries.last().value@,
            collect_entries(entries.drop_last()),
        )
    }
}

/// The integer values of all decoded fields, visited in key order so that a later
/// occurrence overrides an earlier one.
pub fn expression_field_values_from(decoded_values: &DecodedValues) -> (res: ExpressionValues)
    requires
        decoded_values.wf(),
    ensures
        res.wf(),
        res@ == collect_entries(decoded_values.entries()),
{
    let mut output = ExpressionValues::new();
    let n = decoded_values.entry_count();
    let mut i: usize = 0;
    while i < n
        invariant
            n == decoded_values.entries().len(),
            i <= n,
            output.wf(),
            output@ == collect_entries(decoded_values.entries().take(i as int)),
        decreases n - i,
    {
        let entry = decoded_values.entry_at(i);
        collect_expression_field_values(entry.path.as_str(), &entry.value, &mut output);
        i += 1;
        assert(decoded_values.entries().take(i as int).drop_last() =~= decoded_values.entries().take(
            (i - 1) as int,
        ));
    }
    assert(decoded_values.entries().take(i as int) =~= decoded_values.entries());
    output
}

/// The integer values that an owned value contributes when encoded with a schema node,
/// folded into `m` in order: integer, unsigned and FormID primitives under the node's path
/// (unsigned ones only when they fit `i64`), struct members and array items under their
/// own nodes, every union variant in turn, and the child of a wrapping node.
pub open spec fn collect_owned(node: SchemaNode, v: SpecOwnedValue, m: Map<Seq<char>, i64>) -> Map<
    Seq<char>,
    i64,
>
    decreases node, 0nat,
{
    match node.kind {
        SchemaNodeKind::Primitive { .. } => match v {
            SpecOwnedValue::Int(x) => m.insert(node.path@, x),
            SpecOwnedValue::UInt(x) => if x <= i64::MAX {
                m.insert(node.path@, x as i64)
            } else {
                m
            },
            SpecOwnedValue::FormId(f) => m.insert(node.path@, f.0 as i64),
            _ => m,
        },
        SchemaNodeKind::Struct { fields } => match v {
            SpecOwnedValue::Struct(values) => if fields@.len() == values.len() {
                collect_owned_fields(fields@, values, m)
            } else {
                m
            },
            _ => m,
        },
        SchemaNodeKind::Array { element, .. } => match v {
            SpecOwnedValue::Array(values) => collect_owned_items(*element, values, m),
            _ => m,
        },
        SchemaNodeKind::Union { variants, .. } => collect_owned_variants(variants@, v, m),
        SchemaNodeKind::Subrecord { payload, .. } => collect_owned(*payload, v, m),
        SchemaNodeKind::Compressed { child } => collect_owned(*child, v, m),
        SchemaNodeKind::Terminated { child, .. } => collect_owned(*child, v, m),
        _ => m,
    }
}

/// Folds struct members with their nodes, in order.
pub open spec fn collect_owned_fields(
    fields: Seq<SchemaNode>,
    values: Seq<SpecOwnedValue>,
    m: Map<Seq<char>, i64>,
) -> Map<Seq<char>, i64>
    decreases fields, 0nat,
{
    if fields.len() == 0 {
        m
    } else {
        collect_owned(
            fields.last(),
            values[fields.len() - 1],
            collect_owned_fields(fields.drop_last(), values, m),
        )
    }
}

/// Folds array items with the element node, in order.
pub open spec fn collect_owned_items(
    element: SchemaNode,
    values: Seq<SpecOwnedValue>,
    m: Map<Seq<char>, i64>,
) -> Map<Seq<char>, i64>
    decreases element, values.len(),
{
    if values.len() == 0 {
        m
    } else {
        collect_owned(element, values.last(), collect_owned_items(element, values.drop_last(), m))
    }
}

/// Folds one value with every union variant, in order.
pub open spec fn collect_owned_variants(
    variants: Seq<SchemaNode>,
    v: SpecOwnedValue,
    m: Map<Seq<char>, i64>,
) -> Map<Seq<char>, i64>
    decreases variants, 0nat,
{
    if variants.len() == 0 {
        m
    } else {
        collect_owned(variants.last(), v, collect_owned_variants(variants.drop_last(), v, m))
    }
}

/// Records the integer values that an owned value supplies to expressions of the node
/// it is encoded with.
pub fn collect_owned_expression_field_values(
    node: &SchemaNode,
    value: &OwnedFieldValue,
    output: &mut ExpressionValues,
)
    requires
        old(output).wf(),
    ensures
        final(output).wf(),
        final(output)@ == collect_owned(*node, value@, old(output)@),
    decreases node,
{
    match &node.kind {
        SchemaNodeKind::Primitive { .. } => match value {
            OwnedFieldValue::Int(v) => output.insert(node.path.as_str(), *v),
            OwnedFieldValue::UInt(v) => {
                if *v <= i64::MAX as u64 {
                    output.insert(node.path.as_str(), *v as i64);
                }
            },
            OwnedFieldValue::FormId(f) => output.insert(node.path.as_str(), f.0 as i64),
            _ => {},
        },
        SchemaNodeKind::Struct { fields } => match value {
            OwnedFieldValue::Struct(values) => {
                if fields.len() == values.len() {
                    let ghost vs = value@->Struct_0;
                    let ghost start = output@;
                    let mut i: usize = 0;
                    while i < fields.len()
                        invariant
                            node.kind matches SchemaNodeKind::Struct { fields: f } && f == *fields,
                            vs.len() == values@.len() == fields@.len(),
                            forall|j: int| 0 <= j < vs.len() ==> vs[j] == (#[trigger] values@[j])@,
                            i <= fields@.len(),
                            output.wf(),
                            output@ == collect_owned_fields(fields@.take(i as int), vs, start),
                        decreases fields.len() - i,
                    {
                        assert(decreases_to!(*node => fields@[i as int]));
                        collect_owned_expression_field_values(&fields[i], &values[i], output);
                        i += 1;
                        assert(fields@.take(i as int).drop_last() =~= fields@.take((i - 1) as int));
                    }
                    assert(fields@.take(i as int) =~= fields@);
                }
            },
            _ => {},
        },
        SchemaNodeKind::Array { element, .. } => match value {
            OwnedFieldValue::Array(values) => {
                let ghost vs = value@->Array_0;
                let ghost start = output@;
                let mut i: usize = 0;
                while i < values.len()
                    invariant
                        node.kind matches SchemaNodeKind::Array { element: el, .. } && el == *element,
                        vs.len() == values@.len(),
                        forall|j: int| 0 <= j < vs.len() ==> vs[j] == (#[trigger] values@[j])@,
                        i <= values@.len(),
                        output.wf(),
                        output@ == collect_owned_items(**element, vs.take(i as int), start),
                    decreases values.len() - i,
                {
                    assert(decreases_to!(*node => **element));
                    collect_owned_expression_field_values(element, &values[i], output);
                    i += 1;
                    assert(vs.take(i as int).drop_last() =~= vs.take((i - 1) as int));
                }
                assert(vs.take(i as int) =~= vs);
            },
            _ => {},
        },
        SchemaNodeKind::Union { variants, .. } => {
            let ghost start = output@;
            let mut i: usize = 0;
            while i < variants.len()
                invariant
                    node.kind matches SchemaNodeKind::Union { variants: vs, .. } && vs == *variants,
                    i <= variants@.len(),
                    output.wf(),
                    output@ == collect_owned_variants(variants@.take(i as int), value@, start),
                decreases variants.len() - i,
            {
                assert(decreases_to!(*node => variants@[i as int]));
                collect_owned_expression_field_values(&variants[i], value, output);
                i += 1;
                assert(variants@.take(i as int).drop_last() =~= variants@.take((i - 1) as int));
            }
            assert(variants@.take(i as int) =~= variants@);
        },
        SchemaNodeKind::Subrecord { payload, .. } => {
            assert(decreases_to!(*node => **payload));
            collect_owned_expression_field_values(payload, value, output);
        },
        SchemaNodeKind::Compressed { child } => {
            assert(decreases_to!(*node => **child));
            collect_owned_expression_field_values(child, value, output);
        },
        SchemaNodeKind::Terminated { child, .. } => {
            assert(decreases_to!(*node => **child));
            collect_owned_expression_field_values(child, value, output);
        },
        _ => {},
    }
}

} // verus!
