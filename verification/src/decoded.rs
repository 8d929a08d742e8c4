//! Decoded field values of a record, keyed by schema path and occurrence.
use vstd::prelude::*;

use crate::value::{FieldValue, SpecFieldValue};

verus! {

/// Lexicographic order of byte sequences, a proper prefix first.
pub open spec fn bytes_lt(x: Seq<u8>, y: Seq<u8>) -> bool
    decreases x.len(),
{
    if x.len() == 0 {
        y.len() > 0
    } else if y.len() == 0 {
        false
    } else if x[0] != y[0] {
        x[0] < y[0]
    } else {
        bytes_lt(x.drop_first(), y.drop_first())
    }
}

/// Order of texts: the byte order of their UTF-8 encodings.
pub open spec fn text_lt(a: Seq<char>, b: Seq<char>) -> bool {
    bytes_lt(vstd::utf8::encode_utf8(a), vstd::utf8::encode_utf8(b))
}

/// Key of a decoded value: its schema path and occurrence.
pub type DecodedKey = (Seq<char>, usize);

/// Order of keys: by path, then by occurrence.
pub open spec fn key_lt(a: DecodedKey, b: DecodedKey) -> bool {
    text_lt(a.0, b.0) || (a.0 == b.0 && a.1 < b.1)
}

proof fn lemma_bytes_lt_irreflexive(x: Seq<u8>)
    ensures
        !bytes_lt(x, x),
    decreases x.len(),
{
    if x.len() > 0 {
        lemma_bytes_lt_irreflexive(x.drop_first());
    }
}

proof fn lemma_bytes_lt_transitive(x: Seq<u8>, y: Seq<u8>, z: Seq<u8>)
    requires
        bytes_lt(x, y),
        bytes_lt(y, z),
    ensures
        bytes_lt(x, z),
    decreases x.len(),
{
    if x.len() > 0 && y.len() > 0 && z.len() > 0 && x[0] == y[0] && y[0] == z[0] {
        lemma_bytes_lt_transitive(x.drop_first(), y.drop_first(), z.drop_first());
    }
}

proof fn lemma_bytes_lt_total(x: Seq<u8>, y: Seq<u8>)
    requires
        x != y,
    ensures
        bytes_lt(x, y) || bytes_lt(y, x),
    decreases x.len(),
{
    if x.len() > 0 && y.len() > 0 && x[0] == y[0] {
        if x.drop_first() == y.drop_first() {
            assert(x =~= seq![x[0]] + x.drop_first());
            assert(y =~= seq![y[0]] + y.drop_first());
        }
        lemma_bytes_lt_total(x.drop_first(), y.drop_first());
    } else if x.len() == 0 && y.len() == 0 {
        assert(x =~= y);
    }
}

proof fn lemma_bytes_lt_asymmetric(x: Seq<u8>, y: Seq<u8>)
    requires
        bytes_lt(x, y),
    ensures
        !bytes_lt(y, x),
{
    if bytes_lt(y, x) {
        lemma_bytes_lt_transitive(x, y, x);
        lemma_bytes_lt_irreflexive(x);
    }
}

/// Key order is a strict total order.
pub proof fn lemma_key_order(a: DecodedKey, b: DecodedKey, c: DecodedKey)
    ensures
        !key_lt(a, a),
        key_lt(a, b) ==> !key_lt(b, a),
        key_lt(a, b) && key_lt(b, c) ==> key_lt(a, c),
        a != b ==> key_lt(a, b) || key_lt(b, a),
{
    let ea = vstd::utf8::encode_utf8(a.0);
    let eb = vstd::utf8::encode_utf8(b.0);
    let ec = vstd::utf8::encode_utf8(c.0);
    lemma_bytes_lt_irreflexive(ea);
    if text_lt(a.0, b.0) {
        lemma_bytes_lt_asymmetric(ea, eb);
    }
    if key_lt(a, b) && key_lt(b, c) {
        if text_lt(a.0, b.0) && text_lt(b.0, c.0) {
            lemma_bytes_lt_transitive(ea, eb, ec);
        }
    }
    if a.0 != b.0 {
        vstd::utf8::encode_utf8_decode_utf8(a.0);
        vstd::utf8::encode_utf8_decode_utf8(b.0);
        lemma_bytes_lt_total(ea, eb);
    }
}

/// Whether the byte order of `a` comes before that of `b`.
pub fn text_less(a: &str, b: &str) -> (res: bool)
    ensures
        res == text_lt(a@, b@),
{
    let x = a.as_bytes();
    let y = b.as_bytes();
    let mut i: usize = 0;
    assert(x@.skip(0) =~= x@);
    assert(y@.skip(0) =~= y@);
    while i < x.len() && i < y.len() && x[i] == y[i]
        invariant
            i <= x@.len(),
            i <= y@.len(),
            x@ == vstd::utf8::encode_utf8(a@),
            y@ == vstd::utf8::encode_utf8(b@),
            bytes_lt(x@, y@) == bytes_lt(x@.skip(i as int), y@.skip(i as int)),
        decreases x.len() - i,
    {
        assert(x@.skip(i as int).drop_first() =~= x@.skip(i + 1));
        assert(y@.skip(i as int).drop_first() =~= y@.skip(i + 1));
        i += 1;
    }
    if i == x.len() {
        i < y.len()
    } else if i == y.len() {
        false
    } else {
        x[i] < y[i]
    }
}

/// One decoded value with its key.
pub struct DecodedEntry {
    /// Stable schema path of the field.
    pub path: String,
    /// Occurrence of the path among the record's fields.
    pub occurrence: usize,
    /// Decoded value.
    pub value: FieldValue,
}

/// Decoded values of a record, ordered by key, each key at most once.
pub struct DecodedValues {
    entries: Vec<DecodedEntry>,
}

/// Key of an entry.
pub open spec fn entry_key(e: DecodedEntry) -> DecodedKey {
    (e.path@, e.occurrence)
}

/// Whether entries are strictly ordered by key.
pub open spec fn sorted_entries(s: Seq<DecodedEntry>) -> bool {
    forall|i: int, j: int| 0 <= i < j < s.len() ==> key_lt(entry_key(#[trigger] s[i]), entry_key(#[trigger] s[j]))
}

/// The map that an ordered entry list stands for.
pub open spec fn entries_map(s: Seq<DecodedEntry>) -> Map<DecodedKey, SpecFieldValue> {
    Map::new(
        |k: DecodedKey| exists|i: int| 0 <= i < s.len() && entry_key(#[trigger] s[i]) == k,
        |k: DecodedKey|
            s[choose|i: int| 0 <= i < s.len() && entry_key(#[trigger] s[i]) == k].value@,
    )
}

/// In ordered entries each key occurs once, so the map holds the entry's value.
pub proof fn lemma_entries_map_at(s: Seq<DecodedEntry>, i: int)
    requires
        sorted_entries(s),
        0 <= i < s.len(),
    ensures
        entries_map(s).contains_key(entry_key(s[i])),
        entries_map(s)[entry_key(s[i])] == s[i].value@,
{
    let k = entry_key(s[i]);
    assert(exists|j: int| 0 <= j < s.len() && entry_key(#[trigger] s[j]) == k);
    let j = choose|j: int| 0 <= j < s.len() && entry_key(#[trigger] s[j]) == k;
    if j != i {
        lemma_key_order(k, k, k);
        if j < i {
            assert(key_lt(entry_key(s[j]), entry_key(s[i])));
        } else {
            assert(key_lt(entry_key(s[i]), entry_key(s[j])));
        }
    }
}

/// A key is in the map exactly when some entry carries it.
pub proof fn lemma_entries_map_dom(s: Seq<DecodedEntry>, k: DecodedKey)
    ensures
        entries_map(s).contains_key(k) <==> exists|i: int|
            0 <= i < s.len() && entry_key(#[trigger] s[i]) == k,
{
}

/// The decoded values after removing one occurrence of a path: later occurrences of
/// that path move down by one, every other key keeps its value.
pub open spec fn removed_occurrence(
    m: Map<DecodedKey, SpecFieldValue>,
    path: Seq<char>,
    occurrence: usize,
) -> Map<DecodedKey, SpecFieldValue> {
    Map::new(
        |k: DecodedKey|
            if k.0 == path && k.1 >= occurrence {
                k.1 < usize::MAX && m.contains_key((path, (k.1 + 1) as usize))
            } else {
                m.contains_key(k)
            },
        |k: DecodedKey|
            if k.0 == path && k.1 >= occurrence {
                m[(path, (k.1 + 1) as usize)]
            } else {
                m[k]
            },
    )
}

/// Where a kept key lands when one occurrence of `path` is removed.
pub open spec fn down_key(k: DecodedKey, path: Seq<char>, occurrence: usize) -> DecodedKey {
    if k.0 == path && k.1 > occurrence {
        (k.0, (k.1 - 1) as usize)
    } else {
        k
    }
}

proof fn lemma_down_key_monotone(a: DecodedKey, b: DecodedKey, path: Seq<char>, occurrence: usize)
    requires
        key_lt(a, b),
        a != (path, occurrence),
        b != (path, occurrence),
    ensures
        key_lt(down_key(a, path, occurrence), down_key(b, path, occurrence)),
{
}

/// The decoded values after every occurrence of `path` from `occurrence` on moved up by
/// one. The largest occurrence cannot move; when the one below it moves onto it, the
/// moved value wins.
pub open spec fn shifted_up(
    m: Map<DecodedKey, SpecFieldValue>,
    path: Seq<char>,
    occurrence: usize,
) -> Map<DecodedKey, SpecFieldValue> {
    Map::new(
        |k: DecodedKey|
            if k.0 == path && k.1 >= occurrence {
                if k.1 == occurrence {
                    occurrence == usize::MAX && m.contains_key((path, usize::MAX))
                } else if k.1 < usize::MAX {
                    m.contains_key((path, (k.1 - 1) as usize))
                } else {
                    m.contains_key((path, (usize::MAX - 1) as usize)) || m.contains_key(
                        (path, usize::MAX),
                    )
                }
            } else {
                m.contains_key(k)
            },
        |k: DecodedKey|
            if k.0 == path && k.1 >= occurrence {
                if k.1 == occurrence {
                    m[(path, usize::MAX)]
                } else if k.1 < usize::MAX {
                    m[(path, (k.1 - 1) as usize)]
                } else if m.contains_key((path, (usize::MAX - 1) as usize)) {
                    m[(path, (usize::MAX - 1) as usize)]
                } else {
                    m[(path, usize::MAX)]
                }
            } else {
                m[k]
            },
    )
}

/// The decoded values after inserting `value` as occurrence `occurrence` of `path`.
pub open spec fn inserted_occurrence(
    m: Map<DecodedKey, SpecFieldValue>,
    path: Seq<char>,
    occurrence: usize,
    value: SpecFieldValue,
) -> Map<DecodedKey, SpecFieldValue> {
    shifted_up(m, path, occurrence).insert((path, occurrence), value)
}

/// Where a key lands when occurrences of `path` from `occurrence` on move up.
pub open spec fn up_key(k: DecodedKey, path: Seq<char>, occurrence: usize) -> DecodedKey {
    if k.0 == path && k.1 >= occurrence {
        (
            k.0,
            if k.1 == usize::MAX {
                usize::MAX
            } else {
                (k.1 + 1) as usize
            },
        )
    } else {
        k
    }
}

proof fn lemma_up_key_monotone(a: DecodedKey, b: DecodedKey, path: Seq<char>, occurrence: usize)
    requires
        key_lt(a, b),
        !(b == (path, usize::MAX) && a == (path, (usize::MAX - 1) as usize) && occurrence
            < usize::MAX),
    ensures
        key_lt(up_key(a, path, occurrence), up_key(b, path, occurrence)),
{
}

/// In ordered entries, no key lies strictly between two neighbours.
proof fn lemma_adjacent(s: Seq<DecodedEntry>, i: int, j: int, path: Seq<char>)
    requires
        sorted_entries(s),
        0 <= i < j < s.len(),
        entry_key(s[i]) == (path, (usize::MAX - 1) as usize),
        entry_key(s[j]) == (path, usize::MAX),
    ensures
        j == i + 1,
{
    if j > i + 1 {
        let x = entry_key(s[i + 1]);
        assert(key_lt(entry_key(s[i]), x));
        assert(key_lt(x, entry_key(s[j])));
        let p = (path, (usize::MAX - 1) as usize);
        let q = (path, usize::MAX);
        lemma_key_order(p, x, q);
        if x.0 != path {
            lemma_key_order(x, p, q);
            let ex = vstd::utf8::encode_utf8(x.0);
            let ep = vstd::utf8::encode_utf8(path);
            lemma_bytes_lt_asymmetric(ep, ex);
        }
    }
}

fn key_less(a_path: &str, a_occurrence: usize, b_path: &str, b_occurrence: usize) -> (res: bool)
    ensures
        res == key_lt((a_path@, a_occurrence), (b_path@, b_occurrence)),
{
    text_less(a_path, b_path) || (crate::text::text_eq(a_path, b_path) && a_occurrence
        < b_occurrence)
}

impl DecodedValues {
    /// The entries in key order.
    pub closed spec fn entries(&self) -> Seq<DecodedEntry> {
        self.entries@
    }

    /// Entries are strictly ordered by key.
    pub closed spec fn wf(&self) -> bool {
        sorted_entries(self.entries@)
    }

    /// Creates an empty collection.
    pub fn new() -> (res: Self)
        ensures
            res.wf(),
            res@ == Map::<DecodedKey, SpecFieldValue>::empty(),
    {
        let res = DecodedValues { entries: Vec::new() };
        assert(res@ =~= Map::<DecodedKey, SpecFieldValue>::empty());
        res
    }

    /// Number of stored values.
    pub fn entry_count(&self) -> (res: usize)
        ensures
            res == self.entries().len(),
    {
        self.entries.len()
    }

    /// The entry at a position of the key order.
    pub fn entry_at(&self, i: usize) -> (res: &DecodedEntry)
        requires
            i < self.entries().len(),
        ensures
            *res == self.entries()[i as int],
    {
        &self.entries[i]
    }

    /// Index of the first entry whose key is not below the given key.
    fn lower_bound(&self, path: &str, occurrence: usize) -> (res: usize)
        requires
            self.wf(),
        ensures
            res <= self.entries@.len(),
            forall|j: int|
                0 <= j < res ==> key_lt(
                    entry_key(#[trigger] self.entries@[j]),
                    (path@, occurrence),
                ),
            res < self.entries@.len() ==> !key_lt(
                entry_key(self.entries@[res as int]),
                (path@, occurrence),
            ),
    {
        let mut i: usize = 0;
        while i < self.entries.len() && key_less(
            self.entries[i].path.as_str(),
            self.entries[i].occurrence,
            path,
            occurrence,
        )
            invariant
                i <= self.entries@.len(),
                forall|j: int|
                    0 <= j < i ==> key_lt(
                        entry_key(#[trigger] self.entries@[j]),
                        (path@, occurrence),
                    ),
            decreases self.entries.len() - i,
        {
            i += 1;
        }
        i
    }

    /// Returns the value stored for a path occurrence.
    pub fn get(&self, path: &str, occurrence: usize) -> (res: Option<&FieldValue>)
        requires
            self.wf(),
        ensures
            match res {
                Some(v) => self@.contains_key((path@, occurrence)) && v@ == self@[(
                    path@,
                    occurrence,
                )],
                None => !self@.contains_key((path@, occurrence)),
            },
    {
        let i = self.lower_bound(path, occurrence);
        if i < self.entries.len() && self.entries[i].occurrence == occurrence
            && crate::text::text_eq(self.entries[i].path.as_str(), path) {
            proof {
                lemma_entries_map_at(self.entries@, i as int);
            }
            Some(&self.entries[i].value)
        } else {
            proof {
                let k = (path@, occurrence);
                if self@.contains_key(k) {
                    let j = choose|j: int|
                        0 <= j < self.entries@.len() && entry_key(#[trigger] self.entries@[j]) == k;
                    lemma_key_order(k, entry_key(self.entries@[i as int]), k);
                    if j < i {
                        assert(key_lt(entry_key(self.entries@[j]), k));
                    } else if j > i {
                        assert(key_lt(entry_key(self.entries@[i as int]), entry_key(self.entries@[j])));
                    }
                }
            }
            None
        }
    }

    /// Stores a value for a path occurrence, replacing any value it had.
    pub fn insert(&mut self, path: String, occurrence: usize, value: FieldValue)
        requires
            old(self).wf(),
        ensures
            final(self).wf(),
            final(self)@ == old(self)@.insert((path@, occurrence), value@),
    {
        let i = self.lower_bound(path.as_str(), occurrence);
        let ghost k = (path@, occurrence);
        let ghost old_entries = self.entries@;
        let ghost old_map = self@;
        if i < self.entries.len() && self.entries[i].occurrence == occurrence
            && crate::text::text_eq(self.entries[i].path.as_str(), path.as_str()) {
            self.entries.set(i, DecodedEntry { path, occurrence, value });
            proof {
                assert forall|a: int, b: int| 0 <= a < b < self.entries@.len() implies key_lt(
                    entry_key(#[trigger] self.entries@[a]),
                    entry_key(#[trigger] self.entries@[b]),
                ) by {
                    assert(entry_key(self.entries@[a]) == entry_key(old_entries[a]));
                    assert(entry_key(self.entries@[b]) == entry_key(old_entries[b]));
                }
                assert forall|key: DecodedKey| #![auto] self@.contains_key(key) <==> old_map.insert(k, value@).contains_key(key) by {
                    lemma_entries_map_dom(self.entries@, key);
                    lemma_entries_map_dom(old_entries, key);
                    if old_map.contains_key(key) {
                        let j = choose|j: int| 0 <= j < old_entries.len() && entry_key(#[trigger] old_entries[j]) == key;
                        assert(entry_key(self.entries@[j]) == key);
                    }
                    if self@.contains_key(key) {
                        let j = choose|j: int| 0 <= j < self.entries@.len() && entry_key(#[trigger] self.entries@[j]) == key;
                        assert(entry_key(old_entries[j]) == key);
                    }
                }
                assert forall|key: DecodedKey| #[trigger] self@.contains_key(key) implies self@[key] == old_map.insert(k, value@)[key] by {
                    let j = choose|j: int| 0 <= j < self.entries@.len() && entry_key(#[trigger] self.entries@[j]) == key;
                    lemma_entries_map_at(self.entries@, j);
                    if j != i {
                        lemma_entries_map_at(old_entries, j);
                    }
                }
                assert(self@ =~= old_map.insert(k, value@));
            }
        } else {
            proof {
                if i < old_entries.len() {
                    lemma_key_order(entry_key(old_entries[i as int]), k, k);
                }
            }
            self.entries.insert(i, DecodedEntry { path, occurrence, value });
            proof {
                assert forall|a: int, b: int| 0 <= a < b < self.entries@.len() implies key_lt(
                    entry_key(#[trigger] self.entries@[a]),
                    entry_key(#[trigger] self.entries@[b]),
                ) by {
                    if a < i && b > i {
                        lemma_key_order(entry_key(old_entries[a]), k, entry_key(old_entries[b - 1]));
                    } else if a == i && b > i + 1 {
                        lemma_key_order(k, entry_key(old_entries[i as int]), entry_key(old_entries[b - 1]));
                    } else if a < i && b < i {
                    } else if a > i {
                        assert(key_lt(entry_key(old_entries[a - 1]), entry_key(old_entries[b - 1])));
                    }
                }
                assert forall|key: DecodedKey| #![auto] self@.contains_key(key) <==> old_map.insert(k, value@).contains_key(key) by {
                    lemma_entries_map_dom(self.entries@, key);
                    lemma_entries_map_dom(old_entries, key);
                    if old_map.contains_key(key) {
                        let j = choose|j: int| 0 <= j < old_entries.len() && entry_key(#[trigger] old_entries[j]) == key;
                        if j < i {
                            assert(entry_key(self.entries@[j]) == key);
                        } else {
                            assert(entry_key(self.entries@[j + 1]) == key);
                        }
                    }
                    if key == k {
                        assert(entry_key(self.entries@[i as int]) == key);
                    }
                    if self@.contains_key(key) {
                        let j = choose|j: int| 0 <= j < self.entries@.len() && entry_key(#[trigger] self.entries@[j]) == key;
                        if j < i {
                            assert(entry_key(old_entries[j]) == key);
                        } else if j > i {
                            assert(entry_key(old_entries[j - 1]) == key);
                        }
                    }
                }
                assert forall|key: DecodedKey| #[trigger] self@.contains_key(key) implies self@[key] == old_map.insert(k, value@)[key] by {
                    let j = choose|j: int| 0 <= j < self.entries@.len() && entry_key(#[trigger] self.entries@[j]) == key;
                    lemma_entries_map_at(self.entries@, j);
                    if j < i {
                        lemma_entries_map_at(old_entries, j);
                        lemma_key_order(key, k, key);
                    } else if j > i {
                        lemma_entries_map_at(old_entries, j - 1);
                        lemma_key_order(key, k, key);
                    }
                }
                assert(self@ =~= old_map.insert(k, value@));
            }
        }
    }
}

impl DecodedValues {
    /// Removes one occurrence of a path and renumbers its later occurrences.
    pub fn remove_occurrence(&mut self, path: &str, occurrence: usize)
        requires
            old(self).wf(),
        ensures
            final(self).wf(),
            final(self)@ == removed_occurrence(old(self)@, path@, occurrence),
    {
        let ghost old_entries = self.entries@;
        let ghost old_map = self@;
        let ghost target = (path@, occurrence);
        let n = self.entries.len();
        let mut out: Vec<DecodedEntry> = Vec::new();
        let ghost mut r: int = n as int;
        let mut t: usize = 0;
        while t < n
            invariant
                n == old_entries.len(),
                target == (path@, occurrence),
                self.entries@ == old_entries,
                sorted_entries(old_entries),
                t <= n,
                0 <= r <= n,
                r < n ==> r < t && entry_key(old_entries[r]) == target,
                forall|j: int| 0 <= j < t && j != r ==> entry_key(#[trigger] old_entries[j]) != target,
                out@.len() == (if r < t { t - 1 } else { t as int }),
                forall|u: int|
                    0 <= u < out@.len() ==> {
                        let j = if u < r {
                            u
                        } else {
                            u + 1
                        };
                        &&& entry_key(#[trigger] out@[u]) == down_key(
                            entry_key(old_entries[j]),
                            path@,
                            occurrence,
                        )
                        &&& out@[u].value@ == old_entries[j].value@
                    },
                sorted_entries(out@),
            decreases n - t,
        {
            let e = &self.entries[t];
            let same = crate::text::text_eq(e.path.as_str(), path);
            if same && e.occurrence == occurrence {
                proof {
                    if r < n {
                        assert(key_lt(entry_key(old_entries[r]), entry_key(old_entries[t as int])));
                        lemma_key_order(target, target, target);
                    }
                    r = t as int;
                }
            } else {
                let new_occurrence = if same && e.occurrence > occurrence {
                    e.occurrence - 1
                } else {
                    e.occurrence
                };
                let ghost before = out@;
                out.push(
                    DecodedEntry {
                        path: e.path.clone(),
                        occurrence: new_occurrence,
                        value: e.value.clone(),
                    },
                );
                proof {
                    let last = before.len() as int;
                    assert(entry_key(out@[last]) == down_key(entry_key(old_entries[t as int]), path@, occurrence));
                    assert forall|a: int, b: int| 0 <= a < b < out@.len() implies key_lt(
                        entry_key(#[trigger] out@[a]),
                        entry_key(#[trigger] out@[b]),
                    ) by {
                        if b == last {
                            let ja = if a < r {
                                a
                            } else {
                                a + 1
                            };
                            assert(ja < t && ja != r);
                            assert(entry_key(old_entries[ja]) != target);
                            assert(entry_key(out@[a]) == down_key(entry_key(old_entries[ja]), path@, occurrence));
                            assert(key_lt(entry_key(old_entries[ja]), entry_key(old_entries[t as int])));
                            lemma_down_key_monotone(
                                entry_key(old_entries[ja]),
                                entry_key(old_entries[t as int]),
                                path@,
                                occurrence,
                            );
                        } else {
                            assert(out@[a] == before[a]);
                            assert(out@[b] == before[b]);
                        }
                    }
                }
            }
            t += 1;
        }
        proof {
            let res = entries_map(out@);
            let spec_map = removed_occurrence(old_map, path@, occurrence);
            assert forall|k: DecodedKey| #![auto] res.contains_key(k) implies spec_map.contains_key(k) && res[k] == spec_map[k] by {
                let u = choose|u: int| 0 <= u < out@.len() && entry_key(#[trigger] out@[u]) == k;
                let j = if u < r {
                    u
                } else {
                    u + 1
                };
                lemma_entries_map_at(out@, u);
                lemma_entries_map_at(old_entries, j);
                assert(entry_key(old_entries[j]) != target);
            }
            assert forall|k: DecodedKey| #![auto] spec_map.contains_key(k) implies res.contains_key(k) by {
                let src = if k.0 == path@ && k.1 >= occurrence {
                    (path@, (k.1 + 1) as usize)
                } else {
                    k
                };
                assert(old_map.contains_key(src));
                let j = choose|j: int| 0 <= j < old_entries.len() && entry_key(#[trigger] old_entries[j]) == src;
                assert(j != r) by {
                    if j == r {
                        lemma_entries_map_at(old_entries, j);
                    }
                }
                let u = if j < r {
                    j
                } else {
                    j - 1
                };
                assert(entry_key(out@[u]) == k);
            }
            assert(res =~= spec_map);
        }
        self.entries = out;
    }
}

impl DecodedValues {
    fn shift_up(&mut self, path: &str, occurrence: usize)
        requires
            old(self).wf(),
        ensures
            final(self).wf(),
            final(self)@ == shifted_up(old(self)@, path@, occurrence),
    {
        let ghost old_entries = self.entries@;
        let ghost old_map = self@;
        let ghost top = (path@, usize::MAX);
        let ghost below_top = (path@, (usize::MAX - 1) as usize);
        let n = self.entries.len();
        let mut out: Vec<DecodedEntry> = Vec::new();
        let ghost mut d: int = n as int;
        let mut t: usize = 0;
        while t < n
            invariant
                n == old_entries.len(),
                top == (path@, usize::MAX),
                below_top == (path@, (usize::MAX - 1) as usize),
                self.entries@ == old_entries,
                sorted_entries(old_entries),
                t <= n,
                0 <= d <= n,
                d < n ==> d < t && 0 < d && entry_key(old_entries[d]) == top && entry_key(
                    old_entries[d - 1],
                ) == below_top && occurrence < usize::MAX,
                forall|j: int|
                    0 < j < t && j != d && entry_key(#[trigger] old_entries[j]) == top && occurrence
                        < usize::MAX ==> entry_key(old_entries[j - 1]) != below_top,
                out@.len() == (if d < t { t - 1 } else { t as int }),
                forall|u: int|
                    0 <= u < out@.len() ==> {
                        let j = if u < d {
                            u
                        } else {
                            u + 1
                        };
                        &&& entry_key(#[trigger] out@[u]) == up_key(
                            entry_key(old_entries[j]),
                            path@,
                            occurrence,
                        )
                        &&& out@[u].value@ == old_entries[j].value@
                    },
                sorted_entries(out@),
            decreases n - t,
        {
            let e = &self.entries[t];
            let same = crate::text::text_eq(e.path.as_str(), path);
            let collides = same && e.occurrence == usize::MAX && occurrence < usize::MAX && t > 0
                && self.entries[t - 1].occurrence == usize::MAX - 1 && crate::text::text_eq(
                self.entries[t - 1].path.as_str(),
                path,
            );
            if collides {
                proof {
                    if d < n {
                        assert(key_lt(entry_key(old_entries[d]), entry_key(old_entries[t as int])));
                        lemma_key_order(top, top, top);
                    }
                    d = t as int;
                }
            } else {
                let new_occurrence = if same && e.occurrence >= occurrence {
                    if e.occurrence == usize::MAX {
                        usize::MAX
                    } else {
                        e.occurrence + 1
                    }
                } else {
                    e.occurrence
                };
                let ghost before = out@;
                out.push(
                    DecodedEntry {
                        path: e.path.clone(),
                        occurrence: new_occurrence,
                        value: e.value.clone(),
                    },
                );
                proof {
                    let last = before.len() as int;
                    assert forall|a: int, b: int| 0 <= a < b < out@.len() implies key_lt(
                        entry_key(#[trigger] out@[a]),
                        entry_key(#[trigger] out@[b]),
                    ) by {
                        if b == last {
                            let ja = if a < d {
                                a
                            } else {
                                a + 1
                            };
                            assert(ja < t && ja != d);
                            assert(entry_key(out@[a]) == up_key(entry_key(old_entries[ja]), path@, occurrence));
                            assert(key_lt(entry_key(old_entries[ja]), entry_key(old_entries[t as int])));
                            if entry_key(old_entries[t as int]) == top && entry_key(old_entries[ja])
                                == below_top && occurrence < usize::MAX {
                                lemma_adjacent(old_entries, ja, t as int, path@);
                            }
                            lemma_up_key_monotone(
                                entry_key(old_entries[ja]),
                                entry_key(old_entries[t as int]),
                                path@,
                                occurrence,
                            );
                        } else {
                            assert(out@[a] == before[a]);
                            assert(out@[b] == before[b]);
                        }
                    }
                }
            }
            t += 1;
        }
        proof {
            let res = entries_map(out@);
            let spec_map = shifted_up(old_map, path@, occurrence);
            assert forall|k: DecodedKey| #![auto] res.contains_key(k) implies spec_map.contains_key(k) && res[k] == spec_map[k] by {
                let u = choose|u: int| 0 <= u < out@.len() && entry_key(#[trigger] out@[u]) == k;
                let j = if u < d {
                    u
                } else {
                    u + 1
                };
                lemma_entries_map_at(out@, u);
                lemma_entries_map_at(old_entries, j);
                if entry_key(old_entries[j]) == top && occurrence < usize::MAX && old_map.contains_key(below_top) {
                    let i = choose|i: int| 0 <= i < old_entries.len() && entry_key(#[trigger] old_entries[i]) == below_top;
                    lemma_key_order(below_top, top, top);
                    if i > j {
                        assert(key_lt(entry_key(old_entries[j]), entry_key(old_entries[i])));
                    }
                    lemma_adjacent(old_entries, i, j, path@);
                }
                if entry_key(old_entries[j]) == below_top && occurrence < usize::MAX {
                    lemma_entries_map_at(old_entries, j);
                }
            }
            assert forall|k: DecodedKey| #![auto] spec_map.contains_key(k) implies res.contains_key(k) by {
                let src = if k.0 == path@ && k.1 >= occurrence {
                    if k.1 == occurrence {
                        top
                    } else if k.1 < usize::MAX {
                        (path@, (k.1 - 1) as usize)
                    } else if old_map.contains_key(below_top) {
                        below_top
                    } else {
                        top
                    }
                } else {
                    k
                };
                assert(old_map.contains_key(src));
                let j = choose|j: int| 0 <= j < old_entries.len() && entry_key(#[trigger] old_entries[j]) == src;
                assert(j != d) by {
                    if j == d {
                        lemma_entries_map_at(old_entries, d - 1);
                    }
                }
                let u = if j < d {
                    j
                } else {
                    j - 1
                };
                assert(entry_key(out@[u]) == k);
            }
            assert(res =~= spec_map);
        }
        self.entries = out;
    }

    /// Inserts a value as one occurrence of a path, moving that path's later
    /// occurrences up by one.
    pub fn insert_occurrence(&mut self, path: &str, occurrence: usize, value: FieldValue)
        requires
            old(self).wf(),
        ensures
            final(self).wf(),
            final(self)@ == inserted_occurrence(old(self)@, path@, occurrence, value@),
    {
        self.shift_up(path, occurrence);
        self.insert(path.to_owned(), occurrence, value);
    }
}

impl DecodedValues {
    /// Whether no value is stored.
    pub fn is_empty(&self) -> (res: bool)
        ensures
            res <==> self@ =~= Map::<DecodedKey, SpecFieldValue>::empty(),
    {
        proof {
            if self.entries@.len() > 0 {
                assert(self@.contains_key(entry_key(self.entries@[0])));
            }
        }
        self.entries.len() == 0
    }

    /// Removes the value stored for a path occurrence, if any; other keys are untouched.
    pub fn remove(&mut self, path: &str, occurrence: usize)
        requires
            old(self).wf(),
        ensures
            final(self).wf(),
            final(self)@ == old(self)@.remove((path@, occurrence)),
    {
        let i = self.lower_bound(path, occurrence);
        let ghost k = (path@, occurrence);
        let ghost old_entries = self.entries@;
        let ghost old_map = self@;
        if i < self.entries.len() && self.entries[i].occurrence == occurrence
            && crate::text::text_eq(self.entries[i].path.as_str(), path) {
            self.entries.remove(i);
            proof {
                assert forall|a: int, b: int| 0 <= a < b < self.entries@.len() implies key_lt(
                    entry_key(#[trigger] self.entries@[a]),
                    entry_key(#[trigger] self.entries@[b]),
                ) by {
                    let a0 = if a < i { a } else { a + 1 };
                    let b0 = if b < i { b } else { b + 1 };
                    assert(self.entries@[a] == old_entries[a0]);
                    assert(self.entries@[b] == old_entries[b0]);
                }
                assert forall|key: DecodedKey| #![auto] self@.contains_key(key) <==> old_map.remove(k).contains_key(key) by {
                    lemma_entries_map_dom(self.entries@, key);
                    lemma_entries_map_dom(old_entries, key);
                    if old_map.contains_key(key) && key != k {
                        let j = choose|j: int| 0 <= j < old_entries.len() && entry_key(#[trigger] old_entries[j]) == key;
                        if j < i {
                            assert(entry_key(self.entries@[j]) == key);
                        } else {
                            assert(j != i);
                            assert(entry_key(self.entries@[j - 1]) == key);
                        }
                    }
                    if self@.contains_key(key) {
                        let j = choose|j: int| 0 <= j < self.entries@.len() && entry_key(#[trigger] self.entries@[j]) == key;
                        let j0 = if j < i { j } else { j + 1 };
                        assert(entry_key(old_entries[j0]) == key);
                        assert(entry_key(old_entries[i as int]) == k);
                        if j0 < i {
                            assert(key_lt(entry_key(old_entries[j0]), entry_key(old_entries[i as int])));
                            lemma_key_order(key, k, key);
                        } else {
                            assert(key_lt(entry_key(old_entries[i as int]), entry_key(old_entries[j0])));
                            lemma_key_order(k, key, k);
                        }
                    }
                }
                assert forall|key: DecodedKey| #[trigger] self@.contains_key(key) implies self@[key] == old_map.remove(k)[key] by {
                    let j = choose|j: int| 0 <= j < self.entries@.len() && entry_key(#[trigger] self.entries@[j]) == key;
                    lemma_entries_map_at(self.entries@, j);
                    let j0 = if j < i { j } else { j + 1 };
                    lemma_entries_map_at(old_entries, j0);
                }
                assert(self@ =~= old_map.remove(k));
            }
        } else {
            proof {
                if old_map.contains_key(k) {
                    let j = choose|j: int| 0 <= j < old_entries.len() && entry_key(#[trigger] old_entries[j]) == k;
                    lemma_key_order(k, entry_key(old_entries[i as int]), k);
                    if j < i {
                        assert(key_lt(entry_key(old_entries[j]), k));
                    } else if j > i {
                        assert(key_lt(entry_key(old_entries[i as int]), entry_key(old_entries[j])));
                    }
                }
                assert(old_map.remove(k) =~= old_map);
            }
        }
    }
}

/// Removes one decoded occurrence and renumbers the later occurrences of its path.
pub fn remove_decoded_occurrence(decoded_values: &mut DecodedValues, path: &str, occurrence: usize)
    requires
        old(decoded_values).wf(),
    ensures
        final(decoded_values).wf(),
        final(decoded_values)@ == removed_occurrence(old(decoded_values)@, path@, occurrence),
{
    decoded_values.remove_occurrence(path, occurrence);
}

/// Inserts a decoded occurrence, renumbering the later occurrences of its path.
pub fn insert_decoded_occurrence(
    decoded_values: &mut DecodedValues,
    path: &str,
    occurrence: usize,
    value: FieldValue,
)
    requires
        old(decoded_values).wf(),
    ensures
        final(decoded_values).wf(),
        final(decoded_values)@ == inserted_occurrence(
            old(decoded_values)@,
            path@,
            occurrence,
            value@,
        ),
{
    decoded_values.insert_occurrence(path, occurrence, value);
}

/// Removing the occurrence that was just inserted gives back the original values,
/// provided the path did not already use the largest occurrence number.
pub proof fn remove_undoes_insert(
    m: Map<DecodedKey, SpecFieldValue>,
    path: Seq<char>,
    occurrence: usize,
    value: SpecFieldValue,
)
    requires
        !m.contains_key((path, usize::MAX)),
    ensures
        removed_occurrence(inserted_occurrence(m, path, occurrence, value), path, occurrence) == m,
{
    let r = removed_occurrence(inserted_occurrence(m, path, occurrence, value), path, occurrence);
    assert forall|k: DecodedKey| #![auto] r.contains_key(k) <==> m.contains_key(k) by {}
    assert forall|k: DecodedKey| #![auto] r.contains_key(k) implies r[k] == m[k] by {}
    assert(r =~= m);
}

/// Reinserting a removed occurrence with its old value gives back the original values.
pub proof fn insert_undoes_remove(
    m: Map<DecodedKey, SpecFieldValue>,
    path: Seq<char>,
    occurrence: usize,
)
    requires
        m.contains_key((path, occurrence)),
    ensures
        inserted_occurrence(removed_occurrence(m, path, occurrence), path, occurrence, m[(path, occurrence)])
            == m,
{
    let r = inserted_occurrence(removed_occurrence(m, path, occurrence), path, occurrence, m[(path, occurrence)]);
    assert forall|k: DecodedKey| #![auto] r.contains_key(k) <==> m.contains_key(k) by {}
    assert forall|k: DecodedKey| #![auto] r.contains_key(k) implies r[k] == m[k] by {}
    assert(r =~= m);
}

/// Removing an occurrence leaves every other path untouched.
pub proof fn remove_keeps_other_paths(
    m: Map<DecodedKey, SpecFieldValue>,
    path: Seq<char>,
    occurrence: usize,
    k: DecodedKey,
)
    requires
        k.0 != path,
    ensures
        removed_occurrence(m, path, occurrence).contains_key(k) == m.contains_key(k),
        m.contains_key(k) ==> removed_occurrence(m, path, occurrence)[k] == m[k],
{
}

impl View for DecodedValues {
    type V = Map<DecodedKey, SpecFieldValue>;

    closed spec fn view(&self) -> Map<DecodedKey, SpecFieldValue> {
        entries_map(self.entries@)
    }
}

impl DecodedValues {
    /// The entries list every stored value once, in strictly increasing key order.
    pub proof fn lemma_entries_view(&self)
        requires
            self.wf(),
        ensures
            sorted_entries(self.entries()),
            entries_map(self.entries()) == self@,
    {
    }
}

/// Whether `occs` lists, in increasing order, exactly the occurrences of `path` that
/// the decoded values hold.
pub open spec fn lists_occurrences(occs: Seq<usize>, m: Map<DecodedKey, SpecFieldValue>, path: Seq<char>) -> bool {
    &&& forall|i: int, j: int| 0 <= i < j < occs.len() ==> occs[i] < occs[j]
    &&& forall|o: usize| occs.contains(o) <==> m.contains_key((path, o))
}

impl DecodedValues {
    /// The occurrences of `path` that hold a value, in increasing order.
    pub fn occurrences(&self, path: &str) -> (res: Vec<usize>)
        requires
            self.wf(),
        ensures
            lists_occurrences(res@, self@, path@),
    {
        let mut res: Vec<usize> = Vec::new();
        let mut i: usize = 0;
        while i < self.entries.len()
            invariant
                sorted_entries(self.entries@),
                i <= self.entries@.len(),
                forall|a: int, b: int| 0 <= a < b < res@.len() ==> res@[a] < res@[b],
                forall|o: usize|
                    res@.contains(o) <==> exists|j: int|
                        0 <= j < i && entry_key(#[trigger] self.entries@[j]) == (path@, o),
                res@.len() > 0 ==> exists|j: int|
                    0 <= j < i && entry_key(#[trigger] self.entries@[j]) == (path@, res@.last()),
            decreases self.entries.len() - i,
        {
            if crate::text::text_eq(self.entries[i].path.as_str(), path) {
                let o = self.entries[i].occurrence;
                proof {
                    if res@.len() > 0 {
                        let j = choose|j: int|
                            0 <= j < i && entry_key(#[trigger] self.entries@[j]) == (path@, res@.last());
                        assert(key_lt(entry_key(self.entries@[j]), entry_key(self.entries@[i as int])));
                        lemma_key_order((path@, res@.last()), (path@, res@.last()), (path@, res@.last()));
                        lemma_bytes_lt_irreflexive(vstd::utf8::encode_utf8(path@));
                    }
                }
                let ghost before = res@;
                res.push(o);
                proof {
                    assert(entry_key(self.entries@[i as int]) == (path@, o));
                    assert forall|u: usize| res@.contains(u) <==> exists|j: int|
                        0 <= j < i + 1 && entry_key(#[trigger] self.entries@[j]) == (path@, u) by {
                        if res@.contains(u) {
                            let k = choose|k: int| 0 <= k < res@.len() && res@[k] == u;
                            if k < before.len() {
                                assert(before.contains(u));
                            }
                        }
                        if exists|j: int| 0 <= j < i + 1 && entry_key(#[trigger] self.entries@[j]) == (path@, u) {
                            let j = choose|j: int| 0 <= j < i + 1 && entry_key(#[trigger] self.entries@[j]) == (path@, u);
                            if j < i {
                                assert(before.contains(u));
                                let k = choose|k: int| 0 <= k < before.len() && before[k] == u;
                                assert(res@[k] == u);
                            } else {
                                assert(res@[before.len() as int] == u);
                            }
                        }
                    }
                }
            } else {
                proof {
                    assert forall|u: usize| res@.contains(u) <==> exists|j: int|
                        0 <= j < i + 1 && entry_key(#[trigger] self.entries@[j]) == (path@, u) by {
                        if exists|j: int| 0 <= j < i + 1 && entry_key(#[trigger] self.entries@[j]) == (path@, u) {
                            let j = choose|j: int| 0 <= j < i + 1 && entry_key(#[trigger] self.entries@[j]) == (path@, u);
                            assert(j < i);
                        }
                    }
                }
            }
            i += 1;
        }
        proof {
            assert forall|o: usize| res@.contains(o) <==> self@.contains_key((path@, o)) by {
                lemma_entries_map_dom(self.entries@, (path@, o));
            }
        }
        res
    }
}

impl DecodedValues {
    /// A copy of the collection.
    pub fn copy(&self) -> (res: Self)
        requires
            self.wf(),
        ensures
            res.wf(),
            res@ == self@,
    {
        let mut entries: Vec<DecodedEntry> = Vec::new();
        let mut i: usize = 0;
        while i < self.entries.len()
            invariant
                i <= self.entries@.len(),
                entries@.len() == i,
                forall|j: int|
                    0 <= j < i ==> entry_key(#[trigger] entries@[j]) == entry_key(self.entries@[j])
                        && entries@[j].value@ == self.entries@[j].value@,
            decreases self.entries.len() - i,
        {
            let e = &self.entries[i];
            entries.push(DecodedEntry { path: e.path.clone(), occurrence: e.occurrence, value: e.value.clone() });
            i += 1;
        }
        let res = DecodedValues { entries };
        proof {
            let a = res.entries@;
            let b = self.entries@;
            assert(sorted_entries(a)) by {
                assert forall|x: int, y: int| 0 <= x < y < a.len() implies key_lt(
                    entry_key(#[trigger] a[x]),
                    entry_key(#[trigger] a[y]),
                ) by {
                    assert(key_lt(entry_key(b[x]), entry_key(b[y])));
                }
            }
            assert forall|k: DecodedKey| #[trigger] entries_map(a).contains_key(k) == entries_map(b).contains_key(k) by {
                lemma_entries_map_dom(a, k);
                lemma_entries_map_dom(b, k);
                if entries_map(a).contains_key(k) {
                    let j = choose|j: int| 0 <= j < a.len() && entry_key(#[trigger] a[j]) == k;
                    assert(entry_key(b[j]) == k);
                }
                if entries_map(b).contains_key(k) {
                    let j = choose|j: int| 0 <= j < b.len() && entry_key(#[trigger] b[j]) == k;
                    assert(entry_key(a[j]) == k);
                }
            }
            assert forall|k: DecodedKey| entries_map(a).contains_key(k) implies #[trigger] entries_map(a)[k]
                == entries_map(b)[k] by {
                lemma_entries_map_dom(a, k);
                let j = choose|j: int| 0 <= j < a.len() && entry_key(#[trigger] a[j]) == k;
                lemma_entries_map_at(a, j);
                lemma_entries_map_at(b, j);
            }
            assert(entries_map(a) =~= entries_map(b));
        }
        res
    }
}

} // verus!
