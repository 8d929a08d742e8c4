//! Byte-sequence building blocks: little- and big-endian integers, padding, copies.
use vstd::prelude::*;

use crate::schema::ByteOrder;

verus! {

/// The low `n` bytes of `v`, least significant first.
pub open spec fn le_bytes(v: u64, n: nat) -> Seq<u8> {
    Seq::new(n, |i: int| ((v >> (8 * i) as u64) & 0xffu64) as u8)
}

/// The low `n` bytes of `v`, most significant first.
pub open spec fn be_bytes(v: u64, n: nat) -> Seq<u8> {
    Seq::new(n, |i: int| ((v >> (8 * (n - 1 - i)) as u64) & 0xffu64) as u8)
}

/// The low `n` bytes of `v` in the given byte order.
pub open spec fn ordered_bytes(order: ByteOrder, v: u64, n: nat) -> Seq<u8> {
    match order {
        ByteOrder::LittleEndian => le_bytes(v, n),
        ByteOrder::BigEndian => be_bytes(v, n),
    }
}

/// The number that bytes hold when read least significant first.
pub open spec fn le_value(s: Seq<u8>) -> nat
    decreases s.len(),
{
    if s.len() == 0 {
        0
    } else {
        s[0] as nat + 256 * le_value(s.drop_first())
    }
}

/// Reading back the low `n` bytes of `v`, for `n` of 1, 2 or 4 and `v` that fits them,
/// least significant first, gives `v`.
pub proof fn lemma_le_bytes_read_back(v: u64, n: nat)
    requires
        (n == 1 && v <= 0xff) || (n == 2 && v <= 0xffff) || (n == 4 && v <= 0xffff_ffff),
    ensures
        le_value(le_bytes(v, n)) == v,
{
    let s = le_bytes(v, n);
    let b0 = (#[verifier::truncate] (((v >> 0u64) & 0xffu64) as u8));
    let b1 = (#[verifier::truncate] (((v >> 8u64) & 0xffu64) as u8));
    let b2 = (#[verifier::truncate] (((v >> 16u64) & 0xffu64) as u8));
    let b3 = (#[verifier::truncate] (((v >> 24u64) & 0xffu64) as u8));
    assert(s[0] == b0);
    reveal_with_fuel(le_value, 5);
    if n == 1 {
        assert(s.drop_first().len() == 0);
        assert(v <= 0xff ==> (((v >> 0u64) & 0xffu64) as u8) as u64 == v) by (bit_vector);
    } else if n == 2 {
        assert(s.drop_first()[0] == b1);
        assert(s.drop_first().drop_first().len() == 0);
        assert(v <= 0xffff ==> (((v >> 0u64) & 0xffu64) as u8) as u64 + 256 * ((((v >> 8u64) & 0xffu64) as u8) as u64) == v) by (bit_vector);
    } else {
        let t = s.drop_first();
        let u = t.drop_first();
        let w = u.drop_first();
        assert(t[0] == b1);
        assert(u[0] == b2);
        assert(w[0] == b3);
        assert(w.drop_first().len() == 0);
        assert(v <= 0xffff_ffff ==> (((v >> 0u64) & 0xffu64) as u8) as u64 + 256 * ((((v >> 8u64) & 0xffu64) as u8) as u64) + 65536 * ((((v >> 16u64) & 0xffu64) as u8) as u64)
            + 16777216 * ((((v >> 24u64) & 0xffu64) as u8) as u64) == v) by (bit_vector);
    }
}

/// `n` zero bytes.
pub open spec fn zeros(n: nat) -> Seq<u8> {
    Seq::new(n, |i: int| 0u8)
}

/// Appends the low `n` bytes of `v`, least significant first.
pub fn push_le(out: &mut Vec<u8>, v: u64, n: usize)
    requires
        n <= 8,
    ensures
        final(out)@ == old(out)@ + le_bytes(v, n as nat),
{
    let ghost start = out@;
    let mut i: usize = 0;
    while i < n
        invariant
            i <= n <= 8,
            out@ == start + le_bytes(v, i as nat),
        decreases n - i,
    {
        out.push(((v >> ((8 * i) as u64)) & 0xffu64) as u8);
        i += 1;
        assert(out@ =~= start + le_bytes(v, i as nat));
    }
}

/// Appends the low `n` bytes of `v`, most significant first.
pub fn push_be(out: &mut Vec<u8>, v: u64, n: usize)
    requires
        n <= 8,
    ensures
        final(out)@ == old(out)@ + be_bytes(v, n as nat),
{
    let ghost start = out@;
    let mut i: usize = 0;
    while i < n
        invariant
            i <= n <= 8,
            out@.len() == start.len() + i,
            forall|j: int| 0 <= j < start.len() ==> out@[j] == start[j],
            forall|j: int|
                0 <= j < i ==> #[trigger] out@[start.len() + j] == be_bytes(v, n as nat)[j],
        decreases n - i,
    {
        out.push(((v >> ((8 * (n - 1 - i)) as u64)) & 0xffu64) as u8);
        i += 1;
    }
    assert forall|k: int| 0 <= k < out@.len() implies out@[k] == (start + be_bytes(v, n as nat))[k] by {
        if k >= start.len() {
            let j = k - start.len();
            assert(out@[start.len() + j] == be_bytes(v, n as nat)[j]);
        }
    }
    assert(out@ =~= start + be_bytes(v, n as nat));
}

/// Appends the low `n` bytes of `v` in the given byte order.
pub fn push_ordered(out: &mut Vec<u8>, order: ByteOrder, v: u64, n: usize)
    requires
        n <= 8,
    ensures
        final(out)@ == old(out)@ + ordered_bytes(order, v, n as nat),
{
    match order {
        ByteOrder::LittleEndian => push_le(out, v, n),
        ByteOrder::BigEndian => push_be(out, v, n),
    }
}

/// Appends `n` zero bytes.
pub fn push_zeros(out: &mut Vec<u8>, n: usize)
    ensures
        final(out)@ == old(out)@ + zeros(n as nat),
{
    let ghost start = out@;
    let mut i: usize = 0;
    while i < n
        invariant
            i <= n,
            out@ == start + zeros(i as nat),
        decreases n - i,
    {
        out.push(0u8);
        i += 1;
        assert(out@ =~= start + zeros(i as nat));
    }
}

/// Appends every byte of `src`.
pub fn push_all(out: &mut Vec<u8>, src: &Vec<u8>)
    ensures
        final(out)@ == old(out)@ + src@,
{
    let ghost start = out@;
    let mut i: usize = 0;
    while i < src.len()
        invariant
            i <= src.len(),
            out@ == start + src@.take(i as int),
        decreases src.len() - i,
    {
        out.push(src[i]);
        i += 1;
        assert(out@ =~= start + src@.take(i as int));
    }
    assert(src@.take(i as int) =~= src@);
}

/// Copies a byte vector.
pub fn clone_bytes(v: &Vec<u8>) -> (res: Vec<u8>)
    ensures
        res@ == v@,
{
    let out = v.clone();
    assert(out@ =~= v@);
    out
}

} // verus!
