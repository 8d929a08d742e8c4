//! Value comparison, conversion and primitive encoding used by the record editor.
use vstd::prelude::*;
use vstd::string::*;

use crate::schema::{IntegerType, PrimitiveType, StringLengthPrefix, StringType};
use crate::bytes::{
    clone_bytes, le_bytes, le_value, lemma_le_bytes_read_back, ordered_bytes, push_all, push_le, push_ordered, push_zeros,
    zeros,
};
use crate::text::decimal;
use crate::external::{spec_windows_1252, windows_1252_encode};
use crate::value::{FieldValue, OwnedFieldValue, SpecFieldValue, SpecNamedValue, SpecOwnedValue, SemanticError};

verus! {

/// The integer carried by an integer-shaped decoded value.
pub open spec fn integer_of(v: SpecFieldValue) -> Option<int> {
    match v {
        SpecFieldValue::Int(x) => Some(x as int),
        SpecFieldValue::UInt(x) => Some(x as int),
        SpecFieldValue::Flags { value, .. } => Some(value as int),
        SpecFieldValue::Enumeration { value, .. } => Some(value as int),
        _ => None,
    }
}

/// Semantic equality of decoded values: integers compare by value whatever their
/// shape, floats by bit pattern, struct members by schema node and value.
pub open spec fn handler_eq(l: SpecFieldValue, r: SpecFieldValue) -> bool
    decreases l,
{
    if integer_of(l) is Some && integer_of(r) is Some {
        integer_of(l) == integer_of(r)
    } else {
        match (l, r) {
            (SpecFieldValue::Float(a), SpecFieldValue::Float(b)) => a == b,
            (SpecFieldValue::String(a), SpecFieldValue::String(b)) => a == b,
            (SpecFieldValue::FormId { value: a, .. }, SpecFieldValue::FormId { value: b, .. }) => a
                == b,
            (SpecFieldValue::Bytes(a), SpecFieldValue::Bytes(b)) => a == b,
            (SpecFieldValue::Struct(a), SpecFieldValue::Struct(b)) => a.len() == b.len() && forall|
                i: int,
            |
                0 <= i < a.len() ==> a[i].node_id == b[i].node_id && handler_eq(
                    #[trigger] a[i].value,
                    b[i].value,
                ),
            (SpecFieldValue::Array(a), SpecFieldValue::Array(b)) => a.len() == b.len() && forall|
                i: int,
            |
                0 <= i < a.len() ==> handler_eq(#[trigger] a[i], b[i]),
            (SpecFieldValue::Absent, SpecFieldValue::Absent) => true,
            _ => false,
        }
    }
}

/// Two struct members are equal when they come from one schema node and hold equal values.
pub open spec fn members_eq(a: SpecNamedValue, b: SpecNamedValue) -> bool {
    a.node_id == b.node_id && handler_eq(a.value, b.value)
}

/// Returns the integer of an `Int`, `UInt`, `Flags` or `Enumeration` value.
pub fn integer_handler_value(value: &FieldValue) -> (res: Option<i128>)
    ensures
        match res {
            Some(x) => integer_of(value@) == Some(x as int),
            None => integer_of(value@) is None,
        },
{
    match value {
        FieldValue::Int(v) => Some(*v as i128),
        FieldValue::UInt(v) => Some(*v as i128),
        FieldValue::Flags { value, .. } => Some(*value as i128),
        FieldValue::Enumeration { value, .. } => Some(*value as i128),
        _ => None,
    }
}

fn bytes_equal(a: &Vec<u8>, b: &Vec<u8>) -> (res: bool)
    ensures
        res == (a@ == b@),
{
    if a.len() != b.len() {
        return false;
    }
    let mut i: usize = 0;
    while i < a.len()
        invariant
            a.len() == b.len(),
            i <= a.len(),
            forall|j: int| 0 <= j < i ==> a@[j] == b@[j],
        decreases a.len() - i,
    {
        if a[i] != b[i] {
            return false;
        }
        i += 1;
    }
    assert(a@ =~= b@);
    true
}

/// Compares two decoded values the way after-set callbacks detect a change.
pub fn handler_values_equal(left: &FieldValue, right: &FieldValue) -> (res: bool)
    ensures
        res == handler_eq(left@, right@),
    decreases left,
{
    let li = integer_handler_value(left);
    let ri = integer_handler_value(right);
    if li.is_some() && ri.is_some() {
        return li.unwrap() == ri.unwrap();
    }
    match (left, right) {
        (FieldValue::Float(a), FieldValue::Float(b)) => *a == *b,
        (FieldValue::String(a), FieldValue::String(b)) => *a == *b,
        (FieldValue::FormId { value: a, .. }, FieldValue::FormId { value: b, .. }) => a.0 == b.0,
        (FieldValue::Bytes(a), FieldValue::Bytes(b)) => bytes_equal(a, b),
        (FieldValue::Struct(a), FieldValue::Struct(b)) => {
            if a.len() != b.len() {
                return false;
            }
            let mut i: usize = 0;
            while i < a.len()
                invariant
                    *left == FieldValue::Struct(*a),
                    *right == FieldValue::Struct(*b),
                    a.len() == b.len(),
                    i <= a.len(),
                    forall|j: int| 0 <= j < i ==> #[trigger] members_eq(a@[j]@, b@[j]@),
                decreases a.len() - i,
            {
                assert(decreases_to!(*left => a@[i as int].value));
                if a[i].node_id.0 != b[i].node_id.0 || !handler_values_equal(
                    &a[i].value,
                    &b[i].value,
                ) {
                    assert(left@ matches SpecFieldValue::Struct(x) && x[i as int].node_id
                        == a@[i as int].node_id && x[i as int].value == a@[i as int].value@);
                    return false;
                }
                assert(members_eq(a@[i as int]@, b@[i as int]@));
                i += 1;
            }
            proof {
                let x = match left@ {
                    SpecFieldValue::Struct(x) => x,
                    _ => Seq::empty(),
                };
                let y = match right@ {
                    SpecFieldValue::Struct(y) => y,
                    _ => Seq::empty(),
                };
                assert forall|j: int| 0 <= j < x.len() implies x[j].node_id == y[j].node_id
                    && handler_eq(#[trigger] x[j].value, y[j].value) by {
                    assert(x[j] == a@[j]@);
                    assert(y[j] == b@[j]@);
                    assert(members_eq(a@[j]@, b@[j]@));
                }
            }
            true
        },
        (FieldValue::Array(a), FieldValue::Array(b)) => {
            if a.len() != b.len() {
                return false;
            }
            let mut i: usize = 0;
            while i < a.len()
                invariant
                    *left == FieldValue::Array(*a),
                    *right == FieldValue::Array(*b),
                    a.len() == b.len(),
                    i <= a.len(),
                    forall|j: int| 0 <= j < i ==> handler_eq(#[trigger] a@[j]@, b@[j]@),
                decreases a.len() - i,
            {
                assert(decreases_to!(*left => a@[i as int]));
                if !handler_values_equal(&a[i], &b[i]) {
                    assert(left@ matches SpecFieldValue::Array(x) && x[i as int] == a@[i as int]@);
                    return false;
                }
                i += 1;
            }
            proof {
                let x = match left@ {
                    SpecFieldValue::Array(x) => x,
                    _ => Seq::empty(),
                };
                let y = match right@ {
                    SpecFieldValue::Array(y) => y,
                    _ => Seq::empty(),
                };
                assert forall|j: int| 0 <= j < x.len() implies handler_eq(#[trigger] x[j], y[j]) by {
                    assert(x[j] == a@[j]@);
                    assert(y[j] == b@[j]@);
                }
            }
            true
        },
        (FieldValue::Absent, FieldValue::Absent) => true,
        _ => false,
    }
}

/// Every decoded value is equal to itself, so an unchanged value never counts as an edit.
pub proof fn handler_eq_reflexive(v: SpecFieldValue)
    ensures
        handler_eq(v, v),
    decreases v,
{
    match v {
        SpecFieldValue::Struct(a) => {
            assert forall|i: int| 0 <= i < a.len() implies a[i].node_id == a[i].node_id
                && handler_eq(#[trigger] a[i].value, a[i].value) by {
                handler_eq_reflexive(a[i].value);
            }
        },
        SpecFieldValue::Array(a) => {
            assert forall|i: int| 0 <= i < a.len() implies handler_eq(#[trigger] a[i], a[i]) by {
                handler_eq_reflexive(a[i]);
            }
        },
        _ => {},
    }
}

/// Value equality does not depend on which side is the old value.
pub proof fn handler_eq_symmetric(l: SpecFieldValue, r: SpecFieldValue)
    ensures
        handler_eq(l, r) == handler_eq(r, l),
    decreases l,
{
    match (l, r) {
        (SpecFieldValue::Struct(a), SpecFieldValue::Struct(b)) => {
            assert forall|i: int| 0 <= i < a.len() && i < b.len() implies handler_eq(
                #[trigger] a[i].value,
                b[i].value,
            ) == handler_eq(b[i].value, a[i].value) by {
                handler_eq_symmetric(a[i].value, b[i].value);
            }
        },
        (SpecFieldValue::Array(a), SpecFieldValue::Array(b)) => {
            assert forall|i: int| 0 <= i < a.len() && i < b.len() implies handler_eq(
                #[trigger] a[i],
                b[i],
            ) == handler_eq(b[i], a[i]) by {
                handler_eq_symmetric(a[i], b[i]);
            }
        },
        _ => {},
    }
}

/// Whether a binary64 bit pattern encodes NaN.
pub open spec fn f64_bits_nan(b: u64) -> bool {
    (b >> 52u64) & 0x7ffu64 == 0x7ffu64 && b & 0xf_ffff_ffff_ffffu64 != 0
}

/// IEEE-754 equality of two binary64 values given by their bit patterns:
/// NaN equals nothing, and positive zero equals negative zero.
pub open spec fn f64_bits_eq(a: u64, b: u64) -> bool {
    !f64_bits_nan(a) && !f64_bits_nan(b) && (a == b || (a & 0x7fff_ffff_ffff_ffffu64 == 0 && b
        & 0x7fff_ffff_ffff_ffffu64 == 0))
}

/// Structural equality of owned values, floats compared as IEEE-754 numbers.
pub open spec fn owned_eq(l: SpecOwnedValue, r: SpecOwnedValue) -> bool
    decreases l,
{
    match (l, r) {
        (SpecOwnedValue::Int(a), SpecOwnedValue::Int(b)) => a == b,
        (SpecOwnedValue::UInt(a), SpecOwnedValue::UInt(b)) => a == b,
        (SpecOwnedValue::Float(a), SpecOwnedValue::Float(b)) => f64_bits_eq(a, b),
        (SpecOwnedValue::String(a), SpecOwnedValue::String(b)) => a == b,
        (SpecOwnedValue::FormId(a), SpecOwnedValue::FormId(b)) => a == b,
        (SpecOwnedValue::Bytes(a), SpecOwnedValue::Bytes(b)) => a == b,
        (SpecOwnedValue::Struct(a), SpecOwnedValue::Struct(b)) => a.len() == b.len() && forall|
            i: int,
        |
            0 <= i < a.len() ==> owned_eq(#[trigger] a[i], b[i]),
        (SpecOwnedValue::Array(a), SpecOwnedValue::Array(b)) => a.len() == b.len() && forall|
            i: int,
        |
            0 <= i < a.len() ==> owned_eq(#[trigger] a[i], b[i]),
        (SpecOwnedValue::Absent, SpecOwnedValue::Absent) => true,
        _ => false,
    }
}

/// Owned equality that also matches a non-negative `Int` with the same `UInt`.
pub open spec fn owned_values_eq(l: SpecOwnedValue, r: SpecOwnedValue) -> bool {
    match (l, r) {
        (SpecOwnedValue::Int(a), SpecOwnedValue::UInt(b)) => a >= 0 && a == b,
        (SpecOwnedValue::UInt(a), SpecOwnedValue::Int(b)) => b >= 0 && a == b,
        _ => owned_eq(l, r),
    }
}

fn f64_bits_equal(a: u64, b: u64) -> (res: bool)
    ensures
        res == f64_bits_eq(a, b),
{
    let a_nan = (a >> 52u64) & 0x7ffu64 == 0x7ffu64 && a & 0xf_ffff_ffff_ffffu64 != 0;
    let b_nan = (b >> 52u64) & 0x7ffu64 == 0x7ffu64 && b & 0xf_ffff_ffff_ffffu64 != 0;
    !a_nan && !b_nan && (a == b || (a & 0x7fff_ffff_ffff_ffffu64 == 0 && b
        & 0x7fff_ffff_ffff_ffffu64 == 0))
}

fn owned_structural_equal(left: &OwnedFieldValue, right: &OwnedFieldValue) -> (res: bool)
    ensures
        res == owned_eq(left@, right@),
    decreases left,
{
    match (left, right) {
        (OwnedFieldValue::Int(a), OwnedFieldValue::Int(b)) => *a == *b,
        (OwnedFieldValue::UInt(a), OwnedFieldValue::UInt(b)) => *a == *b,
        (OwnedFieldValue::Float(a), OwnedFieldValue::Float(b)) => f64_bits_equal(*a, *b),
        (OwnedFieldValue::String(a), OwnedFieldValue::String(b)) => *a == *b,
        (OwnedFieldValue::FormId(a), OwnedFieldValue::FormId(b)) => a.0 == b.0,
        (OwnedFieldValue::Bytes(a), OwnedFieldValue::Bytes(b)) => bytes_equal(a, b),
        (OwnedFieldValue::Struct(a), OwnedFieldValue::Struct(b)) => owned_items_equal(left, right, a, b),
        (OwnedFieldValue::Array(a), OwnedFieldValue::Array(b)) => owned_items_equal(left, right, a, b),
        (OwnedFieldValue::Absent, OwnedFieldValue::Absent) => true,
        _ => false,
    }
}

fn owned_items_equal(
    left: &OwnedFieldValue,
    right: &OwnedFieldValue,
    a: &Vec<OwnedFieldValue>,
    b: &Vec<OwnedFieldValue>,
) -> (res: bool)
    requires
        (*left == OwnedFieldValue::Struct(*a) && *right == OwnedFieldValue::Struct(*b)) || (*left
            == OwnedFieldValue::Array(*a) && *right == OwnedFieldValue::Array(*b)),
    ensures
        res == owned_eq(left@, right@),
    decreases left, 0nat,
{
    if a.len() != b.len() {
        return false;
    }
    let mut i: usize = 0;
    while i < a.len()
        invariant
            (*left == OwnedFieldValue::Struct(*a) && *right == OwnedFieldValue::Struct(*b)) || (
            *left == OwnedFieldValue::Array(*a) && *right == OwnedFieldValue::Array(*b)),
            a.len() == b.len(),
            i <= a.len(),
            forall|j: int| 0 <= j < i ==> owned_eq(#[trigger] a@[j]@, b@[j]@),
        decreases a.len() - i,
    {
        assert(decreases_to!(*left => a@[i as int]));
        if !owned_structural_equal(&a[i], &b[i]) {
            proof {
                let x = match left@ {
                    SpecOwnedValue::Struct(x) => x,
                    SpecOwnedValue::Array(x) => x,
                    _ => Seq::empty(),
                };
                assert(x[i as int] == a@[i as int]@);
            }
            return false;
        }
        i += 1;
    }
    proof {
        let x = match left@ {
            SpecOwnedValue::Struct(x) => x,
            SpecOwnedValue::Array(x) => x,
            _ => Seq::empty(),
        };
        let y = match right@ {
            SpecOwnedValue::Struct(y) => y,
            SpecOwnedValue::Array(y) => y,
            _ => Seq::empty(),
        };
        assert forall|j: int| 0 <= j < x.len() implies owned_eq(#[trigger] x[j], y[j]) by {
            assert(x[j] == a@[j]@);
            assert(y[j] == b@[j]@);
        }
    }
    true
}

/// Compares owned values, treating a non-negative `Int` and an equal `UInt` as the same.
pub fn owned_values_equal(left: &OwnedFieldValue, right: &OwnedFieldValue) -> (res: bool)
    ensures
        res == owned_values_eq(left@, right@),
{
    match (left, right) {
        (OwnedFieldValue::Int(a), OwnedFieldValue::UInt(b)) => *a >= 0 && *a as u64 == *b,
        (OwnedFieldValue::UInt(a), OwnedFieldValue::Int(b)) => *b >= 0 && *a == *b as u64,
        _ => owned_structural_equal(left, right),
    }
}

/// Whether an error is an encoding error at `path` with the given message.
pub open spec fn encode_error_is(e: SemanticError, path: Seq<char>, message: Seq<char>) -> bool {
    e matches SemanticError::Encode { path: p, message: m } && p@ == path && m@ == message
}

/// Builds an encoding error for a schema path.
pub fn encode_error(path: &str, message: &str) -> (res: SemanticError)
    ensures
        encode_error_is(res, path@, message@),
{
    SemanticError::Encode { path: path.to_owned(), message: message.to_owned() }
}

/// Bytes of an integer stored with the given layout, or `None` when it does not fit.
pub open spec fn integer_encoding(integer: IntegerType, v: u64) -> Option<Seq<u8>> {
    if integer.width == 1 && v <= 0xff {
        Some(seq![v as u8])
    } else if integer.width == 2 && v <= 0xffff {
        Some(ordered_bytes(integer.byte_order, v, 2))
    } else if integer.width == 4 && v <= 0xffff_ffff {
        Some(ordered_bytes(integer.byte_order, v, 4))
    } else if integer.width == 8 {
        Some(ordered_bytes(integer.byte_order, v, 8))
    } else {
        None
    }
}

/// Encodes an unsigned integer with a fixed schema width and byte order.
pub fn encode_integer(integer: IntegerType, value: u64, path: &str) -> (res: Result<
    Vec<u8>,
    SemanticError,
>)
    ensures
        match integer_encoding(integer, value) {
            Some(b) => res matches Ok(r) && r@ == b,
            None => res matches Err(e) && encode_error_is(
                e,
                path@,
                "integer does not fit schema width"@,
            ),
        },
{
    let mut out: Vec<u8> = Vec::new();
    if integer.width == 1 && value <= 0xff {
        out.push(value as u8);
        assert(out@ =~= seq![value as u8]);
    } else if integer.width == 2 && value <= 0xffff {
        push_ordered(&mut out, integer.byte_order, value, 2);
        assert(out@ =~= ordered_bytes(integer.byte_order, value, 2));
    } else if integer.width == 4 && value <= 0xffff_ffff {
        push_ordered(&mut out, integer.byte_order, value, 4);
        assert(out@ =~= ordered_bytes(integer.byte_order, value, 4));
    } else if integer.width == 8 {
        push_ordered(&mut out, integer.byte_order, value, 8);
        assert(out@ =~= ordered_bytes(integer.byte_order, value, 8));
    } else {
        return Err(encode_error(path, "integer does not fit schema width"));
    }
    Ok(out)
}

/// Bytes of the packed unsigned form: two selector bits choose a width of one, two
/// or four little-endian bytes holding the value shifted left by two.
pub open spec fn packed_unsigned_encoding(v: u64) -> Option<Seq<u8>> {
    if v <= 0x3f {
        Some(le_bytes((v * 4) as u64, 1))
    } else if v <= 0x3fff {
        Some(le_bytes((v * 4 + 1) as u64, 2))
    } else if v <= 0x3fff_ffff {
        Some(le_bytes((v * 4 + 2) as u64, 4))
    } else {
        None
    }
}

/// Encodes a packed unsigned integer with the smallest width that holds it.
pub fn encode_packed_unsigned(value: u64, path: &str) -> (res: Result<Vec<u8>, SemanticError>)
    ensures
        match packed_unsigned_encoding(value) {
            Some(b) => res matches Ok(r) && r@ == b,
            None => res matches Err(e) && encode_error_is(
                e,
                path@,
                "packed integer exceeds 30 bits"@,
            ),
        },
{
    let (width, selector): (usize, u64) = if value <= 0x3f {
        (1, 0)
    } else if value <= 0x3fff {
        (2, 1)
    } else if value <= 0x3fff_ffff {
        (4, 2)
    } else {
        return Err(encode_error(path, "packed integer exceeds 30 bits"));
    };
    let raw: u64 = value * 4 + selector;
    let mut out: Vec<u8> = Vec::new();
    push_le(&mut out, raw, width);
    assert(out@ =~= le_bytes(raw, width as nat));
    Ok(out)
}

/// Whether `n` is the square of some natural number.
pub open spec fn is_perfect_square(n: nat) -> bool {
    exists|r: nat| #[trigger] square_of(r) == n
}

/// The square of a natural number.
pub open spec fn square_of(r: nat) -> nat {
    r * r
}

proof fn lemma_square_monotone(a: nat, b: nat)
    by (nonlinear_arith)
    requires
        a <= b,
    ensures
        a * a <= b * b,
{
}

proof fn lemma_div_bound(m: nat, n: nat)
    by (nonlinear_arith)
    requires
        m >= 1,
    ensures
        (m <= n / m) <==> (m * m <= n),
{
}

proof fn lemma_not_square(low: nat, n: nat)
    requires
        low * low <= n,
        n < (low + 1) * (low + 1),
        low * low != n,
    ensures
        !is_perfect_square(n),
{
    assert forall|r: nat| #[trigger] square_of(r) != n by {
        if r <= low {
            lemma_square_monotone(r, low);
        } else {
            lemma_square_monotone(low + 1, r);
        }
    }
}

/// Count stored in front of an array: its length, or for a square matrix the side
/// length, which exists only when the length is a perfect square.
pub fn array_prefix_count(length: usize, square: bool, path: &str) -> (res: Result<u64, SemanticError>)
    ensures
        !square ==> res == Ok::<u64, SemanticError>(length as u64),
        square ==> (res is Ok <==> is_perfect_square(length as nat)),
        square ==> (res matches Ok(c) ==> c * c == length),
        res matches Err(e) ==> encode_error_is(
            e,
            path@,
            "matrix array length is not a perfect square"@,
        ),
{
    let length: u64 = length as u64;
    if !square {
        return Ok(length);
    }
    let mut low: u64 = 0;
    let mut high: u64 = if length < 0xffff_ffffu64 {
        length + 1
    } else {
        0x1_0000_0000u64
    };
    proof {
        if length < 0xffff_ffffu64 {
            assert((length + 1) * (length + 1) > length) by (nonlinear_arith)
                requires
                    length >= 0,
            ;
        } else {
            assert(0x1_0000_0000u64 * 0x1_0000_0000u64 > length);
        }
    }
    while low + 1 < high
        invariant
            low < high <= 0x1_0000_0000u64,
            low * low <= length,
            length < high * high,
        decreases high - low,
    {
        let middle = low + (high - low) / 2;
        let bound = if middle >= 1 {
            middle
        } else {
            1
        };
        proof {
            lemma_div_bound(middle as nat, length as nat);
        }
        if middle <= length / bound {
            low = middle;
        } else {
            high = middle;
        }
    }
    assert(high == low + 1);
    assert(low * low < 0x1_0000_0000u64 * 0x1_0000_0000u64) by {
        lemma_square_monotone(low as nat, 0xffff_ffff);
    }
    if low * low != length {
        proof {
            lemma_not_square(low as nat, length as nat);
        }
        return Err(encode_error(path, "matrix array length is not a perfect square"));
    }
    assert(square_of(low as nat) == length);
    Ok(low)
}

/// The string body after the zero terminator and fixed-length padding, or the error message.
pub open spec fn padded_string_body(string: StringType, body: Seq<u8>) -> Result<Seq<u8>, Seq<char>> {
    let terminated = if string.zero_terminated {
        body.push(0u8)
    } else {
        body
    };
    match string.fixed_length {
        Some(length) => if terminated.len() > length {
            Err("string exceeds fixed length"@)
        } else {
            Ok(terminated + zeros((length - terminated.len()) as nat))
        },
        None => Ok(terminated),
    }
}

/// Whether a string length of `n` fits the width of a length prefix of 1, 2 or 4 bytes.
pub open spec fn prefix_fits(prefix: StringLengthPrefix, n: nat) -> bool {
    (prefix.width == 1 && n <= 0xff) || (prefix.width == 2 && n <= 0xffff) || (prefix.width == 4
        && n <= 0xffff_ffff)
}

/// A length prefix is written into the first `width` bytes of its `offset` reserved bytes;
/// the encoding is undefined when fewer bytes are reserved than the width needs.
pub open spec fn string_prefix_writable(string: StringType, body: Seq<u8>) -> bool {
    match (padded_string_body(string, body), string.length_prefix) {
        (Ok(padded), Some(prefix)) => prefix_fits(prefix, padded.len()) ==> prefix.offset
            >= prefix.width,
        _ => true,
    }
}

/// The complete stored form of a string body: terminator, padding, length prefix and
/// trailing terminator, or the error message.
pub open spec fn string_frame(string: StringType, body: Seq<u8>) -> Result<Seq<u8>, Seq<char>> {
    match padded_string_body(string, body) {
        Err(m) => Err(m),
        Ok(padded) => {
            let prefixed: Result<Seq<u8>, Seq<char>> = match string.length_prefix {
                None => Ok(padded),
                Some(prefix) => if prefix_fits(prefix, padded.len()) {
                    Ok(
                        le_bytes(padded.len() as u64, prefix.width as nat) + zeros(
                            (prefix.offset - prefix.width) as nat,
                        ) + padded,
                    )
                } else if prefix.width == 1 || prefix.width == 2 || prefix.width == 4 {
                    Err("string exceeds length prefix width"@)
                } else {
                    Err("unsupported string length prefix width "@ + decimal(prefix.width as nat))
                },
            };
            match prefixed {
                Err(m) => Err(m),
                Ok(out) => match string.trailing_terminator {
                    Some(t) => Ok(out.push(t)),
                    None => Ok(out),
                },
            }
        },
    }
}

/// Whether an encoding result matches its specification: the bytes on success, an
/// encoding error at `path` with the specified message on failure.
pub open spec fn encoded_as(
    res: Result<Vec<u8>, SemanticError>,
    spec: Result<Seq<u8>, Seq<char>>,
    path: Seq<char>,
) -> bool {
    match spec {
        Ok(b) => res matches Ok(r) && r@ == b,
        Err(m) => res matches Err(e) && encode_error_is(e, path, m),
    }
}

/// Adds the zero terminator, fixed-length padding, length prefix and trailing
/// terminator that the string layout asks for.
pub fn finish_string_encoding(string: &StringType, body: Vec<u8>, path: &str) -> (res: Result<
    Vec<u8>,
    SemanticError,
>)
    requires
        string_prefix_writable(*string, body@),
    ensures
        encoded_as(res, string_frame(*string, body@), path@),
{
    let ghost original = body@;
    let mut body = body;
    if string.zero_terminated {
        body.push(0u8);
    }
    if let Some(length) = string.fixed_length {
        if body.len() > length as usize {
            return Err(encode_error(path, "string exceeds fixed length"));
        }
        let missing = length as usize - body.len();
        push_zeros(&mut body, missing);
    }
    assert(padded_string_body(*string, original) == Ok::<Seq<u8>, Seq<char>>(body@));
    let mut output: Vec<u8> = if let Some(prefix) = string.length_prefix {
        let n: usize = body.len();
        let mut out: Vec<u8> = Vec::new();
        if prefix.width == 1 && n <= 0xff {
            push_le(&mut out, n as u64, 1);
        } else if prefix.width == 2 && n <= 0xffff {
            push_le(&mut out, n as u64, 2);
        } else if prefix.width == 4 && n as u64 <= 0xffff_ffffu64 {
            push_le(&mut out, n as u64, 4);
        } else if prefix.width == 1 || prefix.width == 2 || prefix.width == 4 {
            return Err(encode_error(path, "string exceeds length prefix width"));
        } else {
            let mut message = String::from_str("unsupported string length prefix width ");
            crate::text::push_decimal(&mut message, prefix.width as u64);
            return Err(encode_error(path, message.as_str()));
        }
        push_zeros(&mut out, (prefix.offset - prefix.width as u32) as usize);
        push_all(&mut out, &body);
        out
    } else {
        body
    };
    if let Some(terminator) = string.trailing_terminator {
        output.push(terminator);
    }
    Ok(output)
}

/// A length-prefixed string frame describes itself: its first `width` bytes, read
/// least significant first, give the number `n` of stored body bytes; the bytes up to
/// the prefix's offset are zero; the `n` bytes after the offset begin with the string's
/// own bytes; and only the trailing terminator, when there is one, follows them.
pub proof fn lemma_string_prefix_reads_back(string: StringType, body: Seq<u8>)
    requires
        string_frame(string, body) is Ok,
        string.length_prefix matches Some(p) && p.offset >= p.width,
    ensures
        ({
            let out = string_frame(string, body)->Ok_0;
            let p = string.length_prefix->Some_0;
            let n = le_value(out.subrange(0, p.width as int));
            &&& p.width <= out.len()
            &&& out.len() == p.offset + n + if string.trailing_terminator is Some { 1int } else { 0int }
            &&& forall|i: int| p.width <= i < p.offset ==> out[i] == 0
            &&& body.len() <= n
            &&& out.subrange(p.offset as int, p.offset + body.len()) == body
            &&& string.zero_terminated ==> body.len() < n && out[p.offset + body.len()] == 0
            &&& string.fixed_length matches Some(l) ==> n == l
            &&& forall|i: int| p.offset + body.len() < i < p.offset + n ==> out[i] == 0
            &&& string.trailing_terminator matches Some(t) ==> out.last() == t
        }),
{
    let p = string.length_prefix->Some_0;
    let padded = padded_string_body(string, body)->Ok_0;
    assert(padded.subrange(0, body.len() as int) =~= body) by {
        let terminated = if string.zero_terminated { body.push(0u8) } else { body };
        assert(terminated.subrange(0, body.len() as int) =~= body);
    }
    let head = le_bytes(padded.len() as u64, p.width as nat);
    let framed = head + zeros((p.offset - p.width) as nat) + padded;
    lemma_le_bytes_read_back(padded.len() as u64, p.width as nat);
    let out = string_frame(string, body)->Ok_0;
    assert(out.subrange(0, p.width as int) =~= head);
    assert(out.subrange(p.offset as int, p.offset + body.len()) =~= padded.subrange(0, body.len() as int));
    assert forall|i: int| p.offset + body.len() < i < p.offset + padded.len() implies out[i] == 0 by {
        assert(out[i] == padded[i - p.offset]);
    }
}

/// A string frame without a length prefix holds the string's own bytes first, then its
/// zero terminator when it has one, then zero padding up to its fixed length when it has
/// one, and last its trailing terminator when it has one.
pub proof fn lemma_string_frame_layout(string: StringType, body: Seq<u8>)
    requires
        string_frame(string, body) is Ok,
        string.length_prefix is None,
    ensures
        ({
            let out = string_frame(string, body)->Ok_0;
            let n = out.len() - if string.trailing_terminator is Some { 1int } else { 0int };
            &&& body.len() <= n
            &&& out.subrange(0, body.len() as int) == body
            &&& string.zero_terminated ==> body.len() < n && out[body.len() as int] == 0
            &&& string.fixed_length matches Some(l) ==> n == l
            &&& string.fixed_length is None ==> n == body.len() + if string.zero_terminated { 1int } else { 0int }
            &&& forall|i: int| body.len() < i < n ==> out[i] == 0
            &&& string.trailing_terminator matches Some(t) ==> out.last() == t
        }),
{
    let padded = padded_string_body(string, body)->Ok_0;
    let out = string_frame(string, body)->Ok_0;
    assert(padded.subrange(0, body.len() as int) =~= body) by {
        let terminated = if string.zero_terminated { body.push(0u8) } else { body };
        assert(terminated.subrange(0, body.len() as int) =~= body);
    }
    assert(out.subrange(0, body.len() as int) =~= padded.subrange(0, body.len() as int));
}

/// Whether a string field stores localized string-table IDs.
pub open spec fn localized_string(string: StringType) -> bool {
    string.localized || string.encoding@ == "localized"@
}

/// The text encoding used for the characters of a string field.
pub open spec fn text_encoding_name(string: StringType) -> Seq<char> {
    if string.encoding@ == "localized"@ {
        "windows_1252"@
    } else {
        string.encoding@
    }
}

/// Whether a string field is localized.
pub fn is_localized_string(string: &StringType) -> (res: bool)
    ensures
        res == localized_string(*string),
{
    string.localized || crate::text::text_eq(string.encoding.as_str(), "localized")
}

/// The text encoding of a string field; localized strings are Windows-1252 text.
pub fn text_encoding(string: &StringType) -> (res: &str)
    ensures
        res@ == text_encoding_name(*string),
{
    if crate::text::text_eq(string.encoding.as_str(), "localized") {
        "windows_1252"
    } else {
        string.encoding.as_str()
    }
}

/// The encoded characters of a text in a string field's encoding, or the error message.
pub open spec fn string_text_bytes(string: StringType, text: Seq<char>) -> Result<Seq<u8>, Seq<char>> {
    let encoding = text_encoding_name(string);
    if encoding == "utf8"@ {
        Ok(vstd::utf8::encode_utf8(text))
    } else if encoding == "windows_1252"@ {
        if spec_windows_1252(text).1 {
            Err("string contains characters that Windows-1252 cannot represent"@)
        } else {
            Ok(spec_windows_1252(text).0)
        }
    } else {
        Err("unsupported string encoding "@ + encoding)
    }
}

/// The stored bytes of a primitive value, or the error message. `narrowed` is the
/// binary32 bit pattern that a four-byte float stores.
pub open spec fn primitive_encoding(
    primitive: PrimitiveType,
    value: SpecOwnedValue,
    localized: bool,
    narrowed: u32,
) -> Result<Seq<u8>, Seq<char>> {
    let mismatch = "value type does not match schema type"@;
    let too_wide = "integer does not fit schema width"@;
    match (primitive, value) {
        (PrimitiveType::Integer { integer }, SpecOwnedValue::Int(v)) => match integer_encoding(
            integer,
            v as u64,
        ) {
            Some(b) => Ok(b),
            None => Err(too_wide),
        },
        (PrimitiveType::Integer { integer }, SpecOwnedValue::UInt(v)) => match integer_encoding(
            integer,
            v,
        ) {
            Some(b) => Ok(b),
            None => Err(too_wide),
        },
        (PrimitiveType::PackedUnsigned, SpecOwnedValue::UInt(v)) => match packed_unsigned_encoding(
            v,
        ) {
            Some(b) => Ok(b),
            None => Err("packed integer exceeds 30 bits"@),
        },
        (PrimitiveType::Float { width, byte_order }, SpecOwnedValue::Float(bits)) => if width
            == 4 {
            Ok(ordered_bytes(byte_order, narrowed as u64, 4))
        } else if width == 8 {
            Ok(ordered_bytes(byte_order, bits, 8))
        } else {
            Err(mismatch)
        },
        (PrimitiveType::String { string }, SpecOwnedValue::UInt(v)) => if localized_string(string)
            && localized {
            if v <= 0xffff_ffff {
                Ok(le_bytes(v, 4))
            } else {
                Err("localized string ID exceeds u32"@)
            }
        } else {
            Err(mismatch)
        },
        (PrimitiveType::String { string }, SpecOwnedValue::String(t)) => if localized_string(string)
            && localized {
            Err("localized plugin string requires a string-table ID"@)
        } else {
            match string_text_bytes(string, t) {
                Err(m) => Err(m),
                Ok(body) => string_frame(string, body),
            }
        },
        (PrimitiveType::Bytes { length }, SpecOwnedValue::Bytes(b)) => if length matches Some(l)
            && b.len() != l {
            Err("byte array has incorrect length"@)
        } else {
            Ok(b)
        },
        (PrimitiveType::Unused { length }, SpecOwnedValue::Bytes(b)) => if b.len() != length {
            Err("unused bytes have incorrect length"@)
        } else {
            Ok(b)
        },
        (PrimitiveType::FormId { .. }, SpecOwnedValue::FormId(f)) => Ok(le_bytes(f.0 as u64, 4)),
        (PrimitiveType::Enumeration { integer, .. }, SpecOwnedValue::Int(v)) => match integer_encoding(
            integer,
            v as u64,
        ) {
            Some(b) => Ok(b),
            None => Err(too_wide),
        },
        (PrimitiveType::Flags { integer, .. }, SpecOwnedValue::UInt(v)) => match integer_encoding(
            integer,
            v,
        ) {
            Some(b) => Ok(b),
            None => Err(too_wide),
        },
        _ => Err(mismatch),
    }
}

/// The binary64 bits that a four-byte float field narrows before storing, if any.
pub open spec fn narrowing_input(primitive: PrimitiveType, value: SpecOwnedValue) -> Option<u64> {
    match (primitive, value) {
        (PrimitiveType::Float { width, .. }, SpecOwnedValue::Float(bits)) => if width == 4 {
            Some(bits)
        } else {
            None
        },
        _ => None,
    }
}

/// Whether encoding a primitive value is defined: a length-prefixed string must
/// reserve room for its prefix.
pub open spec fn primitive_encodable(
    primitive: PrimitiveType,
    value: SpecOwnedValue,
    localized: bool,
) -> bool {
    match (primitive, value) {
        (PrimitiveType::String { string }, SpecOwnedValue::String(t)) => !(localized_string(
            string,
        ) && localized) ==> match string_text_bytes(string, t) {
            Ok(body) => string_prefix_writable(string, body),
            Err(_) => true,
        },
        _ => true,
    }
}

fn error_with_text(path: &str, prefix: &str, text: &str) -> (res: SemanticError)
    ensures
        encode_error_is(res, path@, prefix@ + text@),
{
    let mut message = String::from_str(prefix);
    message.append(text);
    encode_error(path, message.as_str())
}

/// Encodes one primitive value with its schema type.
///
/// Four-byte floats are narrowed from binary64 by `narrow`, which maps binary64 bits to
/// the binary32 bits that the platform's float conversion produces.
pub fn encode_primitive<F: Fn(u64) -> u32>(
    primitive: &PrimitiveType,
    value: &OwnedFieldValue,
    localized: bool,
    path: &str,
    narrow: &F,
) -> (res: Result<Vec<u8>, SemanticError>)
    requires
        primitive_encodable(*primitive, value@, localized),
        forall|bits: u64| narrow.requires((bits,)),
    ensures
        match narrowing_input(*primitive, value@) {
            Some(bits) => exists|r: u32|
                narrow.ensures((bits,), r) && encoded_as(
                    res,
                    primitive_encoding(*primitive, value@, localized, r),
                    path@,
                ),
            None => encoded_as(res, primitive_encoding(*primitive, value@, localized, 0), path@),
        },
{
    match (primitive, value) {
        (PrimitiveType::Integer { integer }, OwnedFieldValue::Int(v)) => encode_integer(
            *integer,
            *v as u64,
            path,
        ),
        (PrimitiveType::Integer { integer }, OwnedFieldValue::UInt(v)) => encode_integer(
            *integer,
            *v,
            path,
        ),
        (PrimitiveType::PackedUnsigned, OwnedFieldValue::UInt(v)) => encode_packed_unsigned(
            *v,
            path,
        ),
        (PrimitiveType::Float { width, byte_order }, OwnedFieldValue::Float(bits)) => {
            if *width == 4 {
                let narrowed = narrow(*bits);
                let mut out: Vec<u8> = Vec::new();
                push_ordered(&mut out, *byte_order, narrowed as u64, 4);
                assert(out@ =~= ordered_bytes(*byte_order, narrowed as u64, 4));
                let res = Ok(out);
                assert(encoded_as(res, primitive_encoding(*primitive, value@, localized, narrowed), path@));
                assert(narrow.ensures((*bits,), narrowed));
                res
            } else if *width == 8 {
                let mut out: Vec<u8> = Vec::new();
                push_ordered(&mut out, *byte_order, *bits, 8);
                assert(out@ =~= ordered_bytes(*byte_order, *bits, 8));
                Ok(out)
            } else {
                Err(encode_error(path, "value type does not match schema type"))
            }
        },
        (PrimitiveType::String { string }, OwnedFieldValue::UInt(v)) => {
            if is_localized_string(string) && localized {
                if *v <= 0xffff_ffffu64 {
                    let mut out: Vec<u8> = Vec::new();
                    push_le(&mut out, *v, 4);
                    assert(out@ =~= le_bytes(*v, 4));
                    Ok(out)
                } else {
                    Err(encode_error(path, "localized string ID exceeds u32"))
                }
            } else {
                Err(encode_error(path, "value type does not match schema type"))
            }
        },
        (PrimitiveType::String { string }, OwnedFieldValue::String(text)) => {
            if is_localized_string(string) && localized {
                return Err(
                    encode_error(path, "localized plugin string requires a string-table ID"),
                );
            }
            assert(value@ == SpecOwnedValue::String(text@));
            let encoding = text_encoding(string);
            let bytes: Vec<u8> = if crate::text::text_eq(encoding, "utf8") {
                vstd::slice::slice_to_vec(text.as_str().as_bytes())
            } else if crate::text::text_eq(encoding, "windows_1252") {
                let (bytes, had_errors) = windows_1252_encode(text.as_str());
                if had_errors {
                    return Err(
                        encode_error(
                            path,
                            "string contains characters that Windows-1252 cannot represent",
                        ),
                    );
                }
                bytes
            } else {
                return Err(error_with_text(path, "unsupported string encoding ", encoding));
            };
            assert(string_text_bytes(*string, text@) == Ok::<Seq<u8>, Seq<char>>(bytes@));
            finish_string_encoding(string, bytes, path)
        },
        (PrimitiveType::Bytes { length }, OwnedFieldValue::Bytes(b)) => {
            if let Some(l) = length {
                if b.len() != *l as usize {
                    return Err(encode_error(path, "byte array has incorrect length"));
                }
            }
            Ok(clone_bytes(b))
        },
        (PrimitiveType::Unused { length }, OwnedFieldValue::Bytes(b)) => {
            if b.len() != *length as usize {
                return Err(encode_error(path, "unused bytes have incorrect length"));
            }
            Ok(clone_bytes(b))
        },
        (PrimitiveType::FormId { .. }, OwnedFieldValue::FormId(f)) => {
            let mut out: Vec<u8> = Vec::new();
            push_le(&mut out, f.0 as u64, 4);
            assert(out@ =~= le_bytes(f.0 as u64, 4));
            Ok(out)
        },
        (PrimitiveType::Enumeration { integer, .. }, OwnedFieldValue::Int(v)) => encode_integer(
            *integer,
            *v as u64,
            path,
        ),
        (PrimitiveType::Flags { integer, .. }, OwnedFieldValue::UInt(v)) => encode_integer(
            *integer,
            *v,
            path,
        ),
        _ => Err(encode_error(path, "value type does not match schema type")),
    }
}


/// The decoded shape of an owned value: struct members become array items and
/// FormIDs carry no target signatures.
pub open spec fn leaf_handler_value(v: SpecOwnedValue) -> SpecFieldValue
    decreases v,
{
    match v {
        SpecOwnedValue::Int(x) => SpecFieldValue::Int(x),
        SpecOwnedValue::UInt(x) => SpecFieldValue::UInt(x),
        SpecOwnedValue::Float(x) => SpecFieldValue::Float(x),
        SpecOwnedValue::String(t) => SpecFieldValue::String(t),
        SpecOwnedValue::FormId(f) => SpecFieldValue::FormId { value: f, targets: Seq::empty() },
        SpecOwnedValue::Bytes(b) => SpecFieldValue::Bytes(b),
        SpecOwnedValue::Struct(items) => SpecFieldValue::Array(
            Seq::new(
                items.len(),
                |i: int|
                    if 0 <= i < items.len() {
                        leaf_handler_value(items[i])
                    } else {
                        SpecFieldValue::Absent
                    },
            ),
        ),
        SpecOwnedValue::Array(items) => SpecFieldValue::Array(
            Seq::new(
                items.len(),
                |i: int|
                    if 0 <= i < items.len() {
                        leaf_handler_value(items[i])
                    } else {
                        SpecFieldValue::Absent
                    },
            ),
        ),
        SpecOwnedValue::Absent => SpecFieldValue::Absent,
    }
}

/// Converts an owned value to the decoded shape used by callbacks.
pub fn owned_leaf_to_handler_value(value: &OwnedFieldValue) -> (res: FieldValue)
    ensures
        res@ == leaf_handler_value(value@),
    decreases value,
{
    match value {
        OwnedFieldValue::Int(v) => FieldValue::Int(*v),
        OwnedFieldValue::UInt(v) => FieldValue::UInt(*v),
        OwnedFieldValue::Float(v) => FieldValue::Float(*v),
        OwnedFieldValue::String(t) => FieldValue::String(t.clone()),
        OwnedFieldValue::FormId(f) => {
            let targets = Vec::new();
            let res = FieldValue::FormId { value: *f, targets };
            assert(res@ == leaf_handler_value(value@)) by {
                assert(targets@ =~= Seq::<crate::model::Signature>::empty());
            }
            res
        },
        OwnedFieldValue::Bytes(b) => FieldValue::Bytes(clone_bytes(b)),
        OwnedFieldValue::Struct(items) => leaf_items(value, items),
        OwnedFieldValue::Array(items) => leaf_items(value, items),
        OwnedFieldValue::Absent => FieldValue::Absent,
    }
}

fn leaf_items(parent: &OwnedFieldValue, items: &Vec<OwnedFieldValue>) -> (res: FieldValue)
    requires
        (parent matches OwnedFieldValue::Struct(v) && v == *items) || (
        parent matches OwnedFieldValue::Array(v) && v == *items),
    ensures
        res@ == leaf_handler_value(parent@),
    decreases parent, 0nat,
{
    let mut out: Vec<FieldValue> = Vec::new();
    let mut i: usize = 0;
    while i < items.len()
        invariant
            (parent matches OwnedFieldValue::Struct(v) && v == *items) || (
            parent matches OwnedFieldValue::Array(v) && v == *items),
            i <= items.len(),
            out@.len() == i,
            forall|j: int|
                0 <= j < i ==> (#[trigger] out@[j])@ == leaf_handler_value(items@[j]@),
        decreases items.len() - i,
    {
        assert(decreases_to!(*parent => items@[i as int]));
        out.push(owned_leaf_to_handler_value(&items[i]));
        i += 1;
    }
    let res = FieldValue::Array(out);
    proof {
        let x = match parent@ {
            SpecOwnedValue::Struct(x) => x,
            SpecOwnedValue::Array(x) => x,
            _ => Seq::empty(),
        };
        assert forall|j: int| 0 <= j < x.len() implies x[j] == items@[j]@ by {}
        let lhs = match res@ {
            SpecFieldValue::Array(y) => y,
            _ => Seq::empty(),
        };
        let rhs = match leaf_handler_value(parent@) {
            SpecFieldValue::Array(y) => y,
            _ => Seq::empty(),
        };
        assert(lhs =~= rhs);
    }
    res
}

} // verus!
