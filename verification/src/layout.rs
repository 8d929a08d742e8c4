//! Fixed byte layouts of schema nodes.
use vstd::prelude::*;

use crate::schema::{ByteOrder, PrimitiveType, SchemaNode, SchemaNodeKind};

verus! {

/// Stored size of a primitive with a fixed width.
pub open spec fn primitive_size(p: PrimitiveType) -> Option<nat> {
    match p {
        PrimitiveType::Integer { integer } => Some(integer.width as nat),
        PrimitiveType::Enumeration { integer, .. } => Some(integer.width as nat),
        PrimitiveType::Flags { integer, .. } => Some(integer.width as nat),
        PrimitiveType::Float { width, .. } => Some(width as nat),
        PrimitiveType::FormId { .. } => Some(4),
        PrimitiveType::Bytes { length } => match length {
            Some(l) => Some(l as nat),
            None => None,
        },
        PrimitiveType::Unused { length } => Some(length as nat),
        _ => None,
    }
}

/// Fixed size of an unconditional node: primitives of fixed width, structs of fixed
/// members whose total fits `usize`, and unions whose variants all share one fixed size.
pub open spec fn fixed_size_of(node: SchemaNode) -> Option<nat>
    decreases node,
{
    if node.condition is Some {
        None
    } else {
        match node.kind {
            SchemaNodeKind::Primitive { primitive } => primitive_size(primitive),
            SchemaNodeKind::Struct { fields } => fields_size(fields@),
            SchemaNodeKind::Union { variants, .. } => if variants@.len() == 0 {
                None
            } else {
                match fixed_size_of(variants@[0]) {
                    Some(s) => if variants_sized(variants@, s) {
                        Some(s)
                    } else {
                        None
                    },
                    None => None,
                }
            },
            _ => None,
        }
    }
}

/// Total fixed size of consecutive nodes, if every one has one and the total fits `usize`.
pub open spec fn fields_size(fields: Seq<SchemaNode>) -> Option<nat>
    decreases fields,
{
    if fields.len() == 0 {
        Some(0)
    } else {
        match fields_size(fields.drop_last()) {
            Some(a) => match fixed_size_of(fields.last()) {
                Some(b) => if a + b <= usize::MAX {
                    Some(a + b)
                } else {
                    None
                },
                None => None,
            },
            None => None,
        }
    }
}

/// Whether every variant has fixed size `s`.
pub open spec fn variants_sized(variants: Seq<SchemaNode>, s: nat) -> bool
    decreases variants,
{
    if variants.len() == 0 {
        true
    } else {
        variants_sized(variants.drop_last(), s) && fixed_size_of(variants.last()) == Some(s)
    }
}

/// Returns the fixed stored size of a node, if it has one.
pub fn fixed_size(node: &SchemaNode) -> (res: Option<usize>)
    ensures
        fixed_size_of(*node) == match res {
            Some(r) => Some(r as nat),
            None => None::<nat>,
        },
    decreases node,
{
    if node.condition.is_some() {
        return None;
    }
    match &node.kind {
        SchemaNodeKind::Primitive { primitive } => match primitive {
            PrimitiveType::Integer { integer } => Some(integer.width as usize),
            PrimitiveType::Enumeration { integer, .. } => Some(integer.width as usize),
            PrimitiveType::Flags { integer, .. } => Some(integer.width as usize),
            PrimitiveType::Float { width, .. } => Some(*width as usize),
            PrimitiveType::FormId { .. } => Some(4),
            PrimitiveType::Bytes { length } => match length {
                Some(l) => Some(*l as usize),
                None => None,
            },
            PrimitiveType::Unused { length } => Some(*length as usize),
            _ => None,
        },
        SchemaNodeKind::Struct { fields } => {
            let mut size: usize = 0;
            let mut i: usize = 0;
            while i < fields.len()
                invariant
                    node.kind matches SchemaNodeKind::Struct { fields: f } && f == *fields,
                    node.condition is None,
                    i <= fields.len(),
                    fields_size(fields@.take(i as int)) == Some(size as nat),
                decreases fields.len() - i,
            {
                assert(decreases_to!(*node => fields@[i as int]));
                assert(fields@.take(i + 1).drop_last() =~= fields@.take(i as int));
                let s = match fixed_size(&fields[i]) {
                    Some(s) => s,
                    None => {
                        proof {
                            lemma_fields_size_none(fields@, i as int + 1);
                        }
                        return None;
                    },
                };
                if s > usize::MAX - size {
                    proof {
                        lemma_fields_size_none(fields@, i as int + 1);
                    }
                    return None;
                }
                size = size + s;
                i += 1;
                assert(fields@.take(i as int).last() == fields@[i - 1]);
                assert(fields@.take(i as int).drop_last() =~= fields@.take(i - 1));
            }
            assert(fields@.take(i as int) =~= fields@);
            Some(size)
        },
        SchemaNodeKind::Union { variants, .. } => {
            if variants.len() == 0 {
                return None;
            }
            assert(decreases_to!(*node => variants@[0]));
            let size = match fixed_size(&variants[0]) {
                Some(s) => s,
                None => {
                    return None;
                },
            };
            let mut i: usize = 0;
            while i < variants.len()
                invariant
                    node.kind matches SchemaNodeKind::Union { variants: v, .. } && v == *variants,
                    node.condition is None,
                    fixed_size_of(variants@[0]) == Some(size as nat),
                    variants@.len() > 0,
                    i <= variants.len(),
                    variants_sized(variants@.take(i as int), size as nat),
                decreases variants.len() - i,
            {
                assert(decreases_to!(*node => variants@[i as int]));
                assert(variants@.take(i + 1).drop_last() =~= variants@.take(i as int));
                let same = match fixed_size(&variants[i]) {
                    Some(s) => s == size,
                    None => false,
                };
                if !same {
                    proof {
                        assert(variants@.take(i + 1).last() == variants@[i as int]);
                        lemma_variants_sized_prefix(variants@, i as int + 1, size as nat);
                    }
                    return None;
                }
                i += 1;
                assert(variants@.take(i as int).last() == variants@[i - 1]);
                assert(variants@.take(i as int).drop_last() =~= variants@.take(i - 1));
            }
            assert(variants@.take(i as int) =~= variants@);
            Some(size)
        },
        _ => None,
    }
}

/// Offset of the node at `path` from the start of `node`, when every member before it
/// has a fixed size and no node on the way is conditional.
pub open spec fn fixed_offset_of(node: SchemaNode, path: Seq<char>) -> Option<nat>
    decreases node,
{
    if node.condition is Some {
        None
    } else if node.path@ == path {
        Some(0)
    } else {
        match node.kind {
            SchemaNodeKind::Struct { fields } => fields_offset(fields@, path, 0),
            _ => None,
        }
    }
}

/// Offset of `path` within consecutive members that start at offset `acc`.
pub open spec fn fields_offset(fields: Seq<SchemaNode>, path: Seq<char>, acc: nat) -> Option<nat>
    decreases fields,
{
    if fields.len() == 0 {
        None
    } else {
        match fixed_offset_of(fields[0], path) {
            Some(n) => if acc + n <= usize::MAX {
                Some(acc + n)
            } else {
                None
            },
            None => match fixed_size_of(fields[0]) {
                Some(s) => if acc + s <= usize::MAX {
                    fields_offset(fields.drop_first(), path, acc + s)
                } else {
                    None
                },
                None => None,
            },
        }
    }
}

/// Returns the fixed offset of the node at `path` inside `node`.
pub fn fixed_offset(node: &SchemaNode, path: &str) -> (res: Option<usize>)
    ensures
        fixed_offset_of(*node, path@) == match res {
            Some(r) => Some(r as nat),
            None => None::<nat>,
        },
    decreases node,
{
    if node.condition.is_some() {
        return None;
    }
    if crate::text::text_eq(node.path.as_str(), path) {
        return Some(0);
    }
    let fields = match &node.kind {
        SchemaNodeKind::Struct { fields } => fields,
        _ => {
            return None;
        },
    };
    let mut offset: usize = 0;
    let mut i: usize = 0;
    assert(fields@.skip(0) =~= fields@);
    while i < fields.len()
        invariant
            node.kind matches SchemaNodeKind::Struct { fields: f } && f == *fields,
            node.condition is None,
            node.path@ != path@,
            i <= fields.len(),
            fixed_offset_of(*node, path@) == fields_offset(fields@.skip(i as int), path@, offset as nat),
        decreases fields.len() - i,
    {
        assert(decreases_to!(*node => fields@[i as int]));
        assert(fields@.skip(i as int)[0] == fields@[i as int]);
        assert(fields@.skip(i as int).drop_first() =~= fields@.skip(i + 1));
        if let Some(nested) = fixed_offset(&fields[i], path) {
            if nested > usize::MAX - offset {
                return None;
            }
            return Some(offset + nested);
        }
        let size = match fixed_size(&fields[i]) {
            Some(s) => s,
            None => {
                return None;
            },
        };
        if size > usize::MAX - offset {
            return None;
        }
        offset = offset + size;
        i += 1;
    }
    None
}

/// The integer node of the given width that starts `offset` bytes into `node`, found
/// through fixed-size struct members; only little-endian integers, enumerations, flags
/// and four-byte FormIDs qualify.
pub open spec fn integer_node_at(node: SchemaNode, offset: nat, width: u8) -> Option<SchemaNode>
    decreases node,
{
    if node.condition is Some {
        None
    } else {
        match node.kind {
            SchemaNodeKind::Struct { fields } => fields_integer_at(fields@, offset, width),
            SchemaNodeKind::Primitive { primitive } => if offset == 0 {
                match primitive {
                    PrimitiveType::Integer { integer } => if integer.width == width
                        && integer.byte_order == ByteOrder::LittleEndian {
                        Some(node)
                    } else {
                        None
                    },
                    PrimitiveType::Enumeration { integer, .. } => if integer.width == width
                        && integer.byte_order == ByteOrder::LittleEndian {
                        Some(node)
                    } else {
                        None
                    },
                    PrimitiveType::Flags { integer, .. } => if integer.width == width
                        && integer.byte_order == ByteOrder::LittleEndian {
                        Some(node)
                    } else {
                        None
                    },
                    PrimitiveType::FormId { .. } => if width == 4 {
                        Some(node)
                    } else {
                        None
                    },
                    _ => None,
                }
            } else {
                None
            },
            _ => None,
        }
    }
}

/// The integer node at `remaining` bytes into consecutive fixed-size members.
pub open spec fn fields_integer_at(fields: Seq<SchemaNode>, remaining: nat, width: u8) -> Option<
    SchemaNode,
>
    decreases fields,
{
    if fields.len() == 0 {
        None
    } else {
        match fixed_size_of(fields[0]) {
            None => None,
            Some(size) => if remaining < size {
                integer_node_at(fields[0], remaining, width)
            } else {
                fields_integer_at(fields.drop_first(), (remaining - size) as nat, width)
            },
        }
    }
}

fn is_little_endian_integer(integer: &crate::schema::IntegerType, width: u8) -> (res: bool)
    ensures
        res == (integer.width == width && integer.byte_order == ByteOrder::LittleEndian),
{
    integer.width == width && match integer.byte_order {
        ByteOrder::LittleEndian => true,
        ByteOrder::BigEndian => false,
    }
}

/// Returns the integer node of `width` bytes that starts `offset` bytes into `node`.
pub fn integer_at(node: &SchemaNode, offset: usize, width: u8) -> (res: Option<&SchemaNode>)
    ensures
        integer_node_at(*node, offset as nat, width) == match res {
            Some(r) => Some(*r),
            None => None::<SchemaNode>,
        },
    decreases node,
{
    if node.condition.is_some() {
        return None;
    }
    match &node.kind {
        SchemaNodeKind::Struct { fields } => {
            let mut remaining: usize = offset;
            let mut i: usize = 0;
            assert(fields@.skip(0) =~= fields@);
            while i < fields.len()
                invariant
                    node.kind matches SchemaNodeKind::Struct { fields: f } && f == *fields,
                    node.condition is None,
                    i <= fields.len(),
                    integer_node_at(*node, offset as nat, width) == fields_integer_at(
                        fields@.skip(i as int),
                        remaining as nat,
                        width,
                    ),
                decreases fields.len() - i,
            {
                assert(decreases_to!(*node => fields@[i as int]));
                assert(fields@.skip(i as int)[0] == fields@[i as int]);
                assert(fields@.skip(i as int).drop_first() =~= fields@.skip(i + 1));
                let size = match fixed_size(&fields[i]) {
                    Some(s) => s,
                    None => {
                        return None;
                    },
                };
                if remaining < size {
                    return integer_at(&fields[i], remaining, width);
                }
                remaining = remaining - size;
                i += 1;
            }
            None
        },
        SchemaNodeKind::Primitive { primitive } => {
            if offset != 0 {
                return None;
            }
            match primitive {
                PrimitiveType::Integer { integer } => if is_little_endian_integer(integer, width) {
                    Some(node)
                } else {
                    None
                },
                PrimitiveType::Enumeration { integer, .. } => if is_little_endian_integer(
                    integer,
                    width,
                ) {
                    Some(node)
                } else {
                    None
                },
                PrimitiveType::Flags { integer, .. } => if is_little_endian_integer(integer, width) {
                    Some(node)
                } else {
                    None
                },
                PrimitiveType::FormId { .. } => if width == 4 {
                    Some(node)
                } else {
                    None
                },
                _ => None,
            }
        },
        _ => None,
    }
}

proof fn lemma_fields_size_none(fields: Seq<SchemaNode>, n: int)
    requires
        0 <= n <= fields.len(),
        fields_size(fields.take(n)) is None,
    ensures
        fields_size(fields) is None,
    decreases fields.len() - n,
{
    if n < fields.len() {
        assert(fields.take(n + 1).drop_last() =~= fields.take(n));
        lemma_fields_size_none(fields, n + 1);
    } else {
        assert(fields.take(n) =~= fields);
    }
}

proof fn lemma_variants_sized_prefix(variants: Seq<SchemaNode>, n: int, s: nat)
    requires
        0 <= n <= variants.len(),
        !variants_sized(variants.take(n), s),
    ensures
        !variants_sized(variants, s),
    decreases variants.len() - n,
{
    if n < variants.len() {
        assert(variants.take(n + 1).drop_last() =~= variants.take(n));
        lemma_variants_sized_prefix(variants, n + 1, s);
    } else {
        assert(variants.take(n) =~= variants);
    }
}

} // verus!
