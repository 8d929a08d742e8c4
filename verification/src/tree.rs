//! Searches over the node tree of a record schema.
use vstd::prelude::*;
use vstd::string::*;

use crate::schema::{SchemaNode, SchemaNodeKind};

verus! {

/// The first node, in depth-first order, whose path is `path`.
pub open spec fn node_by_path(node: SchemaNode, path: Seq<char>) -> Option<SchemaNode>
    decreases node,
{
    if node.path@ == path {
        Some(node)
    } else {
        match node.kind {
            SchemaNodeKind::Sequence { children } => first_by_path(children@, path),
            SchemaNodeKind::Choice { alternatives } => first_by_path(alternatives@, path),
            SchemaNodeKind::SelectedChoice { alternatives, .. } => first_by_path(alternatives@, path),
            SchemaNodeKind::Repeat { child, .. } => node_by_path(*child, path),
            SchemaNodeKind::Subrecord { payload, .. } => node_by_path(*payload, path),
            SchemaNodeKind::Array { element, .. } => node_by_path(*element, path),
            SchemaNodeKind::Compressed { child } => node_by_path(*child, path),
            SchemaNodeKind::Terminated { child, .. } => node_by_path(*child, path),
            SchemaNodeKind::Struct { fields } => first_by_path(fields@, path),
            SchemaNodeKind::Union { variants, .. } => first_by_path(variants@, path),
            _ => None,
        }
    }
}

/// The first match of `path` among sibling subtrees, in order.
pub open spec fn first_by_path(nodes: Seq<SchemaNode>, path: Seq<char>) -> Option<SchemaNode>
    decreases nodes,
{
    if nodes.len() == 0 {
        None
    } else {
        match node_by_path(nodes[0], path) {
            Some(n) => Some(n),
            None => first_by_path(nodes.drop_first(), path),
        }
    }
}

fn find_in<'a>(parent: &'a SchemaNode, nodes: &'a Vec<SchemaNode>, path: &str) -> (res: Option<&'a SchemaNode>)
    requires
        forall|i: int| 0 <= i < nodes@.len() ==> decreases_to!(*parent => #[trigger] nodes@[i]),
    ensures
        first_by_path(nodes@, path@) == match res {
            Some(r) => Some(*r),
            None => None::<SchemaNode>,
        },
    decreases parent, 0nat,
{
    let mut i: usize = 0;
    assert(nodes@.skip(0) =~= nodes@);
    while i < nodes.len()
        invariant
            forall|j: int| 0 <= j < nodes@.len() ==> decreases_to!(*parent => #[trigger] nodes@[j]),
            i <= nodes.len(),
            first_by_path(nodes@, path@) == first_by_path(nodes@.skip(i as int), path@),
        decreases nodes.len() - i,
    {
        assert(decreases_to!(*parent => nodes@[i as int]));
        assert(nodes@.skip(i as int)[0] == nodes@[i as int]);
        assert(nodes@.skip(i as int).drop_first() =~= nodes@.skip(i + 1));
        if let Some(found) = find_node_by_path(&nodes[i], path) {
            return Some(found);
        }
        i += 1;
    }
    None
}

/// Finds the first node, in depth-first order, with the given schema path.
pub fn find_node_by_path<'a>(node: &'a SchemaNode, path: &str) -> (res: Option<&'a SchemaNode>)
    ensures
        node_by_path(*node, path@) == match res {
            Some(r) => Some(*r),
            None => None::<SchemaNode>,
        },
    decreases node, 1nat,
{
    if crate::text::text_eq(node.path.as_str(), path) {
        return Some(node);
    }
    match &node.kind {
        SchemaNodeKind::Sequence { children } => find_in(node, children, path),
        SchemaNodeKind::Choice { alternatives } => find_in(node, alternatives, path),
        SchemaNodeKind::SelectedChoice { alternatives, .. } => find_in(node, alternatives, path),
        SchemaNodeKind::Repeat { child, .. } => find_node_by_path(child, path),
        SchemaNodeKind::Subrecord { payload, .. } => find_node_by_path(payload, path),
        SchemaNodeKind::Array { element, .. } => find_node_by_path(element, path),
        SchemaNodeKind::Compressed { child } => find_node_by_path(child, path),
        SchemaNodeKind::Terminated { child, .. } => find_node_by_path(child, path),
        SchemaNodeKind::Struct { fields } => find_in(node, fields, path),
        SchemaNodeKind::Union { variants, .. } => find_in(node, variants, path),
        _ => None,
    }
}

/// The innermost subrecord node above (or at) the first node reached with path `path`;
/// `parent` is the subrecord enclosing `node`. A match without an enclosing subrecord
/// does not stop the search.
pub open spec fn containing_subrecord(
    node: SchemaNode,
    path: Seq<char>,
    parent: Option<SchemaNode>,
) -> Option<SchemaNode>
    decreases node,
{
    let p = if node.kind is Subrecord {
        Some(node)
    } else {
        parent
    };
    if node.path@ == path {
        p
    } else {
        match node.kind {
            SchemaNodeKind::Sequence { children } => first_containing(children@, path, p),
            SchemaNodeKind::Choice { alternatives } => first_containing(alternatives@, path, p),
            SchemaNodeKind::SelectedChoice { alternatives, .. } => first_containing(
                alternatives@,
                path,
                p,
            ),
            SchemaNodeKind::Repeat { child, .. } => containing_subrecord(*child, path, p),
            SchemaNodeKind::Subrecord { payload, .. } => containing_subrecord(*payload, path, p),
            SchemaNodeKind::Array { element, .. } => containing_subrecord(*element, path, p),
            SchemaNodeKind::Compressed { child } => containing_subrecord(*child, path, p),
            SchemaNodeKind::Terminated { child, .. } => containing_subrecord(*child, path, p),
            SchemaNodeKind::Struct { fields } => first_containing(fields@, path, p),
            SchemaNodeKind::Union { variants, .. } => first_containing(variants@, path, p),
            _ => None,
        }
    }
}

/// The first containing subrecord found among sibling subtrees, in order.
pub open spec fn first_containing(
    nodes: Seq<SchemaNode>,
    path: Seq<char>,
    parent: Option<SchemaNode>,
) -> Option<SchemaNode>
    decreases nodes,
{
    if nodes.len() == 0 {
        None
    } else {
        match containing_subrecord(nodes[0], path, parent) {
            Some(n) => Some(n),
            None => first_containing(nodes.drop_first(), path, parent),
        }
    }
}

/// View of an optional node reference.
pub open spec fn opt_node(r: Option<&SchemaNode>) -> Option<SchemaNode> {
    match r {
        Some(x) => Some(*x),
        None => None,
    }
}

fn find_containing_in<'a>(
    owner: &'a SchemaNode,
    nodes: &'a Vec<SchemaNode>,
    path: &str,
    parent: Option<&'a SchemaNode>,
) -> (res: Option<&'a SchemaNode>)
    requires
        forall|i: int| 0 <= i < nodes@.len() ==> decreases_to!(*owner => #[trigger] nodes@[i]),
    ensures
        first_containing(nodes@, path@, opt_node(parent)) == opt_node(res),
    decreases owner, 0nat,
{
    let mut i: usize = 0;
    assert(nodes@.skip(0) =~= nodes@);
    while i < nodes.len()
        invariant
            forall|j: int| 0 <= j < nodes@.len() ==> decreases_to!(*owner => #[trigger] nodes@[j]),
            i <= nodes.len(),
            first_containing(nodes@, path@, opt_node(parent)) == first_containing(
                nodes@.skip(i as int),
                path@,
                opt_node(parent),
            ),
        decreases nodes.len() - i,
    {
        assert(decreases_to!(*owner => nodes@[i as int]));
        assert(nodes@.skip(i as int)[0] == nodes@[i as int]);
        assert(nodes@.skip(i as int).drop_first() =~= nodes@.skip(i + 1));
        if let Some(found) = find_containing(&nodes[i], path, parent) {
            return Some(found);
        }
        i += 1;
    }
    None
}

fn find_containing<'a>(node: &'a SchemaNode, path: &str, parent: Option<&'a SchemaNode>) -> (res:
    Option<&'a SchemaNode>)
    ensures
        containing_subrecord(*node, path@, opt_node(parent)) == opt_node(res),
    decreases node, 1nat,
{
    let p = match &node.kind {
        SchemaNodeKind::Subrecord { .. } => Some(node),
        _ => parent,
    };
    if crate::text::text_eq(node.path.as_str(), path) {
        return p;
    }
    match &node.kind {
        SchemaNodeKind::Sequence { children } => find_containing_in(node, children, path, p),
        SchemaNodeKind::Choice { alternatives } => find_containing_in(node, alternatives, path, p),
        SchemaNodeKind::SelectedChoice { alternatives, .. } => find_containing_in(
            node,
            alternatives,
            path,
            p,
        ),
        SchemaNodeKind::Repeat { child, .. } => find_containing(child, path, p),
        SchemaNodeKind::Subrecord { payload, .. } => find_containing(payload, path, p),
        SchemaNodeKind::Array { element, .. } => find_containing(element, path, p),
        SchemaNodeKind::Compressed { child } => find_containing(child, path, p),
        SchemaNodeKind::Terminated { child, .. } => find_containing(child, path, p),
        SchemaNodeKind::Struct { fields } => find_containing_in(node, fields, path, p),
        SchemaNodeKind::Union { variants, .. } => find_containing_in(node, variants, path, p),
        _ => None,
    }
}

/// Finds the subrecord node that contains the first node with the given path.
pub fn find_containing_subrecord<'a>(node: &'a SchemaNode, path: &str) -> (res: Option<
    &'a SchemaNode,
>)
    ensures
        containing_subrecord(*node, path@, None) == opt_node(res),
{
    find_containing(node, path, None)
}

/// Subrecord nodes reachable from `node` through sequences, choices and repeats, in order.
pub open spec fn subrecords_of(node: SchemaNode) -> Seq<SchemaNode>
    decreases node,
{
    match node.kind {
        SchemaNodeKind::Subrecord { .. } => seq![node],
        SchemaNodeKind::Sequence { children } => subrecords_in(children@),
        SchemaNodeKind::Choice { alternatives } => subrecords_in(alternatives@),
        SchemaNodeKind::SelectedChoice { alternatives, .. } => subrecords_in(alternatives@),
        SchemaNodeKind::Repeat { child, .. } => subrecords_of(*child),
        _ => Seq::empty(),
    }
}

/// Subrecord nodes reachable from sibling subtrees, in order.
pub open spec fn subrecords_in(nodes: Seq<SchemaNode>) -> Seq<SchemaNode>
    decreases nodes,
{
    if nodes.len() == 0 {
        Seq::empty()
    } else {
        subrecords_in(nodes.drop_last()) + subrecords_of(nodes.last())
    }
}

/// View of a list of node references.
pub open spec fn node_refs(v: Seq<&SchemaNode>) -> Seq<SchemaNode> {
    v.map_values(|r: &SchemaNode| *r)
}

fn collect_in<'a>(owner: &'a SchemaNode, nodes: &'a Vec<SchemaNode>, output: &mut Vec<&'a SchemaNode>)
    requires
        forall|i: int| 0 <= i < nodes@.len() ==> decreases_to!(*owner => #[trigger] nodes@[i]),
    ensures
        node_refs(final(output)@) == node_refs(old(output)@) + subrecords_in(nodes@),
    decreases owner, 0nat,
{
    let ghost start = node_refs(output@);
    let mut i: usize = 0;
    while i < nodes.len()
        invariant
            forall|j: int| 0 <= j < nodes@.len() ==> decreases_to!(*owner => #[trigger] nodes@[j]),
            i <= nodes.len(),
            node_refs(output@) == start + subrecords_in(nodes@.take(i as int)),
        decreases nodes.len() - i,
    {
        assert(decreases_to!(*owner => nodes@[i as int]));
        collect_subrecords(&nodes[i], output);
        i += 1;
        assert(nodes@.take(i as int).drop_last() =~= nodes@.take(i - 1));
        assert(nodes@.take(i as int).last() == nodes@[i - 1]);
        assert(node_refs(output@) =~= start + subrecords_in(nodes@.take(i as int)));
    }
    assert(nodes@.take(i as int) =~= nodes@);
}

fn collect_subrecords<'a>(node: &'a SchemaNode, output: &mut Vec<&'a SchemaNode>)
    ensures
        node_refs(final(output)@) == node_refs(old(output)@) + subrecords_of(*node),
    decreases node, 1nat,
{
    let ghost start = node_refs(output@);
    match &node.kind {
        SchemaNodeKind::Subrecord { .. } => {
            output.push(node);
            assert(node_refs(output@) =~= start + seq![*node]);
        },
        SchemaNodeKind::Sequence { children } => collect_in(node, children, output),
        SchemaNodeKind::Choice { alternatives } => collect_in(node, alternatives, output),
        SchemaNodeKind::SelectedChoice { alternatives, .. } => collect_in(node, alternatives, output),
        SchemaNodeKind::Repeat { child, .. } => collect_subrecords(child, output),
        _ => {
            assert(node_refs(output@) =~= start + Seq::<SchemaNode>::empty());
        },
    }
}

/// Lists the subrecord nodes of a record schema in grammar order.
pub fn top_level_subrecords(root: &SchemaNode) -> (res: Vec<&SchemaNode>)
    ensures
        node_refs(res@) == subrecords_of(*root),
{
    let mut output: Vec<&SchemaNode> = Vec::new();
    collect_subrecords(root, &mut output);
    assert(node_refs(output@) =~= subrecords_of(*root));
    output
}

/// Whether a schema path is a parent path or lies below it: equal to it, or continuing
/// it with a `/` separator.
pub open spec fn is_within(path: Seq<char>, parent: Seq<char>) -> bool {
    path == parent || (path.len() > parent.len() && path.subrange(0, parent.len() as int) == parent
        && path[parent.len() as int] == '/')
}

/// Whether `path` is `parent` or a path below it.
pub fn path_is_within(path: &str, parent: &str) -> (res: bool)
    ensures
        res == is_within(path@, parent@),
{
    if crate::text::text_eq(path, parent) {
        return true;
    }
    let n = path.unicode_len();
    let m = parent.unicode_len();
    if n <= m {
        return false;
    }
    let head = path.substring_char(0, m);
    crate::text::text_eq(head, parent) && path.get_char(m) == '/'
}

/// Position of the last `/` in a path.
pub open spec fn last_separator(path: Seq<char>) -> Option<int>
    decreases path.len(),
{
    if path.len() == 0 {
        None
    } else if path.last() == '/' {
        Some(path.len() - 1)
    } else {
        last_separator(path.drop_last())
    }
}

proof fn lemma_last_separator_bound(path: Seq<char>)
    ensures
        last_separator(path) matches Some(i) ==> 0 <= i < path.len(),
    decreases path.len(),
{
    if path.len() > 0 && path.last() != '/' {
        lemma_last_separator_bound(path.drop_last());
    }
}

/// The path that anchors after-load edits of `path`: the nearest of `candidate` and its
/// ancestor paths (cut at each `/`) that names a subrecord of the schema, or `path`
/// itself when none does.
pub open spec fn anchor_path(root: SchemaNode, path: Seq<char>, candidate: Seq<char>) -> Seq<char>
    decreases candidate.len(),
{
    if node_by_path(root, candidate) matches Some(n) && n.kind is Subrecord {
        candidate
    } else {
        match last_separator(candidate) {
            None => path,
            Some(i) => if 0 <= i < candidate.len() {
                anchor_path(root, path, candidate.take(i))
            } else {
                path
            },
        }
    }
}

fn find_last_separator(text: &str) -> (res: Option<usize>)
    ensures
        res matches Some(r) ==> last_separator(text@) == Some(r as int),
        res is None ==> last_separator(text@) is None,
{
    proof {
        lemma_last_separator_bound(text@);
    }
    let n = text.unicode_len();
    let mut i: usize = n;
    assert(text@.take(n as int) =~= text@);
    while i > 0
        invariant
            n == text@.len(),
            i <= n,
            last_separator(text@) == last_separator(text@.take(i as int)),
        decreases i,
    {
        let c = text.get_char(i - 1);
        assert(text@.take(i as int).last() == c);
        if c == '/' {
            return Some(i - 1);
        }
        assert(text@.take(i as int).drop_last() =~= text@.take(i - 1));
        i -= 1;
    }
    None
}

/// The nearest path, from `path` up through its ancestors, that names a subrecord of the
/// record schema `root`; `path` itself when none does.
pub fn after_load_anchor_path(root: &SchemaNode, path: &str) -> (res: String)
    ensures
        res@ == anchor_path(*root, path@, path@),
{
    let mut candidate: &str = path;
    loop
        invariant
            anchor_path(*root, path@, candidate@) == anchor_path(*root, path@, path@),
        decreases candidate@.len(),
    {
        let ghost before = candidate@;
        let mut is_subrecord = false;
        match find_node_by_path(root, candidate) {
            Some(node) => {
                if let SchemaNodeKind::Subrecord { .. } = &node.kind {
                    is_subrecord = true;
                }
            },
            None => {},
        }
        if is_subrecord {
            return candidate.to_owned();
        }
        assert(!(node_by_path(*root, before) matches Some(n) && n.kind is Subrecord));
        match find_last_separator(candidate) {
            None => {
                return path.to_owned();
            },
            Some(i) => {
                proof {
                    lemma_last_separator_bound(candidate@);
                    assert(last_separator(before) == Some(i as int));
                    assert(anchor_path(*root, path@, before) == anchor_path(
                        *root,
                        path@,
                        before.take(i as int),
                    ));
                }
                candidate = candidate.substring_char(0, i);
                assert(candidate@ =~= before.take(i as int));
            },
        }
    }
}

} // verus!
