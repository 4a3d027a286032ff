//! The parsed structure of one program fragment, held as plain values: an
//! arena of nodes in which every node knows its kind, the bytes of the
//! source it spans, its parent and its children.
use vstd::prelude::*;
use vstd::string::StringSliceAdditionalSpecFns;
use vstd::utf8::*;

verus! {

broadcast use group_utf8_lib;

/// One node of a parsed fragment.
pub struct SyntaxNode {
    /// The grammar's name for the node (`call`, `identifier`, ...).
    pub kind: String,
    /// Offset in bytes of the first byte the node spans.
    pub start_byte: usize,
    /// Offset in bytes one past the last byte the node spans.
    pub end_byte: usize,
    /// Row and column where the node starts.
    pub start_position: tree_sitter::Point,
    /// Row and column where the node ends.
    pub end_position: tree_sitter::Point,
    /// Index of the parent node; `None` for the root alone.
    pub parent: Option<usize>,
    /// Position of the node among its parent's children.
    pub slot: usize,
    /// Indices of the children, in source order.
    pub children: Vec<usize>,
}

/// What a `SyntaxNode` holds, as mathematical values.
pub struct NodeView {
    pub kind: Seq<char>,
    pub start_byte: usize,
    pub end_byte: usize,
    pub start_position: tree_sitter::Point,
    pub end_position: tree_sitter::Point,
    pub parent: Option<usize>,
    pub slot: usize,
    pub children: Seq<usize>,
}

impl View for SyntaxNode {
    type V = NodeView;

    open spec fn view(&self) -> NodeView {
        NodeView {
            kind: self.kind@,
            start_byte: self.start_byte,
            end_byte: self.end_byte,
            start_position: self.start_position,
            end_position: self.end_position,
            parent: self.parent,
            slot: self.slot,
            children: self.children@,
        }
    }
}

/// The nodes of one parsed fragment; the root is at index 0.
pub struct SyntaxTree {
    pub nodes: Vec<SyntaxNode>,
}

impl View for SyntaxTree {
    type V = Seq<NodeView>;

    open spec fn view(&self) -> Seq<NodeView> {
        views_of(self.nodes@)
    }
}

/// The views of a sequence of nodes.
pub open spec fn views_of(nodes: Seq<SyntaxNode>) -> Seq<NodeView> {
    nodes.map_values(|n: SyntaxNode| n@)
}

/// Node `i` spans whole characters of `source`.
pub open spec fn spans_text(nodes: Seq<NodeView>, source: Seq<char>, i: int) -> bool {
    let bytes = encode_utf8(source);
    &&& nodes[i].start_byte <= nodes[i].end_byte <= bytes.len()
    &&& is_char_boundary(bytes, nodes[i].start_byte as int)
    &&& is_char_boundary(bytes, nodes[i].end_byte as int)
}

/// Node `i` is the root exactly when it has no parent, and a node with a
/// parent stands after it, in the slot of the parent's children it names.
pub open spec fn parent_linked(nodes: Seq<NodeView>, i: int) -> bool {
    match nodes[i].parent {
        Some(p) => {
            &&& 0 < i
            &&& p < i
            &&& nodes[i].slot < nodes[p as int].children.len()
            &&& nodes[p as int].children[nodes[i].slot as int] == i
        },
        None => i == 0,
    }
}

/// The `j`-th child of node `i` stands after it and names `i` as its parent
/// and `j` as its slot.
pub open spec fn child_linked(nodes: Seq<NodeView>, i: int, j: int) -> bool {
    let c = nodes[i].children[j] as int;
    &&& i < c < nodes.len()
    &&& nodes[c].parent == Some(i as usize)
    &&& nodes[c].slot == j
}

/// The arena describes one tree over `source`, rooted at index 0.
pub open spec fn well_formed(nodes: Seq<NodeView>, source: Seq<char>) -> bool {
    &&& nodes.len() > 0
    &&& forall|i: int| 0 <= i < nodes.len() ==> #[trigger] spans_text(nodes, source, i)
    &&& forall|i: int| 0 <= i < nodes.len() ==> #[trigger] parent_linked(nodes, i)
    &&& forall|i: int, j: int|
        0 <= i < nodes.len() && 0 <= j < nodes[i].children.len() ==> #[trigger] child_linked(
            nodes,
            i,
            j,
        )
}

/// The `i`-th child of node `n`, if it has that many.
pub open spec fn child_at(nodes: Seq<NodeView>, n: int, i: int) -> Option<usize> {
    if 0 <= i < nodes[n].children.len() {
        Some(nodes[n].children[i])
    } else {
        None
    }
}

/// The node that follows `n` under the same parent.
pub open spec fn next_sibling_of(nodes: Seq<NodeView>, n: int) -> Option<usize> {
    match nodes[n].parent {
        Some(p) => child_at(nodes, p as int, nodes[n].slot + 1),
        None => None,
    }
}

/// The node that precedes `n` under the same parent.
pub open spec fn prev_sibling_of(nodes: Seq<NodeView>, n: int) -> Option<usize> {
    match nodes[n].parent {
        Some(p) => if nodes[n].slot > 0 {
            child_at(nodes, p as int, nodes[n].slot - 1)
        } else {
            None
        },
        None => None,
    }
}

/// The characters of `source` that node `n` spans.
pub open spec fn text_of(nodes: Seq<NodeView>, source: Seq<char>, n: int) -> Seq<char> {
    decode_utf8(encode_utf8(source).subrange(nodes[n].start_byte as int, nodes[n].end_byte as int))
}

/// Appends `node` to the arena as the last child of `parent`, and returns its
/// index.
pub(crate) fn attach(
    nodes: &mut Vec<SyntaxNode>,
    node: SyntaxNode,
    parent: usize,
    Ghost(source): Ghost<Seq<char>>,
) -> (r: usize)
    requires
        well_formed(views_of(old(nodes)@), source),
        parent < old(nodes)@.len(),
        node@.children.len() == 0,
        spans_text(seq![node@], source, 0),
    ensures
        well_formed(views_of(final(nodes)@), source),
        r == old(nodes)@.len(),
        final(nodes)@.len() == old(nodes)@.len() + 1,
        final(nodes)@[r as int]@.parent == Some(parent),
{
    let ghost before = views_of(nodes@);
    let ghost given = node@;
    let idx = nodes.len();
    let slot = nodes[parent].children.len();
    let mut node = node;
    node.parent = Some(parent);
    node.slot = slot;
    nodes.push(node);
    nodes[parent].children.push(idx);
    proof {
        let after = views_of(nodes@);
        let p = parent as int;
        assert(after.len() == before.len() + 1);
        assert(after[idx as int].start_byte == given.start_byte);
        assert(after[idx as int].end_byte == given.end_byte);
        assert(spans_text(seq![given], source, 0));
        assert(after[p].children =~= before[p].children.push(idx));
        assert forall|i: int| 0 <= i < before.len() && i != p implies after[i] == before[i] by {}
        assert(after[p].start_byte == before[p].start_byte && after[p].end_byte == before[p].end_byte
            && after[p].parent == before[p].parent && after[p].slot == before[p].slot);
        assert forall|i: int| 0 <= i < after.len() implies #[trigger] spans_text(after, source, i) by {
            if i < before.len() {
                assert(spans_text(before, source, i));
            }
        }
        assert forall|i: int| 0 <= i < after.len() implies #[trigger] parent_linked(after, i) by {
            if i < before.len() {
                assert(parent_linked(before, i));
                if let Some(q) = before[i].parent {
                    if q as int == p {
                        assert(after[p].children[before[i].slot as int] == before[p].children[before[i].slot as int]);
                    }
                }
            }
        }
        assert forall|i: int, j: int|
            0 <= i < after.len() && 0 <= j < after[i].children.len() implies #[trigger] child_linked(
            after,
            i,
            j,
        ) by {
            if i < before.len() && !(i == p && j == slot) {
                assert(child_linked(before, i, j));
            }
        }
    }
    idx
}

impl SyntaxTree {
    /// Index of the `i`-th child of node `n`.
    pub fn child(&self, n: usize, i: usize) -> (r: Option<usize>)
        requires
            n < self@.len(),
        ensures
            r == child_at(self@, n as int, i as int),
    {
        let children = &self.nodes[n].children;
        if i < children.len() {
            Some(children[i])
        } else {
            None
        }
    }

    /// Index of the node after `n` under the same parent.
    pub fn next_sibling(&self, n: usize) -> (r: Option<usize>)
        requires
            n < self@.len(),
            forall|i: int| 0 <= i < self@.len() ==> #[trigger] parent_linked(self@, i),
        ensures
            r == next_sibling_of(self@, n as int),
    {
        match self.nodes[n].parent {
            Some(p) => {
                proof {
                    assert(parent_linked(self@, n as int));
                }
                let slot = self.nodes[n].slot;
                let count = self.nodes[p].children.len();
                if slot + 1 < count {
                    Some(self.nodes[p].children[slot + 1])
                } else {
                    None
                }
            },
            None => None,
        }
    }

    /// Index of the node before `n` under the same parent.
    pub fn prev_sibling(&self, n: usize) -> (r: Option<usize>)
        requires
            n < self@.len(),
            forall|i: int| 0 <= i < self@.len() ==> #[trigger] parent_linked(self@, i),
        ensures
            r == prev_sibling_of(self@, n as int),
    {
        match self.nodes[n].parent {
            Some(p) => {
                proof {
                    assert(parent_linked(self@, n as int));
                }
                let slot = self.nodes[n].slot;
                if slot > 0 {
                    self.child(p, slot - 1)
                } else {
                    None
                }
            },
            None => None,
        }
    }

    /// The source text that node `n` spans.
    pub fn text<'a>(&self, source: &'a str, n: usize) -> (r: &'a str)
        requires
            n < self@.len(),
            spans_text(self@, source@, n as int),
        ensures
            r@ == text_of(self@, source@, n as int),
    {
        let start = self.nodes[n].start_byte;
        let end = self.nodes[n].end_byte;
        let ghost bytes = source.spec_bytes();
        let (head, _) = source.split_at(end);
        proof {
            let hb = bytes.subrange(0, end as int);
            assert(head.spec_bytes() =~= hb);
            assert(valid_utf8(hb));
            if start < end {
                assert(hb[start as int] == bytes[start as int]);
                assert(is_char_boundary(bytes, start as int) <==> !is_continuation_byte(bytes[start as int]));
                assert(is_char_boundary(hb, start as int) <==> !is_continuation_byte(hb[start as int]));
            } else {
                assert(hb.len() == start);
                assert(is_char_boundary(hb, hb.len() as int));
            }
        }
        let (_, piece) = head.split_at(start);
        proof {
            assert(piece.spec_bytes() =~= bytes.subrange(start as int, end as int));
            assert(decode_utf8(encode_utf8(piece@)) == piece@);
        }
        piece
    }
}

} // verus!
