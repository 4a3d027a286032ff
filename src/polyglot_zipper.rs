//! A read-only cursor over a `PolyglotTree` that walks the forest as one
//! tree: moving to the first child of an evaluate call lands on the root of
//! the fragment linked there.
use vstd::prelude::*;

use crate::grammar::parses;
use crate::polyglot_tree::{
    all_done, done, inside_eval, MAX_NESTING, is_eval_at, is_export_at, is_import_at,
    node_text, resolution, settled, slot_ok, tree_ok, FragmentView, LinkFailureView,
    PayloadView, PolyglotTree, TreeView,
};
use crate::syntax::{child_at, child_linked, next_sibling_of, parent_linked, prev_sibling_of};
use crate::util::{InvalidArgumentError, PolyLanguage};

verus! {

/// Where a cursor stands: a forest, a fragment of it and a node of that fragment.
pub struct ZipperView {
    pub forest: TreeView,
    pub fragment: usize,
    pub node: usize,
}

/// `fragment` and `node` name a node of `forest`.
pub open spec fn position_ok(t: TreeView, fragment: int, node: int) -> bool {
    0 <= fragment < t.fragments.len() && 0 <= node < t.fragments[fragment].nodes.len()
}

/// The tag a cursor reports for node `n` of fragment `fr`: one of the
/// interop tags for an interop call, the grammar's kind otherwise.
pub open spec fn kind_of(fr: FragmentView, n: int) -> Seq<char> {
    if is_eval_at(fr, n) {
        "interop-evaluate-call"@
    } else if is_import_at(fr, n) {
        "interop-import-call"@
    } else if is_export_at(fr, n) {
        "interop-export-call"@
    } else {
        fr.nodes[n].kind
    }
}

/// Where moving to the first child of node `n` of fragment `f` leads: the
/// root of the fragment linked there, if any, else the first child.
pub open spec fn first_child_pos(t: TreeView, f: int, n: int) -> Option<(usize, usize)> {
    match t.links[f][n] {
        Some(g) => Some((g, 0)),
        None => match child_at(t.fragments[f].nodes, n, 0) {
            Some(c) => Some((f as usize, c)),
            None => None,
        },
    }
}

/// Where the `i`-th child of node `n` of fragment `f` is: for an evaluate
/// call, the root of its linked fragment whatever `i` is; else the `i`-th
/// child in the same fragment.
pub open spec fn child_pos(t: TreeView, f: int, n: int, i: int) -> Option<(usize, usize)> {
    if is_eval_at(t.fragments[f], n) {
        match t.links[f][n] {
            Some(g) => Some((g, 0)),
            None => None,
        }
    } else {
        match child_at(t.fragments[f].nodes, n, i) {
            Some(c) => Some((f as usize, c)),
            None => None,
        }
    }
}

/// The next sibling of node `n` of fragment `f`, in the same fragment.
pub open spec fn next_sibling_pos(t: TreeView, f: int, n: int) -> Option<(usize, usize)> {
    match next_sibling_of(t.fragments[f].nodes, n) {
        Some(s) => Some((f as usize, s)),
        None => None,
    }
}

/// The previous sibling of node `n` of fragment `f`, in the same fragment.
pub open spec fn prev_sibling_pos(t: TreeView, f: int, n: int) -> Option<(usize, usize)> {
    match prev_sibling_of(t.fragments[f].nodes, n) {
        Some(s) => Some((f as usize, s)),
        None => None,
    }
}

/// The text of the static binding name of the import or export call at node
/// `n`, empty where the language gives it none.
pub open spec fn binding_of(fr: FragmentView, n: int) -> Seq<char> {
    match fr.language.binding_node(fr.nodes, n) {
        Some(b) => node_text(fr, b as int),
        None => Seq::empty(),
    }
}

/// Moving to a sibling never leaves the fragment; a move to a child lands in
/// another fragment only from an evaluate call with a linked fragment.
pub proof fn lemma_siblings_stay(t: TreeView, f: usize, n: usize, i: int)
    requires
        tree_ok(t),
        position_ok(t, f as int, n as int),
    ensures
        next_sibling_pos(t, f as int, n as int) matches Some((g, _)) ==> g == f,
        prev_sibling_pos(t, f as int, n as int) matches Some((g, _)) ==> g == f,
        first_child_pos(t, f as int, n as int) matches Some((g, _)) ==> (g == f || (is_eval_at(
            t.fragments[f as int],
            n as int,
        ) && t.links[f as int][n as int] == Some(g))),
        child_pos(t, f as int, n as int, i) matches Some((g, _)) ==> (g == f || (is_eval_at(
            t.fragments[f as int],
            n as int,
        ) && t.links[f as int][n as int] == Some(g))),
{
    assert(t.links[f as int].len() == t.fragments[f as int].nodes.len());
    assert(slot_ok(t, f as int, n as int));
}

/// An inline evaluate call naming a supported language, outside any other
/// call and below the nesting limit, whose code parses, is linked to a
/// fragment parsed from its code in that language; moving to its first
/// child lands on the root of that fragment. A node that is no evaluate call
/// carries no link.
pub proof fn lemma_inline_call_linked(
    t: TreeView,
    f: int,
    n: int,
    l: PolyLanguage,
    code: Seq<char>,
)
    requires
        tree_ok(t),
        all_done(t),
        position_ok(t, f, n),
        is_eval_at(t.fragments[f], n),
        !inside_eval(t.fragments[f], n),
        resolution(t.fragments[f], n) == Some(
            Ok::<(PolyLanguage, PayloadView), LinkFailureView>((l, PayloadView::Code(code))),
        ),
        t.fragments[f].depth < MAX_NESTING,
        parses(l, code),
    ensures
        t.links[f][n] matches Some(g) && t.fragments[g as int].language == l && t.fragments[g as int].source
            == code && first_child_pos(t, f, n) == Some((g, 0usize)),
        forall|m: int|
            0 <= m < t.links[f].len() && !is_eval_at(t.fragments[f], m) ==> (#[trigger] t.links[f][m]) is None,
{
    assert(done(t, f));
    assert(settled(t, f, n));
    assert(t.links[f].len() == t.fragments[f].nodes.len());
    assert(slot_ok(t, f, n));
    assert forall|m: int|
        0 <= m < t.links[f].len() && !is_eval_at(t.fragments[f], m) implies (#[trigger] t.links[f][m]) is None by {
        assert(slot_ok(t, f, m));
    }
}

/// What a processor does with a cursor on a tree.
pub trait PolyglotProcessor {
    /// Called once per `PolyglotTree::apply`, with a cursor on the root.
    fn process(&mut self, zipper: PolyglotZipper);
}

impl PolyglotTree {
    /// Hands `processor` a cursor on the root of the top fragment.
    pub fn apply<P: PolyglotProcessor>(&self, processor: &mut P)
        requires
            self.wf(),
    {
        processor.process(PolyglotZipper::from(self))
    }
}

/// A cursor on one node of a `PolyglotTree`.
pub struct PolyglotZipper<'a> {
    tree: &'a PolyglotTree,
    fragment: usize,
    node: usize,
}

impl<'a> View for PolyglotZipper<'a> {
    type V = ZipperView;

    closed spec fn view(&self) -> ZipperView {
        ZipperView { forest: self.tree@, fragment: self.fragment, node: self.node }
    }
}

impl<'a> PolyglotZipper<'a> {
    #[verifier::type_invariant]
    spec fn inv(self) -> bool {
        &&& tree_ok(self.tree@)
        &&& position_ok(self.tree@, self.fragment as int, self.node as int)
    }

    /// The fragment under the cursor.
    pub open spec fn current(self) -> FragmentView {
        self@.forest.fragments[self@.fragment as int]
    }

    /// A cursor on the root of the top fragment of `tree`.
    pub fn from(tree: &'a PolyglotTree) -> (r: PolyglotZipper<'a>)
        requires
            tree.wf(),
        ensures
            r@ == (ZipperView { forest: tree@, fragment: 0, node: 0 }),
    {
        proof {
            assert(crate::polyglot_tree::fragment_ok(tree@.fragments[0]));
        }
        PolyglotZipper { tree, fragment: 0, node: 0 }
    }

    /// A cursor on node `node` of fragment `fragment`.
    fn at(tree: &'a PolyglotTree, fragment: usize, node: usize) -> (r: PolyglotZipper<'a>)
        requires
            tree.wf(),
            position_ok(tree@, fragment as int, node as int),
        ensures
            r@ == (ZipperView { forest: tree@, fragment, node }),
    {
        PolyglotZipper { tree, fragment, node }
    }

    /// The callee text of the node under the cursor, if it has the shape of
    /// a call.
    fn callee(&self) -> (r: Option<&'a str>)
        ensures
            r matches Some(s) ==> crate::polyglot_tree::callee_text(self.current(), self@.node as int)
                == Some(s@),
            r is None ==> crate::polyglot_tree::callee_text(self.current(), self@.node as int) is None,
    {
        proof {
            use_type_invariant(self);
            assert(crate::polyglot_tree::fragment_ok(self.current()));
        }
        let fragment = self.tree.fragment(self.fragment);
        match fragment.language.get_polyglot_call_lang(
            &fragment.syntax,
            fragment.code.as_str(),
            self.node,
        ) {
            Some(c) => Some(fragment.node_code(c)),
            None => None,
        }
    }

    /// Whether the node under the cursor is an evaluate call.
    pub fn is_polyglot_eval_call(&self) -> (r: bool)
        ensures
            r == is_eval_at(self.current(), self@.node as int),
    {
        proof {
            use_type_invariant(self);
        }
        match self.callee() {
            Some(t) => self.tree.fragment(self.fragment).language.is_polyglot_eval_call(t),
            None => false,
        }
    }

    /// Whether the node under the cursor is an import call.
    pub fn is_polyglot_import_call(&self) -> (r: bool)
        ensures
            r == is_import_at(self.current(), self@.node as int),
    {
        proof {
            use_type_invariant(self);
        }
        match self.callee() {
            Some(t) => self.tree.fragment(self.fragment).language.is_polyglot_import_call(t),
            None => false,
        }
    }

    /// Whether the node under the cursor is an export call.
    pub fn is_polyglot_export_call(&self) -> (r: bool)
        ensures
            r == is_export_at(self.current(), self@.node as int),
    {
        proof {
            use_type_invariant(self);
        }
        match self.callee() {
            Some(t) => self.tree.fragment(self.fragment).language.is_polyglot_export_call(t),
            None => false,
        }
    }

    /// The kind of the node under the cursor: `interop-evaluate-call`,
    /// `interop-import-call` or `interop-export-call` for an interop call,
    /// the grammar's kind otherwise.
    pub fn kind(&self) -> (r: &'a str)
        ensures
            r@ == kind_of(self.current(), self@.node as int),
    {
        if self.is_polyglot_eval_call() {
            "interop-evaluate-call"
        } else if self.is_polyglot_import_call() {
            "interop-import-call"
        } else if self.is_polyglot_export_call() {
            "interop-export-call"
        } else {
            proof {
                use_type_invariant(self);
            }
            self.tree.fragment(self.fragment).syntax.nodes[self.node].kind.as_str()
        }
    }

    /// The source text of the node under the cursor.
    pub fn code(&self) -> (r: &'a str)
        ensures
            r@ == node_text(self.current(), self@.node as int),
    {
        proof {
            use_type_invariant(self);
            assert(crate::polyglot_tree::fragment_ok(self.current()));
        }
        self.tree.fragment(self.fragment).node_code(self.node)
    }

    /// Row and column where the node under the cursor starts.
    pub fn start_position(&self) -> (r: tree_sitter::Point)
        ensures
            r == self.current().nodes[self@.node as int].start_position,
    {
        proof {
            use_type_invariant(self);
        }
        self.tree.fragment(self.fragment).syntax.nodes[self.node].start_position
    }

    /// Row and column where the node under the cursor ends.
    pub fn end_position(&self) -> (r: tree_sitter::Point)
        ensures
            r == self.current().nodes[self@.node as int].end_position,
    {
        proof {
            use_type_invariant(self);
        }
        self.tree.fragment(self.fragment).syntax.nodes[self.node].end_position
    }

    /// The language of the fragment under the cursor.
    pub fn get_lang(&self) -> (r: &'a PolyLanguage)
        ensures
            *r == self.current().language,
    {
        proof {
            use_type_invariant(self);
        }
        &self.tree.fragment(self.fragment).language
    }

    /// The name that the import or export call under the cursor binds, empty
    /// where the language gives it no static name. Any other node is an
    /// invalid argument.
    pub fn get_binding_name(&self) -> (r: Result<String, InvalidArgumentError>)
        ensures
            (is_import_at(self.current(), self@.node as int) || is_export_at(
                self.current(),
                self@.node as int,
            )) <==> r is Ok,
            r matches Ok(s) ==> s@ == binding_of(self.current(), self@.node as int),
    {
        if self.is_polyglot_import_call() || self.is_polyglot_export_call() {
            proof {
                use_type_invariant(self);
                assert(crate::polyglot_tree::fragment_ok(self.current()));
            }
            let fragment = self.tree.fragment(self.fragment);
            match fragment.language.get_binding(&fragment.syntax, fragment.code.as_str(), self.node) {
                Some(b) => Ok(fragment.node_code(b).to_owned()),
                None => Ok(String::new()),
            }
        } else {
            Err(InvalidArgumentError)
        }
    }

    /// Moves to the first child: into the root of the fragment linked at an
    /// evaluate call, else to the first child in the same fragment. Returns
    /// whether it moved; when it does not, the cursor stays.
    pub fn goto_first_child(&mut self) -> (r: bool)
        ensures
            match first_child_pos(old(self)@.forest, old(self)@.fragment as int, old(self)@.node as int) {
                Some((g, m)) => r && final(self)@ == (ZipperView {
                    forest: old(self)@.forest,
                    fragment: g,
                    node: m,
                }),
                None => !r && final(self)@ == old(self)@,
            },
    {
        proof {
            use_type_invariant(&*self);
        }
        let fragment = self.tree.fragment(self.fragment);
        match fragment.links[self.node] {
            Some(g) => {
                proof {
                    assert(crate::polyglot_tree::slot_ok(self.tree@, self.fragment as int, self.node as int));
                    assert(crate::polyglot_tree::fragment_ok(self.tree@.fragments[g as int]));
                }
                *self = PolyglotZipper { tree: self.tree, fragment: g, node: 0 };
                true
            },
            None => match fragment.syntax.child(self.node, 0) {
                Some(c) => {
                    proof {
                        assert(crate::polyglot_tree::fragment_ok(self.current()));
                        assert(child_linked(self.current().nodes, self.node as int, 0));
                    }
                    self.node = c;
                    true
                },
                None => false,
            },
        }
    }

    /// Moves to the next sibling, in the same fragment. Returns whether it
    /// moved; when it does not, the cursor stays.
    pub fn goto_next_sibling(&mut self) -> (r: bool)
        ensures
            match next_sibling_pos(old(self)@.forest, old(self)@.fragment as int, old(self)@.node as int) {
                Some((g, m)) => r && final(self)@ == (ZipperView {
                    forest: old(self)@.forest,
                    fragment: g,
                    node: m,
                }),
                None => !r && final(self)@ == old(self)@,
            },
    {
        proof {
            use_type_invariant(&*self);
            assert(crate::polyglot_tree::fragment_ok(self.current()));
        }
        let fragment = self.tree.fragment(self.fragment);
        match fragment.syntax.next_sibling(self.node) {
            Some(s) => {
                proof {
                    let nodes = self.current().nodes;
                    let p = nodes[self.node as int].parent.unwrap();
                    assert(parent_linked(nodes, self.node as int));
                    assert(child_linked(nodes, p as int, nodes[self.node as int].slot + 1));
                }
                self.node = s;
                true
            },
            None => false,
        }
    }

    /// A cursor on the `i`-th child: for an evaluate call, on the root of its
    /// linked fragment whatever `i` is.
    pub fn child(&self, i: usize) -> (r: Option<PolyglotZipper<'a>>)
        ensures
            match child_pos(self@.forest, self@.fragment as int, self@.node as int, i as int) {
                Some((g, m)) => r matches Some(z) && z@ == (ZipperView {
                    forest: self@.forest,
                    fragment: g,
                    node: m,
                }),
                None => r is None,
            },
    {
        proof {
            use_type_invariant(self);
            assert(crate::polyglot_tree::fragment_ok(self.current()));
        }
        let fragment = self.tree.fragment(self.fragment);
        if self.is_polyglot_eval_call() {
            match fragment.links[self.node] {
                Some(g) => {
                    proof {
                        assert(crate::polyglot_tree::slot_ok(self.tree@, self.fragment as int, self.node as int));
                        assert(crate::polyglot_tree::fragment_ok(self.tree@.fragments[g as int]));
                    }
                    Some(PolyglotZipper::at(self.tree, g, 0))
                },
                None => None,
            }
        } else {
            match fragment.syntax.child(self.node, i) {
                Some(c) => {
                    proof {
                        assert(child_linked(self.current().nodes, self.node as int, i as int));
                    }
                    Some(PolyglotZipper::at(self.tree, self.fragment, c))
                },
                None => None,
            }
        }
    }

    /// A cursor on the next sibling, in the same fragment.
    pub fn next_sibling(&self) -> (r: Option<PolyglotZipper<'a>>)
        ensures
            match next_sibling_pos(self@.forest, self@.fragment as int, self@.node as int) {
                Some((g, m)) => r matches Some(z) && z@ == (ZipperView {
                    forest: self@.forest,
                    fragment: g,
                    node: m,
                }),
                None => r is None,
            },
    {
        proof {
            use_type_invariant(self);
            assert(crate::polyglot_tree::fragment_ok(self.current()));
        }
        let fragment = self.tree.fragment(self.fragment);
        match fragment.syntax.next_sibling(self.node) {
            Some(s) => {
                proof {
                    let nodes = self.current().nodes;
                    let p = nodes[self.node as int].parent.unwrap();
                    assert(parent_linked(nodes, self.node as int));
                    assert(child_linked(nodes, p as int, nodes[self.node as int].slot + 1));
                }
                Some(PolyglotZipper::at(self.tree, self.fragment, s))
            },
            None => None,
        }
    }

    /// A cursor on the previous sibling, in the same fragment.
    pub fn prev_sibling(&self) -> (r: Option<PolyglotZipper<'a>>)
        ensures
            match prev_sibling_pos(self@.forest, self@.fragment as int, self@.node as int) {
                Some((g, m)) => r matches Some(z) && z@ == (ZipperView {
                    forest: self@.forest,
                    fragment: g,
                    node: m,
                }),
                None => r is None,
            },
    {
        proof {
            use_type_invariant(self);
            assert(crate::polyglot_tree::fragment_ok(self.current()));
        }
        let fragment = self.tree.fragment(self.fragment);
        match fragment.syntax.prev_sibling(self.node) {
            Some(s) => {
                proof {
                    let nodes = self.current().nodes;
                    let p = nodes[self.node as int].parent.unwrap();
                    assert(parent_linked(nodes, self.node as int));
                    assert(child_linked(nodes, p as int, nodes[self.node as int].slot - 1));
                }
                Some(PolyglotZipper::at(self.tree, self.fragment, s))
            },
            None => None,
        }
    }
}

} // verus!
