//! Language adapters: how each supported language shapes an interop call in
//! its parse tree, how the call's arguments are laid out, and the literal
//! spellings of the calls.
use vstd::prelude::*;

use crate::syntax::{child_at, well_formed, NodeView, SyntaxTree};
use crate::util::{text_eq, PolyLanguage};

verus! {

/// The Python adapter: `polyglot.eval(language=..., string=... | path=...)`.
#[derive(Debug, Clone, Copy, PartialEq, Eq, Structural)]
pub struct Python {}

/// The JavaScript adapter: `Polyglot.eval(lang, code)` and
/// `Polyglot.evalFile(lang, path)`.
#[derive(Debug, Clone, Copy, PartialEq, Eq, Structural)]
pub struct JavaScript {}

/// The Java adapter: `context.eval(lang, code)`.
#[derive(Debug, Clone, Copy, PartialEq, Eq, Structural)]
pub struct Java {}

/// The C adapter: `polyglot_eval(lang, code)` and
/// `polyglot_eval_file(lang, path)`.
#[derive(Debug, Clone, Copy, PartialEq, Eq, Structural)]
pub struct C {}

impl From<Python> for PolyLanguage {
    fn from(_l: Python) -> (r: PolyLanguage)
        ensures
            r == PolyLanguage::Python,
    {
        PolyLanguage::Python
    }
}

impl vstd::std_specs::convert::FromSpecImpl<Python> for PolyLanguage {
    open spec fn obeys_from_spec() -> bool {
        true
    }

    open spec fn from_spec(v: Python) -> PolyLanguage {
        PolyLanguage::Python
    }
}

impl From<JavaScript> for PolyLanguage {
    fn from(_l: JavaScript) -> (r: PolyLanguage)
        ensures
            r == PolyLanguage::JavaScript,
    {
        PolyLanguage::JavaScript
    }
}

impl vstd::std_specs::convert::FromSpecImpl<JavaScript> for PolyLanguage {
    open spec fn obeys_from_spec() -> bool {
        true
    }

    open spec fn from_spec(v: JavaScript) -> PolyLanguage {
        PolyLanguage::JavaScript
    }
}

impl From<Java> for PolyLanguage {
    fn from(_l: Java) -> (r: PolyLanguage)
        ensures
            r == PolyLanguage::Java,
    {
        PolyLanguage::Java
    }
}

impl vstd::std_specs::convert::FromSpecImpl<Java> for PolyLanguage {
    open spec fn obeys_from_spec() -> bool {
        true
    }

    open spec fn from_spec(v: Java) -> PolyLanguage {
        PolyLanguage::Java
    }
}

impl From<C> for PolyLanguage {
    fn from(_l: C) -> (r: PolyLanguage)
        ensures
            r == PolyLanguage::C,
    {
        PolyLanguage::C
    }
}

impl vstd::std_specs::convert::FromSpecImpl<C> for PolyLanguage {
    open spec fn obeys_from_spec() -> bool {
        true
    }

    open spec fn from_spec(v: C) -> PolyLanguage {
        PolyLanguage::C
    }
}

/// The characters of an optional string slice.
pub open spec fn view_of_text(o: Option<&str>) -> Option<Seq<char>> {
    match o {
        Some(s) => Some(s@),
        None => None,
    }
}

/// The child reached from `o` by taking its `i`-th child.
pub open spec fn descend(nodes: Seq<NodeView>, o: Option<usize>, i: int) -> Option<usize> {
    match o {
        Some(m) => child_at(nodes, m as int, i),
        None => None,
    }
}

/// Moves from `o` to its `i`-th child.
fn step(tree: &SyntaxTree, Ghost(source): Ghost<Seq<char>>, o: Option<usize>, i: usize) -> (r:
    Option<usize>)
    requires
        well_formed(tree@, source),
        o matches Some(m) ==> m < tree@.len(),
    ensures
        r == descend(tree@, o, i as int),
        r matches Some(k) ==> k < tree@.len(),
{
    let m = o?;
    let r = tree.child(m, i);
    proof {
        if r is Some {
            assert(crate::syntax::child_linked(tree@, m as int, i as int));
        }
    }
    r
}

/// The nodes an adapter reads as the arguments of an evaluate call.
pub struct CallArgs {
    /// Positional: the target-language literal. Name-tagged: the name of the
    /// first argument.
    pub first: usize,
    /// Positional: the payload literal. Name-tagged: the name of the second
    /// argument.
    pub second: usize,
    /// The node that tells inline code from a file path, where the language
    /// spells the two with different callees.
    pub form: Option<usize>,
}

impl PolyLanguage {
    /// Which child of a call node names the callee.
    pub open spec fn child_index(self) -> int {
        match self {
            PolyLanguage::Java => 2,
            _ => 0,
        }
    }

    /// The kind of a call node.
    pub open spec fn call_kind(self) -> Seq<char> {
        match self {
            PolyLanguage::Python => "call"@,
            PolyLanguage::JavaScript => "call_expression"@,
            PolyLanguage::Java => "method_invocation"@,
            PolyLanguage::C => "call_expression"@,
        }
    }

    /// The kind of the callee node of an interop call.
    pub open spec fn callee_kind(self) -> Seq<char> {
        match self {
            PolyLanguage::Python => "attribute"@,
            PolyLanguage::JavaScript => "member_expression"@,
            PolyLanguage::Java => "identifier"@,
            PolyLanguage::C => "identifier"@,
        }
    }

    /// The canonical name of the language.
    pub open spec fn name(self) -> Seq<char> {
        match self {
            PolyLanguage::Python => "python"@,
            PolyLanguage::JavaScript => "javascript"@,
            PolyLanguage::Java => "java"@,
            PolyLanguage::C => "c"@,
        }
    }

    /// Name-tagged languages: the argument name that carries inline code.
    pub open spec fn code_arg(self) -> Option<Seq<char>> {
        match self {
            PolyLanguage::Python => Some("string"@),
            _ => None,
        }
    }

    /// Name-tagged languages: the argument name that carries a file path.
    pub open spec fn path_arg(self) -> Option<Seq<char>> {
        match self {
            PolyLanguage::Python => Some("path"@),
            _ => None,
        }
    }

    /// Name-tagged languages: the argument name that carries the target language.
    pub open spec fn lang_arg(self) -> Option<Seq<char>> {
        match self {
            PolyLanguage::Python => Some("language"@),
            _ => None,
        }
    }

    /// Positional languages: the callee spelling that evaluates inline code.
    pub open spec fn inline_form(self) -> Option<Seq<char>> {
        match self {
            PolyLanguage::Python => None,
            PolyLanguage::JavaScript => Some("eval"@),
            PolyLanguage::Java => Some("eval"@),
            PolyLanguage::C => Some("polyglot_eval"@),
        }
    }

    /// Positional languages: the callee spelling that evaluates a file.
    pub open spec fn file_form(self) -> Option<Seq<char>> {
        match self {
            PolyLanguage::JavaScript => Some("evalFile"@),
            PolyLanguage::C => Some("polyglot_eval_file"@),
            _ => None,
        }
    }

    /// The callee text of an evaluate call.
    pub open spec fn is_eval_name(self, t: Seq<char>) -> bool {
        match self {
            PolyLanguage::Python => t == "polyglot.eval"@,
            PolyLanguage::JavaScript => t == "Polyglot.eval"@ || t == "Polyglot.evalFile"@,
            PolyLanguage::Java => t == "eval"@,
            PolyLanguage::C => t == "polyglot_eval"@ || t == "polyglot_eval_file"@,
        }
    }

    /// The callee text of an import call.
    pub open spec fn is_import_name(self, t: Seq<char>) -> bool {
        match self {
            PolyLanguage::Python => t == "polyglot.import_value"@,
            PolyLanguage::JavaScript => t == "Polyglot.import"@,
            PolyLanguage::Java => t == "getMember"@,
            PolyLanguage::C => t == "polyglot_import"@,
        }
    }

    /// The callee text of an export call.
    pub open spec fn is_export_name(self, t: Seq<char>) -> bool {
        match self {
            PolyLanguage::Python => t == "polyglot.export_value"@,
            PolyLanguage::JavaScript => t == "Polyglot.export"@,
            PolyLanguage::Java => t == "putMember"@,
            PolyLanguage::C => t == "polyglot_export"@,
        }
    }

    /// Whether the arguments of an evaluate call are told apart by position
    /// rather than by name.
    pub open spec fn positional(self) -> bool {
        self != PolyLanguage::Python
    }

    /// The callee node of node `n`, when `n` has the shape of a call.
    pub open spec fn callee_of(self, nodes: Seq<NodeView>, n: int) -> Option<usize> {
        match child_at(nodes, n, self.child_index()) {
            Some(c) => if nodes[n].kind == self.call_kind() && nodes[c as int].kind
                == self.callee_kind() {
                Some(c)
            } else {
                None
            },
            None => None,
        }
    }

    /// The argument nodes of the call at `n`, when they are where the
    /// language puts them.
    pub open spec fn args_of(self, nodes: Seq<NodeView>, n: int) -> Option<CallArgs> {
        let list = child_at(nodes, n, if self == PolyLanguage::Java {
            3
        } else {
            1
        });
        let (first, second, form) = match self {
            PolyLanguage::Python => (
                descend(nodes, descend(nodes, list, 1), 0),
                descend(nodes, descend(nodes, list, 3), 0),
                Some(None),
            ),
            PolyLanguage::JavaScript => (
                descend(nodes, list, 1),
                descend(nodes, list, 3),
                match descend(nodes, child_at(nodes, n, 0), 2) {
                    Some(k) => Some(Some(k)),
                    None => None,
                },
            ),
            PolyLanguage::Java => (descend(nodes, list, 1), descend(nodes, list, 3), Some(None)),
            PolyLanguage::C => (
                descend(nodes, list, 1),
                descend(nodes, list, 3),
                match child_at(nodes, n, 0) {
                    Some(k) => Some(Some(k)),
                    None => None,
                },
            ),
        };
        match (first, second, form) {
            (Some(a), Some(b), Some(f)) => Some(CallArgs { first: a, second: b, form: f }),
            _ => None,
        }
    }

    /// Where the language gives an import or export call a static binding
    /// name, the node that holds it.
    pub open spec fn binding_node(self, nodes: Seq<NodeView>, n: int) -> Option<usize> {
        match self {
            PolyLanguage::Python => descend(nodes, child_at(nodes, n, 1), 1),
            _ => None,
        }
    }

    /// Which child of a call node names the callee.
    pub fn get_child_index(&self) -> (r: usize)
        ensures
            r == self.child_index(),
    {
        match self {
            PolyLanguage::Java => 2,
            _ => 0,
        }
    }

    /// The kind of a call node.
    pub fn get_node_kind(&self) -> (r: &'static str)
        ensures
            r@ == self.call_kind(),
    {
        match self {
            PolyLanguage::Python => "call",
            PolyLanguage::JavaScript => "call_expression",
            PolyLanguage::Java => "method_invocation",
            PolyLanguage::C => "call_expression",
        }
    }

    /// The kind of the callee node of an interop call.
    pub fn get_child_node_kind(&self) -> (r: &'static str)
        ensures
            r@ == self.callee_kind(),
    {
        match self {
            PolyLanguage::Python => "attribute",
            PolyLanguage::JavaScript => "member_expression",
            PolyLanguage::Java => "identifier",
            PolyLanguage::C => "identifier",
        }
    }

    /// The canonical name of the language.
    pub fn get_lang_name(&self) -> (r: &'static str)
        ensures
            r@ == self.name(),
    {
        match self {
            PolyLanguage::Python => "python",
            PolyLanguage::JavaScript => "javascript",
            PolyLanguage::Java => "java",
            PolyLanguage::C => "c",
        }
    }

    /// The argument name that carries inline code, for name-tagged languages.
    pub fn get_code_eval_arg(&self) -> (r: Option<&'static str>)
        ensures
            view_of_text(r) == self.code_arg(),
    {
        match self {
            PolyLanguage::Python => Some("string"),
            _ => None,
        }
    }

    /// The argument name that carries a file path, for name-tagged languages.
    pub fn get_code_eval_file_arg(&self) -> (r: Option<&'static str>)
        ensures
            view_of_text(r) == self.path_arg(),
    {
        match self {
            PolyLanguage::Python => Some("path"),
            _ => None,
        }
    }

    /// The argument name that carries the target language, for name-tagged
    /// languages.
    pub fn get_lang_arg(&self) -> (r: Option<&'static str>)
        ensures
            view_of_text(r) == self.lang_arg(),
    {
        match self {
            PolyLanguage::Python => Some("language"),
            _ => None,
        }
    }

    /// The callee spelling that evaluates inline code, for positional languages.
    pub fn get_code_eval(&self) -> (r: Option<&'static str>)
        ensures
            view_of_text(r) == self.inline_form(),
    {
        match self {
            PolyLanguage::Python => None,
            PolyLanguage::JavaScript => Some("eval"),
            PolyLanguage::Java => Some("eval"),
            PolyLanguage::C => Some("polyglot_eval"),
        }
    }

    /// The callee spelling that evaluates a file, for positional languages.
    pub fn get_code_eval_file(&self) -> (r: Option<&'static str>)
        ensures
            view_of_text(r) == self.file_form(),
    {
        match self {
            PolyLanguage::JavaScript => Some("evalFile"),
            PolyLanguage::C => Some("polyglot_eval_file"),
            _ => None,
        }
    }

    /// Whether `node_code` is the callee of an evaluate call.
    pub fn is_polyglot_eval_call(&self, node_code: &str) -> (r: bool)
        ensures
            r == self.is_eval_name(node_code@),
    {
        match self {
            PolyLanguage::Python => text_eq(node_code, "polyglot.eval"),
            PolyLanguage::JavaScript => text_eq(node_code, "Polyglot.eval") || text_eq(
                node_code,
                "Polyglot.evalFile",
            ),
            PolyLanguage::Java => text_eq(node_code, "eval"),
            PolyLanguage::C => text_eq(node_code, "polyglot_eval") || text_eq(
                node_code,
                "polyglot_eval_file",
            ),
        }
    }

    /// Whether `node_code` is the callee of an import call.
    pub fn is_polyglot_import_call(&self, node_code: &str) -> (r: bool)
        ensures
            r == self.is_import_name(node_code@),
    {
        match self {
            PolyLanguage::Python => text_eq(node_code, "polyglot.import_value"),
            PolyLanguage::JavaScript => text_eq(node_code, "Polyglot.import"),
            PolyLanguage::Java => text_eq(node_code, "getMember"),
            PolyLanguage::C => text_eq(node_code, "polyglot_import"),
        }
    }

    /// Whether `node_code` is the callee of an export call.
    pub fn is_polyglot_export_call(&self, node_code: &str) -> (r: bool)
        ensures
            r == self.is_export_name(node_code@),
    {
        match self {
            PolyLanguage::Python => text_eq(node_code, "polyglot.export_value"),
            PolyLanguage::JavaScript => text_eq(node_code, "Polyglot.export"),
            PolyLanguage::Java => text_eq(node_code, "putMember"),
            PolyLanguage::C => text_eq(node_code, "polyglot_export"),
        }
    }

    /// Whether evaluate-call arguments are told apart by position.
    pub fn use_positional_args(&self) -> (r: bool)
        ensures
            r == self.positional(),
    {
        match self {
            PolyLanguage::Python => false,
            _ => true,
        }
    }

    /// The argument nodes of the call at `n`, when they stand where this
    /// language puts them; `None` means that `n` is not an evaluate call of
    /// this shape, which is no error.
    pub fn get_args(&self, tree: &SyntaxTree, source: &str, n: usize) -> (r: Option<CallArgs>)
        requires
            well_formed(tree@, source@),
            n < tree@.len(),
        ensures
            r == self.args_of(tree@, n as int),
            r matches Some(a) ==> a.first < tree@.len() && a.second < tree@.len() && (a.form matches Some(
                k,
            ) ==> k < tree@.len()),
    {
        let list = step(tree, Ghost(source@), Some(n), if let PolyLanguage::Java = self {
            3
        } else {
            1
        });
        match self {
            PolyLanguage::Python => {
                let first = step(tree, Ghost(source@), step(tree, Ghost(source@), list, 1), 0)?;
                let second = step(tree, Ghost(source@), step(tree, Ghost(source@), list, 3), 0)?;
                Some(CallArgs { first, second, form: None })
            },
            PolyLanguage::JavaScript => {
                let form = step(tree, Ghost(source@), step(tree, Ghost(source@), Some(n), 0), 2);
                let first = step(tree, Ghost(source@), list, 1)?;
                let second = step(tree, Ghost(source@), list, 3)?;
                let form = form?;
                Some(CallArgs { first, second, form: Some(form) })
            },
            PolyLanguage::Java => {
                let first = step(tree, Ghost(source@), list, 1)?;
                let second = step(tree, Ghost(source@), list, 3)?;
                Some(CallArgs { first, second, form: None })
            },
            PolyLanguage::C => {
                let form = step(tree, Ghost(source@), Some(n), 0);
                let first = step(tree, Ghost(source@), list, 1)?;
                let second = step(tree, Ghost(source@), list, 3)?;
                let form = form?;
                Some(CallArgs { first, second, form: Some(form) })
            },
        }
    }

    /// The tree-sitter grammar of the language.
    pub fn get_treesitter_language(&self) -> (r: Result<tree_sitter::Language, crate::util::InvalidArgumentError>)
        ensures
            r is Ok,
    {
        crate::util::language_struct_to_treesitter(self)
    }

    /// The node holding the static binding name of the import or export call
    /// at `n`, where the language has one.
    pub fn get_binding(&self, tree: &SyntaxTree, source: &str, n: usize) -> (r: Option<usize>)
        requires
            well_formed(tree@, source@),
            n < tree@.len(),
        ensures
            r == self.binding_node(tree@, n as int),
            r matches Some(b) ==> b < tree@.len(),
    {
        match self {
            PolyLanguage::Python => step(
                tree,
                Ghost(source@),
                step(tree, Ghost(source@), Some(n), 1),
                1,
            ),
            _ => None,
        }
    }

    /// The callee node of node `n`, when `n` has the shape of a call in this
    /// language.
    pub fn get_polyglot_call_lang(&self, tree: &SyntaxTree, source: &str, n: usize) -> (r: Option<
        usize,
    >)
        requires
            well_formed(tree@, source@),
            n < tree@.len(),
        ensures
            r == self.callee_of(tree@, n as int),
            r matches Some(c) ==> c < tree@.len(),
    {
        let c = tree.child(n, self.get_child_index())?;
        proof {
            assert(crate::syntax::child_linked(tree@, n as int, self.child_index()));
        }
        if text_eq(tree.nodes[n].kind.as_str(), self.get_node_kind()) && text_eq(
            tree.nodes[c].kind.as_str(),
            self.get_child_node_kind(),
        ) {
            Some(c)
        } else {
            None
        }
    }
}

} // verus!
