//! A forest of parsed fragments, one per language region of a polyglot
//! program, linked at the evaluate calls that embed one fragment in another.
use vstd::prelude::*;

use crate::grammar::{grammar_loads, grammars_load, parse, parses, ParseFailure};
use crate::polyglot_language::CallArgs;
use crate::syntax::{next_sibling_of, parent_linked, text_of, well_formed, NodeView, SyntaxTree};
use crate::util::{
    join_path, joined, language_named, language_string_to_struct, parent_dir, parent_dir_of,
    strip_quotes, stripped, text_eq, PolyLanguage,
};

verus! {

/// How deep evaluate calls may nest; a call below this depth is not
/// followed, which also stops files that evaluate each other.
pub const MAX_NESTING: usize = 32;

/// What an evaluate call asks to run.
pub enum Payload {
    /// Inline code.
    Code(String),
    /// A file, its path already resolved against the caller's directory.
    Path(String),
}

/// What a `Payload` holds, as mathematical values.
pub enum PayloadView {
    Code(Seq<char>),
    Path(Seq<char>),
}

impl View for Payload {
    type V = PayloadView;

    open spec fn view(&self) -> PayloadView {
        match self {
            Payload::Code(c) => PayloadView::Code(c@),
            Payload::Path(p) => PayloadView::Path(p@),
        }
    }
}

/// Why an evaluate call got no linked fragment.
pub enum LinkFailure {
    /// A named argument has no value after it.
    MissingValue,
    /// A named argument whose name the language does not use.
    UnknownArgument(String),
    /// No argument named the target language.
    MissingLanguage,
    /// The target language is none that this crate supports.
    UnknownLanguage(String),
    /// Neither inline code nor a path was given.
    MissingPayload,
    /// The callee is neither the inline nor the file spelling.
    UnknownCallForm(String),
    /// The parser produced no tree for the payload.
    ParseFailed,
    /// The file named by the call could not be read.
    UnreadableFile(String),
    /// The call is nested deeper than `MAX_NESTING`.
    TooDeep,
}

/// What a `LinkFailure` holds, as mathematical values.
pub enum LinkFailureView {
    MissingValue,
    UnknownArgument(Seq<char>),
    MissingLanguage,
    UnknownLanguage(Seq<char>),
    MissingPayload,
    UnknownCallForm(Seq<char>),
    ParseFailed,
    UnreadableFile(Seq<char>),
    TooDeep,
}

impl View for LinkFailure {
    type V = LinkFailureView;

    open spec fn view(&self) -> LinkFailureView {
        match self {
            LinkFailure::MissingValue => LinkFailureView::MissingValue,
            LinkFailure::UnknownArgument(s) => LinkFailureView::UnknownArgument(s@),
            LinkFailure::MissingLanguage => LinkFailureView::MissingLanguage,
            LinkFailure::UnknownLanguage(s) => LinkFailureView::UnknownLanguage(s@),
            LinkFailure::MissingPayload => LinkFailureView::MissingPayload,
            LinkFailure::UnknownCallForm(s) => LinkFailureView::UnknownCallForm(s@),
            LinkFailure::ParseFailed => LinkFailureView::ParseFailed,
            LinkFailure::UnreadableFile(s) => LinkFailureView::UnreadableFile(s@),
            LinkFailure::TooDeep => LinkFailureView::TooDeep,
        }
    }
}

/// An evaluate call that was left without a linked fragment, and why.
pub struct Diagnostic {
    /// The fragment that holds the call.
    pub fragment: usize,
    /// The call node.
    pub node: usize,
    /// Where the call starts in its fragment's source.
    pub position: tree_sitter::Point,
    pub failure: LinkFailure,
}

/// What a `Diagnostic` holds, as mathematical values; the position is left
/// out.
pub struct DiagnosticView {
    pub fragment: usize,
    pub node: usize,
    pub failure: LinkFailureView,
}

impl View for Diagnostic {
    type V = DiagnosticView;

    open spec fn view(&self) -> DiagnosticView {
        DiagnosticView { fragment: self.fragment, node: self.node, failure: self.failure@ }
    }
}

/// An evaluate-file call whose file has to be read before it can be linked.
pub struct FileRequest {
    /// The fragment that holds the call.
    pub fragment: usize,
    /// The call node.
    pub node: usize,
    /// The language the file is written in.
    pub language: PolyLanguage,
    /// The file's path, resolved against the caller's working directory.
    pub path: String,
}

/// What a `FileRequest` holds, as mathematical values.
pub struct FileRequestView {
    pub fragment: usize,
    pub node: usize,
    pub language: PolyLanguage,
    pub path: Seq<char>,
}

impl View for FileRequest {
    type V = FileRequestView;

    open spec fn view(&self) -> FileRequestView {
        FileRequestView {
            fragment: self.fragment,
            node: self.node,
            language: self.language,
            path: self.path@,
        }
    }
}

/// One parsed program fragment in one language.
pub struct Fragment {
    pub syntax: SyntaxTree,
    /// The exact text the fragment was parsed from.
    pub code: String,
    /// The directory that relative file paths in this fragment resolve against.
    pub working_dir: String,
    pub language: PolyLanguage,
    /// For each node, the fragment linked at it, if any.
    pub links: Vec<Option<usize>>,
    /// How many evaluate calls lie between the top fragment and this one.
    pub depth: usize,
}

/// What a `Fragment` holds apart from its links, as mathematical values:
/// everything that stays fixed once it is parsed.
pub struct FragmentView {
    pub nodes: Seq<NodeView>,
    pub source: Seq<char>,
    pub working_dir: Seq<char>,
    pub language: PolyLanguage,
    pub depth: usize,
}

impl View for Fragment {
    type V = FragmentView;

    open spec fn view(&self) -> FragmentView {
        FragmentView {
            nodes: self.syntax@,
            source: self.code@,
            working_dir: self.working_dir@,
            language: self.language,
            depth: self.depth,
        }
    }
}

/// The text of node `n` of a fragment.
pub open spec fn node_text(fr: FragmentView, n: int) -> Seq<char> {
    text_of(fr.nodes, fr.source, n)
}

/// The text of the callee of node `n`, when `n` has the shape of a call.
pub open spec fn callee_text(fr: FragmentView, n: int) -> Option<Seq<char>> {
    match fr.language.callee_of(fr.nodes, n) {
        Some(c) => Some(node_text(fr, c as int)),
        None => None,
    }
}

/// Node `n` is an evaluate call.
pub open spec fn is_eval_at(fr: FragmentView, n: int) -> bool {
    callee_text(fr, n) matches Some(t) && fr.language.is_eval_name(t)
}

/// Node `n` is an import call.
pub open spec fn is_import_at(fr: FragmentView, n: int) -> bool {
    callee_text(fr, n) matches Some(t) && fr.language.is_import_name(t)
}

/// Node `n` is an export call.
pub open spec fn is_export_at(fr: FragmentView, n: int) -> bool {
    callee_text(fr, n) matches Some(t) && fr.language.is_export_name(t)
}

/// Some ancestor of node `n` is an evaluate call, so the build never looks
/// at `n`: what an evaluate call holds is reached through its linked fragment.
pub open spec fn inside_eval(fr: FragmentView, n: int) -> bool
    decreases n,
{
    match fr.nodes[n].parent {
        Some(p) => if 0 <= p < n {
            is_eval_at(fr, p as int) || inside_eval(fr, p as int)
        } else {
            false
        },
        None => false,
    }
}

/// Positional arguments: the target language and the payload.
pub open spec fn resolve_positional(fr: FragmentView, args: CallArgs) -> Result<
    (PolyLanguage, PayloadView),
    LinkFailureView,
> {
    let lang = stripped(node_text(fr, args.first as int));
    let payload = stripped(node_text(fr, args.second as int));
    let inline = match language_named(lang) {
        Some(l) => Ok((l, PayloadView::Code(payload))),
        None => Err(LinkFailureView::UnknownLanguage(lang)),
    };
    match args.form {
        None => inline,
        Some(k) => {
            let form = node_text(fr, k as int);
            if Some(form) == fr.language.inline_form() {
                inline
            } else if Some(form) == fr.language.file_form() {
                match language_named(lang) {
                    Some(l) => Ok((l, PayloadView::Path(joined(fr.working_dir, payload)))),
                    None => Err(LinkFailureView::UnknownLanguage(lang)),
                }
            } else {
                Err(LinkFailureView::UnknownCallForm(form))
            }
        },
    }
}

/// What a named argument contributes: (path, language, code) so far.
pub type NamedArgs = (Option<Seq<char>>, Option<Seq<char>>, Option<Seq<char>>);

/// Reads the named argument whose name is node `arg`; its value stands two
/// nodes after the name.
pub open spec fn read_named(fr: FragmentView, arg: int, sofar: NamedArgs) -> Result<
    NamedArgs,
    LinkFailureView,
> {
    match next_sibling_of(fr.nodes, arg) {
        None => Err(LinkFailureView::MissingValue),
        Some(eq) => match next_sibling_of(fr.nodes, eq as int) {
            None => Err(LinkFailureView::MissingValue),
            Some(value) => {
                let v = stripped(node_text(fr, value as int));
                let name = node_text(fr, arg);
                if Some(name) == fr.language.path_arg() {
                    Ok((Some(joined(fr.working_dir, v)), sofar.1, sofar.2))
                } else if Some(name) == fr.language.lang_arg() {
                    Ok((sofar.0, Some(v), sofar.2))
                } else if Some(name) == fr.language.code_arg() {
                    Ok((sofar.0, sofar.1, Some(v)))
                } else {
                    Err(LinkFailureView::UnknownArgument(name))
                }
            },
        },
    }
}

/// Name-tagged arguments: both are read, then the language must be known and
/// code (first) or a path given.
pub open spec fn resolve_named(fr: FragmentView, args: CallArgs) -> Result<
    (PolyLanguage, PayloadView),
    LinkFailureView,
> {
    match read_named(fr, args.first as int, (None, None, None)) {
        Err(e) => Err(e),
        Ok(a) => match read_named(fr, args.second as int, a) {
            Err(e) => Err(e),
            Ok((path, lang, code)) => match lang {
                None => Err(LinkFailureView::MissingLanguage),
                Some(s) => match language_named(s) {
                    None => Err(LinkFailureView::UnknownLanguage(s)),
                    Some(l) => match code {
                        Some(c) => Ok((l, PayloadView::Code(c))),
                        None => match path {
                            Some(p) => Ok((l, PayloadView::Path(p))),
                            None => Err(LinkFailureView::MissingPayload),
                        },
                    },
                },
            },
        },
    }
}

/// What the evaluate call at node `n` asks for; `None` when its arguments
/// are not where the language puts them, so that it is no call of this kind.
pub open spec fn resolution(fr: FragmentView, n: int) -> Option<
    Result<(PolyLanguage, PayloadView), LinkFailureView>,
> {
    match fr.language.args_of(fr.nodes, n) {
        None => None,
        Some(args) => Some(
            if fr.language.positional() {
                resolve_positional(fr, args)
            } else {
                resolve_named(fr, args)
            },
        ),
    }
}

/// A fragment's arena is well formed over its source.
pub open spec fn fragment_ok(fr: FragmentView) -> bool {
    &&& well_formed(fr.nodes, fr.source)
    &&& fr.depth <= MAX_NESTING
}

/// The view of what `resolve_call` returns.
pub open spec fn outcome_view(o: Option<Result<(PolyLanguage, Payload), LinkFailure>>) -> Option<
    Result<(PolyLanguage, PayloadView), LinkFailureView>,
> {
    match o {
        None => None,
        Some(Ok((l, p))) => Some(Ok((l, p@))),
        Some(Err(e)) => Some(Err(e@)),
    }
}

/// The view of a result of argument resolution.
pub open spec fn result_view(o: Result<(PolyLanguage, Payload), LinkFailure>) -> Result<
    (PolyLanguage, PayloadView),
    LinkFailureView,
> {
    match o {
        Ok((l, p)) => Ok((l, p@)),
        Err(e) => Err(e@),
    }
}

/// The view of the named arguments read so far.
pub open spec fn named_view(a: (Option<String>, Option<String>, Option<String>)) -> NamedArgs {
    (opt_view(a.0), opt_view(a.1), opt_view(a.2))
}

/// The characters of an optional string.
pub open spec fn opt_view(o: Option<String>) -> Option<Seq<char>> {
    match o {
        Some(s) => Some(s@),
        None => None,
    }
}

/// Whether `t` is the spelling `expected`, when there is one.
fn is_spelling(t: &str, expected: Option<&'static str>) -> (r: bool)
    ensures
        r == (Some(t@) == crate::polyglot_language::view_of_text(expected)),
{
    match expected {
        Some(e) => text_eq(t, e),
        None => false,
    }
}

impl Fragment {
    /// The text of node `n`.
    pub fn node_code(&self, n: usize) -> (r: &str)
        requires
            fragment_ok(self@),
            n < self@.nodes.len(),
        ensures
            r@ == node_text(self@, n as int),
    {
        proof {
            assert(crate::syntax::spans_text(self@.nodes, self@.source, n as int));
        }
        self.syntax.text(self.code.as_str(), n)
    }

    /// The target language and payload of a call with positional arguments.
    fn resolve_positional(&self, args: &CallArgs) -> (r: Result<(PolyLanguage, Payload), LinkFailure>)
        requires
            fragment_ok(self@),
            args.first < self@.nodes.len(),
            args.second < self@.nodes.len(),
            args.form matches Some(k) ==> k < self@.nodes.len(),
        ensures
            result_view(r) == resolve_positional(self@, *args),
    {
        let lang = strip_quotes(self.node_code(args.first));
        let payload = strip_quotes(self.node_code(args.second));
        let is_file = match args.form {
            None => false,
            Some(k) => {
                let form = self.node_code(k);
                if is_spelling(form, self.language.get_code_eval()) {
                    false
                } else if is_spelling(form, self.language.get_code_eval_file()) {
                    true
                } else {
                    return Err(LinkFailure::UnknownCallForm(form.to_owned()));
                }
            },
        };
        match language_string_to_struct(lang.as_str()) {
            Ok(l) => if is_file {
                Ok((l, Payload::Path(join_path(self.working_dir.as_str(), payload.as_str()))))
            } else {
                Ok((l, Payload::Code(payload)))
            },
            Err(_) => Err(LinkFailure::UnknownLanguage(lang)),
        }
    }

    /// Reads one named argument, whose name is node `arg`, into `sofar`.
    fn read_named(&self, arg: usize, sofar: (Option<String>, Option<String>, Option<String>)) -> (r:
        Result<(Option<String>, Option<String>, Option<String>), LinkFailure>)
        requires
            fragment_ok(self@),
            arg < self@.nodes.len(),
        ensures
            match r {
                Ok(a) => read_named(self@, arg as int, named_view(sofar)) == Ok::<
                    NamedArgs,
                    LinkFailureView,
                >(named_view(a)),
                Err(e) => read_named(self@, arg as int, named_view(sofar)) == Err::<
                    NamedArgs,
                    LinkFailureView,
                >(e@),
            },
    {
        proof {
            assert forall|i: int| 0 <= i < self@.nodes.len() implies #[trigger] parent_linked(
                self@.nodes,
                i,
            ) by {}
        }
        let eq = match self.syntax.next_sibling(arg) {
            Some(e) => e,
            None => {
                return Err(LinkFailure::MissingValue);
            },
        };
        proof {
            let p = self@.nodes[arg as int].parent.unwrap();
            assert(parent_linked(self@.nodes, arg as int));
            assert(crate::syntax::child_linked(self@.nodes, p as int, self@.nodes[arg as int].slot + 1));
        }
        let value = match self.syntax.next_sibling(eq) {
            Some(v) => v,
            None => {
                return Err(LinkFailure::MissingValue);
            },
        };
        proof {
            let p = self@.nodes[eq as int].parent.unwrap();
            assert(parent_linked(self@.nodes, eq as int));
            assert(crate::syntax::child_linked(self@.nodes, p as int, self@.nodes[eq as int].slot + 1));
        }
        let v = strip_quotes(self.node_code(value));
        let name = self.node_code(arg);
        let (path, lang, code) = sofar;
        if is_spelling(name, self.language.get_code_eval_file_arg()) {
            Ok((Some(join_path(self.working_dir.as_str(), v.as_str())), lang, code))
        } else if is_spelling(name, self.language.get_lang_arg()) {
            Ok((path, Some(v), code))
        } else if is_spelling(name, self.language.get_code_eval_arg()) {
            Ok((path, lang, Some(v)))
        } else {
            Err(LinkFailure::UnknownArgument(name.to_owned()))
        }
    }

    /// The target language and payload of a call with named arguments.
    fn resolve_named(&self, args: &CallArgs) -> (r: Result<(PolyLanguage, Payload), LinkFailure>)
        requires
            fragment_ok(self@),
            args.first < self@.nodes.len(),
            args.second < self@.nodes.len(),
        ensures
            result_view(r) == resolve_named(self@, *args),
    {
        let a = self.read_named(args.first, (None, None, None))?;
        let (path, lang, code) = self.read_named(args.second, a)?;
        let lang = match lang {
            Some(s) => s,
            None => {
                return Err(LinkFailure::MissingLanguage);
            },
        };
        let l = match language_string_to_struct(lang.as_str()) {
            Ok(l) => l,
            Err(_) => {
                return Err(LinkFailure::UnknownLanguage(lang));
            },
        };
        match code {
            Some(c) => Ok((l, Payload::Code(c))),
            None => match path {
                Some(p) => Ok((l, Payload::Path(p))),
                None => Err(LinkFailure::MissingPayload),
            },
        }
    }

    /// What the evaluate call at node `n` asks for: the target language and
    /// the payload, the reason it cannot be followed, or `None` when `n` is
    /// not a call of this shape.
    pub fn resolve_call(&self, n: usize) -> (r: Option<Result<(PolyLanguage, Payload), LinkFailure>>)
        requires
            fragment_ok(self@),
            n < self@.nodes.len(),
        ensures
            outcome_view(r) == resolution(self@, n as int),
    {
        let args = self.language.get_args(&self.syntax, self.code.as_str(), n)?;
        if self.language.use_positional_args() {
            Some(self.resolve_positional(&args))
        } else {
            Some(self.resolve_named(&args))
        }
    }
}

/// One empty link slot for each of `count` nodes.
fn no_links(count: usize) -> (r: Vec<Option<usize>>)
    ensures
        r@.len() == count,
        forall|n: int| 0 <= n < r@.len() ==> (#[trigger] r@[n]) is None,
{
    let mut links: Vec<Option<usize>> = Vec::new();
    while links.len() < count
        invariant
            links@.len() <= count,
            forall|n: int| 0 <= n < links@.len() ==> (#[trigger] links@[n]) is None,
        decreases count - links@.len(),
    {
        links.push(None);
    }
    links
}

/// What a `PolyglotTree` holds, as mathematical values.
pub struct TreeView {
    /// The fragments; the top one is at index 0.
    pub fragments: Seq<FragmentView>,
    /// For each fragment and each of its nodes, the fragment linked there.
    pub links: Seq<Seq<Option<usize>>>,
    /// Evaluate-file calls waiting for their file, oldest first.
    pub requests: Seq<FileRequestView>,
    /// How many of `requests` have been answered.
    pub answered: usize,
    /// The evaluate calls that were left unlinked, and why.
    pub diagnostics: Seq<DiagnosticView>,
}

/// The link at node `n` of fragment `f` to fragment `g` is one the build
/// makes: `n` is an evaluate call outside any other, `g` lies deeper in the
/// forest, and `g` was parsed from what the call asks for, in the language
/// it names, with the working directory that the payload calls for.
pub open spec fn link_ok(v: Seq<FragmentView>, f: int, n: int, g: int) -> bool {
    let fr = v[f];
    let sub = v[g];
    &&& f < g < v.len()
    &&& is_eval_at(fr, n)
    &&& !inside_eval(fr, n)
    &&& sub.depth == fr.depth + 1
    &&& match resolution(fr, n) {
        Some(Ok((l, PayloadView::Code(c)))) => sub.language == l && sub.source == c
            && sub.working_dir == fr.working_dir,
        Some(Ok((l, PayloadView::Path(p)))) => sub.language == l && sub.working_dir
            == parent_dir(p),
        _ => false,
    }
}

/// The link slot of node `n` of fragment `f` is empty or holds a link the
/// build makes.
pub open spec fn slot_ok(t: TreeView, f: int, n: int) -> bool {
    match t.links[f][n] {
        Some(g) => link_ok(t.fragments, f, n, g as int),
        None => true,
    }
}

/// A waiting file request stands for an evaluate-file call outside any other.
pub open spec fn request_ok(t: TreeView, r: FileRequestView) -> bool {
    let fr = t.fragments[r.fragment as int];
    &&& r.fragment < t.fragments.len()
    &&& r.node < fr.nodes.len()
    &&& is_eval_at(fr, r.node as int)
    &&& !inside_eval(fr, r.node as int)
    &&& fr.depth < MAX_NESTING
    &&& resolution(fr, r.node as int) == Some(
        Ok::<(PolyLanguage, PayloadView), LinkFailureView>((r.language, PayloadView::Path(r.path))),
    )
}

/// The forest is well formed: a top fragment at depth 0, every fragment
/// parsed into a well-formed arena with one link slot per node, every link
/// one the build makes, every waiting request one it issues.
pub open spec fn tree_ok(t: TreeView) -> bool {
    &&& t.fragments.len() > 0
    &&& t.fragments[0].depth == 0
    &&& t.links.len() == t.fragments.len()
    &&& forall|f: int| 0 <= f < t.fragments.len() ==> #[trigger] fragment_ok(t.fragments[f])
    &&& forall|f: int|
        0 <= f < t.fragments.len() ==> (#[trigger] t.links[f]).len() == t.fragments[f].nodes.len()
    &&& forall|f: int, n: int|
        0 <= f < t.fragments.len() && 0 <= n < t.links[f].len() ==> #[trigger] slot_ok(t, f, n)
    &&& t.answered <= t.requests.len()
    &&& forall|i: int| 0 <= i < t.requests.len() ==> #[trigger] request_ok(t, t.requests[i])
}

/// Some diagnostic reports `failure` for node `n` of fragment `f`.
pub open spec fn has_diagnostic(t: TreeView, f: int, n: int, failure: LinkFailureView) -> bool {
    exists|d: int|
        0 <= d < t.diagnostics.len() && #[trigger] t.diagnostics[d] == DiagnosticView {
            fragment: f as usize,
            node: n as usize,
            failure,
        }
}

/// Some file request stands for node `n` of fragment `f`.
pub open spec fn has_request(t: TreeView, f: int, n: int) -> bool {
    exists|i: int|
        0 <= i < t.requests.len() && #[trigger] t.requests[i].fragment == f && t.requests[i].node
            == n
}

/// What the build did with the evaluate call at node `n` of fragment `f`:
/// a call that is no call of this shape stays unlinked, one that cannot be
/// followed stays unlinked with a diagnostic saying why. In a fragment at
/// the nesting limit, inline code and files are both left unlinked with a
/// too-deep diagnostic. Below it, inline code that parses is linked, code
/// that does not is left unlinked with a parse diagnostic, and a file
/// becomes a request (what answering it does is up to `supply_file`).
pub open spec fn settled(t: TreeView, f: int, n: int) -> bool {
    let fr = t.fragments[f];
    match resolution(fr, n) {
        None => t.links[f][n] is None,
        Some(Err(e)) => t.links[f][n] is None && has_diagnostic(t, f, n, e),
        Some(Ok((l, PayloadView::Code(c)))) => if fr.depth >= MAX_NESTING {
            t.links[f][n] is None && has_diagnostic(t, f, n, LinkFailureView::TooDeep)
        } else if parses(l, c) {
            t.links[f][n] is Some
        } else {
            t.links[f][n] is None && has_diagnostic(t, f, n, LinkFailureView::ParseFailed)
        },
        Some(Ok((_, PayloadView::Path(_)))) => if fr.depth >= MAX_NESTING {
            has_diagnostic(t, f, n, LinkFailureView::TooDeep)
        } else {
            has_request(t, f, n)
        },
    }
}

/// A syntax tree spanning several languages: the top fragment and every
/// fragment reached from it through evaluate calls.
pub struct PolyglotTree {
    fragments: Vec<Fragment>,
    requests: Vec<FileRequest>,
    answered: usize,
    diagnostics: Vec<Diagnostic>,
}

impl View for PolyglotTree {
    type V = TreeView;

    closed spec fn view(&self) -> TreeView {
        TreeView {
            fragments: self.fragments@.map_values(|f: Fragment| f@),
            links: self.fragments@.map_values(|f: Fragment| f.links@),
            requests: self.requests@.map_values(|r: FileRequest| r@),
            answered: self.answered,
            diagnostics: self.diagnostics@.map_values(|d: Diagnostic| d@),
        }
    }
}

/// No node of fragment `g` is linked yet.
pub open spec fn fresh(t: TreeView, g: int) -> bool {
    forall|n: int| 0 <= n < t.links[g].len() ==> (#[trigger] t.links[g][n]) is None
}

/// `b` extends `a`: same fragments and links below `a`'s count, except the
/// links of fragment `f`; the requests, answers and diagnostics of `a`
/// kept as a prefix.
pub open spec fn extends(a: TreeView, b: TreeView, f: int) -> bool {
    &&& a.fragments.len() <= b.fragments.len()
    &&& forall|k: int| 0 <= k < a.fragments.len() ==> #[trigger] b.fragments[k] == a.fragments[k]
    &&& forall|k: int| 0 <= k < a.fragments.len() && k != f ==> #[trigger] b.links[k] == a.links[k]
    &&& b.answered == a.answered
    &&& a.requests.len() <= b.requests.len()
    &&& forall|i: int| 0 <= i < a.requests.len() ==> #[trigger] b.requests[i] == a.requests[i]
    &&& a.diagnostics.len() <= b.diagnostics.len()
    &&& forall|i: int|
        0 <= i < a.diagnostics.len() ==> #[trigger] b.diagnostics[i] == a.diagnostics[i]
}

proof fn lemma_extends_trans(a: TreeView, b: TreeView, c: TreeView, f: int, g: int)
    requires
        extends(a, b, f),
        extends(b, c, g),
        g == f || g < 0 || g >= a.fragments.len(),
    ensures
        extends(a, c, f),
{
    assert forall|k: int| 0 <= k < a.fragments.len() && k != f implies #[trigger] c.links[k]
        == a.links[k] by {
        assert(b.links[k] == a.links[k]);
        assert(c.links[k] == b.links[k]);
    }
    assert forall|k: int| 0 <= k < a.fragments.len() implies #[trigger] c.fragments[k]
        == a.fragments[k] by {
        assert(b.fragments[k] == a.fragments[k]);
    }
    assert forall|i: int| 0 <= i < a.requests.len() implies #[trigger] c.requests[i]
        == a.requests[i] by {
        assert(b.requests[i] == a.requests[i]);
    }
    assert forall|i: int| 0 <= i < a.diagnostics.len() implies #[trigger] c.diagnostics[i]
        == a.diagnostics[i] by {
        assert(b.diagnostics[i] == a.diagnostics[i]);
    }
}

/// Every evaluate call of fragment `f` outside any other has been settled.
pub open spec fn done(t: TreeView, f: int) -> bool {
    forall|n: int|
        0 <= n < t.fragments[f].nodes.len() && is_eval_at(t.fragments[f], n) && !inside_eval(
            t.fragments[f],
            n,
        ) ==> #[trigger] settled(t, f, n)
}

/// Every fragment of the forest has been passed over.
pub open spec fn all_done(t: TreeView) -> bool {
    forall|f: int| 0 <= f < t.fragments.len() ==> #[trigger] done(t, f)
}

proof fn lemma_done_kept(a: TreeView, b: TreeView, k: int, g: int)
    requires
        extends(a, b, g),
        0 <= k < a.fragments.len(),
        k != g,
        done(a, k),
    ensures
        done(b, k),
{
    assert(b.fragments[k] == a.fragments[k]);
    assert forall|n: int|
        0 <= n < b.fragments[k].nodes.len() && is_eval_at(b.fragments[k], n) && !inside_eval(
            b.fragments[k],
            n,
        ) implies #[trigger] settled(b, k, n) by {
        assert(settled(a, k, n));
        lemma_settled_kept(a, b, k, n, g);
    }
}

/// Node `n` of fragment `f` is linked to a fragment parsed from `text`.
pub open spec fn linked_to_text(t: TreeView, f: int, n: int, text: Seq<char>) -> bool {
    t.links[f][n] matches Some(g) && t.fragments[g as int].source == text
}

/// Linking a file call keeps its fragment passed over: what settles such a
/// call is its request, not its slot.
proof fn lemma_done_after_file_link(a: TreeView, b: TreeView, f: int, n: int)
    requires
        tree_ok(a),
        extends(a, b, f),
        0 <= f < a.fragments.len(),
        0 <= n < a.links[f].len(),
        b.links[f] == a.links[f].update(n, b.links[f][n]),
        resolution(a.fragments[f], n) matches Some(Ok((_, PayloadView::Path(_)))),
        done(a, f),
    ensures
        done(b, f),
{
    assert(b.fragments[f] == a.fragments[f]);
    assert forall|m: int|
        0 <= m < b.fragments[f].nodes.len() && is_eval_at(b.fragments[f], m) && !inside_eval(
            b.fragments[f],
            m,
        ) implies #[trigger] settled(b, f, m) by {
        assert(settled(a, f, m));
        assert(a.links[f].len() == a.fragments[f].nodes.len());
        if m != n {
            assert(b.links[f][m] == a.links[f].update(n, b.links[f][n])[m]);
            lemma_settled_kept(a, b, f, m, f);
            assert(settled(b, f, m));
        } else {
            assert(b.fragments[f] == a.fragments[f]);
            assert(resolution(b.fragments[f], n) == resolution(a.fragments[f], n));
            if a.fragments[f].depth < MAX_NESTING {
                let i = choose|i: int|
                    0 <= i < a.requests.len() && #[trigger] a.requests[i].fragment == f
                        && a.requests[i].node == n;
                assert(b.requests[i] == a.requests[i]);
                assert(has_request(b, f, n));
            } else {
                let d = choose|d: int|
                    0 <= d < a.diagnostics.len() && #[trigger] a.diagnostics[d] == DiagnosticView {
                        fragment: f as usize,
                        node: n as usize,
                        failure: LinkFailureView::TooDeep,
                    };
                assert(b.diagnostics[d] == a.diagnostics[d]);
                assert(has_diagnostic(b, f, n, LinkFailureView::TooDeep));
            }
        }
    }
}

/// A fragment with no evaluate call has no linked fragment.
pub proof fn lemma_no_calls_no_links(t: TreeView, f: int)
    requires
        tree_ok(t),
        0 <= f < t.fragments.len(),
        forall|n: int| 0 <= n < t.fragments[f].nodes.len() ==> !is_eval_at(t.fragments[f], n),
    ensures
        forall|n: int| 0 <= n < t.links[f].len() ==> (#[trigger] t.links[f][n]) is None,
{
    assert forall|n: int| 0 <= n < t.links[f].len() implies (#[trigger] t.links[f][n]) is None by {
        assert(slot_ok(t, f, n));
    }
}

/// An evaluate call naming a language that no adapter answers to is left
/// unlinked, and the build reports it; the rest of the forest is built.
pub proof fn lemma_unknown_language_unlinked(t: TreeView, f: int, n: int, name: Seq<char>)
    requires
        tree_ok(t),
        all_done(t),
        0 <= f < t.fragments.len(),
        0 <= n < t.fragments[f].nodes.len(),
        is_eval_at(t.fragments[f], n),
        !inside_eval(t.fragments[f], n),
        resolution(t.fragments[f], n) == Some(
            Err::<(PolyLanguage, PayloadView), LinkFailureView>(LinkFailureView::UnknownLanguage(name)),
        ),
    ensures
        t.links[f][n] is None,
        has_diagnostic(t, f, n, LinkFailureView::UnknownLanguage(name)),
        language_named(name) is None,
{
    assert(done(t, f));
    assert(settled(t, f, n));
    let fr = t.fragments[f];
    let args = fr.language.args_of(fr.nodes, n).unwrap();
    if !fr.language.positional() {
        lemma_named_language(fr, args);
    }
}

/// A named-argument call that fails on its language names one that no
/// adapter answers to.
proof fn lemma_named_language(fr: FragmentView, args: CallArgs)
    ensures
        resolve_named(fr, args) matches Err(LinkFailureView::UnknownLanguage(s)) ==> language_named(
            s,
        ) is None,
{
}

/// What a named argument does to the path read so far: keeps it, or sets
/// it to some text read against the fragment's working directory.
proof fn lemma_named_path(fr: FragmentView, arg: int, sofar: NamedArgs)
    ensures
        read_named(fr, arg, sofar) matches Ok(a) ==> a.0 == sofar.0 || exists|v: Seq<char>|
            a.0 == Some(#[trigger] joined(fr.working_dir, v)),
{
    if let Ok(a) = read_named(fr, arg, sofar) {
        if a.0 != sofar.0 {
            let eq = next_sibling_of(fr.nodes, arg).unwrap();
            let value = next_sibling_of(fr.nodes, eq as int).unwrap();
            let v = stripped(node_text(fr, value as int));
            assert(a.0 == Some(joined(fr.working_dir, v)));
        }
    }
}

/// An evaluate-file call reads its path against the working directory of
/// the fragment that holds the call, not against any directory of the
/// process; the fragment linked for that file reads its own paths against
/// the directory that holds the file.
pub proof fn lemma_file_path_relative(t: TreeView, f: int, n: int, l: PolyLanguage, path: Seq<char>)
    requires
        tree_ok(t),
        0 <= f < t.fragments.len(),
        0 <= n < t.fragments[f].nodes.len(),
        resolution(t.fragments[f], n) == Some(
            Ok::<(PolyLanguage, PayloadView), LinkFailureView>((l, PayloadView::Path(path))),
        ),
    ensures
        exists|rel: Seq<char>| path == #[trigger] joined(t.fragments[f].working_dir, rel),
        t.links[f][n] matches Some(g) ==> t.fragments[g as int].working_dir == parent_dir(path)
            && t.fragments[g as int].language == l,
{
    let fr = t.fragments[f];
    let args = fr.language.args_of(fr.nodes, n).unwrap();
    if fr.language.positional() {
        let rel = stripped(node_text(fr, args.second as int));
        assert(path == joined(fr.working_dir, rel));
    } else {
        let none: Option<Seq<char>> = None;
        lemma_named_path(fr, args.first as int, (none, none, none));
        if let Ok(a) = read_named(fr, args.first as int, (none, none, none)) {
            lemma_named_path(fr, args.second as int, a);
        }
    }
    assert(t.links[f].len() == fr.nodes.len());
    assert(slot_ok(t, f, n));
}

/// What was settled stays settled while the forest only grows and the slot
/// keeps its link.
proof fn lemma_settled_kept(a: TreeView, b: TreeView, f: int, n: int, g: int)
    requires
        extends(a, b, g),
        0 <= f < a.fragments.len(),
        b.links[f][n] == a.links[f][n],
        settled(a, f, n),
    ensures
        settled(b, f, n),
{
    assert(b.fragments[f] == a.fragments[f]);
    assert forall|e: LinkFailureView| #[trigger] has_diagnostic(a, f, n, e) implies has_diagnostic(
        b,
        f,
        n,
        e,
    ) by {
        let d = choose|d: int|
            0 <= d < a.diagnostics.len() && #[trigger] a.diagnostics[d] == DiagnosticView {
                fragment: f as usize,
                node: n as usize,
                failure: e,
            };
        assert(b.diagnostics[d] == a.diagnostics[d]);
    }
    if has_request(a, f, n) {
        let i = choose|i: int|
            0 <= i < a.requests.len() && #[trigger] a.requests[i].fragment == f
                && a.requests[i].node == n;
        assert(b.requests[i] == a.requests[i]);
    }
}

impl PolyglotTree {
    /// The forest is well formed.
    pub open spec fn wf(&self) -> bool {
        tree_ok(self@)
    }

    /// How many fragments the forest holds.
    pub fn fragment_count(&self) -> (r: usize)
        ensures
            r == self@.fragments.len(),
    {
        self.fragments.len()
    }

    /// Fragment `f`, with its links.
    pub fn fragment(&self, f: usize) -> (r: &Fragment)
        requires
            f < self@.fragments.len(),
        ensures
            r@ == self@.fragments[f as int],
            r.links@ == self@.links[f as int],
    {
        &self.fragments[f]
    }

    /// The evaluate calls left unlinked so far, and why.
    pub fn diagnostics(&self) -> (r: &Vec<Diagnostic>)
        ensures
            r@.map_values(|d: Diagnostic| d@) == self@.diagnostics,
    {
        &self.diagnostics
    }

    /// The forest whose top fragment is `code`, already parsed into
    /// `syntax`, with `working_dir` for its relative paths; the build pass
    /// runs over it at once. It fails only when the grammar of an embedded
    /// fragment cannot be loaded: calls that cannot be followed leave
    /// diagnostics, never a failure.
    pub fn from_syntax(
        code: String,
        language: PolyLanguage,
        working_dir: String,
        syntax: SyntaxTree,
    ) -> (r: Result<PolyglotTree, ParseFailure>)
        requires
            well_formed(syntax@, code@),
        ensures
            r matches Ok(t) ==> {
                &&& t.wf()
                &&& all_done(t@)
                &&& t@.fragments[0].nodes == syntax@
                &&& t@.fragments[0].source == code@
                &&& t@.fragments[0].language == language
                &&& t@.fragments[0].working_dir == working_dir@
                &&& t@.answered == 0
            },
            r matches Err(e) ==> e == ParseFailure::GrammarRejected,
            r is Err ==> !grammars_load(),
            (forall|n: int|
                0 <= n < syntax@.len() ==> !is_eval_at(
                    (FragmentView {
                        nodes: syntax@,
                        source: code@,
                        working_dir: working_dir@,
                        language,
                        depth: 0,
                    }),
                    n,
                )) ==> r is Ok,
    {
        let links = no_links(syntax.nodes.len());
        let top = Fragment { syntax, code, working_dir, language, links, depth: 0 };
        let mut tree = PolyglotTree {
            fragments: vec![top],
            requests: Vec::new(),
            answered: 0,
            diagnostics: Vec::new(),
        };
        proof {
            let t = tree@;
            assert(t.fragments[0] == top@);
            assert(t.links[0] == links@);
            assert(fragment_ok(t.fragments[0]));
            assert forall|f: int, n: int|
                0 <= f < t.fragments.len() && 0 <= n < t.links[f].len() implies #[trigger] slot_ok(
                t,
                f,
                n,
            ) by {
                assert(t.links[0][n] is None);
            }
        }
        tree.link_fragment(0)?;
        proof {
            assert forall|f: int| 0 <= f < tree@.fragments.len() implies #[trigger] done(
                tree@,
                f,
            ) by {}
        }
        Ok(tree)
    }

    /// Parses `code` as the top fragment and builds the forest from it.
    fn build(code: String, language: PolyLanguage, working_dir: String) -> (r: Result<
        PolyglotTree,
        ParseFailure,
    >)
        ensures
            r matches Ok(t) ==> {
                &&& t.wf()
                &&& all_done(t@)
                &&& t@.fragments[0].source == code@
                &&& t@.fragments[0].language == language
                &&& t@.fragments[0].working_dir == working_dir@
                &&& t@.answered == 0
            },
            r == Err::<PolyglotTree, ParseFailure>(ParseFailure::Declined) ==> grammar_loads(language)
                && !parses(language, code@),
            r == Err::<PolyglotTree, ParseFailure>(ParseFailure::GrammarRejected)
                ==> !grammars_load(),
            grammars_load() && parses(language, code@) ==> r is Ok,
    {
        let syntax = parse(language, code.as_str())?;
        PolyglotTree::from_syntax(code, language, working_dir, syntax)
    }

    /// The tree of `code`, written in `language`. File paths in it resolve
    /// against the current directory.
    ///
    /// Fails when the parser produces no tree for `code`, or when a grammar
    /// cannot be loaded (here or for an embedded fragment): a build that pairs
    /// tree-sitter with a grammar it cannot read. What follows the parse is
    /// `from_syntax`.
    pub fn from(code: &str, language: PolyLanguage) -> (r: Result<PolyglotTree, ParseFailure>)
        ensures
            r matches Ok(t) ==> {
                &&& t.wf()
                &&& all_done(t@)
                &&& t@.fragments[0].source == code@
                &&& t@.fragments[0].language == language
                &&& t@.fragments[0].working_dir == Seq::<char>::empty()
                &&& t@.answered == 0
            },
            r == Err::<PolyglotTree, ParseFailure>(ParseFailure::Declined) ==> grammar_loads(language)
                && !parses(language, code@),
            r == Err::<PolyglotTree, ParseFailure>(ParseFailure::GrammarRejected)
                ==> !grammars_load(),
            grammars_load() && parses(language, code@) ==> r is Ok,
    {
        PolyglotTree::build(code.to_owned(), language, String::new())
    }

    /// The tree of the file at `path`, whose contents are `code`. File paths
    /// in it resolve against the directory that holds the file.
    pub fn from_path(path: &str, code: String, language: PolyLanguage) -> (r: Result<
        PolyglotTree,
        ParseFailure,
    >)
        ensures
            r matches Ok(t) ==> {
                &&& t.wf()
                &&& all_done(t@)
                &&& t@.fragments[0].source == code@
                &&& t@.fragments[0].language == language
                &&& t@.fragments[0].working_dir == parent_dir(path@)
                &&& t@.answered == 0
            },
            r == Err::<PolyglotTree, ParseFailure>(ParseFailure::Declined) ==> grammar_loads(language)
                && !parses(language, code@),
            r == Err::<PolyglotTree, ParseFailure>(ParseFailure::GrammarRejected)
                ==> !grammars_load(),
            grammars_load() && parses(language, code@) ==> r is Ok,
    {
        PolyglotTree::build(code, language, parent_dir_of(path))
    }

    /// The oldest evaluate-file call still waiting for its file.
    pub fn pending_file(&self) -> (r: Option<&FileRequest>)
        requires
            self.wf(),
        ensures
            self@.answered == self@.requests.len() ==> r is None,
            self@.answered < self@.requests.len() ==> (r matches Some(q) && q@
                == self@.requests[self@.answered as int]),
    {
        if self.answered < self.requests.len() {
            proof {
                assert(self.requests@.map_values(|q: FileRequest| q@)[self.answered as int]
                    == self.requests@[self.answered as int]@);
            }
            Some(&self.requests[self.answered])
        } else {
            None
        }
    }

    /// Answers the oldest waiting file request with the file's contents,
    /// `None` when it could not be read. The file is parsed in the language
    /// the call named, its relative paths resolve against the directory that
    /// holds it, it is passed over like any fragment, and it is linked at the
    /// call; an unreadable or unparsable file leaves the call unlinked, with a
    /// diagnostic.
    pub fn supply_file(&mut self, contents: Option<String>) -> (r: Result<(), ParseFailure>)
        requires
            old(self).wf(),
            all_done(old(self)@),
        ensures
            final(self).wf(),
            r matches Err(e) ==> e == ParseFailure::GrammarRejected,
            r is Ok ==> all_done(final(self)@),
            r is Err ==> !grammars_load(),
            contents is None ==> r is Ok,
            old(self)@.answered == old(self)@.requests.len() ==> final(self)@ == old(self)@ && r is Ok,
            old(self)@.answered < old(self)@.requests.len() ==> {
                let q = old(self)@.requests[old(self)@.answered as int];
                let f = q.fragment as int;
                let n = q.node as int;
                &&& final(self)@.answered == old(self)@.answered + 1
                &&& r is Ok ==> match contents {
                    None => has_diagnostic(
                        final(self)@,
                        f,
                        n,
                        LinkFailureView::UnreadableFile(q.path),
                    ),
                    Some(text) => if parses(q.language, text@) {
                        linked_to_text(final(self)@, f, n, text@)
                    } else {
                        has_diagnostic(final(self)@, f, n, LinkFailureView::ParseFailed)
                    },
                }
            },
    {
        let k = self.answered;
        if k >= self.requests.len() {
            return Ok(());
        }
        let ghost before = self@;
        let ghost q = before.requests[k as int];
        proof {
            assert(self.requests@.map_values(|q: FileRequest| q@)[k as int] == self.requests@[k as int]@);
            assert(request_ok(before, q));
        }
        let fragment = self.requests[k].fragment;
        let node = self.requests[k].node;
        let language = self.requests[k].language;
        let path = self.requests[k].path.clone();
        self.answered = k + 1;
        let ghost answered = self@;
        proof {
            assert(answered.fragments == before.fragments);
            assert(answered.links == before.links);
            assert(answered.requests == before.requests);
            assert(answered.diagnostics == before.diagnostics);
            assert forall|f: int, n: int|
                0 <= f < answered.fragments.len() && 0 <= n < answered.links[f].len() implies #[trigger] slot_ok(
                answered,
                f,
                n,
            ) by {
                assert(slot_ok(before, f, n));
            }
            assert forall|i: int| 0 <= i < answered.requests.len() implies #[trigger] request_ok(
                answered,
                answered.requests[i],
            ) by {
                assert(request_ok(before, before.requests[i]));
            }
            assert forall|f: int| 0 <= f < answered.fragments.len() implies #[trigger] done(
                answered,
                f,
            ) by {
                assert(done(before, f));
                assert forall|m: int|
                    0 <= m < answered.fragments[f].nodes.len() && is_eval_at(answered.fragments[f], m)
                        && !inside_eval(answered.fragments[f], m) implies #[trigger] settled(
                    answered,
                    f,
                    m,
                ) by {
                    assert(settled(before, f, m));
                }
            }
        }
        match contents {
            None => {
                self.diagnose(fragment, node, LinkFailure::UnreadableFile(path));
                proof {
                    let last = self@.diagnostics.len() - 1;
                    assert(self@.diagnostics[last] == DiagnosticView {
                        fragment,
                        node,
                        failure: LinkFailureView::UnreadableFile(q.path),
                    });
                    assert forall|f: int| 0 <= f < self@.fragments.len() implies #[trigger] done(
                        self@,
                        f,
                    ) by {
                        lemma_done_kept(answered, self@, f, -1);
                    }
                }
                Ok(())
            },
            Some(text) => {
                let depth = self.fragments[fragment].depth;
                let ghost text_view = text@;
                match self.add_fragment(text, language, parent_dir_of(path.as_str()), depth + 1) {
                    Ok(g) => {
                        let ghost added = self@;
                        self.link_fragment(g)?;
                        let ghost recursed = self@;
                        proof {
                            lemma_extends_trans(answered, added, recursed, -1, g as int);
                            assert(recursed.fragments[g as int] == added.fragments[g as int]);
                        }
                        self.set_link(fragment, node, g);
                        proof {
                            assert forall|f: int| 0 <= f < self@.fragments.len() implies #[trigger] done(
                                self@,
                                f,
                            ) by {
                                if f < answered.fragments.len() {
                                    lemma_done_kept(answered, recursed, f, -1);
                                }
                                if f == fragment {
                                    lemma_done_after_file_link(recursed, self@, f, node as int);
                                } else {
                                    lemma_done_kept(recursed, self@, f, fragment as int);
                                }
                            }
                        }
                        Ok(())
                    },
                    Err(ParseFailure::Declined) => {
                        self.diagnose(fragment, node, LinkFailure::ParseFailed);
                        proof {
                            let last = self@.diagnostics.len() - 1;
                            assert(self@.diagnostics[last] == DiagnosticView {
                                fragment,
                                node,
                                failure: LinkFailureView::ParseFailed,
                            });
                            assert forall|f: int| 0 <= f < self@.fragments.len() implies #[trigger] done(
                                self@,
                                f,
                            ) by {
                                lemma_done_kept(answered, self@, f, -1);
                            }
                        }
                        Ok(())
                    },
                    Err(ParseFailure::GrammarRejected) => Err(ParseFailure::GrammarRejected),
                }
            },
        }
    }

    /// Parses `code` into a new fragment with no links yet, and returns its
    /// index.
    fn add_fragment(
        &mut self,
        code: String,
        language: PolyLanguage,
        working_dir: String,
        depth: usize,
    ) -> (r: Result<usize, ParseFailure>)
        requires
            tree_ok(old(self)@),
            depth <= MAX_NESTING,
        ensures
            tree_ok(final(self)@),
            extends(old(self)@, final(self)@, -1),
            match r {
                Ok(g) => {
                    &&& g == old(self)@.fragments.len()
                    &&& final(self)@.fragments.len() == g + 1
                    &&& final(self)@.fragments[g as int].source == code@
                    &&& final(self)@.fragments[g as int].language == language
                    &&& final(self)@.fragments[g as int].working_dir == working_dir@
                    &&& final(self)@.fragments[g as int].depth == depth
                    &&& fresh(final(self)@, g as int)
                },
                Err(_) => final(self)@ == old(self)@,
            },
            r is Ok <==> grammar_loads(language) && parses(language, code@),
            r == Err::<usize, ParseFailure>(ParseFailure::GrammarRejected) <==> !grammar_loads(
                language,
            ),
    {
        let syntax = match parse(language, code.as_str()) {
            Ok(t) => t,
            Err(e) => {
                return Err(e);
            },
        };
        let links = no_links(syntax.nodes.len());
        let ghost before = self@;
        let g = self.fragments.len();
        self.fragments.push(Fragment { syntax, code, working_dir, language, links, depth });
        proof {
            let after = self@;
            assert(after.fragments =~= before.fragments.push(after.fragments[g as int]));
            assert(after.links =~= before.links.push(links@));
            assert forall|f: int| 0 <= f < after.fragments.len() implies #[trigger] fragment_ok(
                after.fragments[f],
            ) by {
                if f < g {
                    assert(fragment_ok(before.fragments[f]));
                }
            }
            assert forall|f: int, n: int|
                0 <= f < after.fragments.len() && 0 <= n < after.links[f].len() implies #[trigger] slot_ok(
                after,
                f,
                n,
            ) by {
                if f < g {
                    assert(slot_ok(before, f, n));
                }
            }
            assert forall|i: int| 0 <= i < after.requests.len() implies #[trigger] request_ok(
                after,
                after.requests[i],
            ) by {
                assert(request_ok(before, before.requests[i]));
            }
        }
        Ok(g)
    }

    /// Records that the evaluate call at node `n` of fragment `f` stays
    /// unlinked, and why.
    fn diagnose(&mut self, f: usize, n: usize, failure: LinkFailure)
        requires
            tree_ok(old(self)@),
            f < old(self)@.fragments.len(),
            n < old(self)@.fragments[f as int].nodes.len(),
        ensures
            tree_ok(final(self)@),
            extends(old(self)@, final(self)@, -1),
            final(self)@.fragments.len() == old(self)@.fragments.len(),
            final(self)@.links == old(self)@.links,
            final(self)@.requests == old(self)@.requests,
            final(self)@.diagnostics == old(self)@.diagnostics.push(
                DiagnosticView { fragment: f, node: n, failure: failure@ },
            ),
    {
        let ghost before = self@;
        let position = self.fragments[f].syntax.nodes[n].start_position;
        self.diagnostics.push(Diagnostic { fragment: f, node: n, position, failure });
        proof {
            let after = self@;
            assert(after.fragments =~= before.fragments);
            assert(after.links =~= before.links);
            assert(after.requests =~= before.requests);
            assert(after.diagnostics =~= before.diagnostics.push(
                DiagnosticView { fragment: f, node: n, failure: failure@ },
            ));
            assert forall|k: int, m: int|
                0 <= k < after.fragments.len() && 0 <= m < after.links[k].len() implies #[trigger] slot_ok(
                after,
                k,
                m,
            ) by {
                assert(slot_ok(before, k, m));
            }
            assert forall|i: int| 0 <= i < after.requests.len() implies #[trigger] request_ok(
                after,
                after.requests[i],
            ) by {
                assert(request_ok(before, before.requests[i]));
            }
        }
    }

    /// Queues the file that the evaluate call at node `n` of fragment `f`
    /// asks for.
    fn ask_file(&mut self, f: usize, n: usize, language: PolyLanguage, path: String)
        requires
            tree_ok(old(self)@),
            request_ok(
                old(self)@,
                FileRequestView { fragment: f, node: n, language, path: path@ },
            ),
        ensures
            tree_ok(final(self)@),
            extends(old(self)@, final(self)@, -1),
            final(self)@.fragments.len() == old(self)@.fragments.len(),
            final(self)@.links == old(self)@.links,
            final(self)@.diagnostics == old(self)@.diagnostics,
            final(self)@.requests == old(self)@.requests.push(
                FileRequestView { fragment: f, node: n, language, path: path@ },
            ),
    {
        let ghost before = self@;
        self.requests.push(FileRequest { fragment: f, node: n, language, path });
        proof {
            let after = self@;
            assert(after.fragments =~= before.fragments);
            assert(after.links =~= before.links);
            assert(after.diagnostics =~= before.diagnostics);
            assert(after.requests =~= before.requests.push(
                FileRequestView { fragment: f, node: n, language, path: path@ },
            ));
            assert forall|k: int, m: int|
                0 <= k < after.fragments.len() && 0 <= m < after.links[k].len() implies #[trigger] slot_ok(
                after,
                k,
                m,
            ) by {
                assert(slot_ok(before, k, m));
            }
            assert forall|i: int| 0 <= i < after.requests.len() implies #[trigger] request_ok(
                after,
                after.requests[i],
            ) by {
                if i < before.requests.len() {
                    assert(request_ok(before, before.requests[i]));
                }
            }
        }
    }

    /// Links fragment `g` at node `n` of fragment `f`.
    fn set_link(&mut self, f: usize, n: usize, g: usize)
        requires
            tree_ok(old(self)@),
            f < old(self)@.fragments.len(),
            n < old(self)@.fragments[f as int].nodes.len(),
            link_ok(old(self)@.fragments, f as int, n as int, g as int),
        ensures
            tree_ok(final(self)@),
            extends(old(self)@, final(self)@, f as int),
            final(self)@.fragments == old(self)@.fragments,
            final(self)@.links == old(self)@.links.update(
                f as int,
                old(self)@.links[f as int].update(n as int, Some(g)),
            ),
            final(self)@.requests == old(self)@.requests,
            final(self)@.diagnostics == old(self)@.diagnostics,
    {
        let ghost before = self@;
        proof {
            assert(before.links[f as int].len() == before.fragments[f as int].nodes.len());
        }
        self.fragments[f].links.set(n, Some(g));
        proof {
            let after = self@;
            assert(after.fragments =~= before.fragments);
            assert(after.links =~= before.links.update(
                f as int,
                before.links[f as int].update(n as int, Some(g)),
            ));
            assert(after.requests =~= before.requests);
            assert(after.diagnostics =~= before.diagnostics);
            assert forall|k: int| 0 <= k < after.fragments.len() implies (#[trigger] after.links[k]).len()
                == after.fragments[k].nodes.len() by {
                assert(before.links[k].len() == before.fragments[k].nodes.len());
            }
            assert forall|k: int, m: int|
                0 <= k < after.fragments.len() && 0 <= m < after.links[k].len() implies #[trigger] slot_ok(
                after,
                k,
                m,
            ) by {
                if !(k == f && m == n) {
                    assert(slot_ok(before, k, m));
                }
            }
            assert forall|i: int| 0 <= i < after.requests.len() implies #[trigger] request_ok(
                after,
                after.requests[i],
            ) by {
                assert(request_ok(before, before.requests[i]));
            }
        }
    }

    /// The build pass over fragment `f`: every node outside an evaluate call
    /// is looked at once, in preorder; each evaluate call found is resolved
    /// and, for inline code, linked to a fragment built (and itself passed
    /// over) on the spot, for a file, queued as a request. Nothing inside an
    /// evaluate call is looked at: it is reached through the linked fragment.
    ///
    /// A node's index is below those of its descendants, so walking the
    /// indices in order meets a call before anything it holds.
    fn link_fragment(&mut self, f: usize) -> (r: Result<(), ParseFailure>)
        requires
            tree_ok(old(self)@),
            f < old(self)@.fragments.len(),
            fresh(old(self)@, f as int),
        ensures
            tree_ok(final(self)@),
            extends(old(self)@, final(self)@, f as int),
            r matches Err(e) ==> e == ParseFailure::GrammarRejected,
            r is Err ==> !grammars_load(),
            (forall|n: int|
                0 <= n < old(self)@.fragments[f as int].nodes.len() ==> !is_eval_at(
                    old(self)@.fragments[f as int],
                    n,
                )) ==> r is Ok,
            r is Ok ==> done(final(self)@, f as int),
            r is Ok ==> forall|k: int|
                old(self)@.fragments.len() <= k < final(self)@.fragments.len() ==> #[trigger] done(
                    final(self)@,
                    k,
                ),
        decreases MAX_NESTING - old(self)@.fragments[f as int].depth,
    {
        let ghost start = self@;
        let ghost fr = self@.fragments[f as int];
        proof {
            assert(fragment_ok(fr));
            assert(start.links[f as int].len() == fr.nodes.len());
        }
        let count = self.fragments[f].syntax.nodes.len();
        let mut evals: Vec<bool> = Vec::new();
        let mut blocked: Vec<bool> = Vec::new();
        let mut i: usize = 0;
        while i < count
            invariant
                tree_ok(self@),
                extends(start, self@, f as int),
                f < start.fragments.len(),
                fr == start.fragments[f as int],
                start == old(self)@,
                fragment_ok(fr),
                count == fr.nodes.len(),
                i <= count,
                evals@.len() == i,
                blocked@.len() == i,
                forall|j: int| 0 <= j < i ==> #[trigger] evals@[j] == is_eval_at(fr, j),
                forall|j: int| 0 <= j < i ==> #[trigger] blocked@[j] == inside_eval(fr, j),
                forall|j: int| i <= j < count ==> (#[trigger] self@.links[f as int][j]) is None,
                forall|j: int|
                    0 <= j < i && is_eval_at(fr, j) && !inside_eval(fr, j) ==> #[trigger] settled(
                        self@,
                        f as int,
                        j,
                    ),
                forall|k: int|
                    start.fragments.len() <= k < self@.fragments.len() ==> #[trigger] done(
                        self@,
                        k,
                    ),
            decreases count - i,
        {
            let ghost before = self@;
            proof {
                assert(self@.fragments[f as int] == fr);
                assert(parent_linked(fr.nodes, i as int));
            }
            let fragment = &self.fragments[f];
            let is_eval = match fragment.language.get_polyglot_call_lang(
                &fragment.syntax,
                fragment.code.as_str(),
                i,
            ) {
                Some(c) => fragment.language.is_polyglot_eval_call(fragment.node_code(c)),
                None => false,
            };
            let inside = match fragment.syntax.nodes[i].parent {
                Some(p) => blocked[p] || evals[p],
                None => false,
            };
            proof {
                assert(is_eval == is_eval_at(fr, i as int));
                assert(inside == inside_eval(fr, i as int));
            }
            evals.push(is_eval);
            blocked.push(inside);
            let ghost mut linked_here = false;
            if is_eval && !inside {
                let depth = fragment.depth;
                let working_dir = fragment.working_dir.clone();
                let outcome = fragment.resolve_call(i);
                let ghost wanted = outcome_view(outcome);
                proof {
                    assert(self@.links[f as int][i as int] is None);
                }
                match outcome {
                    None => {},
                    Some(Err(failure)) => {
                        self.diagnose(f, i, failure);
                        proof {
                            let last = self@.diagnostics.len() - 1;
                            assert(self@.diagnostics[last] == DiagnosticView {
                                fragment: f,
                                node: i,
                                failure: failure@,
                            });
                        }
                    },
                    Some(Ok((language, Payload::Code(code)))) => {
                        if depth >= MAX_NESTING {
                            self.diagnose(f, i, LinkFailure::TooDeep);
                            proof {
                                let last = self@.diagnostics.len() - 1;
                                assert(self@.diagnostics[last] == DiagnosticView {
                                    fragment: f,
                                    node: i,
                                    failure: LinkFailureView::TooDeep,
                                });
                            }
                        } else {
                            let ghost code_view = code@;
                            match self.add_fragment(code, language, working_dir, depth + 1) {
                                Ok(g) => {
                                    let ghost added = self@;
                                    let linked = self.link_fragment(g);
                                    proof {
                                        lemma_extends_trans(before, added, self@, -1, g as int);
                                        lemma_extends_trans(start, before, self@, f as int, -1);
                                    }
                                    if linked.is_err() {
                                        return linked;
                                    }
                                    proof {
                                        assert(self@.fragments[g as int] == added.fragments[g as int]);
                                    }
                                    let ghost recursed = self@;
                                    self.set_link(f, i, g);
                                    proof {
                                        linked_here = true;
                                        assert forall|k: int|
                                            start.fragments.len() <= k < self@.fragments.len() implies #[trigger] done(
                                            self@,
                                            k,
                                        ) by {
                                            if k < before.fragments.len() {
                                                lemma_done_kept(before, recursed, k, -1);
                                            }
                                            lemma_done_kept(recursed, self@, k, f as int);
                                        }
                                    }
                                },
                                Err(ParseFailure::Declined) => {
                                    self.diagnose(f, i, LinkFailure::ParseFailed);
                                    proof {
                                        let last = self@.diagnostics.len() - 1;
                                        assert(self@.diagnostics[last] == DiagnosticView {
                                            fragment: f,
                                            node: i,
                                            failure: LinkFailureView::ParseFailed,
                                        });
                                    }
                                },
                                Err(ParseFailure::GrammarRejected) => {
                                    proof {
                                        lemma_extends_trans(start, before, self@, f as int, -1);
                                    }
                                    return Err(ParseFailure::GrammarRejected);
                                },
                            }
                        }
                    },
                    Some(Ok((language, Payload::Path(path)))) => {
                        if depth >= MAX_NESTING {
                            self.diagnose(f, i, LinkFailure::TooDeep);
                            proof {
                                let last = self@.diagnostics.len() - 1;
                                assert(self@.diagnostics[last] == DiagnosticView {
                                    fragment: f,
                                    node: i,
                                    failure: LinkFailureView::TooDeep,
                                });
                            }
                        } else {
                            self.ask_file(f, i, language, path);
                            proof {
                                let last = self@.requests.len() - 1;
                                assert(self@.requests[last].fragment == f && self@.requests[last].node == i);
                            }
                        }
                    },
                }
            }
            proof {
                lemma_extends_trans(start, before, self@, f as int, f as int);
                if !linked_here {
                    assert forall|k: int|
                        start.fragments.len() <= k < self@.fragments.len() implies #[trigger] done(
                        self@,
                        k,
                    ) by {
                        lemma_done_kept(before, self@, k, f as int);
                    }
                }
                assert forall|j: int|
                    0 <= j < i && is_eval_at(fr, j) && !inside_eval(fr, j) implies #[trigger] settled(
                    self@,
                    f as int,
                    j,
                ) by {
                    assert(settled(before, f as int, j));
                    lemma_settled_kept(before, self@, f as int, j, f as int);
                }
                if is_eval && !inside {
                    assert(settled(self@, f as int, i as int));
                }
            }
            i += 1;
        }
        proof {
            assert forall|n: int|
                0 <= n < self@.fragments[f as int].nodes.len() && is_eval_at(
                    self@.fragments[f as int],
                    n,
                ) && !inside_eval(self@.fragments[f as int], n) implies #[trigger] settled(
                self@,
                f as int,
                n,
            ) by {}
        }
        Ok(())
    }
}

} // verus!
