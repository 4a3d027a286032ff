//! Small text helpers shared by the tree builder and the language adapters.
use vstd::prelude::*;
use vstd::string::*;

verus! {

/// The error of a call whose argument is outside what the callee accepts: a
/// language name that no adapter answers to, or a binding asked of a node
/// that is neither an import nor an export.
#[derive(Debug, Clone, Copy, PartialEq, Eq, Structural)]
pub struct InvalidArgumentError;

/// The languages this crate can parse and link, one adapter each.
#[derive(Debug, Clone, Copy, PartialEq, Eq, Structural)]
pub enum PolyLanguage {
    Python,
    JavaScript,
    /// Java support is partial: only evaluate calls with string literal
    /// arguments are recognised.
    Java,
    C,
}

/// The adapter that a target-language string selects, if any.
pub open spec fn language_named(s: Seq<char>) -> Option<PolyLanguage> {
    if s == "python"@ {
        Some(PolyLanguage::Python)
    } else if s == "js"@ || s == "javascript"@ {
        Some(PolyLanguage::JavaScript)
    } else if s == "java"@ {
        Some(PolyLanguage::Java)
    } else if s == "c"@ {
        Some(PolyLanguage::C)
    } else {
        None
    }
}

/// Whether two string slices hold the same characters.
pub(crate) fn text_eq(a: &str, b: &str) -> (r: bool)
    ensures
        r == (a@ == b@),
{
    a.to_owned() == b.to_owned()
}

/// Returns the language that `lang` names; "js" and "javascript" both name
/// JavaScript.
pub fn language_string_to_struct(lang: &str) -> (r: Result<PolyLanguage, InvalidArgumentError>)
    ensures
        match language_named(lang@) {
            Some(l) => r == Ok::<PolyLanguage, InvalidArgumentError>(l),
            None => r is Err,
        },
{
    if text_eq(lang, "python") {
        Ok(PolyLanguage::Python)
    } else if text_eq(lang, "js") || text_eq(lang, "javascript") {
        Ok(PolyLanguage::JavaScript)
    } else if text_eq(lang, "java") {
        Ok(PolyLanguage::Java)
    } else if text_eq(lang, "c") {
        Ok(PolyLanguage::C)
    } else {
        Err(InvalidArgumentError)
    }
}

/// The text left once the first and the last character are removed; empty
/// when there are fewer than two characters.
pub open spec fn stripped(s: Seq<char>) -> Seq<char> {
    if s.len() <= 1 {
        Seq::empty()
    } else {
        s.subrange(1, s.len() - 1)
    }
}

/// Returns `s` with its leading and trailing characters removed.
///
/// Mostly used to unwrap string literals, but the characters removed are not
/// checked: stripping `'Hello!'` gives `Hello!`, stripping that again gives `ello`.
pub fn strip_quotes(s: &str) -> (r: String)
    ensures
        r@ == stripped(s@),
{
    let n = s.unicode_len();
    if n <= 1 {
        String::new()
    } else {
        s.substring_char(1, n - 1).to_owned()
    }
}

/// `path` read relative to the directory `dir`: an absolute path stands as
/// it is, a relative one is appended to `dir` after a separator.
pub open spec fn joined(dir: Seq<char>, path: Seq<char>) -> Seq<char> {
    if path.len() > 0 && path[0] == '/' {
        path
    } else if dir.len() == 0 {
        path
    } else if dir[dir.len() - 1] == '/' {
        dir + path
    } else {
        dir + seq!['/'] + path
    }
}

/// Index of the last `/` among the first `k` characters of `s`, or -1.
pub open spec fn last_slash(s: Seq<char>, k: int) -> int
    decreases k,
{
    if k <= 0 {
        -1
    } else if s[k - 1] == '/' {
        k - 1
    } else {
        last_slash(s, k - 1)
    }
}

/// `path` without the separators that end it, keeping a lone `/`.
pub open spec fn trim_trailing(path: Seq<char>) -> Seq<char>
    decreases path.len(),
{
    if path.len() > 1 && path[path.len() - 1] == '/' {
        trim_trailing(path.drop_last())
    } else {
        path
    }
}

/// The directory that holds the file at `path`: once the separators that
/// end `path` are set aside, everything before its last separator (the root
/// itself when that separator is the first character), or nothing when there
/// is none.
pub open spec fn parent_dir(path: Seq<char>) -> Seq<char> {
    let p = trim_trailing(path);
    let i = last_slash(p, p.len() as int);
    if i < 0 {
        Seq::empty()
    } else if i == 0 {
        p.subrange(0, 1)
    } else {
        p.subrange(0, i)
    }
}

/// Stripping removes one character from each end whatever they are, so it
/// is no identity on text already unquoted: a second pass removes two more.
pub proof fn lemma_strip_twice(s: Seq<char>)
    requires
        s.len() >= 4,
    ensures
        stripped(s).len() == s.len() - 2,
        stripped(s) != s,
        stripped(stripped(s)) =~= s.subrange(2, s.len() - 2),
{
}

/// The tree-sitter grammar of `lang`.
pub fn language_struct_to_treesitter(lang: &PolyLanguage) -> (r: Result<
    tree_sitter::Language,
    InvalidArgumentError,
>)
    ensures
        r is Ok,
{
    Ok(crate::grammar::grammar_of(*lang))
}

/// The tree-sitter grammar of the language that `lang` names.
pub fn language_string_to_treesitter(lang: &str) -> (r: Result<
    tree_sitter::Language,
    InvalidArgumentError,
>)
    ensures
        r is Ok <==> language_named(lang@) is Some,
{
    let l = language_string_to_struct(lang)?;
    language_struct_to_treesitter(&l)
}

/// Resolves `path` against the directory `dir`.
pub fn join_path(dir: &str, path: &str) -> (r: String)
    ensures
        r@ == joined(dir@, path@),
{
    let n = path.unicode_len();
    let d = dir.unicode_len();
    if n > 0 && path.get_char(0) == '/' {
        return path.to_owned();
    }
    if d == 0 {
        return path.to_owned();
    }
    let mut r = dir.to_owned();
    if dir.get_char(d - 1) != '/' {
        r.append("/");
        proof {
            reveal_strlit("/");
        }
    }
    r.append(path);
    proof {
        if dir@[d - 1] != '/' {
            assert(r@ =~= dir@ + seq!['/'] + path@);
        }
    }
    r
}

/// The directory that holds the file at `path`.
pub fn parent_dir_of(path: &str) -> (r: String)
    ensures
        r@ == parent_dir(path@),
{
    let full = path.unicode_len();
    let mut e: usize = full;
    assert(path@.subrange(0, e as int) =~= path@);
    while e > 1 && path.get_char(e - 1) == '/'
        invariant
            e <= full,
            full == path@.len(),
            trim_trailing(path@) == trim_trailing(path@.subrange(0, e as int)),
        decreases e,
    {
        assert(path@.subrange(0, e as int).drop_last() =~= path@.subrange(0, e - 1));
        e = e - 1;
    }
    let trimmed = path.substring_char(0, e);
    assert(trim_trailing(path@) == trimmed@);
    let n = e;
    let mut k: usize = n;
    while k > 0 && trimmed.get_char(k - 1) != '/'
        invariant
            k <= n,
            n == trimmed@.len(),
            last_slash(trimmed@, n as int) == last_slash(trimmed@, k as int),
        decreases k,
    {
        k = k - 1;
    }
    if k == 0 {
        String::new()
    } else if k == 1 {
        trimmed.substring_char(0, 1).to_owned()
    } else {
        trimmed.substring_char(0, k - 1).to_owned()
    }
}

} // verus!
