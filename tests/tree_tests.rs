use polyglot_ast::polyglot_language::{JavaScript, Python, C};
use polyglot_ast::polyglot_tree::LinkFailure;
use polyglot_ast::util::PolyLanguage;
use polyglot_ast::{PolyglotProcessor, PolyglotTree, PolyglotZipper};

fn find_kind<'a>(z: PolyglotZipper<'a>, kind: &str) -> Option<PolyglotZipper<'a>> {
    if z.kind() == kind {
        return Some(z);
    }
    if z.is_polyglot_eval_call() {
        return None;
    }
    let mut child = z.child(0);
    while let Some(c) = child {
        let next = c.next_sibling();
        if let Some(found) = find_kind(c, kind) {
            return Some(found);
        }
        child = next;
    }
    None
}

fn linked_count(tree: &PolyglotTree) -> usize {
    let mut count = 0;
    for f in 0..tree.fragment_count() {
        count += tree.fragment(f).links.iter().filter(|l| l.is_some()).count();
    }
    count
}

#[test]
fn no_interop_calls_means_no_links() {
    let cases = [
        ("print(x*42)", PolyLanguage::Python),
        ("console.log(42);", PolyLanguage::JavaScript),
        ("class A { void f() { System.out.println(1); } }", PolyLanguage::Java),
        ("int main() { return 0; }", PolyLanguage::C),
        ("", PolyLanguage::Python),
    ];
    for (code, lang) in cases {
        let tree = PolyglotTree::from(code, lang).unwrap();
        assert_eq!(tree.fragment_count(), 1);
        assert_eq!(linked_count(&tree), 0);
        assert!(tree.diagnostics().is_empty());
    }
}

fn check_inline(code: &str, host: PolyLanguage, guest: PolyLanguage, guest_code: &str) {
    let tree = PolyglotTree::from(code, host).unwrap();
    assert_eq!(tree.fragment_count(), 2);
    assert_eq!(linked_count(&tree), 1);
    let root = PolyglotZipper::from(&tree);
    let mut call = find_kind(root, "interop-evaluate-call").expect("an evaluate call");
    assert_eq!(*call.get_lang(), host);
    assert!(call.goto_first_child());
    assert_eq!(*call.get_lang(), guest);
    assert_eq!(call.code(), guest_code);
    assert_eq!(tree.fragment(1).language, guest);
    assert_eq!(tree.fragment(1).code, guest_code);
}

#[test]
fn python_inline_eval_is_linked() {
    check_inline(
        "import polyglot\nprint(x*42)\npolyglot.eval(language=\"js\", string=\"console.log(42)\")",
        PolyLanguage::Python,
        PolyLanguage::JavaScript,
        "console.log(42)",
    );
}

#[test]
fn javascript_inline_eval_is_linked() {
    check_inline(
        "Polyglot.eval(\"python\", \"print(1)\");",
        PolyLanguage::JavaScript,
        PolyLanguage::Python,
        "print(1)",
    );
}

#[test]
fn java_inline_eval_is_linked() {
    check_inline(
        "class A { void f() { context.eval(\"python\", \"print(1)\"); } }",
        PolyLanguage::Java,
        PolyLanguage::Python,
        "print(1)",
    );
}

#[test]
fn c_inline_eval_is_linked() {
    check_inline(
        "int main() { polyglot_eval(\"js\", \"console.log(1)\"); return 0; }",
        PolyLanguage::C,
        PolyLanguage::JavaScript,
        "console.log(1)",
    );
}

#[test]
fn adapter_structs_convert() {
    assert_eq!(PolyLanguage::from(Python {}), PolyLanguage::Python);
    assert_eq!(PolyLanguage::from(JavaScript {}), PolyLanguage::JavaScript);
    assert_eq!(PolyLanguage::from(C {}), PolyLanguage::C);
}

#[test]
fn unknown_language_is_not_linked() {
    let tree = PolyglotTree::from("Polyglot.eval(\"go\", \"x := 1\");", PolyLanguage::JavaScript)
        .unwrap();
    assert_eq!(tree.fragment_count(), 1);
    assert_eq!(linked_count(&tree), 0);
    let d = &tree.diagnostics()[0];
    assert!(matches!(&d.failure, LinkFailure::UnknownLanguage(s) if s == "go"));
    assert_eq!(d.fragment, 0);
    assert_eq!(d.position.row, 0);
    assert_eq!(d.position.column, 0);
}

#[test]
fn python_missing_language_is_reported() {
    let tree = PolyglotTree::from("polyglot.eval(string=\"1\", path=\"x.js\")", PolyLanguage::Python)
        .unwrap();
    assert_eq!(linked_count(&tree), 0);
    assert!(matches!(tree.diagnostics()[0].failure, LinkFailure::MissingLanguage));
}

#[test]
fn python_unknown_argument_is_reported() {
    let tree = PolyglotTree::from("polyglot.eval(language=\"js\", text=\"1\")", PolyLanguage::Python)
        .unwrap();
    assert_eq!(linked_count(&tree), 0);
    assert!(matches!(&tree.diagnostics()[0].failure, LinkFailure::UnknownArgument(s) if s == "text"));
}

#[test]
fn python_missing_payload_is_reported() {
    let tree = PolyglotTree::from(
        "polyglot.eval(language=\"js\", language=\"js\")",
        PolyLanguage::Python,
    )
    .unwrap();
    assert_eq!(linked_count(&tree), 0);
    assert!(matches!(tree.diagnostics()[0].failure, LinkFailure::MissingPayload));
}

#[test]
fn evaluate_file_calls_become_requests() {
    let tree = PolyglotTree::from(
        "int main() { polyglot_eval_file(\"python\", \"x.py\"); return 0; }",
        PolyLanguage::C,
    )
    .unwrap();
    assert!(tree.pending_file().is_some());
    let tree = PolyglotTree::from("Polyglot.evalFile(\"python\", \"x.py\");", PolyLanguage::JavaScript)
        .unwrap();
    assert_eq!(tree.pending_file().unwrap().path, "x.py");
}

#[test]
fn evaluate_file_resolves_against_the_callers_directory() {
    let mut tree = PolyglotTree::from_path(
        "project/src/main.js",
        String::from("Polyglot.evalFile(\"python\", \"lib/helper.py\");"),
        PolyLanguage::JavaScript,
    )
    .unwrap();
    assert_eq!(tree.fragment(0).working_dir, "project/src");
    let request = tree.pending_file().unwrap();
    assert_eq!(request.path, "project/src/lib/helper.py");
    assert_eq!(request.language, PolyLanguage::Python);
    tree.supply_file(Some(String::from("print(1)"))).unwrap();
    assert!(tree.pending_file().is_none());
    assert_eq!(tree.fragment_count(), 2);
    assert_eq!(tree.fragment(1).working_dir, "project/src/lib");
    assert_eq!(tree.fragment(1).language, PolyLanguage::Python);
    let mut call = find_kind(PolyglotZipper::from(&tree), "interop-evaluate-call").unwrap();
    assert!(call.goto_first_child());
    assert_eq!(call.code(), "print(1)");
}

#[test]
fn nested_file_paths_chain() {
    let mut tree = PolyglotTree::from_path(
        "a/main.py",
        String::from("polyglot.eval(language=\"js\", path=\"b/x.js\")"),
        PolyLanguage::Python,
    )
    .unwrap();
    assert_eq!(tree.pending_file().unwrap().path, "a/b/x.js");
    tree.supply_file(Some(String::from("Polyglot.evalFile(\"c\", \"y.c\");"))).unwrap();
    assert_eq!(tree.pending_file().unwrap().path, "a/b/y.c");
    tree.supply_file(Some(String::from("int x;"))).unwrap();
    assert_eq!(tree.fragment_count(), 3);
    assert_eq!(tree.fragment(2).language, PolyLanguage::C);
    assert_eq!(tree.fragment(2).working_dir, "a/b");
}

#[test]
fn unreadable_file_is_reported() {
    let mut tree = PolyglotTree::from("Polyglot.evalFile(\"python\", \"missing.py\");", PolyLanguage::JavaScript)
        .unwrap();
    tree.supply_file(None).unwrap();
    assert!(tree.pending_file().is_none());
    assert_eq!(linked_count(&tree), 0);
    assert!(matches!(&tree.diagnostics()[0].failure, LinkFailure::UnreadableFile(p) if p == "missing.py"));
}

#[test]
fn inline_code_keeps_the_callers_directory() {
    let tree = PolyglotTree::from_path(
        "dir/main.js",
        String::from("Polyglot.eval(\"python\", \"print(1)\");"),
        PolyLanguage::JavaScript,
    )
    .unwrap();
    assert_eq!(tree.fragment(1).working_dir, "dir");
}

#[test]
fn siblings_stay_in_their_fragment() {
    let tree = PolyglotTree::from(
        "a = 1\npolyglot.eval(language=\"js\", string=\"f(); g();\")\nb = 2",
        PolyLanguage::Python,
    )
    .unwrap();
    let root = PolyglotZipper::from(&tree);
    let call = find_kind(root, "interop-evaluate-call").unwrap();
    assert!(call.next_sibling().is_none());
    assert!(call.prev_sibling().is_none());
    let mut statement = PolyglotZipper::from(&tree);
    assert!(statement.goto_first_child());
    assert!(statement.goto_next_sibling());
    assert_eq!(*statement.get_lang(), PolyLanguage::Python);
    assert!(statement.goto_next_sibling());
    assert_eq!(statement.code(), "b = 2");
    assert!(!statement.goto_next_sibling());
    assert_eq!(statement.code(), "b = 2");
    let mut inside = call.child(5).unwrap();
    assert_eq!(*inside.get_lang(), PolyLanguage::JavaScript);
    assert!(inside.goto_first_child());
    assert!(inside.goto_next_sibling());
    assert_eq!(inside.code(), "g();");
    assert!(!inside.goto_next_sibling());
    assert_eq!(*inside.get_lang(), PolyLanguage::JavaScript);
}

#[test]
fn binding_names_of_imports_and_exports() {
    let tree = PolyglotTree::from(
        "x = polyglot.import_value(\"x\")\npolyglot.export_value(\"y\", 42)",
        PolyLanguage::Python,
    )
    .unwrap();
    let import = find_kind(PolyglotZipper::from(&tree), "interop-import-call").unwrap();
    assert_eq!(import.get_binding_name().unwrap(), "\"x\"");
    let export = find_kind(PolyglotZipper::from(&tree), "interop-export-call").unwrap();
    assert_eq!(export.get_binding_name().unwrap(), "\"y\"");
    assert!(PolyglotZipper::from(&tree).get_binding_name().is_err());
}

#[test]
fn binding_name_is_empty_without_a_static_name() {
    let tree = PolyglotTree::from("let x = Polyglot.import(\"x\");", PolyLanguage::JavaScript).unwrap();
    let import = find_kind(PolyglotZipper::from(&tree), "interop-import-call").unwrap();
    assert_eq!(import.get_binding_name().unwrap(), "");
}

#[test]
fn three_languages_two_crossings() {
    let code = "polyglot.eval(language=\"js\", string=\"Polyglot.eval('c', 'int x;')\")";
    let tree = PolyglotTree::from(code, PolyLanguage::Python).unwrap();
    assert_eq!(tree.fragment_count(), 3);
    let mut z = PolyglotZipper::from(&tree);
    let mut crossings = 0;
    let mut lang = *z.get_lang();
    while z.goto_first_child() {
        if *z.get_lang() != lang {
            crossings += 1;
            lang = *z.get_lang();
            if lang == PolyLanguage::C {
                assert_eq!(z.kind(), "translation_unit");
                assert_eq!(z.code(), "int x;");
                break;
            }
        }
    }
    assert_eq!(crossings, 2);
    assert_eq!(lang, PolyLanguage::C);
}

#[test]
fn kinds_and_positions() {
    let tree = PolyglotTree::from("a = 1\nb = 2", PolyLanguage::Python).unwrap();
    let mut z = PolyglotZipper::from(&tree);
    assert_eq!(z.kind(), "module");
    assert!(z.goto_first_child());
    assert!(z.goto_next_sibling());
    assert_eq!(z.kind(), "expression_statement");
    assert_eq!(z.start_position().row, 1);
    assert_eq!(z.start_position().column, 0);
    assert_eq!(z.end_position().column, 5);
}

struct Counter {
    kinds: Vec<String>,
}

impl PolyglotProcessor for Counter {
    fn process(&mut self, zipper: PolyglotZipper) {
        self.kinds.push(zipper.kind().to_string());
    }
}

#[test]
fn apply_hands_over_the_root() {
    let tree = PolyglotTree::from("a = 1", PolyLanguage::Python).unwrap();
    let mut counter = Counter { kinds: Vec::new() };
    tree.apply(&mut counter);
    assert_eq!(counter.kinds, vec![String::from("module")]);
}

#[test]
fn a_file_that_evaluates_itself_stops_at_the_depth_limit() {
    let source = "Polyglot.evalFile(\"js\", \"a.js\");";
    let mut tree = PolyglotTree::from_path("a.js", String::from(source), PolyLanguage::JavaScript)
        .unwrap();
    let mut supplied = 0;
    while let Some(request) = tree.pending_file() {
        assert_eq!(request.path, "a.js");
        tree.supply_file(Some(String::from(source))).unwrap();
        supplied += 1;
    }
    assert_eq!(supplied, polyglot_ast::polyglot_tree::MAX_NESTING);
    assert_eq!(tree.fragment_count(), polyglot_ast::polyglot_tree::MAX_NESTING + 1);
    let last = tree.diagnostics().last().unwrap();
    assert!(matches!(last.failure, LinkFailure::TooDeep));
    assert_eq!(last.fragment, polyglot_ast::polyglot_tree::MAX_NESTING);
}

#[test]
fn a_call_with_one_argument_still_builds() {
    let tree = PolyglotTree::from("polyglot.eval(language=\"js\")", PolyLanguage::Python).unwrap();
    assert_eq!(tree.fragment_count(), 1);
    assert_eq!(linked_count(&tree), 0);
    assert!(tree.diagnostics().is_empty());
}
