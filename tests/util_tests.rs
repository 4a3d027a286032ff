use polyglot_ast::util::{
    join_path, language_string_to_struct, language_string_to_treesitter,
    language_struct_to_treesitter, parent_dir_of, strip_quotes, InvalidArgumentError,
    PolyLanguage,
};

#[test]
fn strip_quotes_removes_one_character_from_each_end() {
    let stripped = strip_quotes("'Hello!'");
    assert_eq!(stripped, String::from("Hello!"));
    let stripped_again = strip_quotes(stripped.as_str());
    assert_eq!(stripped_again, String::from("ello"));
}

#[test]
fn strip_quotes_on_short_text() {
    assert_eq!(strip_quotes(""), "");
    assert_eq!(strip_quotes("a"), "");
    assert_eq!(strip_quotes("\"\""), "");
    assert_eq!(strip_quotes("\"é\""), "é");
}

#[test]
fn strip_quotes_twice_drops_two_from_each_end() {
    let once = strip_quotes("\"abcdef\"");
    assert_eq!(once, "abcdef");
    assert_eq!(strip_quotes(once.as_str()), "bcde");
}

#[test]
fn language_names() {
    assert_eq!(language_string_to_struct("python"), Ok(PolyLanguage::Python));
    assert_eq!(language_string_to_struct("js"), Ok(PolyLanguage::JavaScript));
    assert_eq!(language_string_to_struct("javascript"), Ok(PolyLanguage::JavaScript));
    assert_eq!(language_string_to_struct("java"), Ok(PolyLanguage::Java));
    assert_eq!(language_string_to_struct("c"), Ok(PolyLanguage::C));
    assert_eq!(language_string_to_struct("go"), Err(InvalidArgumentError));
    assert_eq!(language_string_to_struct("Python"), Err(InvalidArgumentError));
}

#[test]
fn language_grammars() {
    assert_eq!(language_string_to_treesitter("python").unwrap(), tree_sitter_python::language());
    assert_eq!(language_string_to_treesitter("js").unwrap(), tree_sitter_javascript::language());
    assert!(language_string_to_treesitter("go").is_err());
    assert_eq!(language_struct_to_treesitter(&PolyLanguage::C).unwrap(), tree_sitter_c::language());
    assert_eq!(language_struct_to_treesitter(&PolyLanguage::Java).unwrap(), tree_sitter_java::language());
}

#[test]
fn paths_join_against_a_directory() {
    assert_eq!(join_path("dir", "x.py"), "dir/x.py");
    assert_eq!(join_path("dir/", "x.py"), "dir/x.py");
    assert_eq!(join_path("", "x.py"), "x.py");
    assert_eq!(join_path("dir", "/abs/x.py"), "/abs/x.py");
}

#[test]
fn parent_directories() {
    assert_eq!(parent_dir_of("a/b/c.py"), "a/b");
    assert_eq!(parent_dir_of("c.py"), "");
    assert_eq!(parent_dir_of("/c.py"), "/");
    assert_eq!(parent_dir_of(""), "");
}

#[test]
fn parent_directories_skip_a_trailing_separator() {
    assert_eq!(parent_dir_of("dir/"), "");
    assert_eq!(parent_dir_of("a/b/"), "a");
    assert_eq!(parent_dir_of("a/b//"), "a");
    assert_eq!(parent_dir_of("/"), "/");
}
