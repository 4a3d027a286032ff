//! The boundary with the tree-sitter parsers: the outside types and calls
//! that this crate relies on, and the walk that copies a parsed tree into a
//! `SyntaxTree`.
use vstd::prelude::*;
use vstd::utf8::*;

use crate::syntax::{attach, parent_linked, spans_text, views_of, well_formed, SyntaxNode, SyntaxTree};

verus! {

broadcast use group_utf8_lib;

#[verifier::external_type_specification]
#[verifier::external_body]
pub struct ExPoint(tree_sitter::Point);

#[verifier::external_type_specification]
#[verifier::external_body]
pub struct ExTsLanguage(tree_sitter::Language);

#[verifier::external_type_specification]
#[verifier::external_body]
pub struct ExLanguageError(tree_sitter::LanguageError);

#[verifier::external_type_specification]
#[verifier::external_body]
pub struct ExTree(tree_sitter::Tree);

#[verifier::external_type_specification]
#[verifier::external_body]
pub struct ExNode<'a>(tree_sitter::Node<'a>);

#[verifier::external_type_specification]
#[verifier::external_body]
pub struct ExTreeCursor<'a>(tree_sitter::TreeCursor<'a>);

/// Relies on `tree_sitter_python::language`: the grammar that Python
/// fragments are parsed with.
pub assume_specification[ tree_sitter_python::language ]() -> tree_sitter::Language;

/// Relies on `tree_sitter_javascript::language`: the grammar that JavaScript
/// fragments are parsed with.
pub assume_specification[ tree_sitter_javascript::language ]() -> tree_sitter::Language;

/// Relies on `tree_sitter_java::language`: the grammar that Java fragments
/// are parsed with.
pub assume_specification[ tree_sitter_java::language ]() -> tree_sitter::Language;

/// Relies on `tree_sitter_c::language`: the grammar that C fragments are
/// parsed with.
pub assume_specification[ tree_sitter_c::language ]() -> tree_sitter::Language;

/// Relies on `tree_sitter::Tree::walk`: a cursor on the root of a parsed tree,
/// from which the copy into a `SyntaxTree` starts.
pub assume_specification[ tree_sitter::Tree::walk ](tree: &tree_sitter::Tree) -> tree_sitter::TreeCursor<'_>;

/// Relies on `tree_sitter::TreeCursor::node`: the node under the cursor, to
/// be copied.
pub assume_specification<'a>[ tree_sitter::TreeCursor::<'a>::node ](
    cursor: &tree_sitter::TreeCursor<'a>,
) -> tree_sitter::Node<'a>;

/// Relies on `tree_sitter::TreeCursor::goto_first_child`: moves to the first
/// child, reporting whether there was one.
pub assume_specification<'a>[ tree_sitter::TreeCursor::<'a>::goto_first_child ](
    cursor: &mut tree_sitter::TreeCursor<'a>,
) -> bool;

/// Relies on `tree_sitter::TreeCursor::goto_next_sibling`: moves to the next
/// sibling, reporting whether there was one.
pub assume_specification<'a>[ tree_sitter::TreeCursor::<'a>::goto_next_sibling ](
    cursor: &mut tree_sitter::TreeCursor<'a>,
) -> bool;

/// Relies on `tree_sitter::TreeCursor::goto_parent`: moves to the parent,
/// reporting whether there was one.
pub assume_specification<'a>[ tree_sitter::TreeCursor::<'a>::goto_parent ](
    cursor: &mut tree_sitter::TreeCursor<'a>,
) -> bool;

/// Relies on `tree_sitter::Node::kind`: the grammar's name for the node's
/// kind, copied into `SyntaxNode::kind`.
pub assume_specification<'tree>[ tree_sitter::Node::<'tree>::kind ](
    node: &tree_sitter::Node<'tree>,
) -> &'static str;

/// Relies on `tree_sitter::Node::start_byte`: where the node starts; the copy
/// checks it against the source before keeping it.
pub assume_specification<'tree>[ tree_sitter::Node::<'tree>::start_byte ](
    node: &tree_sitter::Node<'tree>,
) -> usize;

/// Relies on `tree_sitter::Node::end_byte`: where the node ends; the copy
/// checks it against the source before keeping it.
pub assume_specification<'tree>[ tree_sitter::Node::<'tree>::end_byte ](
    node: &tree_sitter::Node<'tree>,
) -> usize;

/// Relies on `tree_sitter::Node::start_position`: the row and column where
/// the node starts, carried through as they are.
pub assume_specification<'tree>[ tree_sitter::Node::<'tree>::start_position ](
    node: &tree_sitter::Node<'tree>,
) -> tree_sitter::Point;

/// Relies on `tree_sitter::Node::end_position`: the row and column where the
/// node ends, carried through as they are.
pub assume_specification<'tree>[ tree_sitter::Node::<'tree>::end_position ](
    node: &tree_sitter::Node<'tree>,
) -> tree_sitter::Point;

/// Whether tree-sitter loads the grammar of `language` into a parser: it
/// does unless the grammar was generated for an ABI version it cannot read.
pub uninterp spec fn grammar_loads(language: crate::util::PolyLanguage) -> bool;

/// Whether a parser with the grammar of `language` loaded, and no timeout or
/// cancellation set, returns a tree for `text`.
pub uninterp spec fn parses(language: crate::util::PolyLanguage, text: Seq<char>) -> bool;

/// Every supported grammar loads.
pub open spec fn grammars_load() -> bool {
    &&& grammar_loads(crate::util::PolyLanguage::Python)
    &&& grammar_loads(crate::util::PolyLanguage::JavaScript)
    &&& grammar_loads(crate::util::PolyLanguage::Java)
    &&& grammar_loads(crate::util::PolyLanguage::C)
}

/// Relies on `tree_sitter::Parser::new`, `tree_sitter_python::language`,
/// `tree_sitter::Parser::set_language` and `tree_sitter::Parser::parse`: a
/// fresh parser refuses the grammar only when its ABI version is one this
/// tree-sitter does not read, and with the grammar loaded, and neither a
/// timeout nor a cancellation flag set, it returns a tree unless `parses`
/// says otherwise.
#[verifier::external_body]
fn parse_python(text: &str) -> (r: Result<Option<tree_sitter::Tree>, tree_sitter::LanguageError>)
    ensures
        r is Ok <==> grammar_loads(crate::util::PolyLanguage::Python),
        r matches Ok(t) ==> (t is Some <==> parses(crate::util::PolyLanguage::Python, text@)),
{
    let mut parser = tree_sitter::Parser::new();
    parser.set_language(tree_sitter_python::language())?;
    Ok(parser.parse(text, None))
}

/// Relies on `tree_sitter::Parser::new`, `tree_sitter_javascript::language`,
/// `tree_sitter::Parser::set_language` and `tree_sitter::Parser::parse`: a
/// fresh parser refuses the grammar only when its ABI version is one this
/// tree-sitter does not read, and with the grammar loaded, and neither a
/// timeout nor a cancellation flag set, it returns a tree unless `parses`
/// says otherwise.
#[verifier::external_body]
fn parse_javascript(text: &str) -> (r: Result<Option<tree_sitter::Tree>, tree_sitter::LanguageError>)
    ensures
        r is Ok <==> grammar_loads(crate::util::PolyLanguage::JavaScript),
        r matches Ok(t) ==> (t is Some <==> parses(crate::util::PolyLanguage::JavaScript, text@)),
{
    let mut parser = tree_sitter::Parser::new();
    parser.set_language(tree_sitter_javascript::language())?;
    Ok(parser.parse(text, None))
}

/// Relies on `tree_sitter::Parser::new`, `tree_sitter_java::language`,
/// `tree_sitter::Parser::set_language` and `tree_sitter::Parser::parse`: a
/// fresh parser refuses the grammar only when its ABI version is one this
/// tree-sitter does not read, and with the grammar loaded, and neither a
/// timeout nor a cancellation flag set, it returns a tree unless `parses`
/// says otherwise.
#[verifier::external_body]
fn parse_java(text: &str) -> (r: Result<Option<tree_sitter::Tree>, tree_sitter::LanguageError>)
    ensures
        r is Ok <==> grammar_loads(crate::util::PolyLanguage::Java),
        r matches Ok(t) ==> (t is Some <==> parses(crate::util::PolyLanguage::Java, text@)),
{
    let mut parser = tree_sitter::Parser::new();
    parser.set_language(tree_sitter_java::language())?;
    Ok(parser.parse(text, None))
}

/// Relies on `tree_sitter::Parser::new`, `tree_sitter_c::language`,
/// `tree_sitter::Parser::set_language` and `tree_sitter::Parser::parse`: a
/// fresh parser refuses the grammar only when its ABI version is one this
/// tree-sitter does not read, and with the grammar loaded, and neither a
/// timeout nor a cancellation flag set, it returns a tree unless `parses`
/// says otherwise.
#[verifier::external_body]
fn parse_c(text: &str) -> (r: Result<Option<tree_sitter::Tree>, tree_sitter::LanguageError>)
    ensures
        r is Ok <==> grammar_loads(crate::util::PolyLanguage::C),
        r matches Ok(t) ==> (t is Some <==> parses(crate::util::PolyLanguage::C, text@)),
{
    let mut parser = tree_sitter::Parser::new();
    parser.set_language(tree_sitter_c::language())?;
    Ok(parser.parse(text, None))
}

/// The tree-sitter grammar of each supported language.
pub fn grammar_of(language: crate::util::PolyLanguage) -> tree_sitter::Language {
    match language {
        crate::util::PolyLanguage::Python => tree_sitter_python::language(),
        crate::util::PolyLanguage::JavaScript => tree_sitter_javascript::language(),
        crate::util::PolyLanguage::Java => tree_sitter_java::language(),
        crate::util::PolyLanguage::C => tree_sitter_c::language(),
    }
}

/// Why no syntax tree came out of a fragment.
#[derive(Debug, Clone, Copy, PartialEq, Eq, Structural)]
pub enum ParseFailure {
    /// The grammar could not be loaded into the parser: the build pairs
    /// tree-sitter with a grammar it cannot read.
    GrammarRejected,
    /// The parser produced no tree.
    Declined,
}

/// Copies `node` into a record with no parent and no children yet. A node
/// whose offsets do not fall on character boundaries of `source` is kept
/// with an empty span at the start.
fn record(node: &tree_sitter::Node, source: &str) -> (r: SyntaxNode)
    ensures
        r@.parent is None,
        r@.children.len() == 0,
        spans_text(seq![r@], source@, 0),
{
    let start = node.start_byte();
    let end = node.end_byte();
    let (start, end) = if start <= end && end <= source.len() && source.is_char_boundary(start)
        && source.is_char_boundary(end) {
        (start, end)
    } else {
        (0, 0)
    };
    let kind = node.kind().to_owned();
    SyntaxNode {
        kind,
        start_byte: start,
        end_byte: end,
        start_position: node.start_position(),
        end_position: node.end_position(),
        parent: None,
        slot: 0,
        children: Vec::new(),
    }
}

/// Copies a parsed tree into an arena, visiting its nodes in preorder, so that
/// a node's index is below those of its descendants and of its later
/// siblings. Should the cursor refuse to climb back to the root, the copy
/// ends with the nodes it has.
pub fn copy_tree(tree: &tree_sitter::Tree, source: &str) -> (r: SyntaxTree)
    ensures
        well_formed(r@, source@),
{
    let mut cursor = tree.walk();
    let root = record(&cursor.node(), source);
    let mut nodes: Vec<SyntaxNode> = Vec::new();
    nodes.push(root);
    proof {
        let v = views_of(nodes@);
        assert(v[0] == root@);
        assert(parent_linked(v, 0));
        assert(spans_text(v, source@, 0));
    }
    let mut current: usize = 0;
    loop
        invariant
            well_formed(views_of(nodes@), source@),
            current < nodes@.len(),
        decreases usize::MAX - nodes.len(),
    {
        if cursor.goto_first_child() {
            let node = record(&cursor.node(), source);
            current = attach(&mut nodes, node, current, Ghost(source@));
        } else {
            let ghost count = nodes@.len();
            loop
                invariant_except_break
                    nodes@.len() == count,
                invariant
                    well_formed(views_of(nodes@), source@),
                    current < nodes@.len(),
                ensures
                    well_formed(views_of(nodes@), source@),
                    current < nodes@.len(),
                    nodes@.len() == count + 1,
                decreases current,
            {
                if current == 0 {
                    return SyntaxTree { nodes };
                }
                proof {
                    assert(parent_linked(views_of(nodes@), current as int));
                }
                let parent = match nodes[current].parent {
                    Some(p) => p,
                    None => {
                        return SyntaxTree { nodes };
                    },
                };
                if cursor.goto_next_sibling() {
                    let node = record(&cursor.node(), source);
                    current = attach(&mut nodes, node, parent, Ghost(source@));
                    break ;
                } else if cursor.goto_parent() {
                    current = parent;
                } else {
                    return SyntaxTree { nodes };
                }
            }
        }
    }
}

/// Parses `source` with the grammar of `language` and copies the result. It
/// fails exactly when the grammar does not load, or the parser returns no
/// tree.
pub fn parse(language: crate::util::PolyLanguage, source: &str) -> (r: Result<
    SyntaxTree,
    ParseFailure,
>)
    ensures
        r matches Ok(t) ==> well_formed(t@, source@),
        r is Ok <==> grammar_loads(language) && parses(language, source@),
        r == Err::<SyntaxTree, ParseFailure>(ParseFailure::GrammarRejected) <==> !grammar_loads(
            language,
        ),
{
    let attempt = match language {
        crate::util::PolyLanguage::Python => parse_python(source),
        crate::util::PolyLanguage::JavaScript => parse_javascript(source),
        crate::util::PolyLanguage::Java => parse_java(source),
        crate::util::PolyLanguage::C => parse_c(source),
    };
    match attempt {
        Err(_) => Err(ParseFailure::GrammarRejected),
        Ok(None) => Err(ParseFailure::Declined),
        Ok(Some(tree)) => Ok(copy_tree(&tree, source)),
    }
}

} // verus!
