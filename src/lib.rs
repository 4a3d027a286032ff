//! A syntax tree spanning several programming languages, stitched together
//! at the points where one language evaluates code written in another.
pub mod grammar;
pub mod polyglot_language;
pub mod polyglot_tree;
pub mod polyglot_zipper;
pub mod syntax;
pub mod util;

pub use polyglot_tree::PolyglotTree;
pub use polyglot_zipper::{PolyglotProcessor, PolyglotZipper};
