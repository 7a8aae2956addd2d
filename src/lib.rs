//! Locates one named function or method in a parsed source file and splices
//! replacement text over it, leaving every other byte of the file unchanged.

pub mod ecmascript;
pub mod go;
pub mod javascript;
pub mod laws;
pub mod locate;
pub mod parse;
pub mod prompt;
pub mod render;
pub mod rust;
pub mod supported_language;
pub mod traversal;
pub mod tree;
pub mod typescript;

pub use go::GoAnalyser;
pub use javascript::JavascriptAnalyser;
pub use locate::LocateError;
pub use parse::{parse_source_with_language, tree_from_walk, ParseFailure};
pub use prompt::draft_instructions;
pub use render::{apply_suggestion_to_source_file, is_no_change, render, RenderError};
pub use rust::RustAnalyzer;
pub use supported_language::{
    detect_language, first_recognised, language_globs, SourceLanguage, SupportedLanguage,
};
pub use traversal::{find_all_of_kind, find_first_of_kind_with_field_value};
pub use tree::{node_value, NodeRef, NodeView, SyntaxNode, SyntaxTree};
pub use typescript::TypescriptAnalyser;
