//! Locating functions and methods in JavaScript source.
use crate::locate::LocateError;
use crate::supported_language::{locate_node, SourceLanguage, SupportedLanguage};
use crate::tree::{NodeRef, SyntaxTree};
use vstd::prelude::*;

verus! {

/// Relies on tree_sitter_javascript::language: the JavaScript grammar.
#[verifier::external_body]
pub(crate) fn javascript_grammar() -> tree_sitter::Language {
    tree_sitter_javascript::language()
}

/// Locates functions and methods in JavaScript source.
pub struct JavascriptAnalyser {
    inner: SourceLanguage,
}

impl JavascriptAnalyser {
    #[verifier::type_invariant]
    closed spec fn holds_javascript(&self) -> bool {
        self.inner == SourceLanguage::JavaScript
    }
}

impl Default for JavascriptAnalyser {
    fn default() -> (r: Self)
        ensures
            r.source_language() == SourceLanguage::JavaScript,
    {
        JavascriptAnalyser { inner: SourceLanguage::JavaScript }
    }
}

impl SupportedLanguage for JavascriptAnalyser {
    open spec fn source_language(&self) -> SourceLanguage {
        SourceLanguage::JavaScript
    }

    fn find_correct_node(
        &self,
        source_file: &str,
        root_tree: &SyntaxTree,
        parent_identifier: Option<&str>,
        function_identifier: Option<&str>,
    ) -> (r: Result<NodeRef, LocateError>) {
        locate_node(
            SourceLanguage::JavaScript,
            source_file,
            root_tree,
            parent_identifier,
            function_identifier,
        )
    }

    fn language(&self) -> tree_sitter::Language {
        javascript_grammar()
    }

    fn name(&self) -> (r: String) {
        proof {
            use_type_invariant(self);
        }
        self.inner.name()
    }
}

} // verus!
