//! Locating functions and methods in TypeScript source.
use crate::locate::LocateError;
use crate::supported_language::{locate_node, SourceLanguage, SupportedLanguage};
use crate::tree::{NodeRef, SyntaxTree};
use vstd::prelude::*;

verus! {

/// Relies on tree_sitter_typescript::language_typescript: the TypeScript grammar.
#[verifier::external_body]
pub(crate) fn typescript_grammar() -> tree_sitter::Language {
    tree_sitter_typescript::language_typescript()
}

/// Locates functions and methods in TypeScript source.
pub struct TypescriptAnalyser {
    inner: SourceLanguage,
}

impl TypescriptAnalyser {
    #[verifier::type_invariant]
    closed spec fn holds_typescript(&self) -> bool {
        self.inner == SourceLanguage::TypeScript
    }
}

impl Default for TypescriptAnalyser {
    fn default() -> (r: Self)
        ensures
            r.source_language() == SourceLanguage::TypeScript,
    {
        TypescriptAnalyser { inner: SourceLanguage::TypeScript }
    }
}

impl SupportedLanguage for TypescriptAnalyser {
    open spec fn source_language(&self) -> SourceLanguage {
        SourceLanguage::TypeScript
    }

    fn find_correct_node(
        &self,
        source_file: &str,
        root_tree: &SyntaxTree,
        parent_identifier: Option<&str>,
        function_identifier: Option<&str>,
    ) -> (r: Result<NodeRef, LocateError>) {
        locate_node(
            SourceLanguage::TypeScript,
            source_file,
            root_tree,
            parent_identifier,
            function_identifier,
        )
    }

    fn language(&self) -> tree_sitter::Language {
        typescript_grammar()
    }

    fn name(&self) -> (r: String) {
        proof {
            use_type_invariant(self);
        }
        self.inner.name()
    }
}

} // verus!
