//! The supported languages, the contract each locator meets, and the choice
//! of language from a file name.
use crate::ecmascript::{ecmascript_locate, locate_ecmascript};
use crate::javascript::javascript_grammar;
use crate::typescript::typescript_grammar;
use crate::go::{go_grammar, go_locate, locate_go};
use crate::laws::lemma_found_in_tree;
use crate::locate::{name_bytes, reports, LocateError, Located};
use crate::rust::{locate_rust, rust_grammar, rust_locate};
use crate::tree::{fits, NodeRef, NodeView, SyntaxTree};
use vstd::prelude::*;
use vstd::string::StringSliceAdditionalSpecFns;
use vstd::utf8::is_char_boundary;

verus! {

/// A language this library can parse and search.
#[derive(Clone, Copy, PartialEq, Eq, Debug, Structural)]
pub enum SourceLanguage {
    Go,
    JavaScript,
    Rust,
    TypeScript,
}

/// The name of a language, as syntax highlighters know it.
pub open spec fn language_name(l: SourceLanguage) -> Seq<char> {
    match l {
        SourceLanguage::Go => "go"@,
        SourceLanguage::JavaScript => "javascript"@,
        SourceLanguage::Rust => "rust"@,
        SourceLanguage::TypeScript => "typescript"@,
    }
}

/// The lookup of a language.
pub open spec fn locate_in(
    l: SourceLanguage,
    t: Seq<NodeView>,
    src: Seq<u8>,
    parent: Option<Seq<u8>>,
    function: Option<Seq<u8>>,
) -> Located {
    match l {
        SourceLanguage::Go => go_locate(t, src, parent, function),
        SourceLanguage::JavaScript => ecmascript_locate(t, src, parent, function, true),
        SourceLanguage::Rust => rust_locate(t, src, parent, function),
        SourceLanguage::TypeScript => ecmascript_locate(t, src, parent, function, false),
    }
}

/// A language whose functions and methods can be located by name.
pub trait SupportedLanguage {
    /// The language.
    spec fn source_language(&self) -> SourceLanguage;

    /// Finds the one node that `parent_identifier` and
    /// `function_identifier` name in `root_tree`, parsed from `source_file`:
    /// the whole file when no function is named, else the function or method
    /// of that name, inside the named parent when one is given.
    fn find_correct_node(
        &self,
        source_file: &str,
        root_tree: &SyntaxTree,
        parent_identifier: Option<&str>,
        function_identifier: Option<&str>,
    ) -> (r: Result<NodeRef, LocateError>)
        requires
            fits(root_tree@, source_file.spec_bytes()),
        ensures
            reports(
                r,
                locate_in(
                    self.source_language(),
                    root_tree@,
                    source_file.spec_bytes(),
                    name_bytes(parent_identifier),
                    name_bytes(function_identifier),
                ),
                root_tree@,
                parent_identifier,
                function_identifier,
            ),
            r matches Ok(n) ==> n.start <= n.end <= source_file.spec_bytes().len()
                && is_char_boundary(source_file.spec_bytes(), n.start as int) && is_char_boundary(
                source_file.spec_bytes(),
                n.end as int,
            ),
    ;

    /// The tree-sitter grammar of the language.
    fn language(&self) -> tree_sitter::Language;

    /// The name of the language.
    fn name(&self) -> (r: String)
        ensures
            r@ == language_name(self.source_language()),
    ;
}

/// Finds the node that `parent` and `function` name, in language `l`.
pub fn locate_node(
    l: SourceLanguage,
    source: &str,
    tree: &SyntaxTree,
    parent: Option<&str>,
    function: Option<&str>,
) -> (r: Result<NodeRef, LocateError>)
    requires
        fits(tree@, source.spec_bytes()),
    ensures
        reports(
            r,
            locate_in(l, tree@, source.spec_bytes(), name_bytes(parent), name_bytes(function)),
            tree@,
            parent,
            function,
        ),
        r matches Ok(n) ==> n.start <= n.end <= source.spec_bytes().len() && is_char_boundary(
            source.spec_bytes(),
            n.start as int,
        ) && is_char_boundary(source.spec_bytes(), n.end as int),
{
    let _ = tree.len();
    let r = match l {
        SourceLanguage::Go => locate_go(source, tree, parent, function),
        SourceLanguage::JavaScript => locate_ecmascript(source, tree, parent, function, true),
        SourceLanguage::Rust => locate_rust(source, tree, parent, function),
        SourceLanguage::TypeScript => locate_ecmascript(source, tree, parent, function, false),
    };
    proof {
        lemma_found_in_tree(l, tree@, source.spec_bytes(), name_bytes(parent), name_bytes(function));
        if let Located::Found(i) = locate_in(l, tree@, source.spec_bytes(), name_bytes(parent), name_bytes(function)) {
            assert(0 <= tree@[i].start <= tree@[i].end <= source.spec_bytes().len());
            assert(is_char_boundary(source.spec_bytes(), tree@[i].start));
        }
    }
    r
}

impl SourceLanguage {
    /// The name of the language.
    pub fn name(&self) -> (r: String)
        ensures
            r@ == language_name(*self),
    {
        match self {
            SourceLanguage::Go => String::from_str("go"),
            SourceLanguage::JavaScript => String::from_str("javascript"),
            SourceLanguage::Rust => String::from_str("rust"),
            SourceLanguage::TypeScript => String::from_str("typescript"),
        }
    }
}

impl SupportedLanguage for SourceLanguage {
    open spec fn source_language(&self) -> SourceLanguage {
        *self
    }

    fn find_correct_node(
        &self,
        source_file: &str,
        root_tree: &SyntaxTree,
        parent_identifier: Option<&str>,
        function_identifier: Option<&str>,
    ) -> (r: Result<NodeRef, LocateError>) {
        locate_node(*self, source_file, root_tree, parent_identifier, function_identifier)
    }

    fn language(&self) -> tree_sitter::Language {
        match self {
            SourceLanguage::Go => go_grammar(),
            SourceLanguage::JavaScript => javascript_grammar(),
            SourceLanguage::Rust => rust_grammar(),
            SourceLanguage::TypeScript => typescript_grammar(),
        }
    }

    fn name(&self) -> (r: String) {
        SourceLanguage::name(self)
    }
}

/// The shell patterns that recognise the files of a language.
pub open spec fn patterns_of(l: SourceLanguage) -> Seq<Seq<char>> {
    match l {
        SourceLanguage::Go => seq!["*.go"@],
        SourceLanguage::JavaScript => seq!["*.cjs"@, "*.js"@, "*.mjs"@],
        SourceLanguage::Rust => seq!["*.rs"@],
        SourceLanguage::TypeScript => seq!["*.ts"@],
    }
}

/// Whether `path` matches the shell pattern `pattern`, as the glob crate
/// decides it; a pattern that does not compile matches nothing.
pub uninterp spec fn glob_matches(pattern: Seq<char>, path: Seq<char>) -> bool;

/// Relies on glob::Pattern::new and glob::Pattern::matches: whether `path`
/// matches the shell pattern `pattern`.
#[verifier::external_body]
fn matches_glob(pattern: &str, path: &str) -> (r: bool)
    ensures
        r == glob_matches(pattern@, path@),
{
    match glob::Pattern::new(pattern) {
        Ok(compiled) => compiled.matches(path),
        Err(_) => false,
    }
}

/// File globs that identify languages based on the file path.
pub fn language_globs(language: &SourceLanguage) -> (r: Vec<&'static str>)
    ensures
        r@.len() == patterns_of(*language).len(),
        forall|k: int| 0 <= k < r@.len() ==> #[trigger] r@[k]@ == patterns_of(*language)[k],
{
    let mut globs: Vec<&'static str> = Vec::new();
    match language {
        SourceLanguage::Go => {
            globs.push("*.go");
        },
        SourceLanguage::JavaScript => {
            globs.push("*.cjs");
            globs.push("*.js");
            globs.push("*.mjs");
        },
        SourceLanguage::Rust => {
            globs.push("*.rs");
        },
        SourceLanguage::TypeScript => {
            globs.push("*.ts");
        },
    }
    globs
}

/// One of the patterns of `l` matches `path`.
pub open spec fn recognises(l: SourceLanguage, path: Seq<char>) -> bool {
    exists|k: int| 0 <= k < patterns_of(l).len() && glob_matches(#[trigger] patterns_of(l)[k], path)
}

/// Whether one of the patterns of `l` matches `path`.
fn recognised(l: SourceLanguage, path: &str) -> (r: bool)
    ensures
        r == recognises(l, path@),
{
    let globs = language_globs(&l);
    let mut k: usize = 0;
    while k < globs.len()
        invariant
            k <= globs@.len(),
            globs@.len() == patterns_of(l).len(),
            forall|q: int| 0 <= q < globs@.len() ==> #[trigger] globs@[q]@ == patterns_of(l)[q],
            forall|q: int| 0 <= q < k ==> !glob_matches(#[trigger] patterns_of(l)[q], path@),
        decreases globs@.len() - k,
    {
        if matches_glob(globs[k], path) {
            assert(glob_matches(patterns_of(l)[k as int], path@));
            return true;
        }
        k += 1;
    }
    false
}

/// The language the four verdicts pick: the first recognised, in the order
/// Rust, Go, JavaScript, TypeScript.
pub open spec fn pick(rust: bool, go: bool, javascript: bool, typescript: bool) -> Option<SourceLanguage> {
    if rust {
        Some(SourceLanguage::Rust)
    } else if go {
        Some(SourceLanguage::Go)
    } else if javascript {
        Some(SourceLanguage::JavaScript)
    } else if typescript {
        Some(SourceLanguage::TypeScript)
    } else {
        None
    }
}

/// The language of a file, given whether each language's patterns match its
/// name: the first recognised in the order Rust, Go, JavaScript, TypeScript.
pub fn first_recognised(rust: bool, go: bool, javascript: bool, typescript: bool) -> (r: Result<
    SourceLanguage,
    &'static str,
>)
    ensures
        match pick(rust, go, javascript, typescript) {
            Some(l) => r == Ok::<SourceLanguage, &'static str>(l),
            None => r matches Err(e) && e@ == "not a supported file"@,
        },
{
    if rust {
        Ok(SourceLanguage::Rust)
    } else if go {
        Ok(SourceLanguage::Go)
    } else if javascript {
        Ok(SourceLanguage::JavaScript)
    } else if typescript {
        Ok(SourceLanguage::TypeScript)
    } else {
        Err("not a supported file")
    }
}

/// The language of the file at `file_name`, told by its name.
pub fn detect_language(file_name: &str) -> (r: Result<SourceLanguage, &'static str>)
    ensures
        match pick(
            recognises(SourceLanguage::Rust, file_name@),
            recognises(SourceLanguage::Go, file_name@),
            recognises(SourceLanguage::JavaScript, file_name@),
            recognises(SourceLanguage::TypeScript, file_name@),
        ) {
            Some(l) => r == Ok::<SourceLanguage, &'static str>(l),
            None => r matches Err(e) && e@ == "not a supported file"@,
        },
{
    let rust = recognised(SourceLanguage::Rust, file_name);
    let go = recognised(SourceLanguage::Go, file_name);
    let javascript = recognised(SourceLanguage::JavaScript, file_name);
    let typescript = recognised(SourceLanguage::TypeScript, file_name);
    first_recognised(rust, go, javascript, typescript)
}

} // verus!
