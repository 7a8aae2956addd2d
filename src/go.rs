//! Locating functions and methods in Go source.
use crate::supported_language::{locate_node, SourceLanguage, SupportedLanguage};
use crate::locate::{
    found_or, function_not_found, name_bytes, parent_not_found, reports, LocateError, Located,
};
use crate::traversal::{find_first_of_kind_with_field_value, kind_field_pred};
use crate::tree::{
    child_at, child_by_field, field_text_is, first_match, fits, lemma_first_match, same_text,
    span_equals, subtree_end, text_of, NodeRef, NodeView, SyntaxTree,
};
use vstd::prelude::*;
use vstd::string::StringSliceAdditionalSpecFns;

verus! {

/// Relies on tree_sitter_go::language: the Go grammar.
#[verifier::external_body]
pub(crate) fn go_grammar() -> tree_sitter::Language {
    tree_sitter_go::language()
}

/// The receiver of method `m` has type `parent`, either by value
/// (`func (g Greeter)`) or through a pointer (`func (g *Greeter)`).
pub open spec fn receiver_is(t: Seq<NodeView>, src: Seq<u8>, m: int, parent: Seq<u8>) -> bool {
    match child_by_field(t, m, "receiver"@) {
        Some(receiver) => match child_at(t, receiver, 1) {
            Some(decl) => match child_by_field(t, decl, "type"@) {
                Some(ty) => if t[ty].kind == "type_identifier"@ {
                    text_of(src, t[ty]) == parent
                } else {
                    match child_at(t, ty, 1) {
                        Some(pointee) => text_of(src, t[pointee]) == parent,
                        None => false,
                    }
                },
                None => false,
            },
            None => false,
        },
        None => false,
    }
}

/// Node `m` is a method declared on `parent`.
pub open spec fn method_pred(t: Seq<NodeView>, src: Seq<u8>, parent: Seq<u8>) -> spec_fn(
    int,
) -> bool {
    |m: int| t[m].kind == "method_declaration"@ && receiver_is(t, src, m, parent)
}

/// Node `m` is a method named `f` declared on `parent`.
pub open spec fn named_method_pred(
    t: Seq<NodeView>,
    src: Seq<u8>,
    parent: Seq<u8>,
    f: Seq<u8>,
) -> spec_fn(int) -> bool {
    |m: int| method_pred(t, src, parent)(m) && field_text_is(t, src, m, "name"@, f)
}

/// The Go lookup. Without a function the whole file is meant. Without a
/// parent the first function declaration of that name is meant. With a
/// parent the first method of that name whose receiver has that type is
/// meant; when no method has that receiver type the parent is missing.
pub open spec fn go_locate(
    t: Seq<NodeView>,
    src: Seq<u8>,
    parent: Option<Seq<u8>>,
    function: Option<Seq<u8>>,
) -> Located {
    match function {
        None => Located::Found(0),
        Some(f) => match parent {
            None => found_or(
                first_match(
                    0,
                    subtree_end(t, 0),
                    kind_field_pred(t, src, "function_declaration"@, "name"@, f),
                ),
                Located::FunctionNotFound,
            ),
            Some(p) => if first_match(0, t.len() as int, method_pred(t, src, p)) is None {
                Located::ParentNotFound
            } else {
                found_or(
                    first_match(0, t.len() as int, named_method_pred(t, src, p, f)),
                    Located::FunctionNotFound,
                )
            },
        },
    }
}

/// Whether the receiver of method `m` has type `parent`.
fn has_receiver(src: &[u8], tree: &SyntaxTree, m: usize, parent: &[u8]) -> (r: bool)
    requires
        m < tree@.len(),
        fits(tree@, src@),
    ensures
        r == receiver_is(tree@, src@, m as int, parent@),
{
    let receiver = match tree.child_by_field_name(m, "receiver") {
        Some(c) => c,
        None => return false,
    };
    let decl = match tree.child(receiver, 1) {
        Some(c) => c,
        None => return false,
    };
    let ty = match tree.child_by_field_name(decl, "type") {
        Some(c) => c,
        None => return false,
    };
    let named = if same_text(tree.node(ty).kind.as_str(), "type_identifier") {
        ty
    } else {
        match tree.child(ty, 1) {
            Some(c) => c,
            None => return false,
        }
    };
    let node = tree.node(named);
    assert(0 <= tree@[named as int].start <= tree@[named as int].end <= src@.len());
    span_equals(src, node.start, node.end, parent)
}

/// Finds the Go function or method that `parent` and `function` name.
pub fn locate_go(
    source: &str,
    tree: &SyntaxTree,
    parent: Option<&str>,
    function: Option<&str>,
) -> (r: Result<NodeRef, LocateError>)
    requires
        fits(tree@, source.spec_bytes()),
    ensures
        reports(r, go_locate(tree@, source.spec_bytes(), name_bytes(parent), name_bytes(function)), tree@, parent, function),
{
    let f = match function {
        None => return Ok(tree.root()),
        Some(f) => f,
    };
    let p = match parent {
        None => {
            return match find_first_of_kind_with_field_value(
                source,
                tree,
                0,
                "function_declaration",
                "name",
                f,
            ) {
                Some(node) => Ok(node),
                None => Err(function_not_found(f)),
            };
        },
        Some(p) => p,
    };
    let ghost t = tree@;
    let ghost src = source.spec_bytes();
    let ghost methods = method_pred(t, src, p.spec_bytes());
    let ghost named = named_method_pred(t, src, p.spec_bytes(), f.spec_bytes());
    let bytes = source.as_bytes();
    let wanted = p.as_bytes();
    let name = f.as_bytes();
    let n = tree.len();
    let mut any = false;
    let mut m: usize = 0;
    while m < n
        invariant
            m <= n,
            n == t.len(),
            t == tree@,
            bytes@ == src,
            src == source.spec_bytes(),
            wanted@ == p.spec_bytes(),
            name@ == f.spec_bytes(),
            parent == Some(p),
            function == Some(f),
            fits(t, src),
            methods == method_pred(t, src, p.spec_bytes()),
            named == named_method_pred(t, src, p.spec_bytes(), f.spec_bytes()),
            any ==> first_match(0, n as int, methods) is Some,
            !any ==> forall|k: int| 0 <= k < m ==> !#[trigger] methods(k),
            forall|k: int| 0 <= k < m ==> !#[trigger] named(k),
        decreases n - m,
    {
        if same_text(tree.node(m).kind.as_str(), "method_declaration") && has_receiver(
            bytes,
            tree,
            m,
            wanted,
        ) {
            assert(methods(m as int));
            proof {
                lemma_first_match(0, n as int, methods);
            }
            any = true;
            if tree.field_text_equals(bytes, m, "name", name) {
                assert(named(m as int));
                proof {
                    lemma_first_match(0, n as int, named);
                }
                let node = tree.node(m);
                return Ok(NodeRef { id: m, start: node.start, end: node.end });
            }
            assert(!named(m as int));
        } else {
            assert(!methods(m as int));
            assert(!named(m as int));
        }
        m += 1;
    }
    proof {
        lemma_first_match(0, n as int, methods);
        lemma_first_match(0, n as int, named);
    }
    if any {
        Err(function_not_found(f))
    } else {
        Err(parent_not_found(p))
    }
}

/// Locates functions and methods in Go source.
pub struct GoAnalyser {
    inner: SourceLanguage,
}

impl GoAnalyser {
    #[verifier::type_invariant]
    closed spec fn holds_go(&self) -> bool {
        self.inner == SourceLanguage::Go
    }
}

impl Default for GoAnalyser {
    fn default() -> (r: Self)
        ensures
            r.source_language() == SourceLanguage::Go,
    {
        GoAnalyser { inner: SourceLanguage::Go }
    }
}

impl SupportedLanguage for GoAnalyser {
    open spec fn source_language(&self) -> SourceLanguage {
        SourceLanguage::Go
    }

    fn find_correct_node(
        &self,
        source_file: &str,
        root_tree: &SyntaxTree,
        parent_identifier: Option<&str>,
        function_identifier: Option<&str>,
    ) -> (r: Result<NodeRef, LocateError>) {
        locate_node(
            SourceLanguage::Go,
            source_file,
            root_tree,
            parent_identifier,
            function_identifier,
        )
    }

    fn language(&self) -> tree_sitter::Language {
        go_grammar()
    }

    fn name(&self) -> (r: String) {
        proof {
            use_type_invariant(self);
        }
        self.inner.name()
    }
}

} // verus!
