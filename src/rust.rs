//! Locating functions and methods in Rust source.
use crate::supported_language::{locate_node, SourceLanguage, SupportedLanguage};
use crate::locate::{
    found_or, function_not_found, name_bytes, parent_not_found, reports, LocateError, Located,
};
use crate::traversal::{find_first_of_kind_with_field_value, kind_field_pred};
use crate::tree::{
    child_by_field, field_text_is, first_match, fits, lemma_first_match, same_text, span_equals,
    subtree_end, text_of, NodeRef, NodeView, SyntaxTree,
};
use vstd::prelude::*;
use vstd::string::StringSliceAdditionalSpecFns;

verus! {

/// Relies on tree_sitter_rust::language: the Rust grammar.
#[verifier::external_body]
pub(crate) fn rust_grammar() -> tree_sitter::Language {
    tree_sitter_rust::language()
}

/// Node `i` is an `impl` block whose subject type is named `parent`. For a
/// generic subject such as `Greeter<T>` the base name `Greeter` counts.
pub open spec fn impl_for(t: Seq<NodeView>, src: Seq<u8>, i: int, parent: Seq<u8>) -> bool {
    &&& t[i].kind == "impl_item"@
    &&& match child_by_field(t, i, "type"@) {
        Some(ty) => if t[ty].kind == "generic_type"@ {
            field_text_is(t, src, ty, "type"@, parent)
        } else {
            text_of(src, t[ty]) == parent
        },
        None => false,
    }
}

/// Node `i` is an `impl` block for `parent`.
pub open spec fn impl_pred(t: Seq<NodeView>, src: Seq<u8>, parent: Seq<u8>) -> spec_fn(int) -> bool {
    |i: int| impl_for(t, src, i, parent)
}

/// Node `i` is a function item named `f`.
pub open spec fn fn_pred(t: Seq<NodeView>, src: Seq<u8>, f: Seq<u8>) -> spec_fn(int) -> bool {
    kind_field_pred(t, src, "function_item"@, "name"@, f)
}

/// The first function item named `f` in the subtree of `c`, in pre-order.
pub open spec fn first_fn_in(t: Seq<NodeView>, src: Seq<u8>, c: int, f: Seq<u8>) -> Option<int> {
    first_match(c, subtree_end(t, c), fn_pred(t, src, f))
}

/// Node `c` is an `impl` block for `parent` that holds a function named `f`.
pub open spec fn impl_with_fn(t: Seq<NodeView>, src: Seq<u8>, parent: Seq<u8>, f: Seq<u8>) -> spec_fn(
    int,
) -> bool {
    |c: int| impl_for(t, src, c, parent) && first_fn_in(t, src, c, f) is Some
}

/// The Rust lookup. Without a function the whole file is meant. Without a
/// parent the first function item of that name anywhere is meant. With a
/// parent, the `impl` blocks for that type are searched in order, and the
/// first function item of that name inside the first block that has one is
/// meant.
pub open spec fn rust_locate(
    t: Seq<NodeView>,
    src: Seq<u8>,
    parent: Option<Seq<u8>>,
    function: Option<Seq<u8>>,
) -> Located {
    match function {
        None => Located::Found(0),
        Some(f) => match parent {
            None => found_or(
                first_match(0, subtree_end(t, 0), fn_pred(t, src, f)),
                Located::FunctionNotFound,
            ),
            Some(p) => if first_match(0, t.len() as int, impl_pred(t, src, p)) is None {
                Located::ParentNotFound
            } else {
                match first_match(0, t.len() as int, impl_with_fn(t, src, p, f)) {
                    Some(c) => found_or(first_fn_in(t, src, c, f), Located::FunctionNotFound),
                    None => Located::FunctionNotFound,
                }
            },
        },
    }
}

/// Whether node `i` is an `impl` block for the type named `parent`.
fn is_impl_for(src: &[u8], tree: &SyntaxTree, i: usize, parent: &[u8]) -> (r: bool)
    requires
        i < tree@.len(),
        fits(tree@, src@),
    ensures
        r == impl_for(tree@, src@, i as int, parent@),
{
    if !same_text(tree.node(i).kind.as_str(), "impl_item") {
        return false;
    }
    match tree.child_by_field_name(i, "type") {
        Some(ty) => {
            let node = tree.node(ty);
            if same_text(node.kind.as_str(), "generic_type") {
                tree.field_text_equals(src, ty, "type", parent)
            } else {
                assert(0 <= tree@[ty as int].start <= tree@[ty as int].end <= src@.len());
                span_equals(src, node.start, node.end, parent)
            }
        },
        None => false,
    }
}

/// Finds the Rust function or method that `parent` and `function` name.
pub fn locate_rust(
    source: &str,
    tree: &SyntaxTree,
    parent: Option<&str>,
    function: Option<&str>,
) -> (r: Result<NodeRef, LocateError>)
    requires
        fits(tree@, source.spec_bytes()),
    ensures
        reports(r, rust_locate(tree@, source.spec_bytes(), name_bytes(parent), name_bytes(function)), tree@, parent, function),
{
    let f = match function {
        None => return Ok(tree.root()),
        Some(f) => f,
    };
    let p = match parent {
        None => {
            return match find_first_of_kind_with_field_value(source, tree, 0, "function_item", "name", f) {
                Some(node) => Ok(node),
                None => Err(function_not_found(f)),
            };
        },
        Some(p) => p,
    };
    let ghost t = tree@;
    let ghost src = source.spec_bytes();
    let ghost parents = impl_pred(t, src, p.spec_bytes());
    let ghost holders = impl_with_fn(t, src, p.spec_bytes(), f.spec_bytes());
    let bytes = source.as_bytes();
    let wanted = p.as_bytes();
    let n = tree.len();
    let mut any = false;
    let mut c: usize = 0;
    while c < n
        invariant
            c <= n,
            n == t.len(),
            t == tree@,
            bytes@ == src,
            src == source.spec_bytes(),
            parent == Some(p),
            function == Some(f),
            wanted@ == p.spec_bytes(),
            fits(t, src),
            parents == impl_pred(t, src, p.spec_bytes()),
            holders == impl_with_fn(t, src, p.spec_bytes(), f.spec_bytes()),
            any ==> first_match(0, n as int, parents) is Some,
            !any ==> forall|k: int| 0 <= k < c ==> !#[trigger] parents(k),
            forall|k: int| 0 <= k < c ==> !#[trigger] holders(k),
        decreases n - c,
    {
        if is_impl_for(bytes, tree, c, wanted) {
            assert(parents(c as int));
            proof {
                lemma_first_match(0, n as int, parents);
            }
            any = true;
            match find_first_of_kind_with_field_value(source, tree, c, "function_item", "name", f) {
                Some(node) => {
                    assert(holders(c as int));
                    proof {
                        lemma_first_match(0, n as int, holders);
                    }
                    return Ok(node);
                },
                None => {
                    assert(!holders(c as int));
                },
            }
        } else {
            assert(!holders(c as int));
        }
        c += 1;
    }
    proof {
        lemma_first_match(0, n as int, parents);
        lemma_first_match(0, n as int, holders);
    }
    if any {
        Err(function_not_found(f))
    } else {
        Err(parent_not_found(p))
    }
}

/// Locates functions and methods in Rust source.
pub struct RustAnalyzer {
    inner: SourceLanguage,
}

impl RustAnalyzer {
    #[verifier::type_invariant]
    closed spec fn holds_rust(&self) -> bool {
        self.inner == SourceLanguage::Rust
    }
}

impl Default for RustAnalyzer {
    fn default() -> (r: Self)
        ensures
            r.source_language() == SourceLanguage::Rust,
    {
        RustAnalyzer { inner: SourceLanguage::Rust }
    }
}

impl SupportedLanguage for RustAnalyzer {
    open spec fn source_language(&self) -> SourceLanguage {
        SourceLanguage::Rust
    }

    fn find_correct_node(
        &self,
        source_file: &str,
        root_tree: &SyntaxTree,
        parent_identifier: Option<&str>,
        function_identifier: Option<&str>,
    ) -> (r: Result<NodeRef, LocateError>) {
        locate_node(
            SourceLanguage::Rust,
            source_file,
            root_tree,
            parent_identifier,
            function_identifier,
        )
    }

    fn language(&self) -> tree_sitter::Language {
        rust_grammar()
    }

    fn name(&self) -> (r: String) {
        proof {
            use_type_invariant(self);
        }
        self.inner.name()
    }
}

} // verus!
