//! Properties of the lookups and of rendering, stated over the specifications
//! that the functions' contracts use.
use crate::ecmascript::{binding_pred, ecmascript_locate, member_pred};
use crate::go::{go_locate, method_pred, named_method_pred};
use crate::locate::Located;
use crate::rust::{first_fn_in, fn_pred, impl_pred, impl_with_fn, rust_locate};
use crate::supported_language::{locate_in, SourceLanguage};
use crate::traversal::kind_field_pred;
use crate::render::splice;
use crate::rust::impl_for;
use crate::tree::{
    child_at, child_by_field, field_text_is, first_match, fits, lemma_first_match,
    lemma_subtree_end, subtree_end, text_of, well_shaped, NodeView,
};
use vstd::prelude::*;

verus! {

/// Whatever a lookup finds is a node of the tree.
pub proof fn lemma_found_in_tree(
    l: SourceLanguage,
    t: Seq<NodeView>,
    src: Seq<u8>,
    parent: Option<Seq<u8>>,
    function: Option<Seq<u8>>,
)
    requires
        well_shaped(t),
    ensures
        locate_in(l, t, src, parent, function) matches Located::Found(i) ==> 0 <= i < t.len(),
{
    lemma_subtree_end(t, 0);
    if let Some(f) = function {
        match l {
            SourceLanguage::Rust => {
                lemma_first_match(0, subtree_end(t, 0), fn_pred(t, src, f));
                if let Some(p) = parent {
                    lemma_first_match(0, t.len() as int, impl_with_fn(t, src, p, f));
                    if let Some(c) = first_match(0, t.len() as int, impl_with_fn(t, src, p, f)) {
                        lemma_subtree_end(t, c);
                        lemma_first_match(c, subtree_end(t, c), fn_pred(t, src, f));
                    }
                }
            },
            SourceLanguage::Go => {
                lemma_first_match(0, subtree_end(t, 0), kind_field_pred(t, src, "function_declaration"@, "name"@, f));
                if let Some(p) = parent {
                    lemma_first_match(0, t.len() as int, named_method_pred(t, src, p, f));
                }
            },
            _ => {
                let member_only = l == SourceLanguage::JavaScript;
                lemma_first_match(0, subtree_end(t, 0), kind_field_pred(t, src, "function_declaration"@, "name"@, f));
                lemma_first_match(0, t.len() as int, binding_pred(t, src, f));
                if let Some(p) = parent {
                    lemma_first_match(0, subtree_end(t, 0), kind_field_pred(t, src, "class_declaration"@, "name"@, p));
                    if let Some(c) = first_match(0, subtree_end(t, 0), kind_field_pred(t, src, "class_declaration"@, "name"@, p)) {
                        lemma_subtree_end(t, c);
                        lemma_first_match(c + 1, subtree_end(t, c), crate::tree::field_child_pred(t, c, "body"@));
                        if let Some(b) = child_by_field(t, c, "body"@) {
                            lemma_subtree_end(t, b);
                            lemma_first_match(b + 1, subtree_end(t, b), member_pred(t, src, b, f, member_only));
                        }
                    }
                }
            },
        }
    }
}

/// Locating with no function names the root, whose text is the whole
/// source, in every language and whatever the parent.
pub proof fn lemma_whole_file(
    l: SourceLanguage,
    t: Seq<NodeView>,
    src: Seq<u8>,
    parent: Option<Seq<u8>>,
)
    requires
        fits(t, src),
    ensures
        locate_in(l, t, src, parent, None) == Located::Found(0),
        text_of(src, t[0]) == src,
{
    assert(src.subrange(0, src.len() as int) == src);
}

/// Rendering a node with its own text gives back the source unchanged.
pub proof fn lemma_round_trip(t: Seq<NodeView>, src: Seq<u8>, i: int)
    requires
        fits(t, src),
        0 <= i < t.len(),
    ensures
        splice(src, t[i].start, t[i].end, text_of(src, t[i])) == src,
{
    assert(0 <= t[i].start <= t[i].end <= src.len());
    assert(splice(src, t[i].start, t[i].end, text_of(src, t[i])) =~= src);
}

/// Rendering changes no byte outside the replaced span: the bytes before it
/// stay where they were, the bytes after it move by the change in length,
/// and the replacement sits in between.
pub proof fn lemma_edit_isolation(src: Seq<u8>, start: int, end: int, replacement: Seq<u8>)
    requires
        0 <= start <= end <= src.len(),
    ensures
        splice(src, start, end, replacement).len() == src.len() - (end - start) + replacement.len(),
        forall|k: int| 0 <= k < start ==> #[trigger] splice(src, start, end, replacement)[k] == src[k],
        forall|k: int|
            end <= k < src.len() ==> splice(src, start, end, replacement)[k - end + start
                + replacement.len()] == #[trigger] src[k],
        splice(src, start, end, replacement).subrange(start, start + replacement.len())
            == replacement,
{
    let out = splice(src, start, end, replacement);
    assert forall|k: int| end <= k < src.len() implies out[k - end + start + replacement.len()]
        == #[trigger] src[k] by {
        assert(out[k - end + start + replacement.len()] == src.subrange(end, src.len() as int)[k
            - end]);
    }
    assert(out.subrange(start, start + replacement.len()) =~= replacement);
}

/// Node `i` lies in a container named `p`: in an `impl` block for `p` in
/// Rust, is a method whose receiver has type `p` in Go, and is a member of
/// the body of a class named `p` in JavaScript and TypeScript.
pub open spec fn inside_parent(
    l: SourceLanguage,
    t: Seq<NodeView>,
    src: Seq<u8>,
    p: Seq<u8>,
    i: int,
) -> bool {
    match l {
        SourceLanguage::Rust => exists|c: int|
            0 <= c < t.len() && #[trigger] impl_for(t, src, c, p) && c <= i < subtree_end(t, c),
        SourceLanguage::Go => method_pred(t, src, p)(i),
        _ => exists|c: int|
            0 <= c < t.len() && #[trigger] kind_field_pred(t, src, "class_declaration"@, "name"@, p)(
                c,
            ) && match child_by_field(t, c, "body"@) {
                Some(b) => b < i < subtree_end(t, b),
                None => false,
            },
    }
}

/// With a parent named, what is found lies inside a container of that name
/// and carries the function's name: a method of another container is never
/// returned, whatever its name.
pub proof fn lemma_parent_disambiguation(
    l: SourceLanguage,
    t: Seq<NodeView>,
    src: Seq<u8>,
    p: Seq<u8>,
    f: Seq<u8>,
)
    requires
        well_shaped(t),
    ensures
        locate_in(l, t, src, Some(p), Some(f)) matches Located::Found(i) ==> inside_parent(
            l,
            t,
            src,
            p,
            i,
        ) && field_text_is(t, src, i, "name"@, f),
{
    lemma_found_in_tree(l, t, src, Some(p), Some(f));
    match l {
        SourceLanguage::Rust => {
            lemma_first_match(0, t.len() as int, impl_with_fn(t, src, p, f));
            if let Some(c) = first_match(0, t.len() as int, impl_with_fn(t, src, p, f)) {
                lemma_subtree_end(t, c);
                lemma_first_match(c, subtree_end(t, c), fn_pred(t, src, f));
                assert(impl_for(t, src, c, p));
            }
        },
        SourceLanguage::Go => {
            lemma_first_match(0, t.len() as int, named_method_pred(t, src, p, f));
        },
        _ => {
            let member_only = l == SourceLanguage::JavaScript;
            let classes = kind_field_pred(t, src, "class_declaration"@, "name"@, p);
            lemma_subtree_end(t, 0);
            lemma_first_match(0, subtree_end(t, 0), classes);
            if let Some(c) = first_match(0, subtree_end(t, 0), classes) {
                if let Some(b) = child_by_field(t, c, "body"@) {
                    lemma_first_match(b + 1, subtree_end(t, b), member_pred(t, src, b, f, member_only));
                    assert(classes(c));
                }
            }
        },
    }
}

/// An `impl` block for `p` that holds a function `f` makes the Rust lookup
/// of `f` under `p` succeed, whether the block's subject is `p` itself or
/// `p` with generic arguments.
pub proof fn lemma_generic_parent(t: Seq<NodeView>, src: Seq<u8>, p: Seq<u8>, f: Seq<u8>, c: int, ty: int)
    requires
        well_shaped(t),
        0 <= c < t.len(),
        t[c].kind == "impl_item"@,
        child_by_field(t, c, "type"@) == Some(ty),
        (t[ty].kind == "generic_type"@ && field_text_is(t, src, ty, "type"@, p)) || (t[ty].kind
            != "generic_type"@ && text_of(src, t[ty]) == p),
        first_fn_in(t, src, c, f) is Some,
    ensures
        impl_for(t, src, c, p),
        rust_locate(t, src, Some(p), Some(f)) is Found,
{
    assert(impl_pred(t, src, p)(c));
    assert(impl_with_fn(t, src, p, f)(c));
    lemma_first_match(0, t.len() as int, impl_pred(t, src, p));
    lemma_first_match(0, t.len() as int, impl_with_fn(t, src, p, f));
}

/// A Go method named `f` whose receiver has type `p`, by value or through a
/// pointer, makes the lookup of `f` under `p` succeed.
pub proof fn lemma_receiver_kinds(
    t: Seq<NodeView>,
    src: Seq<u8>,
    p: Seq<u8>,
    f: Seq<u8>,
    m: int,
    decl: int,
    ty: int,
)
    requires
        0 <= m < t.len(),
        t[m].kind == "method_declaration"@,
        field_text_is(t, src, m, "name"@, f),
        child_by_field(t, m, "receiver"@) matches Some(receiver) && child_at(t, receiver, 1) == Some(
            decl,
        ),
        child_by_field(t, decl, "type"@) == Some(ty),
        (t[ty].kind == "type_identifier"@ && text_of(src, t[ty]) == p) || (t[ty].kind
            != "type_identifier"@ && (child_at(t, ty, 1) matches Some(pointee) && text_of(
            src,
            t[pointee],
        ) == p)),
    ensures
        go_locate(t, src, Some(p), Some(f)) is Found,
{
    assert(method_pred(t, src, p)(m));
    assert(named_method_pred(t, src, p, f)(m));
    lemma_first_match(0, t.len() as int, method_pred(t, src, p));
    lemma_first_match(0, t.len() as int, named_method_pred(t, src, p, f));
}

/// Without a parent, a JavaScript or TypeScript lookup finds either a
/// function declaration named `f` or a declaration binding `f` to a function
/// expression or an arrow function, preferring a function declaration; and
/// when either form exists it finds one.
pub proof fn lemma_function_forms(l: SourceLanguage, t: Seq<NodeView>, src: Seq<u8>, f: Seq<u8>)
    requires
        well_shaped(t),
        l == SourceLanguage::JavaScript || l == SourceLanguage::TypeScript,
    ensures
        locate_in(l, t, src, None, Some(f)) matches Located::Found(i) ==> kind_field_pred(
            t,
            src,
            "function_declaration"@,
            "name"@,
            f,
        )(i) || binding_pred(t, src, f)(i),
        (exists|i: int|
            0 <= i < t.len() && #[trigger] kind_field_pred(t, src, "function_declaration"@, "name"@, f)(
                i,
            )) ==> (locate_in(l, t, src, None, Some(f)) matches Located::Found(i) && kind_field_pred(
            t,
            src,
            "function_declaration"@,
            "name"@,
            f,
        )(i)),
        (exists|i: int| 0 <= i < t.len() && #[trigger] binding_pred(t, src, f)(i)) ==> locate_in(
            l,
            t,
            src,
            None,
            Some(f),
        ) is Found,
{
    let decls = kind_field_pred(t, src, "function_declaration"@, "name"@, f);
    lemma_subtree_end(t, 0);
    lemma_first_match(0, subtree_end(t, 0), decls);
    lemma_first_match(0, t.len() as int, binding_pred(t, src, f));
    assert(subtree_end(t, 0) == t.len()) by {
        if subtree_end(t, 0) < t.len() {
            assert(t[subtree_end(t, 0)].depth >= 1);
        }
    }
}

/// A container named `p` exists in the tree, in the sense of each language.
pub open spec fn has_container(l: SourceLanguage, t: Seq<NodeView>, src: Seq<u8>, p: Seq<u8>) -> bool {
    match l {
        SourceLanguage::Rust => exists|c: int| 0 <= c < t.len() && #[trigger] impl_for(t, src, c, p),
        SourceLanguage::Go => exists|c: int| 0 <= c < t.len() && #[trigger] method_pred(t, src, p)(c),
        _ => exists|c: int|
            0 <= c < t.len() && #[trigger] kind_field_pred(t, src, "class_declaration"@, "name"@, p)(
                c,
            ),
    }
}

/// Looking under a parent that does not exist reports the parent missing;
/// looking for a name that no node carries reports the function missing
/// when there is no parent or the parent exists. The two are told apart.
pub proof fn lemma_negative_cases(
    l: SourceLanguage,
    t: Seq<NodeView>,
    src: Seq<u8>,
    parent: Option<Seq<u8>>,
    f: Seq<u8>,
)
    requires
        well_shaped(t),
    ensures
        parent matches Some(p) && !has_container(l, t, src, p) ==> locate_in(
            l,
            t,
            src,
            parent,
            Some(f),
        ) == Located::ParentNotFound,
        (forall|i: int| 0 <= i < t.len() ==> !#[trigger] field_text_is(t, src, i, "name"@, f)) && (
        parent matches Some(p) ==> has_container(l, t, src, p)) ==> locate_in(
            l,
            t,
            src,
            parent,
            Some(f),
        ) == Located::FunctionNotFound,
{
    lemma_subtree_end(t, 0);
    assert(subtree_end(t, 0) == t.len()) by {
        if subtree_end(t, 0) < t.len() {
            assert(t[subtree_end(t, 0)].depth >= 1);
        }
    }
    lemma_found_in_tree(l, t, src, parent, Some(f));
    let member_only = l == SourceLanguage::JavaScript;
    match parent {
        None => {
            lemma_first_match(0, t.len() as int, fn_pred(t, src, f));
            lemma_first_match(0, t.len() as int, kind_field_pred(t, src, "function_declaration"@, "name"@, f));
            lemma_first_match(0, t.len() as int, binding_pred(t, src, f));
            if let Some(i) = first_match(0, t.len() as int, binding_pred(t, src, f)) {
                crate::tree::lemma_child_at(t, i, 1);
            }
        },
        Some(p) => {
            if l == SourceLanguage::Rust && has_container(l, t, src, p) {
                let c = choose|c: int| 0 <= c < t.len() && impl_for(t, src, c, p);
                assert(impl_pred(t, src, p)(c));
            }
            lemma_first_match(0, t.len() as int, impl_pred(t, src, p));
            lemma_first_match(0, t.len() as int, impl_with_fn(t, src, p, f));
            lemma_first_match(0, t.len() as int, method_pred(t, src, p));
            lemma_first_match(0, t.len() as int, named_method_pred(t, src, p, f));
            let classes = kind_field_pred(t, src, "class_declaration"@, "name"@, p);
            lemma_first_match(0, t.len() as int, classes);
            if let Some(c) = first_match(0, t.len() as int, impl_with_fn(t, src, p, f)) {
                lemma_subtree_end(t, c);
                lemma_first_match(c, subtree_end(t, c), fn_pred(t, src, f));
            }
            if let Some(c) = first_match(0, t.len() as int, classes) {
                if let Some(b) = child_by_field(t, c, "body"@) {
                    lemma_subtree_end(t, c);
                    lemma_first_match(c + 1, subtree_end(t, c), crate::tree::field_child_pred(t, c, "body"@));
                    lemma_subtree_end(t, b);
                    lemma_first_match(b + 1, subtree_end(t, b), member_pred(t, src, b, f, member_only));
                }
            }
        },
    }
}

} // verus!
