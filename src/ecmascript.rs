//! Locating functions and methods in JavaScript and TypeScript source, whose
//! grammars agree on every node this search reads.
use crate::locate::{
    found_or, function_not_found, name_bytes, parent_not_found, reports, LocateError, Located,
};
use crate::traversal::{find_first_of_kind_with_field_value, kind_field_pred};
use crate::tree::{
    child_at, child_by_field, field_text_is, first_match, fits, lemma_first_match,
    lemma_subtree_end, same_text, subtree_end, NodeRef, NodeView, SyntaxTree,
};
use vstd::prelude::*;
use vstd::string::StringSliceAdditionalSpecFns;

verus! {

/// Node `c` is a method named `f` directly in the class body `body`. With
/// `member_field_only`, only children held under the `member` field count.
pub open spec fn member_pred(
    t: Seq<NodeView>,
    src: Seq<u8>,
    body: int,
    f: Seq<u8>,
    member_field_only: bool,
) -> spec_fn(int) -> bool {
    |c: int|
        {
            &&& t[c].depth == t[body].depth + 1
            &&& member_field_only ==> t[c].field == Some("member"@)
            &&& t[c].kind == "method_definition"@
            &&& field_text_is(t, src, c, "name"@, f)
        }
}

/// The declarator `d` binds a function expression or an arrow function.
pub open spec fn binds_function(t: Seq<NodeView>, d: int) -> bool {
    match child_by_field(t, d, "value"@) {
        Some(v) => t[v].kind == "function_expression"@ || t[v].kind == "arrow_function"@,
        None => false,
    }
}

/// Node `i` is a `const` or `let` declaration whose first declarator binds
/// the name `f` to a function expression or an arrow function.
pub open spec fn binding_pred(t: Seq<NodeView>, src: Seq<u8>, f: Seq<u8>) -> spec_fn(int) -> bool {
    |i: int|
        t[i].kind == "lexical_declaration"@ && match child_at(t, i, 1) {
            Some(d) => field_text_is(t, src, d, "name"@, f) && binds_function(t, d),
            None => false,
        }
}

/// The lookup for JavaScript and TypeScript. Without a function the whole
/// file is meant. With a parent, the first class of that name is taken and
/// the first method of that name in its body is meant. Without a parent, the
/// first function declaration of that name is meant, and failing that the
/// first declaration binding that name to a function expression or an arrow
/// function.
pub open spec fn ecmascript_locate(
    t: Seq<NodeView>,
    src: Seq<u8>,
    parent: Option<Seq<u8>>,
    function: Option<Seq<u8>>,
    member_field_only: bool,
) -> Located {
    match function {
        None => Located::Found(0),
        Some(f) => match parent {
            Some(p) => match first_match(
                0,
                subtree_end(t, 0),
                kind_field_pred(t, src, "class_declaration"@, "name"@, p),
            ) {
                None => Located::ParentNotFound,
                Some(c) => match child_by_field(t, c, "body"@) {
                    None => Located::FunctionNotFound,
                    Some(b) => found_or(
                        first_match(b + 1, subtree_end(t, b), member_pred(t, src, b, f, member_field_only)),
                        Located::FunctionNotFound,
                    ),
                },
            },
            None => match first_match(
                0,
                subtree_end(t, 0),
                kind_field_pred(t, src, "function_declaration"@, "name"@, f),
            ) {
                Some(i) => Located::Found(i),
                None => found_or(
                    first_match(0, t.len() as int, binding_pred(t, src, f)),
                    Located::FunctionNotFound,
                ),
            },
        },
    }
}

/// The first method named `name` directly in the class body `body`.
fn find_method(
    src: &[u8],
    tree: &SyntaxTree,
    body: usize,
    name: &[u8],
    member_field_only: bool,
) -> (r: Option<NodeRef>)
    requires
        body < tree@.len(),
        fits(tree@, src@),
    ensures
        r == crate::tree::node_opt(
            tree@,
            first_match(
                body + 1,
                subtree_end(tree@, body as int),
                member_pred(tree@, src@, body as int, name@, member_field_only),
            ),
        ),
{
    let ghost t = tree@;
    let ghost pred = member_pred(t, src@, body as int, name@, member_field_only);
    let end = tree.subtree_end(body);
    proof {
        lemma_subtree_end(t, body as int);
    }
    let d = tree.node(body).depth;
    let mut j = body + 1;
    while j < end
        invariant
            body < j <= end,
            end == subtree_end(t, body as int),
            end <= t.len(),
            t == tree@,
            fits(t, src@),
            d == t[body as int].depth,
            forall|k: int| body < k < end ==> t[k].depth > d,
            pred == member_pred(t, src@, body as int, name@, member_field_only),
            forall|k: int| body + 1 <= k < j ==> !#[trigger] pred(k),
        decreases end - j,
    {
        let node = tree.node(j);
        let held = match &node.field {
            Some(g) => same_text(g.as_str(), "member"),
            None => false,
        };
        if node.depth - 1 == d && (!member_field_only || held) && same_text(
            node.kind.as_str(),
            "method_definition",
        ) && tree.field_text_equals(src, j, "name", name) {
            assert(pred(j as int));
            proof {
                lemma_first_match(body + 1, end as int, pred);
            }
            return Some(NodeRef { id: j, start: node.start, end: node.end });
        }
        assert(!pred(j as int));
        j += 1;
    }
    proof {
        lemma_first_match(body + 1, end as int, pred);
    }
    None
}

/// Whether node `i` is a declaration binding `name` to a function.
fn is_binding(src: &[u8], tree: &SyntaxTree, i: usize, name: &[u8]) -> (r: bool)
    requires
        i < tree@.len(),
        fits(tree@, src@),
    ensures
        r == binding_pred(tree@, src@, name@)(i as int),
{
    if !same_text(tree.node(i).kind.as_str(), "lexical_declaration") {
        return false;
    }
    let decl = match tree.child(i, 1) {
        Some(d) => d,
        None => return false,
    };
    if !tree.field_text_equals(src, decl, "name", name) {
        return false;
    }
    match tree.child_by_field_name(decl, "value") {
        Some(v) => {
            let kind = tree.node(v).kind.as_str();
            same_text(kind, "function_expression") || same_text(kind, "arrow_function")
        },
        None => false,
    }
}

/// Finds the JavaScript or TypeScript function or method that `parent` and
/// `function` name.
pub fn locate_ecmascript(
    source: &str,
    tree: &SyntaxTree,
    parent: Option<&str>,
    function: Option<&str>,
    member_field_only: bool,
) -> (r: Result<NodeRef, LocateError>)
    requires
        fits(tree@, source.spec_bytes()),
    ensures
        reports(
            r,
            ecmascript_locate(
                tree@,
                source.spec_bytes(),
                name_bytes(parent),
                name_bytes(function),
                member_field_only,
            ),
            tree@,
            parent,
            function,
        ),
{
    let f = match function {
        None => return Ok(tree.root()),
        Some(f) => f,
    };
    let bytes = source.as_bytes();
    let name = f.as_bytes();
    let n = tree.len();
    if let Some(p) = parent {
        return match find_first_of_kind_with_field_value(source, tree, 0, "class_declaration", "name", p) {
            None => Err(parent_not_found(p)),
            Some(class) => {
                proof {
                    lemma_subtree_end(tree@, 0);
                    lemma_first_match(
                        0,
                        subtree_end(tree@, 0),
                        kind_field_pred(tree@, source.spec_bytes(), "class_declaration"@, "name"@, p.spec_bytes()),
                    );
                }
                match tree.child_by_field_name(class.id, "body") {
                    None => Err(function_not_found(f)),
                    Some(body) => match find_method(bytes, tree, body, name, member_field_only) {
                        Some(node) => Ok(node),
                        None => Err(function_not_found(f)),
                    },
                }
            },
        };
    }
    if let Some(node) = find_first_of_kind_with_field_value(source, tree, 0, "function_declaration", "name", f) {
        return Ok(node);
    }
    let ghost t = tree@;
    let ghost pred = binding_pred(t, bytes@, name@);
    let mut i: usize = 0;
    while i < n
        invariant
            i <= n,
            n == t.len(),
            t == tree@,
            fits(t, bytes@),
            bytes@ == source.spec_bytes(),
            name@ == f.spec_bytes(),
            parent is None,
            function == Some(f),
            first_match(
                0,
                subtree_end(t, 0),
                kind_field_pred(t, bytes@, "function_declaration"@, "name"@, name@),
            ) is None,
            pred == binding_pred(t, bytes@, name@),
            forall|k: int| 0 <= k < i ==> !#[trigger] pred(k),
        decreases n - i,
    {
        if is_binding(bytes, tree, i, name) {
            proof {
                lemma_first_match(0, n as int, pred);
            }
            let node = tree.node(i);
            return Ok(NodeRef { id: i, start: node.start, end: node.end });
        }
        i += 1;
    }
    proof {
        lemma_first_match(0, n as int, pred);
    }
    Err(function_not_found(f))
}

} // verus!
