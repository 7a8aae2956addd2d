//! The two searches every locator is built from, both in pre-order over the
//! subtree of a given node.
use crate::tree::{
    all_matches, lemma_all_matches_bounds, source_ordered, lemma_all_matches_increasing, lemma_source_ordered, field_text_is, first_match, fits, lemma_first_match, lemma_subtree_end, node_opt,
    same_text, subtree_end, NodeRef, NodeView, SyntaxTree,
};
use vstd::prelude::*;
use vstd::string::StringSliceAdditionalSpecFns;

verus! {

/// Node `i` is of kind `kind`.
pub open spec fn kind_pred(t: Seq<NodeView>, kind: Seq<char>) -> spec_fn(int) -> bool {
    |i: int| t[i].kind == kind
}

/// Node `i` is of kind `kind` and its child under `field` spans the text `value`.
pub open spec fn kind_field_pred(
    t: Seq<NodeView>,
    src: Seq<u8>,
    kind: Seq<char>,
    field: Seq<char>,
    value: Seq<u8>,
) -> spec_fn(int) -> bool {
    |i: int| t[i].kind == kind && field_text_is(t, src, i, field, value)
}

/// Every node of kind `kind` in the subtree of `root`, in pre-order.
pub fn find_all_of_kind(tree: &SyntaxTree, root: usize, kind: &str) -> (r: Vec<NodeRef>)
    requires
        root < tree@.len(),
    ensures
        r@.len() == all_matches(
            root as int,
            subtree_end(tree@, root as int),
            kind_pred(tree@, kind@),
        ).len(),
        forall|k: int|
            0 <= k < r@.len() ==> #[trigger] r@[k] == NodeRef::of(
                tree@,
                all_matches(root as int, subtree_end(tree@, root as int), kind_pred(tree@, kind@))[k],
            ),
        forall|a: int, b: int| 0 <= a < b < r@.len() ==> r@[a].start <= r@[b].start,
{
    let ghost t = tree@;
    let ghost pred = kind_pred(t, kind@);
    let end = tree.subtree_end(root);
    proof {
        lemma_subtree_end(t, root as int);
    }
    let _ = tree.len();
    let mut found: Vec<NodeRef> = Vec::new();
    let mut j = root;
    while j < end
        invariant
            root <= j <= end,
            end == subtree_end(t, root as int),
            end <= t.len(),
            t == tree@,
            pred == kind_pred(t, kind@),
            source_ordered(t),
            forall|q: int| 0 <= q < t.len() ==> 0 <= #[trigger] t[q].start <= usize::MAX,
            found@.len() == all_matches(root as int, j as int, pred).len(),
            forall|k: int|
                0 <= k < found@.len() ==> #[trigger] found@[k] == NodeRef::of(
                    t,
                    all_matches(root as int, j as int, pred)[k],
                ),
        decreases end - j,
    {
        let node = tree.node(j);
        if same_text(node.kind.as_str(), kind) {
            assert(pred(j as int));
            assert(all_matches(root as int, j + 1, pred) == all_matches(
                root as int,
                j as int,
                pred,
            ).push(j as int));
            found.push(NodeRef { id: j, start: node.start, end: node.end });
        } else {
            assert(all_matches(root as int, j + 1, pred) == all_matches(root as int, j as int, pred));
        }
        j += 1;
    }
    proof {
        let m = all_matches(root as int, end as int, pred);
        lemma_all_matches_increasing(root as int, end as int, pred);
        lemma_all_matches_bounds(root as int, end as int, pred);
        assert forall|a: int, b: int| 0 <= a < b < found@.len() implies found@[a].start <= found@[b].start by {
            lemma_source_ordered(t, m[a], m[b]);
            assert(found@[a] == NodeRef::of(t, m[a]));
            assert(found@[b] == NodeRef::of(t, m[b]));
            assert(t[m[a]].start <= t[m[b]].start);
            assert(t[m[b]].start <= usize::MAX);
        }
    }
    found
}

/// The first node, in pre-order over the subtree of `root`, of kind `kind`
/// whose child under `field` spans exactly the text `value`. A node without
/// such a child does not match.
pub fn find_first_of_kind_with_field_value(
    source: &str,
    tree: &SyntaxTree,
    root: usize,
    kind: &str,
    field: &str,
    value: &str,
) -> (r: Option<NodeRef>)
    requires
        root < tree@.len(),
        fits(tree@, source.spec_bytes()),
    ensures
        r == node_opt(
            tree@,
            first_match(
                root as int,
                subtree_end(tree@, root as int),
                kind_field_pred(tree@, source.spec_bytes(), kind@, field@, value.spec_bytes()),
            ),
        ),
{
    let ghost t = tree@;
    let src = source.as_bytes();
    let want = value.as_bytes();
    let ghost pred = kind_field_pred(t, src@, kind@, field@, want@);
    let end = tree.subtree_end(root);
    proof {
        lemma_subtree_end(t, root as int);
    }
    let mut j = root;
    while j < end
        invariant
            root <= j <= end,
            end == subtree_end(t, root as int),
            end <= t.len(),
            t == tree@,
            fits(t, src@),
            src@ == source.spec_bytes(),
            want@ == value.spec_bytes(),
            pred == kind_field_pred(t, src@, kind@, field@, want@),
            forall|k: int| root <= k < j ==> !#[trigger] pred(k),
        decreases end - j,
    {
        let node = tree.node(j);
        if same_text(node.kind.as_str(), kind) && tree.field_text_equals(src, j, field, want) {
            assert(pred(j as int));
            proof {
                lemma_first_match(root as int, end as int, pred);
                assert(first_match(root as int, end as int, pred) == Some(j as int));
                assert(NodeRef::of(t, j as int) == NodeRef { id: j, start: node.start, end: node.end });
            }
            return Some(NodeRef { id: j, start: node.start, end: node.end });
        }
        j += 1;
    }
    proof {
        lemma_first_match(root as int, end as int, pred);
    }
    None
}

} // verus!
