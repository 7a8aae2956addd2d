//! The syntax tree as an arena of plain values.
//!
//! Nodes are stored in pre-order (a node before its children, children left
//! to right) together with their depth, so the subtree of a node is the
//! contiguous run of nodes after it that are deeper than it.
use vstd::prelude::*;
use vstd::string::StringSliceAdditionalSpecFns;
use vstd::utf8::{
    encode_utf8_decode_utf8, encode_utf8_valid_utf8, is_char_boundary,
    is_char_boundary_iff_not_is_continuation_byte, is_char_boundary_start_end_of_seq,
    valid_utf8_split,
};

verus! {

/// The first index in `[lo, hi)` at which `pred` holds.
pub open spec fn first_match(lo: int, hi: int, pred: spec_fn(int) -> bool) -> Option<int>
    decreases hi - lo,
{
    if lo >= hi {
        None
    } else if pred(lo) {
        Some(lo)
    } else {
        first_match(lo + 1, hi, pred)
    }
}

/// Every index in `[lo, hi)` at which `pred` holds, in increasing order.
pub open spec fn all_matches(lo: int, hi: int, pred: spec_fn(int) -> bool) -> Seq<int>
    decreases hi - lo,
{
    if hi <= lo {
        Seq::empty()
    } else if pred(hi - 1) {
        all_matches(lo, hi - 1, pred).push(hi - 1)
    } else {
        all_matches(lo, hi - 1, pred)
    }
}

/// A shorter range's matches are a prefix of a longer range's.
pub proof fn lemma_all_matches_prefix(lo: int, mid: int, hi: int, pred: spec_fn(int) -> bool)
    requires
        lo <= mid <= hi,
    ensures
        all_matches(lo, mid, pred).len() <= all_matches(lo, hi, pred).len(),
        all_matches(lo, hi, pred).subrange(0, all_matches(lo, mid, pred).len() as int)
            == all_matches(lo, mid, pred),
    decreases hi - mid,
{
    if mid < hi {
        lemma_all_matches_prefix(lo, mid, hi - 1, pred);
    }
}

/// Every match lies in range and the matches strictly increase.
pub proof fn lemma_all_matches_bounds(lo: int, hi: int, pred: spec_fn(int) -> bool)
    ensures
        forall|k: int|
            0 <= k < all_matches(lo, hi, pred).len() ==> {
                &&& lo <= #[trigger] all_matches(lo, hi, pred)[k] < hi
                &&& pred(all_matches(lo, hi, pred)[k])
            },
    decreases hi - lo,
{
    if lo < hi {
        lemma_all_matches_bounds(lo, hi - 1, pred);
        let prev = all_matches(lo, hi - 1, pred);
        assert forall|k: int| 0 <= k < all_matches(lo, hi, pred).len() implies {
            &&& lo <= #[trigger] all_matches(lo, hi, pred)[k] < hi
            &&& pred(all_matches(lo, hi, pred)[k])
        } by {
            if k < prev.len() {
                assert(all_matches(lo, hi, pred)[k] == prev[k]);
            }
        }
    }
}

/// The matches strictly increase.
pub proof fn lemma_all_matches_increasing(lo: int, hi: int, pred: spec_fn(int) -> bool)
    ensures
        forall|a: int, b: int|
            0 <= a < b < all_matches(lo, hi, pred).len() ==> #[trigger] all_matches(lo, hi, pred)[a]
                < #[trigger] all_matches(lo, hi, pred)[b],
    decreases hi - lo,
{
    if lo < hi {
        lemma_all_matches_increasing(lo, hi - 1, pred);
        lemma_all_matches_bounds(lo, hi - 1, pred);
        let prev = all_matches(lo, hi - 1, pred);
        let cur = all_matches(lo, hi, pred);
        assert forall|a: int, b: int| 0 <= a < b < cur.len() implies #[trigger] cur[a]
            < #[trigger] cur[b] by {
            assert(cur[a] == prev[a]);
            if b < prev.len() {
                assert(cur[b] == prev[b]);
            } else {
                assert(prev[a] < hi - 1);
            }
        }
    }
}

/// What `first_match` returns: the least index in range where `pred` holds.
pub proof fn lemma_first_match(lo: int, hi: int, pred: spec_fn(int) -> bool)
    ensures
        match first_match(lo, hi, pred) {
            Some(i) => lo <= i < hi && pred(i) && forall|k: int| lo <= k < i ==> !#[trigger] pred(k),
            None => forall|k: int| lo <= k < hi ==> !#[trigger] pred(k),
        },
    decreases hi - lo,
{
    if lo < hi && !pred(lo) {
        lemma_first_match(lo + 1, hi, pred);
    }
}


/// A node as the specifications see it.
pub struct NodeView {
    pub kind: Seq<char>,
    pub start: int,
    pub end: int,
    pub depth: int,
    pub field: Option<Seq<char>>,
}

/// One node of a syntax tree: its grammar kind, its byte span in the source
/// text, its depth below the root, and the field under which its parent
/// holds it, if any.
pub struct SyntaxNode {
    pub kind: String,
    pub start: usize,
    pub end: usize,
    pub depth: usize,
    pub field: Option<String>,
}

impl View for SyntaxNode {
    type V = NodeView;

    open spec fn view(&self) -> NodeView {
        NodeView {
            kind: self.kind@,
            start: self.start as int,
            end: self.end as int,
            depth: self.depth as int,
            field: match &self.field {
                Some(f) => Some(f@),
                None => None,
            },
        }
    }
}

/// A sequence of depths is the pre-order walk of a tree: the root comes first
/// at depth 0, and each later node is at most one level below its predecessor
/// and strictly below the root.
pub open spec fn well_shaped(t: Seq<NodeView>) -> bool {
    &&& t.len() > 0
    &&& t[0].depth == 0
    &&& forall|j: int| 1 <= j < t.len() ==> 1 <= #[trigger] t[j].depth <= t[j - 1].depth + 1
}

/// Node `j` is no deeper than node `i`.
pub open spec fn shallower(t: Seq<NodeView>, i: int) -> spec_fn(int) -> bool {
    |j: int| t[j].depth <= t[i].depth
}

/// Nodes come in source order: along the pre-order, start bytes never
/// decrease.
pub open spec fn source_ordered(t: Seq<NodeView>) -> bool {
    forall|j: int| 1 <= j < t.len() ==> t[j - 1].start <= #[trigger] t[j].start
}

/// In a tree in source order, a later node never starts before an earlier one.
pub proof fn lemma_source_ordered(t: Seq<NodeView>, i: int, j: int)
    requires
        source_ordered(t),
        0 <= i <= j < t.len(),
    ensures
        t[i].start <= t[j].start,
    decreases j - i,
{
    if i < j {
        lemma_source_ordered(t, i, j - 1);
        assert(t[j - 1].start <= t[j].start);
    }
}

/// One past the last node of the subtree rooted at `i`.
pub open spec fn subtree_end(t: Seq<NodeView>, i: int) -> int {
    match first_match(i + 1, t.len() as int, shallower(t, i)) {
        Some(e) => e,
        None => t.len() as int,
    }
}

/// `c` is a direct child of `p` when it lies in `p`'s subtree one level down.
pub open spec fn child_pred(t: Seq<NodeView>, p: int) -> spec_fn(int) -> bool {
    |c: int| t[c].depth == t[p].depth + 1
}

/// The children of `p`, left to right.
pub open spec fn children(t: Seq<NodeView>, p: int) -> Seq<int> {
    all_matches(p + 1, subtree_end(t, p), child_pred(t, p))
}

/// The child of `p` at position `k` among all its children.
pub open spec fn child_at(t: Seq<NodeView>, p: int, k: int) -> Option<int> {
    if 0 <= k < children(t, p).len() {
        Some(children(t, p)[k])
    } else {
        None
    }
}

/// The first child of `p` held under field `f`.
pub open spec fn child_by_field(t: Seq<NodeView>, p: int, f: Seq<char>) -> Option<int> {
    first_match(p + 1, subtree_end(t, p), field_child_pred(t, p, f))
}

/// `c` is at child depth below `p` and held under field `f`.
pub open spec fn field_child_pred(t: Seq<NodeView>, p: int, f: Seq<char>) -> spec_fn(int) -> bool {
    |c: int| t[c].depth == t[p].depth + 1 && t[c].field == Some(f)
}

/// An optional executable node index as a mathematical one.
pub open spec fn index_of(o: Option<usize>) -> Option<int> {
    match o {
        Some(i) => Some(i as int),
        None => None,
    }
}

/// The bytes of the source text that node `n` spans.
pub open spec fn text_of(src: Seq<u8>, n: NodeView) -> Seq<u8> {
    src.subrange(n.start, n.end)
}

/// The child of `p` under field `f` exists and its text is `value`.
pub open spec fn field_text_is(
    t: Seq<NodeView>,
    src: Seq<u8>,
    p: int,
    f: Seq<char>,
    value: Seq<u8>,
) -> bool {
    match child_by_field(t, p, f) {
        Some(c) => text_of(src, t[c]) == value,
        None => false,
    }
}

/// The tree belongs to the source text `src`: the root spans the whole text,
/// and every node spans a range of it that starts and ends on a character
/// boundary.
pub open spec fn fits(t: Seq<NodeView>, src: Seq<u8>) -> bool {
    &&& t.len() > 0
    &&& t[0].start == 0
    &&& t[0].end == src.len()
    &&& forall|i: int|
        0 <= i < t.len() ==> {
            &&& 0 <= #[trigger] t[i].start <= t[i].end <= src.len()
            &&& is_char_boundary(src, t[i].start)
            &&& is_char_boundary(src, t[i].end)
        }
}

/// A concrete syntax tree: its nodes in pre-order, the root first.
pub struct SyntaxTree {
    nodes: Vec<SyntaxNode>,
}

impl View for SyntaxTree {
    type V = Seq<NodeView>;

    closed spec fn view(&self) -> Seq<NodeView> {
        self.nodes@.map_values(|n: SyntaxNode| n@)
    }
}

/// The identity and span of one located node.
#[derive(Clone, Copy, PartialEq, Eq, Debug, Structural)]
pub struct NodeRef {
    /// The node's position in its tree's pre-order.
    pub id: usize,
    pub start: usize,
    pub end: usize,
}

/// The handle of an optional node index.
pub open spec fn node_opt(t: Seq<NodeView>, o: Option<int>) -> Option<NodeRef> {
    match o {
        Some(i) => Some(NodeRef::of(t, i)),
        None => None,
    }
}

impl NodeRef {
    /// The handle of node `i` of `t`.
    pub open spec fn of(t: Seq<NodeView>, i: int) -> NodeRef {
        NodeRef { id: i as usize, start: t[i].start as usize, end: t[i].end as usize }
    }
}

impl SyntaxTree {
    proof fn lemma_view(&self)
        ensures
            self@.len() == self.nodes@.len(),
            forall|i: int| 0 <= i < self@.len() ==> #[trigger] self@[i] == self.nodes@[i]@,
    {
    }

    #[verifier::type_invariant]
    closed spec fn shaped(&self) -> bool {
        well_shaped(self@) && source_ordered(self@)
    }

    /// Builds a tree from nodes listed in pre-order with their depths.
    pub(crate) fn from_nodes(nodes: Vec<SyntaxNode>) -> (t: SyntaxTree)
        requires
            well_shaped(nodes@.map_values(|n: SyntaxNode| n@)),
            source_ordered(nodes@.map_values(|n: SyntaxNode| n@)),
        ensures
            t@ == nodes@.map_values(|n: SyntaxNode| n@),
    {
        SyntaxTree { nodes }
    }

    /// The number of nodes.
    pub fn len(&self) -> (r: usize)
        ensures
            r == self@.len(),
            well_shaped(self@),
            source_ordered(self@),
            forall|i: int|
                0 <= i < self@.len() ==> 0 <= #[trigger] self@[i].start <= usize::MAX && 0
                    <= self@[i].end <= usize::MAX,
    {
        proof {
            use_type_invariant(self);
            self.lemma_view();
        }
        self.nodes.len()
    }

    /// The root, which spans the whole text.
    pub fn root(&self) -> (r: NodeRef)
        ensures
            r == NodeRef::of(self@, 0),
    {
        proof {
            self.lemma_view();
            use_type_invariant(self);
        }
        NodeRef { id: 0, start: self.nodes[0].start, end: self.nodes[0].end }
    }

    /// Node `i`.
    pub fn node(&self, i: usize) -> (r: &SyntaxNode)
        requires
            i < self@.len(),
        ensures
            r@ == self@[i as int],
    {
        &self.nodes[i]
    }
}


/// The subtree of `i` ends at the first later node that is no deeper than
/// `i`, and every node before that end is deeper.
pub proof fn lemma_subtree_end(t: Seq<NodeView>, i: int)
    requires
        0 <= i < t.len(),
    ensures
        i < subtree_end(t, i) <= t.len(),
        forall|k: int| i < k < subtree_end(t, i) ==> t[k].depth > t[i].depth,
        subtree_end(t, i) < t.len() ==> t[subtree_end(t, i)].depth <= t[i].depth,
{
    lemma_first_match(i + 1, t.len() as int, shallower(t, i));
    assert forall|k: int| i < k < subtree_end(t, i) implies t[k].depth > t[i].depth by {
        assert(!shallower(t, i)(k));
    }
}

/// A child of `p` is a later node of `p`'s subtree.
pub proof fn lemma_child_at(t: Seq<NodeView>, p: int, k: int)
    requires
        0 <= p < t.len(),
    ensures
        child_at(t, p, k) matches Some(c) ==> p < c < subtree_end(t, p) <= t.len(),
{
    lemma_subtree_end(t, p);
    lemma_all_matches_bounds(p + 1, subtree_end(t, p), child_pred(t, p));
}

/// Byte sequences compared one byte at a time.
pub fn bytes_equal(a: &[u8], b: &[u8]) -> (r: bool)
    ensures
        r == (a@ == b@),
{
    if a.len() != b.len() {
        return false;
    }
    let mut i: usize = 0;
    while i < a.len()
        invariant
            a@.len() == b@.len(),
            i <= a@.len(),
            a@.subrange(0, i as int) == b@.subrange(0, i as int),
        decreases a@.len() - i,
    {
        if a[i] != b[i] {
            assert(a@[i as int] != b@[i as int]);
            return false;
        }
        assert(a@.subrange(0, i + 1) == a@.subrange(0, i as int).push(a@[i as int]));
        assert(b@.subrange(0, i + 1) == b@.subrange(0, i as int).push(b@[i as int]));
        i += 1;
    }
    assert(a@ == a@.subrange(0, i as int));
    assert(b@ == b@.subrange(0, i as int));
    true
}

/// Two strings hold the same characters.
pub fn same_text(a: &str, b: &str) -> (r: bool)
    ensures
        r == (a@ == b@),
{
    let r = bytes_equal(a.as_bytes(), b.as_bytes());
    proof {
        encode_utf8_decode_utf8(a@);
        encode_utf8_decode_utf8(b@);
    }
    r
}

/// The bytes of `src` in `[start, end)` are `value`.
pub fn span_equals(src: &[u8], start: usize, end: usize, value: &[u8]) -> (r: bool)
    requires
        start <= end <= src@.len(),
    ensures
        r == (src@.subrange(start as int, end as int) == value@),
{
    if end - start != value.len() {
        return false;
    }
    let mut i: usize = 0;
    while i < value.len()
        invariant
            start <= end <= src@.len(),
            end - start == value@.len(),
            i <= value@.len(),
            src@.subrange(start as int, start + i) == value@.subrange(0, i as int),
        decreases value@.len() - i,
    {
        if src[start + i] != value[i] {
            assert(src@.subrange(start as int, end as int)[i as int] != value@[i as int]);
            return false;
        }
        assert(src@.subrange(start as int, start + i + 1) == src@.subrange(
            start as int,
            start + i,
        ).push(src@[start + i]));
        assert(value@.subrange(0, i + 1) == value@.subrange(0, i as int).push(value@[i as int]));
        i += 1;
    }
    assert(value@ == value@.subrange(0, i as int));
    true
}

/// The text of the node `node` spans in `source`.
pub fn node_value<'a>(source: &'a str, node: NodeRef) -> (r: &'a str)
    requires
        node.start <= node.end <= source.spec_bytes().len(),
        is_char_boundary(source.spec_bytes(), node.start as int),
        is_char_boundary(source.spec_bytes(), node.end as int),
    ensures
        r.spec_bytes() == source.spec_bytes().subrange(node.start as int, node.end as int),
{
    let ghost b = source.spec_bytes();
    proof {
        encode_utf8_valid_utf8(source@);
    }
    let (_, rest) = source.split_at(node.start);
    let ghost rb = rest.spec_bytes();
    proof {
        valid_utf8_split(b, node.start as int);
        assert(rb == b.subrange(node.start as int, b.len() as int));
        if node.end < b.len() {
            is_char_boundary_iff_not_is_continuation_byte(b, node.end as int);
            is_char_boundary_iff_not_is_continuation_byte(rb, node.end - node.start);
            assert(rb[node.end - node.start] == b[node.end as int]);
        } else {
            is_char_boundary_start_end_of_seq(rb);
        }
    }
    let (text, _) = rest.split_at(node.end - node.start);
    proof {
        assert(text.spec_bytes() == rb.subrange(0, node.end - node.start));
        assert(rb.subrange(0, node.end - node.start) =~= b.subrange(
            node.start as int,
            node.end as int,
        ));
    }
    text
}

impl SyntaxTree {
    /// One past the last node of the subtree rooted at `i`.
    pub fn subtree_end(&self, i: usize) -> (e: usize)
        requires
            i < self@.len(),
        ensures
            e == subtree_end(self@, i as int),
    {
        proof {
            lemma_subtree_end(self@, i as int);
            self.lemma_view();
        }
        let n = self.nodes.len();
        let d = self.nodes[i].depth;
        let mut j = i + 1;
        while j < n && self.nodes[j].depth > d
            invariant
                i < j <= n,
                n == self@.len(),
                d == self@[i as int].depth,
                forall|k: int| i < k < j ==> self@[k].depth > d,
            decreases n - j,
        {
            j += 1;
        }
        proof {
            lemma_first_match(i + 1, n as int, shallower(self@, i as int));
            if j < n {
                assert(shallower(self@, i as int)(j as int));
            }
        }
        j
    }

    /// The first child of `p` held under field `field`.
    pub fn child_by_field_name(&self, p: usize, field: &str) -> (r: Option<usize>)
        requires
            p < self@.len(),
        ensures
            index_of(r) == child_by_field(self@, p as int, field@),
            r matches Some(c) ==> p < c < self@.len(),
    {
        proof {
            use_type_invariant(self);
        }
        let ghost t = self@;
        let ghost pred = field_child_pred(t, p as int, field@);
        proof {
            self.lemma_view();
        }
        let end = self.subtree_end(p);
        proof {
            lemma_subtree_end(t, p as int);
        }
        let d = self.nodes[p].depth;
        let mut j = p + 1;
        while j < end
            invariant
                p < j <= end,
                end == subtree_end(t, p as int),
                end <= t.len(),
                t == self@,
                d == t[p as int].depth,
                well_shaped(t),
                forall|k: int| p < k < end ==> t[k].depth > d,
                forall|k: int| p + 1 <= k < j ==> !#[trigger] pred(k),
                pred == field_child_pred(t, p as int, field@),
            decreases end - j,
        {
            let node = &self.nodes[j];
            assert(t[j as int] == self.nodes@[j as int]@);
            if node.depth - 1 == d {
                let hit = match &node.field {
                    Some(g) => same_text(g.as_str(), field),
                    None => false,
                };
                if hit {
                    proof {
                        assert(pred(j as int));
                        lemma_first_match(p + 1, end as int, pred);
                    }
                    return Some(j);
                }
            }
            j += 1;
        }
        proof {
            lemma_first_match(p + 1, end as int, pred);
        }
        None
    }

    /// The child of `p` at position `k` among all its children.
    pub fn child(&self, p: usize, k: usize) -> (r: Option<usize>)
        requires
            p < self@.len(),
        ensures
            index_of(r) == child_at(self@, p as int, k as int),
            r matches Some(c) ==> p < c < self@.len(),
    {
        let ghost t = self@;
        let ghost pred = child_pred(t, p as int);
        proof {
            self.lemma_view();
        }
        let end = self.subtree_end(p);
        proof {
            lemma_subtree_end(t, p as int);
        }
        let d = self.nodes[p].depth;
        let mut j = p + 1;
        let mut seen: usize = 0;
        while j < end
            invariant
                p < j <= end,
                end == subtree_end(t, p as int),
                end <= t.len(),
                t == self@,
                d == t[p as int].depth,
                forall|q: int| p < q < end ==> t[q].depth > d,
                seen == all_matches(p + 1, j as int, pred).len(),
                seen <= k,
                seen <= j - p - 1,
                pred == child_pred(t, p as int),
            decreases end - j,
        {
            assert(t[j as int] == self.nodes@[j as int]@);
            if self.nodes[j].depth - 1 == d {
                assert(pred(j as int));
                assert(all_matches(p + 1, j + 1, pred) == all_matches(p + 1, j as int, pred).push(
                    j as int,
                ));
                if seen == k {
                    proof {
                        lemma_all_matches_prefix(p + 1, j + 1, end as int, pred);
                        let whole = all_matches(p + 1, end as int, pred);
                        assert(whole.subrange(0, k + 1)[k as int] == whole[k as int]);
                    }
                    return Some(j);
                }
                seen += 1;
            } else {
                assert(!pred(j as int));
                assert(all_matches(p + 1, j + 1, pred) == all_matches(p + 1, j as int, pred));
            }
            j += 1;
        }
        None
    }

    /// Whether the child of `p` under `field` exists and spans the text `value`.
    pub fn field_text_equals(&self, src: &[u8], p: usize, field: &str, value: &[u8]) -> (r: bool)
        requires
            p < self@.len(),
            fits(self@, src@),
        ensures
            r == field_text_is(self@, src@, p as int, field@, value@),
    {
        proof {
            lemma_subtree_end(self@, p as int);
            lemma_first_match(
                p + 1,
                subtree_end(self@, p as int),
                field_child_pred(self@, p as int, field@),
            );
        }
        match self.child_by_field_name(p, field) {
            Some(c) => {
                let node = self.node(c);
                assert(child_by_field(self@, p as int, field@) == Some(c as int));
                assert(0 <= self@[c as int].start <= self@[c as int].end <= src@.len());
                span_equals(src, node.start, node.end, value)
            },
            None => false,
        }
    }

    /// Whether this tree belongs to `source` (see `fits`).
    pub fn fits(&self, source: &str) -> (r: bool)
        ensures
            r == fits(self@, source.spec_bytes()),
    {
        proof {
            self.lemma_view();
        }
        let n = self.nodes.len();
        let len = source.as_bytes().len();
        if n == 0 || self.nodes[0].start != 0 || self.nodes[0].end != len {
            return false;
        }
        let mut i: usize = 0;
        while i < n
            invariant
                n == self@.len(),
                len == source.spec_bytes().len(),
                n > 0,
                self@[0].start == 0,
                self@[0].end == len,
                i <= n,
                forall|k: int|
                    0 <= k < i ==> {
                        &&& 0 <= #[trigger] self@[k].start <= self@[k].end <= len
                        &&& is_char_boundary(source.spec_bytes(), self@[k].start)
                        &&& is_char_boundary(source.spec_bytes(), self@[k].end)
                    },
            decreases n - i,
        {
            let node = &self.nodes[i];
            assert(self@[i as int] == node@);
            if !(node.start <= node.end && node.end <= len && source.is_char_boundary(node.start)
                && source.is_char_boundary(node.end)) {
                assert(self@[i as int].start == node.start);
                return false;
            }
            i += 1;
        }
        true
    }
}

} // verus!
