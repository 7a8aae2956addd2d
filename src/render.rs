//! Splicing replacement text over one node's span.
use crate::tree::{fits, NodeView, SyntaxTree};
use vstd::prelude::*;
use vstd::string::StringSliceAdditionalSpecFns;
use vstd::utf8::{
    encode_utf8, encode_utf8_valid_utf8, is_char_boundary,
    is_char_boundary_iff_not_is_continuation_byte, is_char_boundary_start_end_of_seq,
    valid_utf8_split,
};

verus! {

/// `src` with the bytes in `[start, end)` replaced by `replacement`.
pub open spec fn splice(src: Seq<u8>, start: int, end: int, replacement: Seq<u8>) -> Seq<u8> {
    src.subrange(0, start) + replacement + src.subrange(end, src.len() as int)
}

/// The suggestion that stands for "leave the code as it is".
pub open spec fn no_change_marker() -> Seq<char> {
    "OPTIMAL"@
}

/// Rendering failed.
#[derive(Clone, Copy, PartialEq, Eq, Debug, Structural)]
pub enum RenderError {
    /// The tree has no node with this identity.
    NodeNotFound { id: usize },
}

/// Appends `src[lo..hi]` to `out`.
fn append_bytes(out: &mut Vec<u8>, src: &[u8], lo: usize, hi: usize)
    requires
        lo <= hi <= src@.len(),
    ensures
        final(out)@ == old(out)@ + src@.subrange(lo as int, hi as int),
{
    let mut i = lo;
    while i < hi
        invariant
            lo <= i <= hi <= src@.len(),
            out@ == old(out)@ + src@.subrange(lo as int, i as int),
        decreases hi - i,
    {
        out.push(src[i]);
        assert(src@.subrange(lo as int, i + 1) == src@.subrange(lo as int, i as int).push(
            src@[i as int],
        ));
        i += 1;
    }
}

/// `source` with the span of node `node_id` of `tree` replaced by
/// `replacement`. Every byte outside that span is kept as it was.
pub fn render(tree: &SyntaxTree, source: &str, node_id: usize, replacement: &[u8]) -> (r: Result<
    Vec<u8>,
    RenderError,
>)
    requires
        fits(tree@, source.spec_bytes()),
    ensures
        node_id < tree@.len() ==> (r matches Ok(out) && out@ == splice(
            source.spec_bytes(),
            tree@[node_id as int].start,
            tree@[node_id as int].end,
            replacement@,
        )),
        node_id >= tree@.len() ==> r == Err::<Vec<u8>, RenderError>(
            RenderError::NodeNotFound { id: node_id },
        ),
{
    if node_id >= tree.len() {
        return Err(RenderError::NodeNotFound { id: node_id });
    }
    let node = tree.node(node_id);
    let src = source.as_bytes();
    assert(0 <= tree@[node_id as int].start <= tree@[node_id as int].end <= src@.len());
    let mut out: Vec<u8> = Vec::new();
    append_bytes(&mut out, src, 0, node.start);
    append_bytes(&mut out, replacement, 0, replacement.len());
    append_bytes(&mut out, src, node.end, src.len());
    assert(replacement@.subrange(0, replacement@.len() as int) == replacement@);
    Ok(out)
}

/// Encoding distributes over concatenation.
pub proof fn lemma_encode_concat(a: Seq<char>, b: Seq<char>)
    ensures
        encode_utf8(a + b) == encode_utf8(a) + encode_utf8(b),
    decreases a.len(),
{
    if a.len() > 0 {
        lemma_encode_concat(a.drop_first(), b);
        assert((a + b).drop_first() == a.drop_first() + b);
        assert((a + b)[0] == a[0]);
    } else {
        assert(a + b == b);
    }
}

/// The two parts of `source` around the byte span `[start, end)`.
fn around<'a>(source: &'a str, start: usize, end: usize) -> (r: (&'a str, &'a str))
    requires
        start <= end <= source.spec_bytes().len(),
        is_char_boundary(source.spec_bytes(), start as int),
        is_char_boundary(source.spec_bytes(), end as int),
    ensures
        r.0.spec_bytes() == source.spec_bytes().subrange(0, start as int),
        r.1.spec_bytes() == source.spec_bytes().subrange(end as int, source.spec_bytes().len() as int),
{
    let ghost b = source.spec_bytes();
    proof {
        encode_utf8_valid_utf8(source@);
    }
    let (head, rest) = source.split_at(start);
    let ghost rb = rest.spec_bytes();
    proof {
        valid_utf8_split(b, start as int);
        if end < b.len() {
            is_char_boundary_iff_not_is_continuation_byte(b, end as int);
            is_char_boundary_iff_not_is_continuation_byte(rb, end - start);
            assert(rb[end - start] == b[end as int]);
        } else {
            is_char_boundary_start_end_of_seq(rb);
        }
    }
    let (_, tail) = rest.split_at(end - start);
    proof {
        assert(rb.subrange(end - start, rb.len() as int) =~= b.subrange(end as int, b.len() as int));
    }
    (head, tail)
}

/// Whether `suggestion` is the marker for "leave the code as it is".
pub fn is_no_change(suggestion: &str) -> (r: bool)
    ensures
        r == (suggestion@ == no_change_marker()),
{
    crate::tree::same_text(suggestion, "OPTIMAL")
}

/// Applies a suggested replacement for node `node_id` to `source`: nothing
/// when the suggestion is the "leave it" marker, else the text of `source`
/// with that node's span replaced by the suggestion.
pub fn apply_suggestion_to_source_file(
    tree: &SyntaxTree,
    source: &str,
    node_id: usize,
    suggestion: &str,
) -> (r: Result<Option<String>, RenderError>)
    requires
        fits(tree@, source.spec_bytes()),
    ensures
        suggestion@ == no_change_marker() ==> r == Ok::<Option<String>, RenderError>(None),
        suggestion@ != no_change_marker() && node_id >= tree@.len() ==> r == Err::<
            Option<String>,
            RenderError,
        >(RenderError::NodeNotFound { id: node_id }),
        suggestion@ != no_change_marker() && node_id < tree@.len() ==> (r matches Ok(Some(out))
            && encode_utf8(out@) == splice(
            source.spec_bytes(),
            tree@[node_id as int].start,
            tree@[node_id as int].end,
            suggestion.spec_bytes(),
        )),
{
    if is_no_change(suggestion) {
        return Ok(None);
    }
    if node_id >= tree.len() {
        return Err(RenderError::NodeNotFound { id: node_id });
    }
    let node = tree.node(node_id);
    assert(0 <= tree@[node_id as int].start <= tree@[node_id as int].end <= source.spec_bytes().len());
    let (head, tail) = around(source, node.start, node.end);
    let mut out = String::from_str(head);
    out.append(suggestion);
    out.append(tail);
    proof {
        lemma_encode_concat(head@, suggestion@);
        lemma_encode_concat(head@ + suggestion@, tail@);
    }
    Ok(Some(out))
}

} // verus!
