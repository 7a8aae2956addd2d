//! Parsing source text into a `SyntaxTree` with a tree-sitter grammar.
use crate::tree::{fits, source_ordered, well_shaped, NodeView, SyntaxNode, SyntaxTree};
use vstd::prelude::*;
use vstd::string::StringSliceAdditionalSpecFns;
use vstd::utf8::{encode_utf8_valid_utf8, is_char_boundary, is_char_boundary_start_end_of_seq};

verus! {

/// tree_sitter::Language: a grammar, handed to the parser and never read.
#[verifier::external_type_specification]
#[verifier::external_body]
pub struct ExLanguage(tree_sitter::Language);

/// tree_sitter::LanguageError: why a grammar was refused; never read.
#[verifier::external_type_specification]
#[verifier::external_body]
pub struct ExLanguageError(tree_sitter::LanguageError);

/// tree_sitter::Parser: the parser, used for one parse.
#[verifier::external_type_specification]
#[verifier::external_body]
pub struct ExParser(tree_sitter::Parser);

/// tree_sitter::Tree: the parser's result, read only through a cursor.
#[verifier::external_type_specification]
#[verifier::external_body]
pub struct ExTree(tree_sitter::Tree);

/// tree_sitter::TreeCursor: the cursor that walks the tree in pre-order.
#[verifier::external_type_specification]
#[verifier::external_body]
pub struct ExTreeCursor<'a>(tree_sitter::TreeCursor<'a>);

/// tree_sitter::Node: a node under the cursor, read for its kind and span.
#[verifier::external_type_specification]
#[verifier::external_body]
pub struct ExNode<'a>(tree_sitter::Node<'a>);

/// Relies on tree_sitter::Parser::new: a parser with no language set yet.
pub assume_specification[ tree_sitter::Parser::new ]() -> tree_sitter::Parser;

/// Relies on tree_sitter::Parser::set_language: fails when the grammar was
/// generated for an incompatible version of tree-sitter.
pub assume_specification[ tree_sitter::Parser::set_language ](
    parser: &mut tree_sitter::Parser,
    language: tree_sitter::Language,
) -> Result<(), tree_sitter::LanguageError>;

/// Relies on tree_sitter::Tree::walk: a cursor on the root of the tree.
pub assume_specification[ tree_sitter::Tree::walk ](tree: &tree_sitter::Tree) -> tree_sitter::TreeCursor<'_>;

/// Relies on tree_sitter::TreeCursor::node: the node under the cursor.
pub assume_specification<'a>[ tree_sitter::TreeCursor::<'a>::node ](
    cursor: &tree_sitter::TreeCursor<'a>,
) -> tree_sitter::Node<'a>;

/// Relies on tree_sitter::TreeCursor::field_name: the field under which the
/// parent holds the node under the cursor.
pub assume_specification<'a>[ tree_sitter::TreeCursor::<'a>::field_name ](
    cursor: &tree_sitter::TreeCursor<'a>,
) -> Option<&'static str>;

/// Relies on tree_sitter::TreeCursor::goto_first_child: moves to the first
/// child, and says whether there was one.
pub assume_specification<'a>[ tree_sitter::TreeCursor::<'a>::goto_first_child ](
    cursor: &mut tree_sitter::TreeCursor<'a>,
) -> bool;

/// Relies on tree_sitter::TreeCursor::goto_next_sibling: moves to the next
/// sibling, and says whether there was one.
pub assume_specification<'a>[ tree_sitter::TreeCursor::<'a>::goto_next_sibling ](
    cursor: &mut tree_sitter::TreeCursor<'a>,
) -> bool;

/// Relies on tree_sitter::TreeCursor::goto_parent: moves to the parent, and
/// says whether there was one.
pub assume_specification<'a>[ tree_sitter::TreeCursor::<'a>::goto_parent ](
    cursor: &mut tree_sitter::TreeCursor<'a>,
) -> bool;

/// Relies on tree_sitter::Node::kind: the grammar's name for the node's kind.
pub assume_specification<'tree>[ tree_sitter::Node::<'tree>::kind ](
    node: &tree_sitter::Node<'tree>,
) -> &'static str;

/// Relies on tree_sitter::Node::start_byte: where the node's text starts.
pub assume_specification<'tree>[ tree_sitter::Node::<'tree>::start_byte ](
    node: &tree_sitter::Node<'tree>,
) -> usize;

/// Relies on tree_sitter::Node::end_byte: where the node's text ends.
pub assume_specification<'tree>[ tree_sitter::Node::<'tree>::end_byte ](
    node: &tree_sitter::Node<'tree>,
) -> usize;

/// Relies on tree_sitter::Parser::parse: the syntax tree of `source`, or
/// nothing when the parser has no language or parsing was cancelled.
#[verifier::external_body]
fn run_parser(parser: &mut tree_sitter::Parser, source: &str) -> Option<tree_sitter::Tree> {
    parser.parse(source, None)
}

/// Relies on tree_sitter_traversal::traverse_tree: how many nodes a pre-order
/// walk of the whole tree visits.
#[verifier::external_body]
fn preorder_len(tree: &tree_sitter::Tree) -> usize {
    tree_sitter_traversal::traverse_tree(tree, tree_sitter_traversal::Order::Pre).count()
}


/// The grammar rejected the input outright, or produced no usable tree.
#[derive(Clone, Copy, PartialEq, Eq, Debug, Structural)]
pub struct ParseFailure;

/// The views of a list of nodes.
pub open spec fn views(nodes: Seq<SyntaxNode>) -> Seq<NodeView> {
    nodes.map_values(|n: SyntaxNode| n@)
}

/// Node `n` spans characters of `src`.
pub open spec fn node_fits(n: NodeView, src: Seq<u8>) -> bool {
    &&& 0 <= n.start <= n.end <= src.len()
    &&& is_char_boundary(src, n.start)
    &&& is_char_boundary(src, n.end)
}

/// The nodes of a pre-order walk can make a tree for `src`: the root comes
/// first at depth 0, each later node is at most one level below its
/// predecessor and strictly below the root, every node but the root spans
/// characters of `src`, and those nodes start in source order.
pub open spec fn walk_ok(ns: Seq<NodeView>, src: Seq<u8>) -> bool {
    &&& ns.len() > 0
    &&& ns[0].depth == 0
    &&& forall|j: int| 1 <= j < ns.len() ==> 1 <= #[trigger] ns[j].depth <= ns[j - 1].depth + 1
    &&& forall|j: int| 1 <= j < ns.len() ==> node_fits(#[trigger] ns[j], src)
    &&& forall|j: int| 2 <= j < ns.len() ==> ns[j - 1].start <= #[trigger] ns[j].start
}

/// The walk with its root widened to span all `len` bytes of the text.
pub open spec fn widen_root(ns: Seq<NodeView>, len: int) -> Seq<NodeView> {
    ns.update(
        0,
        NodeView { kind: ns[0].kind, start: 0, end: len, depth: ns[0].depth, field: ns[0].field },
    )
}

/// Makes a tree for `source` from the nodes of a pre-order walk, the root
/// widened to the whole text; fails exactly when the nodes cannot make one
/// (see `walk_ok`).
pub fn tree_from_walk(source: &str, nodes: Vec<SyntaxNode>) -> (r: Result<SyntaxTree, ParseFailure>)
    ensures
        r is Ok <==> walk_ok(views(nodes@), source.spec_bytes()),
        r matches Ok(t) ==> t@ == widen_root(views(nodes@), source.spec_bytes().len() as int),
        r matches Ok(t) ==> well_shaped(t@) && source_ordered(t@) && fits(t@, source.spec_bytes()),
{
    let ghost src = source.spec_bytes();
    let ghost ns = views(nodes@);
    let len = source.as_bytes().len();
    let n = nodes.len();
    if n == 0 || nodes[0].depth != 0 {
        return Err(ParseFailure);
    }
    let mut j: usize = 1;
    while j < n
        invariant
            1 <= j <= n,
            n == ns.len(),
            ns == views(nodes@),
            src == source.spec_bytes(),
            len == src.len(),
            forall|k: int| 1 <= k < j ==> 1 <= #[trigger] ns[k].depth <= ns[k - 1].depth + 1,
            forall|k: int| 1 <= k < j ==> node_fits(#[trigger] ns[k], src),
            forall|k: int| 2 <= k < j ==> ns[k - 1].start <= #[trigger] ns[k].start,
        decreases n - j,
    {
        let cur = &nodes[j];
        let prev = &nodes[j - 1];
        assert(ns[j as int] == cur@ && ns[j - 1] == prev@);
        if !(cur.depth >= 1 && cur.depth - 1 <= prev.depth && cur.start <= cur.end && cur.end
            <= len && source.is_char_boundary(cur.start) && source.is_char_boundary(cur.end) && (j
            < 2 || prev.start <= cur.start)) {
            assert(!(1 <= ns[j as int].depth <= ns[j - 1].depth + 1) || !node_fits(ns[j as int], src)
                || (j >= 2 && !(ns[j - 1].start <= ns[j as int].start)));
            return Err(ParseFailure);
        }
        j += 1;
    }
    assert(walk_ok(ns, src));
    let mut nodes = nodes;
    let mut root = nodes.remove(0);
    root.start = 0;
    root.end = len;
    nodes.insert(0, root);
    proof {
        encode_utf8_valid_utf8(source@);
        is_char_boundary_start_end_of_seq(src);
        let t = views(nodes@);
        assert(t =~= widen_root(ns, len as int));
        assert(fits(t, src)) by {
            assert forall|i: int| 0 <= i < t.len() implies {
                &&& 0 <= #[trigger] t[i].start <= t[i].end <= src.len()
                &&& is_char_boundary(src, t[i].start)
                &&& is_char_boundary(src, t[i].end)
            } by {
                if i > 0 {
                    assert(node_fits(ns[i], src));
                }
            }
        }
        assert(source_ordered(t)) by {
            assert forall|k: int| 1 <= k < t.len() implies t[k - 1].start <= #[trigger] t[k].start by {
                assert(node_fits(ns[k], src));
            }
        }
    }
    Ok(SyntaxTree::from_nodes(nodes))
}

/// Parses `source` with the grammar `language`.
///
/// The nodes of the result are those tree-sitter produced, in pre-order; the
/// root spans the whole text, leading and trailing whitespace included.
pub fn parse_source_with_language(source: &str, language: tree_sitter::Language) -> (r: Result<
    SyntaxTree,
    ParseFailure,
>)
    ensures
        r matches Ok(t) ==> well_shaped(t@) && source_ordered(t@) && fits(t@, source.spec_bytes()),
{
    let mut parser = tree_sitter::Parser::new();
    if parser.set_language(language).is_err() {
        return Err(ParseFailure);
    }
    match run_parser(&mut parser, source) {
        Some(tree) => tree_from_walk(source, preorder_nodes(&tree)),
        None => Err(ParseFailure),
    }
}

/// The nodes of `tree` in pre-order, with their depths and the fields their
/// parents hold them under, as a tree-sitter cursor visits them.
fn preorder_nodes(tree: &tree_sitter::Tree) -> (r: Vec<SyntaxNode>) {
    let total = preorder_len(tree);
    let mut cursor = tree.walk();
    let mut nodes: Vec<SyntaxNode> = Vec::new();
    let mut depth: usize = 0;
    let mut done = false;
    while !done && nodes.len() < total
        invariant
            depth <= nodes@.len(),
            nodes@.len() <= total,
        decreases total - nodes@.len(),
    {
        let node = cursor.node();
        let field = match cursor.field_name() {
            Some(f) => Some(String::from_str(f)),
            None => None,
        };
        nodes.push(
            SyntaxNode {
                kind: String::from_str(node.kind()),
                start: node.start_byte(),
                end: node.end_byte(),
                depth,
                field,
            },
        );
        if cursor.goto_first_child() {
            depth += 1;
        } else {
            let mut moved = false;
            while !moved && depth > 0
                invariant
                    depth <= nodes@.len(),
                decreases depth + if moved {
                    0int
                } else {
                    1int
                },
            {
                if cursor.goto_next_sibling() {
                    moved = true;
                } else {
                    cursor.goto_parent();
                    depth -= 1;
                }
            }
            if !moved {
                done = true;
            }
        }
    }
    nodes
}

} // verus!
