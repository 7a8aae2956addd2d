use function_locator::{
    apply_suggestion_to_source_file, is_no_change, node_value, parse_source_with_language, render,
    RenderError, RustAnalyzer, SourceLanguage, SupportedLanguage,
};

const RUST_SOURCE: &str = "// greeting\nfn greet() {\n    println!(\"hi\");\n}\n\nfn main() {\n    greet();\n}\n";

#[test]
fn replacing_a_function_keeps_the_rest() {
    let tree = parse_source_with_language(RUST_SOURCE, tree_sitter_rust::language()).unwrap();
    let ra: RustAnalyzer = Default::default();
    let node = ra.find_correct_node(RUST_SOURCE, &tree, None, Some("greet")).unwrap();

    let out = render(&tree, RUST_SOURCE, node.id, b"fn greet() {}").unwrap();
    assert_eq!(
        String::from_utf8(out).unwrap(),
        "// greeting\nfn greet() {}\n\nfn main() {\n    greet();\n}\n"
    );
}

#[test]
fn edit_isolation_bytes_outside_the_span_are_kept() {
    let tree = parse_source_with_language(RUST_SOURCE, tree_sitter_rust::language()).unwrap();
    let ra: RustAnalyzer = Default::default();
    let node = ra.find_correct_node(RUST_SOURCE, &tree, None, Some("main")).unwrap();
    let replacement = b"fn main() { /* longer than before, on purpose */ }";

    let out = render(&tree, RUST_SOURCE, node.id, replacement).unwrap();
    let src = RUST_SOURCE.as_bytes();
    assert_eq!(out.len(), src.len() - (node.end - node.start) + replacement.len());
    assert_eq!(&out[..node.start], &src[..node.start]);
    assert_eq!(&out[node.start..node.start + replacement.len()], &replacement[..]);
    assert_eq!(&out[node.start + replacement.len()..], &src[node.end..]);
}

#[test]
fn round_trip_with_the_same_text_is_a_no_op() {
    let sources = [
        (RUST_SOURCE, SourceLanguage::Rust, None, "greet"),
        (
            "package main\n\ntype T struct{}\n\nfunc (t *T) run() {\n\twork()\n}\n",
            SourceLanguage::Go,
            Some("T"),
            "run",
        ),
        ("class C {\n  async go() { await x; }\n}\n", SourceLanguage::JavaScript, Some("C"), "go"),
        (
            "const f = async (): Promise<void> => {\n  g();\n};\n",
            SourceLanguage::TypeScript,
            None,
            "f",
        ),
    ];
    for (source, analyser, parent, function) in sources {
        let tree = parse_source_with_language(source, analyser.language()).unwrap();
        for target in [None, Some(function)] {
            let node = analyser.find_correct_node(source, &tree, parent, target).unwrap();
            let text = node_value(source, node).as_bytes().to_vec();
            let out = render(&tree, source, node.id, &text).unwrap();
            assert_eq!(out, source.as_bytes());
        }
    }
}

#[test]
fn rendering_an_unknown_node_is_refused() {
    let tree = parse_source_with_language(RUST_SOURCE, tree_sitter_rust::language()).unwrap();
    let id = tree.len() + 3;
    assert_eq!(render(&tree, RUST_SOURCE, id, b"x"), Err(RenderError::NodeNotFound { id }));
    assert_eq!(
        apply_suggestion_to_source_file(&tree, RUST_SOURCE, id, "x"),
        Err(RenderError::NodeNotFound { id })
    );
}

#[test]
fn the_optimal_marker_changes_nothing() {
    let tree = parse_source_with_language(RUST_SOURCE, tree_sitter_rust::language()).unwrap();
    assert!(is_no_change("OPTIMAL"));
    assert!(!is_no_change("OPTIMAL "));
    assert!(!is_no_change("optimal"));
    assert_eq!(apply_suggestion_to_source_file(&tree, RUST_SOURCE, 0, "OPTIMAL"), Ok(None));
}

#[test]
fn a_suggestion_replaces_the_located_text() {
    let source = "fn é() {}\nfn b() { 1 }\n";
    let tree = parse_source_with_language(source, tree_sitter_rust::language()).unwrap();
    let ra: RustAnalyzer = Default::default();
    let node = ra.find_correct_node(source, &tree, None, Some("b")).unwrap();

    let out = apply_suggestion_to_source_file(&tree, source, node.id, "fn b() { 2 }").unwrap();
    assert_eq!(out, Some("fn é() {}\nfn b() { 2 }\n".to_string()));
}

#[test]
fn rendering_agrees_with_tree_sitter_edit() {
    let tree = parse_source_with_language(RUST_SOURCE, tree_sitter_rust::language()).unwrap();
    let ra: RustAnalyzer = Default::default();
    let node = ra.find_correct_node(RUST_SOURCE, &tree, None, Some("greet")).unwrap();
    let replacement = b"fn greet() -> u8 { 7 }".to_vec();
    let ours = render(&tree, RUST_SOURCE, node.id, &replacement).unwrap();

    let mut parser = tree_sitter::Parser::new();
    parser.set_language(tree_sitter_rust::language()).unwrap();
    let theirs_tree = parser.parse(RUST_SOURCE, None).unwrap();
    let target = theirs_tree
        .root_node()
        .descendant_for_byte_range(node.start, node.end)
        .unwrap();
    assert_eq!(target.kind(), "function_item");
    let editor = tree_sitter_edit::Replace {
        id: tree_sitter_edit::NodeId::new(&target),
        bytes: replacement,
    };
    let mut theirs: Vec<u8> = Vec::new();
    assert!(tree_sitter_edit::render(&mut theirs, &theirs_tree, RUST_SOURCE.as_bytes(), &editor).unwrap());
    assert_eq!(ours, theirs);
}
