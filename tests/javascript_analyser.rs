use function_locator::{
    node_value, parse_source_with_language, JavascriptAnalyser, LocateError, SupportedLanguage, SyntaxTree,
};

const JAVASCRIPT_SOURCE: &str = r#"// Function Declaration
function greet() {
    console.log("Hello from top-level function declaration!");
}

async function asyncGreet() {
    console.log("Hello from async top-level function declaration!");
}

// Function Expression
const greetExpression = function() {
    console.log("Hello from function expression!");
}

const asyncGreetExpression = async function() {
    console.log("Hello from async function expression!");
}

// Arrow Function
const greetArrow = () => {
    console.log("Hello from arrow function!");
}

const asyncGreetArrow = async () => {
    console.log("Hello from async arrow function!");
}

// Method Definition in a Class
class Greeter {
    greet() {
        console.log("Hello from method in a class!");
    }

    async asyncGreet() {
        console.log("Hello from async method in a class!");
    }
}

// Call all the functions
greet();
asyncGreet();
greetExpression();
asyncGreetExpression();
greetArrow();
asyncGreetArrow();

let greeter = new Greeter();
greeter.greet();
greeter.asyncGreet();
"#;

fn javascript_source_tree() -> SyntaxTree {
    parse_source_with_language(JAVASCRIPT_SOURCE, tree_sitter_javascript::language()).unwrap()
}

#[test]
fn javascript_no_function() {
    let tree = javascript_source_tree();
    let ra: JavascriptAnalyser = Default::default();

    assert_eq!(
        JAVASCRIPT_SOURCE,
        node_value(
            JAVASCRIPT_SOURCE,
            ra.find_correct_node(JAVASCRIPT_SOURCE, &tree, None, None).unwrap(),
        ),
    )
}

#[test]
fn javascript_top_level_function() {
    let target = r#"function greet() {
    console.log("Hello from top-level function declaration!");
}"#;

    let tree = javascript_source_tree();
    let ra: JavascriptAnalyser = Default::default();

    assert_eq!(
        target,
        node_value(
            JAVASCRIPT_SOURCE,
            ra.find_correct_node(JAVASCRIPT_SOURCE, &tree, None, Some("greet")).unwrap(),
        ),
    )
}

#[test]
fn javascript_async_top_level_function() {
    let target = r#"async function asyncGreet() {
    console.log("Hello from async top-level function declaration!");
}"#;

    let tree = javascript_source_tree();
    let ra: JavascriptAnalyser = Default::default();

    assert_eq!(
        target,
        node_value(
            JAVASCRIPT_SOURCE,
            ra.find_correct_node(JAVASCRIPT_SOURCE, &tree, None, Some("asyncGreet")).unwrap(),
        ),
    )
}

#[test]
fn javascript_top_level_function_expression() {
    let target = r#"const greetExpression = function() {
    console.log("Hello from function expression!");
}"#;

    let tree = javascript_source_tree();
    let ra: JavascriptAnalyser = Default::default();

    assert_eq!(
        target,
        node_value(
            JAVASCRIPT_SOURCE,
            ra.find_correct_node(JAVASCRIPT_SOURCE, &tree, None, Some("greetExpression")).unwrap(),
        ),
    )
}

#[test]
fn javascript_async_top_level_function_expression() {
    let target = r#"const asyncGreetExpression = async function() {
    console.log("Hello from async function expression!");
}"#;

    let tree = javascript_source_tree();
    let ra: JavascriptAnalyser = Default::default();

    assert_eq!(
        target,
        node_value(
            JAVASCRIPT_SOURCE,
            ra.find_correct_node(JAVASCRIPT_SOURCE, &tree, None, Some("asyncGreetExpression")).unwrap(),
        ),
    )
}

#[test]
fn javascript_top_level_arrow_function() {
    let target = r#"const greetArrow = () => {
    console.log("Hello from arrow function!");
}"#;

    let tree = javascript_source_tree();
    let ra: JavascriptAnalyser = Default::default();

    assert_eq!(
        target,
        node_value(
            JAVASCRIPT_SOURCE,
            ra.find_correct_node(JAVASCRIPT_SOURCE, &tree, None, Some("greetArrow")).unwrap(),
        ),
    )
}

#[test]
fn javascript_async_top_level_arrow_function() {
    let target = r#"const asyncGreetArrow = async () => {
    console.log("Hello from async arrow function!");
}"#;

    let tree = javascript_source_tree();
    let ra: JavascriptAnalyser = Default::default();

    assert_eq!(
        target,
        node_value(
            JAVASCRIPT_SOURCE,
            ra.find_correct_node(JAVASCRIPT_SOURCE, &tree, None, Some("asyncGreetArrow")).unwrap(),
        ),
    )
}

#[test]
fn javascript_method() {
    let target = r#"greet() {
        console.log("Hello from method in a class!");
    }"#;

    let tree = javascript_source_tree();
    let ra: JavascriptAnalyser = Default::default();

    assert_eq!(
        target,
        node_value(
            JAVASCRIPT_SOURCE,
            ra.find_correct_node(JAVASCRIPT_SOURCE, &tree, Some("Greeter"), Some("greet")).unwrap(),
        ),
    )
}

#[test]
fn javascript_async_method() {
    let target = r#"async asyncGreet() {
        console.log("Hello from async method in a class!");
    }"#;

    let tree = javascript_source_tree();
    let ra: JavascriptAnalyser = Default::default();

    assert_eq!(
        target,
        node_value(
            JAVASCRIPT_SOURCE,
            ra.find_correct_node(JAVASCRIPT_SOURCE, &tree, Some("Greeter"), Some("asyncGreet")).unwrap(),
        ),
    )
}

#[test]
fn javascript_missing_cases_are_told_apart() {
    let tree = javascript_source_tree();
    let ra: JavascriptAnalyser = Default::default();

    assert_eq!(
        ra.find_correct_node(JAVASCRIPT_SOURCE, &tree, Some("Stranger"), Some("greet")),
        Err(LocateError::ParentNotFound { parent: "Stranger".to_string() }),
    );
    assert_eq!(
        ra.find_correct_node(JAVASCRIPT_SOURCE, &tree, Some("Greeter"), Some("farewell")),
        Err(LocateError::FunctionNotFound { function: "farewell".to_string() }),
    );
    assert_eq!(
        ra.find_correct_node(JAVASCRIPT_SOURCE, &tree, None, Some("farewell")),
        Err(LocateError::FunctionNotFound { function: "farewell".to_string() }),
    );
    assert_eq!(
        ra.find_correct_node(JAVASCRIPT_SOURCE, &tree, None, Some("greeter")),
        Err(LocateError::FunctionNotFound { function: "greeter".to_string() }),
    );
}

#[test]
fn javascript_parent_picks_its_own_class() {
    let source = "class B {\n    greet() { b(); }\n}\n\nclass A {\n    greet() { a(); }\n}\n";
    let tree = parse_source_with_language(source, tree_sitter_javascript::language()).unwrap();
    let ra: JavascriptAnalyser = Default::default();

    let a = ra.find_correct_node(source, &tree, Some("A"), Some("greet")).unwrap();
    let b = ra.find_correct_node(source, &tree, Some("B"), Some("greet")).unwrap();
    assert_eq!(node_value(source, a), "greet() { a(); }");
    assert_eq!(node_value(source, b), "greet() { b(); }");
    assert_eq!(ra.name(), "javascript");
}

#[test]
fn javascript_plain_binding_is_not_a_function() {
    let source = "const answer = 42;\nconst ask = () => answer;\n";
    let tree = parse_source_with_language(source, tree_sitter_javascript::language()).unwrap();
    let ra: JavascriptAnalyser = Default::default();

    assert_eq!(
        ra.find_correct_node(source, &tree, None, Some("answer")),
        Err(LocateError::FunctionNotFound { function: "answer".to_string() }),
    );
    let ask = ra.find_correct_node(source, &tree, None, Some("ask")).unwrap();
    assert_eq!(node_value(source, ask), "const ask = () => answer;");
}
