use function_locator::{
    node_value, parse_source_with_language, TypescriptAnalyser, LocateError, SupportedLanguage, SyntaxTree,
};

const TYPESCRIPT_SOURCE: &str = r#"// Function Declaration
function greet() : void {
    console.log("Hello from top-level function declaration!");
}

async function asyncGreet() : Promise<void> {
    console.log("Hello from async top-level function declaration!");
}

// Function Expression
const greetExpression = function() : void {
    console.log("Hello from function expression!");
}

const asyncGreetExpression = async function() : Promise<void> {
    console.log("Hello from async function expression!");
}

// Arrow Function
const greetArrow = () : void => {
    console.log("Hello from arrow function!");
}

const asyncGreetArrow = async () : Promise<void> => {
    console.log("Hello from async arrow function!");
}

// Method Definition in a Class
class Greeter {
    greet() : void {
        console.log("Hello from method in a class!");
    }

    async asyncGreet() : Promise<void> {
        console.log("Hello from async method in a class!");
    }
}

// Call all the functions
greet();
asyncGreet();
greetExpression();
asyncGreetExpression();
greetArrow();
asyncGreetArrow();

let greeter = new Greeter();
greeter.greet();
greeter.asyncGreet();"#;

fn typescript_source_tree() -> SyntaxTree {
    parse_source_with_language(TYPESCRIPT_SOURCE, tree_sitter_typescript::language_typescript()).unwrap()
}

#[test]
fn typescript_no_function() {
    let tree = typescript_source_tree();
    let ra: TypescriptAnalyser = Default::default();

    assert_eq!(
        TYPESCRIPT_SOURCE,
        node_value(
            TYPESCRIPT_SOURCE,
            ra.find_correct_node(TYPESCRIPT_SOURCE, &tree, None, None).unwrap(),
        ),
    )
}

#[test]
fn typescript_top_level_function() {
    let target = r#"function greet() : void {
    console.log("Hello from top-level function declaration!");
}"#;

    let tree = typescript_source_tree();
    let ra: TypescriptAnalyser = Default::default();

    assert_eq!(
        target,
        node_value(
            TYPESCRIPT_SOURCE,
            ra.find_correct_node(TYPESCRIPT_SOURCE, &tree, None, Some("greet")).unwrap(),
        ),
    )
}

#[test]
fn typescript_async_top_level_function() {
    let target = r#"async function asyncGreet() : Promise<void> {
    console.log("Hello from async top-level function declaration!");
}"#;

    let tree = typescript_source_tree();
    let ra: TypescriptAnalyser = Default::default();

    assert_eq!(
        target,
        node_value(
            TYPESCRIPT_SOURCE,
            ra.find_correct_node(TYPESCRIPT_SOURCE, &tree, None, Some("asyncGreet")).unwrap(),
        ),
    )
}

#[test]
fn typescript_top_level_function_expression() {
    let target = r#"const greetExpression = function() : void {
    console.log("Hello from function expression!");
}"#;

    let tree = typescript_source_tree();
    let ra: TypescriptAnalyser = Default::default();

    assert_eq!(
        target,
        node_value(
            TYPESCRIPT_SOURCE,
            ra.find_correct_node(TYPESCRIPT_SOURCE, &tree, None, Some("greetExpression")).unwrap(),
        ),
    )
}

#[test]
fn typescript_async_top_level_function_expression() {
    let target = r#"const asyncGreetExpression = async function() : Promise<void> {
    console.log("Hello from async function expression!");
}"#;

    let tree = typescript_source_tree();
    let ra: TypescriptAnalyser = Default::default();

    assert_eq!(
        target,
        node_value(
            TYPESCRIPT_SOURCE,
            ra.find_correct_node(TYPESCRIPT_SOURCE, &tree, None, Some("asyncGreetExpression")).unwrap(),
        ),
    )
}

#[test]
fn typescript_top_level_arrow_function() {
    let target = r#"const greetArrow = () : void => {
    console.log("Hello from arrow function!");
}"#;

    let tree = typescript_source_tree();
    let ra: TypescriptAnalyser = Default::default();

    assert_eq!(
        target,
        node_value(
            TYPESCRIPT_SOURCE,
            ra.find_correct_node(TYPESCRIPT_SOURCE, &tree, None, Some("greetArrow")).unwrap(),
        ),
    )
}

#[test]
fn typescript_async_top_level_arrow_function() {
    let target = r#"const asyncGreetArrow = async () : Promise<void> => {
    console.log("Hello from async arrow function!");
}"#;

    let tree = typescript_source_tree();
    let ra: TypescriptAnalyser = Default::default();

    assert_eq!(
        target,
        node_value(
            TYPESCRIPT_SOURCE,
            ra.find_correct_node(TYPESCRIPT_SOURCE, &tree, None, Some("asyncGreetArrow")).unwrap(),
        ),
    )
}

#[test]
fn typescript_method() {
    let target = r#"greet() : void {
        console.log("Hello from method in a class!");
    }"#;

    let tree = typescript_source_tree();
    let ra: TypescriptAnalyser = Default::default();

    assert_eq!(
        target,
        node_value(
            TYPESCRIPT_SOURCE,
            ra.find_correct_node(TYPESCRIPT_SOURCE, &tree, Some("Greeter"), Some("greet")).unwrap(),
        ),
    )
}

#[test]
fn typescript_async_method() {
    let target = r#"async asyncGreet() : Promise<void> {
        console.log("Hello from async method in a class!");
    }"#;

    let tree = typescript_source_tree();
    let ra: TypescriptAnalyser = Default::default();

    assert_eq!(
        target,
        node_value(
            TYPESCRIPT_SOURCE,
            ra.find_correct_node(TYPESCRIPT_SOURCE, &tree, Some("Greeter"), Some("asyncGreet")).unwrap(),
        ),
    )
}

#[test]
fn typescript_missing_cases_are_told_apart() {
    let tree = typescript_source_tree();
    let ra: TypescriptAnalyser = Default::default();

    assert_eq!(
        ra.find_correct_node(TYPESCRIPT_SOURCE, &tree, Some("Stranger"), Some("greet")),
        Err(LocateError::ParentNotFound { parent: "Stranger".to_string() }),
    );
    assert_eq!(
        ra.find_correct_node(TYPESCRIPT_SOURCE, &tree, Some("Greeter"), Some("farewell")),
        Err(LocateError::FunctionNotFound { function: "farewell".to_string() }),
    );
    assert_eq!(
        ra.find_correct_node(TYPESCRIPT_SOURCE, &tree, None, Some("farewell")),
        Err(LocateError::FunctionNotFound { function: "farewell".to_string() }),
    );
    assert_eq!(
        ra.find_correct_node(TYPESCRIPT_SOURCE, &tree, None, Some("greeter")),
        Err(LocateError::FunctionNotFound { function: "greeter".to_string() }),
    );
}

#[test]
fn typescript_parent_picks_its_own_class() {
    let source = "class B {\n    greet() { b(); }\n}\n\nclass A {\n    greet() { a(); }\n}\n";
    let tree = parse_source_with_language(source, tree_sitter_typescript::language_typescript()).unwrap();
    let ra: TypescriptAnalyser = Default::default();

    let a = ra.find_correct_node(source, &tree, Some("A"), Some("greet")).unwrap();
    let b = ra.find_correct_node(source, &tree, Some("B"), Some("greet")).unwrap();
    assert_eq!(node_value(source, a), "greet() { a(); }");
    assert_eq!(node_value(source, b), "greet() { b(); }");
    assert_eq!(ra.name(), "typescript");
}

#[test]
fn typescript_plain_binding_is_not_a_function() {
    let source = "const answer = 42;\nconst ask = () => answer;\n";
    let tree = parse_source_with_language(source, tree_sitter_typescript::language_typescript()).unwrap();
    let ra: TypescriptAnalyser = Default::default();

    assert_eq!(
        ra.find_correct_node(source, &tree, None, Some("answer")),
        Err(LocateError::FunctionNotFound { function: "answer".to_string() }),
    );
    let ask = ra.find_correct_node(source, &tree, None, Some("ask")).unwrap();
    assert_eq!(node_value(source, ask), "const ask = () => answer;");
}
