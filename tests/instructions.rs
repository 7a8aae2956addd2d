use function_locator::draft_instructions;

#[test]
fn instructions_for_a_named_function() {
    let text = draft_instructions("fn f() {}", &Some("f".to_string()), true, &Some("Be brief.".to_string()));
    assert_eq!(
        text,
        "You are a senior software engineer.\n\nYour task is to optimise the function named f contained in the following code:\n fn f() {}\n\nStrictly adhere to the following instructions:\n1. Do not change the type signature.\n2. Only propose small, incremental changes.\n3. Do add comments.\n4. Respond only with code, and no commentary or explanations.\n5. If the code cannot be optimised further, respond with \"OPTIMAL\"\n6. Be brief.\n"
    );
}

#[test]
fn instructions_for_a_whole_file() {
    let text = draft_instructions("x", &None, false, &None);
    assert_eq!(
        text,
        "You are a senior software engineer.\n\nYour task is to optimise the following code:\n x\n\nStrictly adhere to the following instructions:\n1. Do not change the type signature.\n2. Only propose small, incremental changes.\n3. Absolutely do not add comments.\n4. Respond only with code, and no commentary or explanations.\n5. If the code cannot be optimised further, respond with \"OPTIMAL\"\n\n"
    );
}
