//! The instructions sent along with the located code to the service that
//! proposes a rewrite.
use vstd::prelude::*;

verus! {

/// What the rewrite is asked for: the named function in `code`, or all of it.
pub open spec fn task_text(code: Seq<char>, function_name: Option<Seq<char>>) -> Seq<char> {
    match function_name {
        Some(f) => "the function named "@ + f + " contained in the following code:\n "@ + code,
        None => "the following code:\n "@ + code,
    }
}

/// The word that opens the instruction on comments.
pub open spec fn comments_text(add_comments: bool) -> Seq<char> {
    if add_comments {
        "Do"@
    } else {
        "Absolutely do not"@
    }
}

/// The optional sixth instruction.
pub open spec fn context_text(extra_context: Option<Seq<char>>) -> Seq<char> {
    match extra_context {
        Some(c) => "6. "@ + c,
        None => Seq::empty(),
    }
}

/// The whole instruction text.
pub open spec fn instructions(
    code: Seq<char>,
    function_name: Option<Seq<char>>,
    add_comments: bool,
    extra_context: Option<Seq<char>>,
) -> Seq<char> {
    "You are a senior software engineer.\n\nYour task is to optimise "@ + task_text(
        code,
        function_name,
    ) + "\n\nStrictly adhere to the following instructions:\n1. Do not change the type signature.\n2. Only propose small, incremental changes.\n3. "@
        + comments_text(add_comments)
        + " add comments.\n4. Respond only with code, and no commentary or explanations.\n5. If the code cannot be optimised further, respond with \"OPTIMAL\"\n"@
        + context_text(extra_context) + "\n"@
}

/// The view of an optional string.
pub open spec fn opt_view(s: &Option<String>) -> Option<Seq<char>> {
    match s {
        Some(v) => Some(v@),
        None => None,
    }
}

/// Drafts the instructions for optimising `code`, or the function named
/// `function_name` in it.
pub fn draft_instructions(
    code: &str,
    function_name: &Option<String>,
    add_comments: bool,
    extra_context: &Option<String>,
) -> (r: String)
    ensures
        r@ == instructions(code@, opt_view(function_name), add_comments, opt_view(extra_context)),
{
    let mut text = String::from_str("You are a senior software engineer.\n\nYour task is to optimise ");
    match function_name {
        Some(f) => {
            text.append("the function named ");
            text.append(f.as_str());
            text.append(" contained in the following code:\n ");
        },
        None => {
            text.append("the following code:\n ");
        },
    }
    text.append(code);
    text.append(
        "\n\nStrictly adhere to the following instructions:\n1. Do not change the type signature.\n2. Only propose small, incremental changes.\n3. ",
    );
    if add_comments {
        text.append("Do");
    } else {
        text.append("Absolutely do not");
    }
    text.append(
        " add comments.\n4. Respond only with code, and no commentary or explanations.\n5. If the code cannot be optimised further, respond with \"OPTIMAL\"\n",
    );
    if let Some(c) = extra_context {
        text.append("6. ");
        text.append(c.as_str());
    }
    text.append("\n");
    proof {
        assert(text@ =~= instructions(
            code@,
            opt_view(function_name),
            add_comments,
            opt_view(extra_context),
        ));
    }
    text
}

} // verus!
