//! Prompt construction for the solution and hint generators; the model
//! calls themselves live with the callers.

use vstd::prelude::*;

use crate::text::{chars_of, push_all, string_of};
use vstd::string::StrSliceExecFns;

verus! {

/// The context block: what was supplied, or a fixed note.
pub open spec fn spec_context_block(context: Seq<char>) -> Seq<char> {
    if context.len() == 0 {
        "None provided"@
    } else {
        context
    }
}

/// The prompt asking for a full step-by-step solution.
pub open spec fn spec_solution_prompt(problem: Seq<char>, context: Seq<char>) -> Seq<char> {
    "Solve the following math problem step by step. Explain each step clearly.\n\nProblem:\n"@
        + problem + "\n\nRelevant theory/context from textbook:\n"@ + spec_context_block(context)
        + "\n\nRequirements:\n1. Provide a detailed, step-by-step solution\n2. Explain the reasoning behind each step\n3. Use LaTeX for all mathematical expressions ($...$ for inline, $$...$$ for display math)\n4. If multiple solution methods exist, show the most straightforward one\n5. State the final answer clearly at the end\n6. Use Russian language for the explanation (as the problem is in Russian)\n\nSolution:"@
}

/// Build the prompt for generating a solution.
pub fn build_solution_prompt(problem: &str, context: &str) -> (r: String)
    ensures
        r@ == spec_solution_prompt(problem@, context@),
{
    let mut out = chars_of(
        "Solve the following math problem step by step. Explain each step clearly.\n\nProblem:\n",
    );
    let pv = chars_of(problem);
    push_all(&mut out, &pv);
    let mid = chars_of("\n\nRelevant theory/context from textbook:\n");
    push_all(&mut out, &mid);
    let ctx = if context.unicode_len() == 0 {
        chars_of("None provided")
    } else {
        chars_of(context)
    };
    push_all(&mut out, &ctx);
    let tail = chars_of(
        "\n\nRequirements:\n1. Provide a detailed, step-by-step solution\n2. Explain the reasoning behind each step\n3. Use LaTeX for all mathematical expressions ($...$ for inline, $$...$$ for display math)\n4. If multiple solution methods exist, show the most straightforward one\n5. State the final answer clearly at the end\n6. Use Russian language for the explanation (as the problem is in Russian)\n\nSolution:",
    );
    push_all(&mut out, &tail);
    proof {
        assert(out@ =~= spec_solution_prompt(problem@, context@));
    }
    string_of(&out)
}

/// The guidance line for each hint strength.
pub open spec fn spec_level_hint(hint_level: u8) -> Seq<char> {
    if hint_level == 1 {
        "Provide a VERY minimal hint - just point in the right direction without specifics."@
    } else if hint_level == 2 {
        "Provide a moderate hint - give a clue about the approach or formula to use."@
    } else if hint_level == 3 {
        "Provide a strong hint - outline the steps without giving the final answer."@
    } else {
        "Provide a hint appropriate for the problem."@
    }
}

/// The prompt asking for a hint of the given strength.
pub open spec fn spec_hint_prompt(problem: Seq<char>, context: Seq<char>, hint_level: u8) -> Seq<
    char,
> {
    "Provide a helpful hint for the following math problem. "@ + spec_level_hint(hint_level)
        + "\n\nProblem:\n"@ + problem + "\n\nRelevant theory/context from textbook:\n"@
        + spec_context_block(context)
        + "\n\nRequirements:\n1. Do NOT give the full solution\n2. Do NOT give the final answer\n3. Provide a hint that helps the student think in the right direction\n4. Use LaTeX for any mathematical expressions ($...$ for inline)\n5. Use Russian language\n\nHint:"@
}

/// Build the prompt for generating a hint of the given strength.
pub fn build_hint_prompt(problem: &str, context: &str, hint_level: u8) -> (r: String)
    ensures
        r@ == spec_hint_prompt(problem@, context@, hint_level),
{
    let mut out = chars_of("Provide a helpful hint for the following math problem. ");
    let level = if hint_level == 1 {
        chars_of(
            "Provide a VERY minimal hint - just point in the right direction without specifics.",
        )
    } else if hint_level == 2 {
        chars_of("Provide a moderate hint - give a clue about the approach or formula to use.")
    } else if hint_level == 3 {
        chars_of("Provide a strong hint - outline the steps without giving the final answer.")
    } else {
        chars_of("Provide a hint appropriate for the problem.")
    };
    push_all(&mut out, &level);
    let p1 = chars_of("\n\nProblem:\n");
    push_all(&mut out, &p1);
    let pv = chars_of(problem);
    push_all(&mut out, &pv);
    let mid = chars_of("\n\nRelevant theory/context from textbook:\n");
    push_all(&mut out, &mid);
    let ctx = if context.unicode_len() == 0 {
        chars_of("None provided")
    } else {
        chars_of(context)
    };
    push_all(&mut out, &ctx);
    let tail = chars_of(
        "\n\nRequirements:\n1. Do NOT give the full solution\n2. Do NOT give the final answer\n3. Provide a hint that helps the student think in the right direction\n4. Use LaTeX for any mathematical expressions ($...$ for inline)\n5. Use Russian language\n\nHint:",
    );
    push_all(&mut out, &tail);
    proof {
        assert(out@ =~= spec_hint_prompt(problem@, context@, hint_level));
    }
    string_of(&out)
}

} // verus!
