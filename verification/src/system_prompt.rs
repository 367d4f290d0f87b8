//! System prompt construction for the agent.

use vstd::prelude::*;

use crate::json::{pretty_json, print_pretty_json, Json};
use crate::text::{byte_len, chars_of, string_between, utf8_len};
use crate::types::{ToolDefinition, ToolDefinitionView};

verus! {

/// The description of a tool.
pub open spec fn tool_section(tool: ToolDefinitionView) -> Seq<char> {
    "### "@ + tool.name + "\n"@ + tool.description + "\n\n"@ + if tool.parameters is Null {
        seq![]
    } else {
        "Parameters:\n"@ + "```json\n"@ + pretty_json(tool.parameters) + "\n```\n\n"@
    }
}

/// The descriptions of tools.
pub open spec fn tool_sections(tools: Seq<ToolDefinitionView>) -> Seq<char>
    decreases tools.len(),
{
    if tools.len() == 0 {
        seq![]
    } else {
        tool_sections(tools.drop_last()) + tool_section(tools.last())
    }
}

/// A system prompt: what it is to say, where the agent works, and what tools it
/// has.
pub open spec fn system_prompt(
    base: Option<Seq<char>>,
    tools: Seq<ToolDefinitionView>,
    working_dir: Seq<char>,
) -> Seq<char> {
    (match base {
        Some(text) => text,
        None => "You are a helpful coding assistant."@,
    }) + "\n\n"@ + "Working directory: "@ + working_dir + "\n\n"@ + if tools.len() == 0 {
        seq![]
    } else {
        "## Available Tools\n\n"@
            + "You have access to the following tools. Use them to help the user.\n\n"@
            + tool_sections(tools)
    }
}

fn push_tool_section(prompt: &mut String, tool: &ToolDefinition)
    ensures
        final(prompt)@ == old(prompt)@ + tool_section(tool.deep_view()),
{
    let ghost before = prompt@;
    prompt.push_str("### ");
    prompt.push_str(&tool.name);
    prompt.push_str("\n");
    prompt.push_str(&tool.description);
    prompt.push_str("\n\n");
    match &tool.parameters {
        Json::Null => {},
        parameters => {
            prompt.push_str("Parameters:\n");
            prompt.push_str("```json\n");
            prompt.push_str(&print_pretty_json(parameters));
            prompt.push_str("\n```\n\n");
        },
    }
    assert(prompt@ =~= before + tool_section(tool.deep_view()));
}

/// Build a system prompt that includes tool descriptions.
pub fn build_system_prompt(
    base_prompt: Option<&str>,
    tools: &Vec<ToolDefinition>,
    working_dir: &str,
) -> (r: String)
    ensures
        r@ == system_prompt(base_prompt.deep_view(), tools.deep_view(), working_dir@),
{
    let mut prompt: String = String::new();
    match base_prompt {
        Some(text) => {
            prompt.push_str(text);
        },
        None => {
            prompt.push_str("You are a helpful coding assistant.");
        },
    }
    prompt.push_str("\n\n");
    prompt.push_str("Working directory: ");
    prompt.push_str(working_dir);
    prompt.push_str("\n\n");
    if tools.len() > 0 {
        let ghost all = tools.deep_view();
        let ghost start = prompt@;
        let ghost title = "## Available Tools\n\n"@
            + "You have access to the following tools. Use them to help the user.\n\n"@;
        prompt.push_str("## Available Tools\n\n");
        prompt.push_str("You have access to the following tools. Use them to help the user.\n\n");
        let mut i: usize = 0;
        assert(all.take(0) =~= seq![]);
        assert(prompt@ =~= start + (title + tool_sections(all.take(0))));
        while i < tools.len()
            invariant
                all == tools.deep_view(),
                i <= tools@.len(),
                prompt@ == start + (title + tool_sections(all.take(i as int))),
            decreases tools@.len() - i,
        {
            assert(all.take(i + 1).drop_last() =~= all.take(i as int));
            assert(all.take(i + 1).last() == tools@[i as int].deep_view());
            push_tool_section(&mut prompt, &tools[i]);
            i = i + 1;
            assert(prompt@ =~= start + (title + tool_sections(all.take(i as int))));
        }
        assert(all.take(all.len() as int) =~= all);
    }
    assert(prompt@ =~= system_prompt(base_prompt.deep_view(), tools.deep_view(), working_dir@));
    prompt
}

/// Format a tool call for human-readable display.
pub fn format_tool_call_for_display(name: &str, args: &Json) -> (r: String)
    ensures
        r@ == "Tool: "@ + name@ + "\nArgs: "@ + pretty_json(args.deep_view()),
{
    let mut r: String = "Tool: ".to_owned();
    r.push_str(name);
    r.push_str("\nArgs: ");
    r.push_str(&print_pretty_json(args));
    r
}

/// A tool result as it is displayed: of one with more than 500 bytes, no more
/// than the first 500 characters.
pub open spec fn displayed_result(result: Seq<char>, is_error: bool) -> Seq<char> {
    if is_error {
        "Error: "@ + result
    } else if utf8_len(result) > 500 {
        "Result: "@ + result.take(
            if result.len() < 500 {
                result.len() as int
            } else {
                500
            },
        ) + "...(truncated)"@
    } else {
        "Result: "@ + result
    }
}

/// Format a tool result for display.
pub fn format_tool_result_for_display(result: &str, is_error: bool) -> (r: String)
    ensures
        r@ == displayed_result(result@, is_error),
{
    if is_error {
        let mut r: String = "Error: ".to_owned();
        r.push_str(result);
        return r;
    }
    let mut r: String = "Result: ".to_owned();
    if byte_len(result) > 500 {
        let chars: Vec<char> = chars_of(result);
        let end: usize = if chars.len() < 500 {
            chars.len()
        } else {
            500
        };
        let shown: String = string_between(&chars, 0, end);
        assert(shown@ =~= result@.take(end as int));
        r.push_str(&shown);
        r.push_str("...(truncated)");
    } else {
        r.push_str(result);
    }
    r
}

} // verus!
