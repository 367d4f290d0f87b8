//! What holds of what is shown: texts of errors, prompts, notes and summaries.

use vstd::prelude::*;

use crate::agent::{choice_error_text, ProviderChoiceError};
use crate::agent_loop::EventView;
use crate::cli::{input_of, text_argument, tool_summary, InputView};
use crate::compaction::CompactionView;
use crate::config::{config_error_text, value_named, ConfigErrorView};
use crate::display::{
    compactions_with, print_of, rendered, summary_for, text_with, truncated, without_summary,
    PrintedView, Summaries, TuiView,
};
use crate::error::{error_text, http_error, provider_error_text, ErrorView, ProviderErrorView};
use crate::http::shown_body;
use crate::json::{field, pretty_json, JsonView};
use crate::reconnect::exhausted_text;
use crate::streaming::{sse_error_text, SseError};
use crate::system_prompt::{displayed_result, system_prompt, tool_section, tool_sections};
use crate::text::{
    contains, decimal, index_of, lemma_index_of, trimmed, u32_error_text, uppercase, utf8_len,
};
use crate::text_laws::{
    is_blank, law_fitting, law_trimmed, lemma_contains_part, lemma_contains_within,
};
use crate::types::{
    blocks_text, content_text, escaped, escaped_char, model_parts, BlockView, ContentView,
    ToolDefinitionView,
};

verus! {

// ---------------------------------------------------------------------------
// Shortened texts
// ---------------------------------------------------------------------------

/// A text that is short enough is shown as it is; of a longer one, as many characters as
/// there may be, and three dots.
pub proof fn law_truncated(text: Seq<char>, max: nat)
    ensures
        text.len() <= max ==> truncated(text, max) == text,
        text.len() > max ==> truncated(text, max).len() == max + 3 && truncated(text, max).take(
            max as int,
        ) == text.take(max as int),
{
    reveal_strlit("...");
    if text.len() > max {
        assert(truncated(text, max).take(max as int) =~= text.take(max as int));
    }
}

/// Of the body of a response no more than 512 bytes are shown, as many characters as fit.
pub proof fn law_shown_body(text: Seq<char>) -> (k: int)
    ensures
        utf8_len(text) <= 512 ==> shown_body(text) == text,
        utf8_len(text) > 512 ==> {
            &&& 0 <= k <= text.len()
            &&& shown_body(text) == text.take(k) + "...(truncated)"@
            &&& utf8_len(text.take(k)) <= 512
            &&& k < text.len() ==> utf8_len(text.take(k + 1)) > 512
        },
{
    law_fitting(text, 512)
}

/// The result of a tool is shown in full where it is short or an error; of a long one the
/// first characters are.
pub proof fn law_displayed_result(result: Seq<char>, is_error: bool)
    ensures
        is_error || utf8_len(result) <= 500 ==> contains(displayed_result(result, is_error), result),
        !is_error && utf8_len(result) > 500 ==> contains(
            displayed_result(result, is_error),
            result.take(
                if result.len() < 500 {
                    result.len() as int
                } else {
                    500
                },
            ),
        ),
{
    let shown = displayed_result(result, is_error);
    if is_error {
        lemma_contains_part("Error: "@, result, seq![]);
        assert("Error: "@ + result + Seq::<char>::empty() =~= shown);
    } else if utf8_len(result) <= 500 {
        lemma_contains_part("Result: "@, result, seq![]);
        assert("Result: "@ + result + Seq::<char>::empty() =~= shown);
    } else {
        lemma_contains_part(
            "Result: "@,
            result.take(
                if result.len() < 500 {
                    result.len() as int
                } else {
                    500
                },
            ),
            "...(truncated)"@,
        );
    }
}

// ---------------------------------------------------------------------------
// Events
// ---------------------------------------------------------------------------

/// The output is what the model says, and nothing else but line ends between turns. What
/// the tools do, how the run ended and what went wrong is told in notes.
pub proof fn law_print_of(event: EventView)
    ensures
        event matches EventView::TextDelta { text } ==> print_of(event) == (PrintedView::Output {
            text,
        }),
        print_of(event) matches PrintedView::Output { text } ==> event == (EventView::TextDelta {
            text,
        }) || event is TurnEnd && text == "\n"@,
        event matches EventView::ToolExecutionStart { name, .. } ==> (
        print_of(event) matches PrintedView::Note { text } && contains(text, name)),
        event matches EventView::ToolExecutionEnd { outcome, is_error, .. } ==> (
        print_of(event) matches PrintedView::Note { text } && contains(
            text,
            if is_error {
                outcome
            } else {
                truncated(outcome, 200)
            },
        )),
        event matches EventView::Done { turns, total_usage } ==> (
        print_of(event) matches PrintedView::Note { text } && contains(text, decimal(turns as nat))
            && contains(text, decimal(total_usage.total_tokens as nat))),
        event matches EventView::Error { error } ==> (print_of(event) matches PrintedView::Note {
            text,
        } && contains(text, error)),
{
    match event {
        EventView::ToolExecutionStart { name, .. } => {
            lemma_contains_part("\n[Tool: "@, name, "]\n"@);
        },
        EventView::ToolExecutionEnd { outcome, is_error, .. } => {
            lemma_contains_part("[Error: "@, outcome, "]\n"@);
            lemma_contains_part("[Result: "@, truncated(outcome, 200), "]\n"@);
        },
        EventView::Done { turns, total_usage } => {
            let a = decimal(turns as nat);
            let b = decimal(total_usage.total_tokens as nat);
            let head = "\n[Completed in "@;
            let middle = " turns, "@;
            let tail = " tokens]\n"@;
            let text = head + a + middle + b + tail;
            lemma_contains_part(head, a, middle + b + tail);
            assert(head + a + (middle + b + tail) =~= text);
            lemma_contains_part(head + a + middle, b, tail);
        },
        EventView::Error { error } => {
            lemma_contains_part("\n[Error: "@, error, "]\n"@);
        },
        _ => {},
    }
}

/// The text of a turn is what the model said in it, put together, and its compactions are
/// those that were completed, in order. Other events change neither.
pub proof fn law_turn_output(
    text: Seq<char>,
    list: Seq<CompactionView>,
    event: EventView,
)
    ensures
        event matches EventView::TextDelta { text: more } ==> text_with(text, event) == text + more
            && compactions_with(list, event) == list,
        event matches EventView::CompactionComplete { compaction } ==> compactions_with(list, event)
            == list.push(compaction) && text_with(text, event) == text,
        !(event is TextDelta) ==> text_with(text, event) == text,
        !(event is CompactionComplete) ==> compactions_with(list, event) == list,
{
}

/// No two tools that run have the same identifier.
pub open spec fn are_distinct(summaries: Summaries) -> bool {
    forall|i: int, j: int|
        0 <= i < j < summaries.len() ==> (#[trigger] summaries[i]).0 != (#[trigger] summaries[j]).0
}

proof fn lemma_without(summaries: Summaries, id: Seq<char>, other: Seq<char>)
    requires
        are_distinct(summaries),
    ensures
        value_named(without_summary(summaries, id), id) is None,
        other != id ==> value_named(without_summary(summaries, id), other) == value_named(
            summaries,
            other,
        ),
    decreases summaries.len(),
{
    let left = without_summary(summaries, id);
    if summaries.len() > 0 {
        let rest = summaries.skip(1);
        assert forall|i: int, j: int| 0 <= i < j < rest.len() implies (#[trigger] rest[i]).0 != (
        #[trigger] rest[j]).0 by {
            assert(rest[i] == summaries[i + 1] && rest[j] == summaries[j + 1]);
        }
        if summaries[0].0 == id {
            assert(left == rest);
            lemma_absent(rest, id, summaries[0], summaries);
        } else {
            lemma_without(rest, id, other);
            assert(left.skip(1) =~= without_summary(rest, id));
            assert(left[0] == summaries[0]);
        }
    }
}

proof fn lemma_absent(
    rest: Summaries,
    id: Seq<char>,
    first: (Seq<char>, Option<Seq<char>>),
    all: Summaries,
)
    requires
        all.len() > 0,
        all[0] == first,
        first.0 == id,
        rest == all.skip(1),
        are_distinct(all),
    ensures
        value_named(rest, id) is None,
{
    assert forall|i: int| 0 <= i < rest.len() implies (#[trigger] rest[i]).0 != id by {
        assert(rest[i] == all[i + 1]);
        assert(all[0].0 != all[i + 1].0);
    }
    lemma_none_named(rest, id);
}

proof fn lemma_none_named(summaries: Summaries, id: Seq<char>)
    requires
        forall|i: int| 0 <= i < summaries.len() ==> (#[trigger] summaries[i]).0 != id,
    ensures
        value_named(summaries, id) is None,
    decreases summaries.len(),
{
    if summaries.len() > 0 {
        let rest = summaries.skip(1);
        assert forall|i: int| 0 <= i < rest.len() implies (#[trigger] rest[i]).0 != id by {
            assert(rest[i] == summaries[i + 1]);
        }
        lemma_none_named(rest, id);
    }
}

proof fn lemma_pushed(
    summaries: Summaries,
    id: Seq<char>,
    summary: Option<Seq<char>>,
    other: Seq<char>,
)
    requires
        value_named(summaries, id) is None,
    ensures
        value_named(summaries.push((id, summary)), id) == Some(summary),
        other != id ==> value_named(summaries.push((id, summary)), other) == value_named(
            summaries,
            other,
        ),
    decreases summaries.len(),
{
    let more = summaries.push((id, summary));
    if summaries.len() == 0 {
        assert(more.skip(1) =~= seq![]);
        assert(value_named(more.skip(1), other) is None);
    } else {
        lemma_pushed(summaries.skip(1), id, summary, other);
        assert(more.skip(1) =~= summaries.skip(1).push((id, summary)));
        assert(more[0] == summaries[0]);
    }
}

/// A tool that has finished is shown with what was shown when it started, by the
/// identifier of its call, which is then forgotten. What is shown of other tools is not
/// touched by either.
pub proof fn law_finished_tool_is_shown_as_it_started(
    summaries: Summaries,
    id: Seq<char>,
    name: Seq<char>,
    arguments: JsonView,
    end_name: Seq<char>,
    outcome: Seq<char>,
    is_error: bool,
    other: Seq<char>,
)
    requires
        are_distinct(summaries),
        other != id,
    ensures
        ({
            let start = EventView::ToolExecutionStart { id, name, arguments };
            let end = EventView::ToolExecutionEnd { id, name: end_name, outcome, is_error };
            let (running, started) = rendered(summaries, start);
            let (left, finished) = rendered(running, end);
            let summary = tool_summary(name, arguments);
            &&& started == Some(TuiView::ToolStarted { name, summary })
            &&& finished == Some(TuiView::ToolFinished { name: end_name, summary, is_error })
            &&& summary_for(running, other) == summary_for(summaries, other)
            &&& are_distinct(running)
            &&& summary_for(left, id) is None
            &&& summary_for(left, other) == summary_for(summaries, other)
        }),
{
    let left = without_summary(summaries, id);
    let summary = tool_summary(name, arguments);
    lemma_without(summaries, id, other);
    lemma_pushed(left, id, summary, other);
    lemma_still_distinct(summaries, id, summary);
    lemma_without(left.push((id, summary)), id, other);
}

proof fn lemma_still_distinct(summaries: Summaries, id: Seq<char>, summary: Option<Seq<char>>)
    requires
        are_distinct(summaries),
    ensures
        are_distinct(without_summary(summaries, id).push((id, summary))),
        forall|i: int|
            0 <= i < without_summary(summaries, id).len() ==> summaries.contains(
                #[trigger] without_summary(summaries, id)[i],
            ) && without_summary(summaries, id)[i].0 != id,
    decreases summaries.len(),
{
    let left = without_summary(summaries, id);
    if summaries.len() > 0 {
        let rest = summaries.skip(1);
        assert forall|i: int, j: int| 0 <= i < j < rest.len() implies (#[trigger] rest[i]).0 != (
        #[trigger] rest[j]).0 by {
            assert(rest[i] == summaries[i + 1] && rest[j] == summaries[j + 1]);
        }
        if summaries[0].0 == id {
            assert forall|i: int| 0 <= i < left.len() implies summaries.contains(
                #[trigger] left[i],
            ) && left[i].0 != id by {
                assert(left[i] == summaries[i + 1]);
                assert(summaries[0].0 != summaries[i + 1].0);
            }
            assert forall|i: int, j: int| 0 <= i < j < left.len() implies (#[trigger] left[i]).0
                != (#[trigger] left[j]).0 by {
                assert(left[i] == rest[i] && left[j] == rest[j]);
            }
        } else {
            lemma_still_distinct(rest, id, summary);
            let tail = without_summary(rest, id);
            assert(left == seq![summaries[0]] + tail);
            assert forall|i: int| 0 <= i < left.len() implies summaries.contains(
                #[trigger] left[i],
            ) && left[i].0 != id by {
                if i == 0 {
                    assert(left[0] == summaries[0]);
                } else {
                    assert(left[i] == tail[i - 1]);
                    let k = choose|k: int| 0 <= k < rest.len() && rest[k] == tail[i - 1];
                    assert(summaries[k + 1] == left[i]);
                }
            }
            let more = left.push((id, summary));
            let fewer = tail.push((id, summary));
            assert forall|i: int, j: int| 0 <= i < j < more.len() implies (#[trigger] more[i]).0
                != (#[trigger] more[j]).0 by {
                assert(more[j] == fewer[j - 1]);
                if i > 0 {
                    assert(more[i] == fewer[i - 1]);
                } else if j < left.len() {
                    assert(more[j] == tail[j - 1]);
                    let k = choose|k: int| 0 <= k < rest.len() && rest[k] == tail[j - 1];
                    assert(summaries[k + 1] == more[j]);
                    assert(summaries[0].0 != summaries[k + 1].0);
                }
            }
        }
    }
}

/// The renderer is told what the model says, word for word, and what went wrong.
pub proof fn law_rendered_texts(summaries: Summaries, event: EventView)
    ensures
        event matches EventView::TextDelta { text } ==> rendered(summaries, event) == (
            summaries,
            Some(TuiView::AssistantDelta { text }),
        ),
        event matches EventView::Error { error } ==> rendered(summaries, event) == (
            summaries,
            Some(TuiView::RendererWarning { text: error }),
        ),
        event is TurnEnd || event is Done ==> rendered(summaries, event) == (
            summaries,
            Some(TuiView::TurnFinished),
        ),
{
}

// ---------------------------------------------------------------------------
// Tool calls
// ---------------------------------------------------------------------------

/// Of a call of a tool for files its path is shown, of a search its pattern and where it
/// searches, and of a command nothing that it holds. What is missing or empty is not
/// shown.
pub proof fn law_tool_summary(arguments: JsonView, path: Seq<char>, pattern: Seq<char>)
    ensures
        tool_summary("bash"@, arguments) == Some("command"@),
        path.len() > 0 && field(arguments, "path"@) == Some(JsonView::Text(path)) ==> {
            &&& tool_summary("read_file"@, arguments) == Some(path)
            &&& tool_summary("write_file"@, arguments) == Some(path)
            &&& tool_summary("edit_file"@, arguments) == Some(path)
            &&& tool_summary("ls"@, arguments) == Some(path)
        },
        text_argument(arguments, "path"@) is None ==> tool_summary("read_file"@, arguments) is None
            && tool_summary("ls"@, arguments) is None,
        pattern.len() > 0 && field(arguments, "pattern"@) == Some(JsonView::Text(pattern)) ==> {
            &&& tool_summary("find"@, arguments) matches Some(shown) && contains(shown, pattern)
            &&& tool_summary("grep"@, arguments) matches Some(shown) && contains(shown, pattern)
        },
        text_argument(arguments, "pattern"@) is None ==> tool_summary("find"@, arguments) is None
            && tool_summary("grep"@, arguments) is None,
        text_argument(arguments, "path"@) is Some <==> (field(arguments, "path"@) matches Some(
            JsonView::Text(text),
        ) && text.len() > 0),
{
    reveal_strlit("bash");
    reveal_strlit("read_file");
    reveal_strlit("write_file");
    reveal_strlit("edit_file");
    reveal_strlit("ls");
    reveal_strlit("find");
    reveal_strlit("grep");
    assert("bash"@[0] == 'b' && "read_file"@[0] == 'r' && "write_file"@[0] == 'w');
    assert("edit_file"@[0] == 'e' && "ls"@[0] == 'l' && "find"@[0] == 'f' && "grep"@[0] == 'g');
    if pattern.len() > 0 && field(arguments, "pattern"@) == Some(JsonView::Text(pattern)) {
        let none = Seq::<char>::empty();
        lemma_contains_part(none, pattern, none);
        assert(none + pattern + none =~= pattern);
        lemma_contains_part("pattern "@, pattern, none);
        assert("pattern "@ + pattern + none =~= "pattern "@ + pattern);
        if let Some(p) = text_argument(arguments, "path"@) {
            lemma_contains_part(none, pattern, " in "@ + p);
            assert(none + pattern + (" in "@ + p) =~= pattern + " in "@ + p);
            lemma_contains_part("pattern "@, pattern, " in "@ + p);
            assert("pattern "@ + pattern + (" in "@ + p) =~= "pattern "@ + pattern + " in "@ + p);
        }
    }
}

/// A line that does not start with a slash is said to the model as it is, without white
/// space at its ends, and a blank one is nothing. Each command has its meaning, and any
/// other is unknown.
pub proof fn law_input_of(line: Seq<char>)
    ensures
        is_blank(line) <==> input_of(line) is Nothing,
        input_of(line) matches InputView::Message { text } ==> text == trimmed(line) && text.len()
            > 0 && text[0] != '/',
        trimmed(line).len() > 0 && trimmed(line)[0] != '/' ==> input_of(line) is Message,
        input_of(line) is Quit <==> trimmed(line) == "/quit"@ || trimmed(line) == "/exit"@
            || trimmed(line) == "/q"@,
        input_of(line) is Help <==> trimmed(line) == "/help"@ || trimmed(line) == "/h"@,
        input_of(line) is Clear <==> trimmed(line) == "/clear"@ || trimmed(line) == "/c"@,
        input_of(line) is ShowConfig <==> trimmed(line) == "/config"@,
        input_of(line) is ShowModel <==> trimmed(line) == "/model"@,
        input_of(line) matches InputView::Unknown { command } ==> command == trimmed(line)
            && command.len() > 0 && command[0] == '/',
{
    law_trimmed(line);
    let text = trimmed(line);
    reveal_strlit("/");
    reveal_strlit("/quit");
    reveal_strlit("/exit");
    reveal_strlit("/q");
    reveal_strlit("/help");
    reveal_strlit("/h");
    reveal_strlit("/clear");
    reveal_strlit("/c");
    reveal_strlit("/config");
    reveal_strlit("/model");
    assert("/quit"@[0] == '/' && "/exit"@[0] == '/' && "/q"@[0] == '/' && "/help"@[0] == '/'
        && "/h"@[0] == '/' && "/clear"@[0] == '/' && "/c"@[0] == '/' && "/config"@[0] == '/'
        && "/model"@[0] == '/');
    assert("/quit"@[1] == 'q' && "/exit"@[1] == 'e' && "/q"@[1] == 'q' && "/help"@[1] == 'h'
        && "/h"@[1] == 'h' && "/clear"@[1] == 'c' && "/c"@[1] == 'c' && "/config"@[1] == 'c'
        && "/model"@[1] == 'm');
    assert("/clear"@.len() == 6 && "/c"@.len() == 2 && "/config"@.len() == 7);
    if text.len() > 0 {
        assert(text.subrange(0, 1)[0] == text[0]);
        if text[0] == '/' {
            assert(text.subrange(0, 1) =~= "/"@);
        }
    }
}

// ---------------------------------------------------------------------------
// Prompts
// ---------------------------------------------------------------------------

/// A system prompt starts with what it is to say, names the directory, and describes each
/// tool by its name, its description and, where it has parameters, its schema.
pub proof fn law_system_prompt_holds(
    base: Seq<char>,
    tools: Seq<ToolDefinitionView>,
    working_dir: Seq<char>,
    i: int,
)
    requires
        0 <= i < tools.len(),
    ensures
        ({
            let prompt = system_prompt(Some(base), tools, working_dir);
            &&& prompt.take(base.len() as int) == base
            &&& contains(prompt, "Working directory: "@ + working_dir)
            &&& contains(prompt, tools[i].name)
            &&& contains(prompt, tools[i].description)
            &&& !(tools[i].parameters is Null) ==> contains(prompt, pretty_json(tools[i].parameters))
        }),
{
    let prompt = system_prompt(Some(base), tools, working_dir);
    let a = "Working directory: "@;
    let b = "## Available Tools\n\n"@;
    let c = "You have access to the following tools. Use them to help the user.\n\n"@;
    let nl = "\n\n"@;
    let all = tool_sections(tools);
    assert(prompt.take(base.len() as int) =~= base);
    lemma_contains_part(base + nl, a + working_dir, nl + (b + c + all));
    assert(base + nl + (a + working_dir) + (nl + (b + c + all)) =~= prompt);
    lemma_contains_part(base + nl + a + working_dir + nl + b + c, all, seq![]);
    assert(base + nl + a + working_dir + nl + b + c + all + Seq::<char>::empty() =~= prompt);
    lemma_sections(tools, i);
    let section = tool_section(tools[i]);
    lemma_contains_within(prompt, all, section);
    lemma_section(tools[i]);
    lemma_contains_within(prompt, section, tools[i].name);
    lemma_contains_within(prompt, section, tools[i].description);
    if !(tools[i].parameters is Null) {
        lemma_contains_within(prompt, section, pretty_json(tools[i].parameters));
    }
}

proof fn lemma_section(tool: ToolDefinitionView)
    ensures
        contains(tool_section(tool), tool.name),
        contains(tool_section(tool), tool.description),
        !(tool.parameters is Null) ==> contains(tool_section(tool), pretty_json(tool.parameters)),
{
    let section = tool_section(tool);
    let tail = if tool.parameters is Null {
        Seq::<char>::empty()
    } else {
        "Parameters:\n"@ + "```json\n"@ + pretty_json(tool.parameters) + "\n```\n\n"@
    };
    lemma_contains_part("### "@, tool.name, "\n"@ + tool.description + "\n\n"@ + tail);
    assert("### "@ + tool.name + ("\n"@ + tool.description + "\n\n"@ + tail) =~= section);
    lemma_contains_part("### "@ + tool.name + "\n"@, tool.description, "\n\n"@ + tail);
    assert("### "@ + tool.name + "\n"@ + tool.description + ("\n\n"@ + tail) =~= section);
    if !(tool.parameters is Null) {
        let head = "### "@ + tool.name + "\n"@ + tool.description + "\n\n"@ + "Parameters:\n"@
            + "```json\n"@;
        lemma_contains_part(head, pretty_json(tool.parameters), "\n```\n\n"@);
        assert(head + pretty_json(tool.parameters) + "\n```\n\n"@ =~= section);
    }
}

proof fn lemma_sections(tools: Seq<ToolDefinitionView>, i: int)
    requires
        0 <= i < tools.len(),
    ensures
        contains(tool_sections(tools), tool_section(tools[i])),
    decreases tools.len(),
{
    let front = tool_sections(tools.drop_last());
    let own = tool_section(tools.last());
    let all = tool_sections(tools);
    if i == tools.len() - 1 {
        lemma_contains_part(front, own, seq![]);
        assert(front + own + Seq::<char>::empty() =~= all);
    } else {
        lemma_sections(tools.drop_last(), i);
        assert(tools.drop_last()[i] == tools[i]);
        lemma_contains_part(seq![], front, own);
        assert(Seq::<char>::empty() + front + own =~= all);
        lemma_contains_within(all, front, tool_section(tools[i]));
    }
}

// ---------------------------------------------------------------------------
// Texts
// ---------------------------------------------------------------------------

/// The text of content is its text, or that of its text blocks, one after the other.
pub proof fn law_content_text(a: Seq<BlockView>, b: Seq<BlockView>, block: BlockView, text: Seq<char>)
    ensures
        content_text(None).len() == 0,
        content_text(Some(ContentView::Text(text))) == text,
        content_text(Some(ContentView::Blocks(a + b))) == content_text(
            Some(ContentView::Blocks(a)),
        ) + content_text(Some(ContentView::Blocks(b))),
        content_text(Some(ContentView::Blocks(seq![block]))) == match block {
            BlockView::Text { text } => text,
            _ => Seq::empty(),
        },
    decreases b.len(),
{
    assert(seq![block].drop_last() =~= seq![]);
    assert(blocks_text(seq![block].drop_last()) =~= seq![]);
    assert(blocks_text(seq![block]) =~= match block {
        BlockView::Text { text } => text,
        _ => Seq::empty(),
    });
    if b.len() == 0 {
        assert(a + b =~= a);
        assert(blocks_text(a) + blocks_text(b) =~= blocks_text(a));
    } else {
        law_content_text(a, b.drop_last(), block, text);
        assert((a + b).drop_last() =~= a + b.drop_last());
        assert((a + b).last() == b.last());
        assert(blocks_text(a + b) =~= blocks_text(a) + blocks_text(b));
    }
}

/// Text is escaped character by character, so that it can be read back: each of the three
/// characters has an entity of its own, and any other stays.
pub proof fn law_escaped_in_parts(a: Seq<char>, b: Seq<char>, c: char)
    ensures
        escaped(a + b) == escaped(a) + escaped(b),
        escaped(seq![c]) == if c == '&' {
            "&amp;"@
        } else if c == '<' {
            "&lt;"@
        } else if c == '>' {
            "&gt;"@
        } else {
            seq![c]
        },
    decreases b.len(),
{
    assert(seq![c].drop_last() =~= seq![]);
    assert(escaped(seq![c].drop_last()) =~= seq![]);
    assert(escaped(seq![c]) =~= escaped_char(c));
    if b.len() == 0 {
        assert(a + b =~= a);
        assert(escaped(a) + escaped(b) =~= escaped(a));
    } else {
        law_escaped_in_parts(a, b.drop_last(), c);
        assert((a + b).drop_last() =~= a + b.drop_last());
        assert((a + b).last() == b.last());
        assert(escaped(a + b) =~= escaped(a) + escaped(b));
    }
}

/// A text names a provider and a model exactly where both stand there, with the first
/// slash between them.
pub proof fn law_model_parts(s: Seq<char>)
    ensures
        match model_parts(s) {
            Some((provider, model)) => {
                &&& s == provider + seq!['/'] + model
                &&& provider.len() > 0
                &&& model.len() > 0
                &&& forall|i: int| 0 <= i < provider.len() ==> #[trigger] provider[i] != '/'
            },
            None => forall|i: int|
                0 <= i < s.len() && #[trigger] s[i] == '/' && (forall|j: int|
                    0 <= j < i ==> #[trigger] s[j] != '/') ==> i == 0 || i == s.len() - 1,
        },
{
    lemma_index_of(s, '/');
    if let Some((provider, model)) = model_parts(s) {
        assert(s =~= provider + seq!['/'] + model);
    } else if let Some(k) = index_of(s, '/') {
        assert forall|i: int|
            0 <= i < s.len() && #[trigger] s[i] == '/' && (forall|j: int|
                0 <= j < i ==> #[trigger] s[j] != '/') implies i == 0 || i == s.len() - 1 by {
            assert(s[k] == '/');
            if k < i {
                assert(s[k] != '/');
            } else if i < k {
                assert(s[i] != '/');
            }
        }
    }
}

/// What is wrong with a configuration tells the key, the variable or the value that it is
/// about.
pub proof fn law_config_error_text(e: ConfigErrorView)
    ensures
        e matches ConfigErrorView::UnknownKey { key } ==> contains(config_error_text(e), key),
        e matches ConfigErrorView::UnknownCompactionKey { key } ==> contains(
            config_error_text(e),
            key,
        ),
        e matches ConfigErrorView::InvalidVariable { name, value } ==> contains(
            config_error_text(e),
            name,
        ) && contains(config_error_text(e), value),
        e matches ConfigErrorView::MissingVariable { name } ==> contains(
            config_error_text(e),
            name,
        ),
        e matches ConfigErrorView::InvalidInteger { value } ==> config_error_text(e)
            == u32_error_text(value),
{
    let text = config_error_text(e);
    match e {
        ConfigErrorView::UnknownKey { key } => lemma_part(
            "Unknown config key: "@,
            key,
            seq![],
            text,
        ),
        ConfigErrorView::UnknownCompactionKey { key } => lemma_part(
            "Unknown compaction config key: "@,
            key,
            seq![],
            text,
        ),
        ConfigErrorView::InvalidVariable { name, value } => {
            lemma_part("Invalid "@, name, " value: "@ + value, text);
            lemma_part("Invalid "@ + name + " value: "@, value, seq![], text);
        },
        ConfigErrorView::MissingVariable { name } => lemma_part(
            "Missing environment variable "@,
            name,
            seq![],
            text,
        ),
        _ => {},
    }
}

/// What keeps a provider from being chosen tells the provider, and what keeps a stream
/// from being read tells the problem.
pub proof fn law_other_error_texts(e: ProviderChoiceError, s: SseError, max: u32)
    ensures
        e matches ProviderChoiceError::NoApiKey { provider } ==> contains(
            choice_error_text(e),
            provider@,
        ) && contains(choice_error_text(e), uppercase(provider@) + "_API_KEY"@),
        e matches ProviderChoiceError::UnknownProvider { provider } ==> contains(
            choice_error_text(e),
            provider@,
        ),
        s matches SseError::ReadError { message } ==> contains(sse_error_text(s), message@),
        s matches SseError::IdleTimeout { timeout_ms } ==> contains(
            sse_error_text(s),
            decimal(timeout_ms as nat),
        ),
        contains(exhausted_text(max), decimal(max as nat)),
{
    let text = choice_error_text(e);
    match e {
        ProviderChoiceError::NoApiKey { provider } => {
            let upper = uppercase(provider@);
            let key = upper + "_API_KEY"@;
            reveal_strlit("_API_KEY");
            reveal_strlit("_API_KEY env var.");
            assert("_API_KEY"@ + "_API_KEY env var."@.skip(8) =~= "_API_KEY env var."@);
            let head = "No API key for provider '"@;
            let middle = "'. Set via config or "@;
            let end = "_API_KEY env var."@;
            lemma_part(head, provider@, middle + upper + end, text);
            assert(head + provider@ + middle + key + end.skip(8) =~= text);
            lemma_part(head + provider@ + middle, key, end.skip(8), text);
        },
        ProviderChoiceError::UnknownProvider { provider } => lemma_part(
            "Unknown provider: "@,
            provider@,
            seq![],
            text,
        ),
        _ => {},
    }
    match s {
        SseError::ReadError { message } => lemma_part(
            "SSE stream read error: "@,
            message@,
            seq![],
            sse_error_text(s),
        ),
        SseError::IdleTimeout { timeout_ms } => lemma_part(
            "SSE stream idle timeout after "@,
            decimal(timeout_ms as nat),
            "ms"@,
            sse_error_text(s),
        ),
    }
    lemma_part(
        "SSE stream failed after "@,
        decimal(max as nat),
        " reconnection attempts"@,
        exhausted_text(max),
    );
}

/// The text of an error tells what it holds: its message, the tool that it is of, or the
/// numbers.
pub proof fn law_error_text(e: ErrorView)
    ensures
        e matches ErrorView::Tool { tool, message } ==> contains(error_text(e), tool) && contains(
            error_text(e),
            message,
        ),
        e matches ErrorView::Config(message) ==> contains(error_text(e), message),
        e matches ErrorView::Io { message, .. } ==> contains(error_text(e), message),
        e matches ErrorView::Serialization(message) ==> contains(error_text(e), message),
        e matches ErrorView::Compaction(message) ==> contains(error_text(e), message),
        e matches ErrorView::Session(message) ==> contains(error_text(e), message),
        e matches ErrorView::Extension(message) ==> contains(error_text(e), message),
        e matches ErrorView::File { path, message, .. } ==> contains(error_text(e), path)
            && contains(error_text(e), message),
        e matches ErrorView::Execution { message, .. } ==> contains(error_text(e), message),
        e matches ErrorView::Timeout(ms) ==> contains(error_text(e), decimal(ms as nat)),
        e matches ErrorView::TokenLimit { used, limit } ==> contains(
            error_text(e),
            decimal(used as nat) + "/"@ + decimal(limit as nat),
        ),
        e matches ErrorView::Provider(p) ==> error_text(e) == provider_error_text(p),
{
    let text = error_text(e);
    match e {
        ErrorView::Tool { tool, message } => {
            lemma_part("tool '"@, tool, "' error: "@ + message, text);
            lemma_part("tool '"@ + tool + "' error: "@, message, seq![], text);
        },
        ErrorView::Config(message) => lemma_part("config error: "@, message, seq![], text),
        ErrorView::Io { message, .. } => lemma_part("io error: "@, message, seq![], text),
        ErrorView::Serialization(message) => lemma_part(
            "serialization error: "@,
            message,
            seq![],
            text,
        ),
        ErrorView::Compaction(message) => lemma_part("compaction error: "@, message, seq![], text),
        ErrorView::Session(message) => lemma_part("session error: "@, message, seq![], text),
        ErrorView::Extension(message) => lemma_part("extension error: "@, message, seq![], text),
        ErrorView::File { code, path, message } => {
            let head = "file error "@ + crate::error::file_code_text(code) + " at "@;
            lemma_part(head, path, ": "@ + message, text);
            lemma_part(head + path + ": "@, message, seq![], text);
        },
        ErrorView::Execution { code, message } => lemma_part(
            "execution error "@ + crate::error::execution_code_text(code) + ": "@,
            message,
            seq![],
            text,
        ),
        ErrorView::Timeout(ms) => lemma_part("timeout after "@, decimal(ms as nat), "ms"@, text),
        ErrorView::TokenLimit { used, limit } => lemma_part(
            "token limit exceeded: "@,
            decimal(used as nat) + "/"@ + decimal(limit as nat),
            seq![],
            text,
        ),
        ErrorView::Provider(_) => {},
    }
}

proof fn lemma_part(front: Seq<char>, part: Seq<char>, back: Seq<char>, whole: Seq<char>)
    requires
        front + part + back =~= whole,
    ensures
        contains(whole, part),
{
    lemma_contains_part(front, part, back);
}

/// The text of a provider's error tells what it holds: the status, the body, or the
/// message.
pub proof fn law_provider_error_text(e: ProviderErrorView)
    ensures
        e matches ProviderErrorView::Http { status, body } ==> contains(
            provider_error_text(e),
            decimal(status as nat),
        ) && contains(provider_error_text(e), body),
        e matches ProviderErrorView::RateLimited { status, body } ==> contains(
            provider_error_text(e),
            decimal(status as nat),
        ) && contains(provider_error_text(e), body),
        e matches ProviderErrorView::ContextOverflow { token_count, context_window } ==> contains(
            provider_error_text(e),
            decimal(token_count as nat) + "/"@ + decimal(context_window as nat),
        ),
        e matches ProviderErrorView::MalformedResponse { message } ==> contains(
            provider_error_text(e),
            message,
        ),
        e matches ProviderErrorView::Stream { message } ==> contains(
            provider_error_text(e),
            message,
        ),
        e matches ProviderErrorView::Timeout { milliseconds } ==> contains(
            provider_error_text(e),
            decimal(milliseconds as nat),
        ),
        e matches ProviderErrorView::Other { message } ==> provider_error_text(e) == message,
{
    let text = provider_error_text(e);
    match e {
        ProviderErrorView::Http { status, body } => {
            let n = decimal(status as nat);
            lemma_part("http error ("@, n, "): "@ + body, text);
            lemma_part("http error ("@ + n + "): "@, body, seq![], text);
        },
        ProviderErrorView::RateLimited { status, body } => {
            let n = decimal(status as nat);
            lemma_part("rate limited ("@, n, "): "@ + body, text);
            lemma_part("rate limited ("@ + n + "): "@, body, seq![], text);
        },
        ProviderErrorView::ContextOverflow { token_count, context_window } => lemma_part(
            "context window exceeded: "@,
            decimal(token_count as nat) + "/"@ + decimal(context_window as nat),
            seq![],
            text,
        ),
        ProviderErrorView::MalformedResponse { message } => lemma_part(
            "malformed response: "@,
            message,
            seq![],
            text,
        ),
        ProviderErrorView::Stream { message } => lemma_part(
            "stream error: "@,
            message,
            seq![],
            text,
        ),
        ProviderErrorView::Timeout { milliseconds } => lemma_part(
            "timeout after "@,
            decimal(milliseconds as nat),
            "ms"@,
            text,
        ),
        ProviderErrorView::Other { .. } => {},
    }
}

/// The error of a response keeps its status and its body, and is one of a rate limit
/// exactly where the status is 429.
pub proof fn law_http_error(status: u16, body: Seq<char>)
    ensures
        status == 429 <==> http_error(status, body) is RateLimited,
        http_error(status, body) matches ProviderErrorView::RateLimited { status: s, body: b }
            ==> s == status && b == body,
        http_error(status, body) is RateLimited || http_error(status, body) == (
        ProviderErrorView::Http { status, body }),
{
}

} // verus!
