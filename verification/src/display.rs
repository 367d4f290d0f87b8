//! What is shown of a turn, and what is gathered from it.

use vstd::prelude::*;

use crate::agent_loop::{AgentEvent, EventView};
use crate::cli::{safe_tool_summary, tool_summary};
use crate::compaction::{CompactionResult, CompactionView};
use crate::config::value_named;
use crate::text::{chars_of, clone_optional_text, decimal, decimal_text, same_text, string_between};

verus! {

/// A text of which no more than so many characters are shown.
pub open spec fn truncated(text: Seq<char>, max: nat) -> Seq<char> {
    if text.len() > max {
        text.take(max as int) + "..."@
    } else {
        text
    }
}

/// Shorten a text to so many characters.
pub fn truncate_chars(text: &str, max_chars: usize) -> (r: String)
    ensures
        r@ == truncated(text@, max_chars as nat),
{
    let chars: Vec<char> = chars_of(text);
    if chars.len() > max_chars {
        let mut r: String = string_between(&chars, 0, max_chars);
        assert(r@ =~= text@.take(max_chars as int));
        r.push_str("...");
        r
    } else {
        text.to_owned()
    }
}

// ---------------------------------------------------------------------------
// Printing
// ---------------------------------------------------------------------------

/// What is printed for an event.
#[derive(Debug, PartialEq, Eq)]
#[allow(inconsistent_fields)]
pub enum Printed {
    /// Nothing.
    Nothing,
    /// A text among the output.
    Output {
        /// The text.
        text: String,
    },
    /// A text among the notes that go with the output.
    Note {
        /// The text.
        text: String,
    },
}

/// What a print holds.
pub enum PrintedView {
    Nothing,
    Output { text: Seq<char> },
    Note { text: Seq<char> },
}

impl DeepView for Printed {
    type V = PrintedView;

    open spec fn deep_view(&self) -> PrintedView {
        match *self {
            Printed::Nothing => PrintedView::Nothing,
            Printed::Output { text } => PrintedView::Output { text: text@ },
            Printed::Note { text } => PrintedView::Note { text: text@ },
        }
    }
}

/// What is printed for an event.
pub open spec fn print_of(event: EventView) -> PrintedView {
    match event {
        EventView::TextDelta { text } => PrintedView::Output { text },
        EventView::TurnEnd { .. } => PrintedView::Output { text: "\n"@ },
        EventView::ToolExecutionStart { name, .. } => PrintedView::Note {
            text: "\n[Tool: "@ + name + "]\n"@,
        },
        EventView::ToolExecutionEnd { outcome, is_error, .. } => PrintedView::Note {
            text: if is_error {
                "[Error: "@ + outcome + "]\n"@
            } else {
                "[Result: "@ + truncated(outcome, 200) + "]\n"@
            },
        },
        EventView::Done { turns, total_usage } => PrintedView::Note {
            text: "\n[Completed in "@ + decimal(turns as nat) + " turns, "@ + decimal(
                total_usage.total_tokens as nat,
            ) + " tokens]\n"@,
        },
        EventView::Error { error } => PrintedView::Note { text: "\n[Error: "@ + error + "]\n"@ },
        _ => PrintedView::Nothing,
    }
}

fn bracketed(front: &str, text: &str) -> (r: String)
    ensures
        r@ == front@ + text@ + "]\n"@,
{
    let mut r: String = front.to_owned();
    r.push_str(text);
    r.push_str("]\n");
    r
}

/// What to print for an event.
pub fn print_event(event: &AgentEvent) -> (r: Printed)
    ensures
        r.deep_view() == print_of(event.deep_view()),
{
    match event {
        AgentEvent::TextDelta { text } => Printed::Output { text: text.clone() },
        AgentEvent::TurnEnd { .. } => Printed::Output { text: "\n".to_owned() },
        AgentEvent::ToolExecutionStart { name, .. } => Printed::Note {
            text: bracketed("\n[Tool: ", name),
        },
        AgentEvent::ToolExecutionEnd { result, is_error, .. } => Printed::Note {
            text: if *is_error {
                bracketed("[Error: ", result)
            } else {
                bracketed("[Result: ", &truncate_chars(result, 200))
            },
        },
        AgentEvent::Done { turns, total_usage } => {
            let mut text: String = "\n[Completed in ".to_owned();
            text.push_str(&decimal_text(*turns as u64));
            text.push_str(" turns, ");
            text.push_str(&decimal_text(total_usage.total_tokens as u64));
            text.push_str(" tokens]\n");
            Printed::Note { text }
        },
        AgentEvent::Error { error } => Printed::Note { text: bracketed("\n[Error: ", error) },
        _ => Printed::Nothing,
    }
}

// ---------------------------------------------------------------------------
// Gathering
// ---------------------------------------------------------------------------

/// What has been gathered from a turn: the text of the model, and the compactions.
pub struct TurnOutput {
    /// The text.
    pub text: String,
    /// The compactions, in order.
    pub compactions: Vec<CompactionResult>,
}

/// The text of the model in some events.
pub open spec fn text_with(text: Seq<char>, event: EventView) -> Seq<char> {
    match event {
        EventView::TextDelta { text: more } => text + more,
        _ => text,
    }
}

/// The compactions in some events.
pub open spec fn compactions_with(list: Seq<CompactionView>, event: EventView) -> Seq<
    CompactionView,
> {
    match event {
        EventView::CompactionComplete { compaction } => list.push(compaction),
        _ => list,
    }
}

impl TurnOutput {
    /// At the start of a turn.
    pub fn new() -> (r: Self)
        ensures
            r.text@ == Seq::<char>::empty(),
            r.compactions.deep_view() == Seq::<CompactionView>::empty(),
    {
        let compactions: Vec<CompactionResult> = Vec::new();
        assert(compactions.deep_view() =~= Seq::<CompactionView>::empty());
        TurnOutput { text: String::new(), compactions }
    }

    /// Take an event of the turn.
    pub fn observe(&mut self, event: &AgentEvent)
        ensures
            final(self).text@ == text_with(old(self).text@, event.deep_view()),
            final(self).compactions.deep_view() == compactions_with(
                old(self).compactions.deep_view(),
                event.deep_view(),
            ),
    {
        match event {
            AgentEvent::TextDelta { text } => {
                self.text.push_str(text);
            },
            AgentEvent::CompactionComplete { result } => {
                let ghost before = self.compactions.deep_view();
                self.compactions.push(result.clone());
                assert(self.compactions.deep_view() =~= before.push(result.deep_view()));
            },
            _ => {},
        }
    }
}

// ---------------------------------------------------------------------------
// The terminal renderer
// ---------------------------------------------------------------------------

/// What the terminal renderer is told of a turn.
#[derive(Debug, PartialEq, Eq)]
#[allow(inconsistent_fields)]
pub enum TuiEvent {
    /// More text of the model.
    AssistantDelta {
        /// The text.
        text: String,
    },
    /// A tool has started.
    ToolStarted {
        /// Tool name.
        name: String,
        /// What is shown of its arguments.
        summary: Option<String>,
    },
    /// A tool has finished.
    ToolFinished {
        /// Tool name.
        name: String,
        /// What is shown of its arguments.
        summary: Option<String>,
        /// Whether it failed.
        is_error: bool,
    },
    /// The turn is over.
    TurnFinished,
    /// Something went wrong.
    RendererWarning {
        /// What it was.
        text: String,
    },
}

/// What a renderer event holds.
pub enum TuiView {
    AssistantDelta { text: Seq<char> },
    ToolStarted { name: Seq<char>, summary: Option<Seq<char>> },
    ToolFinished { name: Seq<char>, summary: Option<Seq<char>>, is_error: bool },
    TurnFinished,
    RendererWarning { text: Seq<char> },
}

impl DeepView for TuiEvent {
    type V = TuiView;

    open spec fn deep_view(&self) -> TuiView {
        match *self {
            TuiEvent::AssistantDelta { text } => TuiView::AssistantDelta { text: text@ },
            TuiEvent::ToolStarted { name, summary } => TuiView::ToolStarted {
                name: name@,
                summary: summary.deep_view(),
            },
            TuiEvent::ToolFinished { name, summary, is_error } => TuiView::ToolFinished {
                name: name@,
                summary: summary.deep_view(),
                is_error,
            },
            TuiEvent::TurnFinished => TuiView::TurnFinished,
            TuiEvent::RendererWarning { text } => TuiView::RendererWarning { text: text@ },
        }
    }
}

/// What is shown of the arguments of the tools that run, by the IDs of their
/// calls.
pub struct ToolSummaries {
    summaries: Vec<(String, Option<String>)>,
}

/// What is shown of the tools that run, by the IDs of their calls.
pub type Summaries = Seq<(Seq<char>, Option<Seq<char>>)>;

/// Summaries without the first with an ID.
pub open spec fn without_summary(summaries: Summaries, id: Seq<char>) -> Summaries
    decreases summaries.len(),
{
    if summaries.len() == 0 {
        summaries
    } else if summaries[0].0 == id {
        summaries.skip(1)
    } else {
        seq![summaries[0]] + without_summary(summaries.skip(1), id)
    }
}

/// What is shown of the tool that runs for a call.
pub open spec fn summary_for(summaries: Summaries, id: Seq<char>) -> Option<Seq<char>> {
    match value_named(summaries, id) {
        Some(summary) => summary,
        None => None,
    }
}

/// What the renderer is told of an event.
pub open spec fn rendered(summaries: Summaries, event: EventView) -> (
    Summaries,
    Option<TuiView>,
) {
    match event {
        EventView::TextDelta { text } => (summaries, Some(TuiView::AssistantDelta { text })),
        EventView::ToolExecutionStart { id, name, arguments } => {
            let summary = tool_summary(name, arguments);
            (
                without_summary(summaries, id).push((id, summary)),
                Some(TuiView::ToolStarted { name, summary }),
            )
        },
        EventView::ToolExecutionEnd { id, name, is_error, .. } => (
            without_summary(summaries, id),
            Some(
                TuiView::ToolFinished { name, summary: summary_for(summaries, id), is_error },
            ),
        ),
        EventView::TurnEnd { .. } | EventView::Done { .. } => (
            summaries,
            Some(TuiView::TurnFinished),
        ),
        EventView::Error { error } => (summaries, Some(TuiView::RendererWarning { text: error })),
        _ => (summaries, None),
    }
}

proof fn lemma_without_summary(summaries: Summaries, id: Seq<char>, n: int)
    requires
        0 <= n <= summaries.len(),
        forall|j: int| 0 <= j < n ==> (#[trigger] summaries[j]).0 != id,
        n < summaries.len() ==> summaries[n].0 == id,
    ensures
        n < summaries.len() ==> without_summary(summaries, id) == summaries.remove(n)
            && value_named(summaries, id) == Some(summaries[n].1),
        n == summaries.len() ==> without_summary(summaries, id) == summaries && value_named(
            summaries,
            id,
        ) is None,
    decreases summaries.len(),
{
    if summaries.len() > 0 {
        if n == 0 {
            assert(summaries.skip(1) =~= summaries.remove(0));
        } else {
            let rest = summaries.skip(1);
            assert forall|j: int| 0 <= j < n - 1 implies (#[trigger] rest[j]).0 != id by {
                assert(rest[j] == summaries[j + 1]);
            }
            if n < summaries.len() {
                assert(rest[n - 1] == summaries[n]);
            }
            lemma_without_summary(rest, id, n - 1);
            if n < summaries.len() {
                assert(seq![summaries[0]] + rest.remove(n - 1) =~= summaries.remove(n));
            } else {
                assert(seq![summaries[0]] + rest =~= summaries);
            }
        }
    }
}

impl ToolSummaries {
    /// What is shown of the tools that run.
    pub closed spec fn view(&self) -> Summaries {
        self.summaries.deep_view()
    }

    /// No tool runs.
    pub fn new() -> (r: Self)
        ensures
            r@ == Summaries::empty(),
    {
        let summaries: Vec<(String, Option<String>)> = Vec::new();
        assert(summaries.deep_view() =~= Summaries::empty());
        ToolSummaries { summaries }
    }

    fn remove(&mut self, id: &str) -> (r: Option<String>)
        ensures
            final(self)@ == without_summary(old(self)@, id@),
            r.deep_view() == summary_for(old(self)@, id@),
    {
        let ghost all = self.summaries.deep_view();
        let mut i: usize = 0;
        while i < self.summaries.len()
            invariant
                *self == *old(self),
                all == self.summaries.deep_view(),
                all == old(self)@,
                i <= self.summaries@.len(),
                forall|j: int| 0 <= j < i ==> (#[trigger] all[j]).0 != id@,
            decreases self.summaries@.len() - i,
        {
            assert(all[i as int] == self.summaries@[i as int].deep_view());
            if same_text(&self.summaries[i].0, id) {
                proof {
                    lemma_without_summary(all, id@, i as int);
                }
                let pair: (String, Option<String>) = self.summaries.remove(i);
                assert(self.summaries.deep_view() =~= all.remove(i as int));
                return pair.1;
            }
            i = i + 1;
        }
        proof {
            lemma_without_summary(all, id@, i as int);
        }
        None
    }

    /// What to tell the renderer of an event.
    pub fn render_event(&mut self, event: &AgentEvent) -> (r: Option<TuiEvent>)
        ensures
            (final(self)@, r.deep_view()) == rendered(old(self)@, event.deep_view()),
    {
        match event {
            AgentEvent::TextDelta { text } => Some(
                TuiEvent::AssistantDelta { text: text.clone() },
            ),
            AgentEvent::ToolExecutionStart { id, name, arguments } => {
                let summary: Option<String> = safe_tool_summary(name, arguments);
                let earlier: Option<String> = self.remove(id);
                let ghost before = self.summaries.deep_view();
                let shown: Option<String> = clone_optional_text(&summary);
                self.summaries.push((id.clone(), shown));
                assert(self.summaries.deep_view() =~= before.push((id@, summary.deep_view())));
                Some(TuiEvent::ToolStarted { name: name.clone(), summary })
            },
            AgentEvent::ToolExecutionEnd { id, name, is_error, .. } => {
                let summary: Option<String> = self.remove(id);
                Some(TuiEvent::ToolFinished { name: name.clone(), summary, is_error: *is_error })
            },
            AgentEvent::TurnEnd { .. } | AgentEvent::Done { .. } => Some(TuiEvent::TurnFinished),
            AgentEvent::Error { error } => Some(
                TuiEvent::RendererWarning { text: error.clone() },
            ),
            _ => None,
        }
    }
}

// ---------------------------------------------------------------------------
// Models
// ---------------------------------------------------------------------------

/// The models of OpenAI that are offered.
pub fn available_models() -> (r: Vec<&'static str>)
    ensures
        r.deep_view() == seq![
            "openai/gpt-4o"@,
            "openai/gpt-4o-mini"@,
            "openai/gpt-4-turbo"@,
            "openai/o1-preview"@,
            "openai/o1-mini"@,
        ],
{
    let mut names: Vec<&'static str> = Vec::new();
    names.push("openai/gpt-4o");
    names.push("openai/gpt-4o-mini");
    names.push("openai/gpt-4-turbo");
    names.push("openai/o1-preview");
    names.push("openai/o1-mini");
    assert(names.deep_view() =~= seq![
        "openai/gpt-4o"@,
        "openai/gpt-4o-mini"@,
        "openai/gpt-4-turbo"@,
        "openai/o1-preview"@,
        "openai/o1-mini"@,
    ]);
    names
}

} // verus!
