//! What the command line decides: modes, commands, and how tools are shown.

use vstd::prelude::*;

use crate::json::{field, text_of, Json, JsonView};
use crate::text::{same_text, starts_with, starts_with_text, trim, trimmed};

verus! {

// ---------------------------------------------------------------------------
// Modes
// ---------------------------------------------------------------------------

/// Whether the program talks to the user: unless it is given a prompt, is to list
/// models, or is to manage its configuration or sessions.
pub fn is_interactive(
    has_prompt: bool,
    list_models: bool,
    manages_config: bool,
    manages_sessions: bool,
) -> (r: bool)
    ensures
        r == (!has_prompt && !list_models && !manages_config && !manages_sessions),
{
    !has_prompt && !list_models && !manages_config && !manages_sessions
}

/// Check that the TUI is asked for only where the program talks to the user.
pub fn validate_tui_mode(interactive_mode: bool, tui: bool) -> (r: Result<(), String>)
    ensures
        match r {
            Ok(_) => interactive_mode || !tui,
            Err(message) => {
                &&& tui && !interactive_mode
                &&& message@ == "--tui is only supported in interactive mode"@
            },
        },
{
    if tui && !interactive_mode {
        return Err("--tui is only supported in interactive mode".to_owned());
    }
    Ok(())
}

// ---------------------------------------------------------------------------
// Tools
// ---------------------------------------------------------------------------

/// A text among arguments, where it is there and not empty.
pub open spec fn text_argument(arguments: JsonView, name: Seq<char>) -> Option<Seq<char>> {
    match text_of(field(arguments, name)) {
        Some(text) => if text.len() == 0 {
            None
        } else {
            Some(text)
        },
        None => None,
    }
}

/// What is shown of the arguments of a tool call: only what is known to be safe
/// to show, of the tools that are known.
pub open spec fn tool_summary(name: Seq<char>, arguments: JsonView) -> Option<Seq<char>> {
    let path = text_argument(arguments, "path"@);
    let pattern = text_argument(arguments, "pattern"@);
    if name == "read_file"@ || name == "write_file"@ || name == "edit_file"@ || name == "ls"@ {
        path
    } else if name == "find"@ {
        match (pattern, path) {
            (Some(pattern), Some(path)) => Some(pattern + " in "@ + path),
            (Some(pattern), None) => Some(pattern),
            _ => None,
        }
    } else if name == "grep"@ {
        match (pattern, path) {
            (Some(pattern), Some(path)) => Some("pattern "@ + pattern + " in "@ + path),
            (Some(pattern), None) => Some("pattern "@ + pattern),
            _ => None,
        }
    } else if name == "bash"@ {
        Some("command"@)
    } else {
        None
    }
}

fn string_field(arguments: &Json, name: &str) -> (r: Option<String>)
    ensures
        r.deep_view() == text_argument(arguments.deep_view(), name@),
{
    match arguments.get(name) {
        Some(Json::Text(text)) => if text.as_str().is_empty() {
            None
        } else {
            Some(text.clone())
        },
        _ => None,
    }
}

/// What is shown of the arguments of a tool call.
pub fn safe_tool_summary(name: &str, arguments: &Json) -> (r: Option<String>)
    ensures
        r.deep_view() == tool_summary(name@, arguments.deep_view()),
{
    if same_text(name, "read_file") || same_text(name, "write_file") || same_text(name, "edit_file")
        || same_text(name, "ls") {
        return string_field(arguments, "path");
    }
    let is_find: bool = same_text(name, "find");
    if is_find || same_text(name, "grep") {
        let pattern: String = match string_field(arguments, "pattern") {
            Some(pattern) => pattern,
            None => {
                return None;
            },
        };
        let mut shown: String = if is_find {
            pattern
        } else {
            let mut text: String = "pattern ".to_owned();
            text.push_str(&pattern);
            text
        };
        if let Some(path) = string_field(arguments, "path") {
            shown.push_str(" in ");
            shown.push_str(&path);
        }
        return Some(shown);
    }
    if same_text(name, "bash") {
        return Some("command".to_owned());
    }
    None
}

/// What is shown of a call of a tool that is not known holds none of its
/// arguments.
pub proof fn law_unknown_tools_show_nothing(
    name: Seq<char>,
    arguments: JsonView,
    other: JsonView,
)
    requires
        name != "read_file"@,
        name != "write_file"@,
        name != "edit_file"@,
        name != "ls"@,
        name != "find"@,
        name != "grep"@,
    ensures
        tool_summary(name, arguments) == tool_summary(name, other),
        name != "bash"@ ==> tool_summary(name, arguments) is None,
{
}

// ---------------------------------------------------------------------------
// Input
// ---------------------------------------------------------------------------

/// What a line of input asks for.
#[derive(Debug, PartialEq, Eq)]
#[allow(inconsistent_fields)]
pub enum Input {
    /// Nothing.
    Nothing,
    /// Leave.
    Quit,
    /// Show the commands.
    Help,
    /// Start a new conversation.
    Clear,
    /// Show the configuration.
    ShowConfig,
    /// Show the model.
    ShowModel,
    /// A command that there is not.
    Unknown {
        /// The command.
        command: String,
    },
    /// A message to the model.
    Message {
        /// The message.
        text: String,
    },
}

/// What a line of input holds.
pub enum InputView {
    Nothing,
    Quit,
    Help,
    Clear,
    ShowConfig,
    ShowModel,
    Unknown { command: Seq<char> },
    Message { text: Seq<char> },
}

impl DeepView for Input {
    type V = InputView;

    open spec fn deep_view(&self) -> InputView {
        match *self {
            Input::Nothing => InputView::Nothing,
            Input::Quit => InputView::Quit,
            Input::Help => InputView::Help,
            Input::Clear => InputView::Clear,
            Input::ShowConfig => InputView::ShowConfig,
            Input::ShowModel => InputView::ShowModel,
            Input::Unknown { command } => InputView::Unknown { command: command@ },
            Input::Message { text } => InputView::Message { text: text@ },
        }
    }
}

/// What a line of input asks for: what starts with a slash is a command.
pub open spec fn input_of(line: Seq<char>) -> InputView {
    let text = trimmed(line);
    if text.len() == 0 {
        InputView::Nothing
    } else if !starts_with(text, "/"@) {
        InputView::Message { text }
    } else if text == "/quit"@ || text == "/exit"@ || text == "/q"@ {
        InputView::Quit
    } else if text == "/help"@ || text == "/h"@ {
        InputView::Help
    } else if text == "/clear"@ || text == "/c"@ {
        InputView::Clear
    } else if text == "/config"@ {
        InputView::ShowConfig
    } else if text == "/model"@ {
        InputView::ShowModel
    } else {
        InputView::Unknown { command: text }
    }
}

/// Read a line of input.
pub fn read_input(line: &str) -> (r: Input)
    ensures
        r.deep_view() == input_of(line@),
{
    let text: String = trim(line);
    if text.as_str().is_empty() {
        Input::Nothing
    } else if !starts_with_text(&text, "/") {
        Input::Message { text }
    } else if same_text(&text, "/quit") || same_text(&text, "/exit") || same_text(&text, "/q") {
        Input::Quit
    } else if same_text(&text, "/help") || same_text(&text, "/h") {
        Input::Help
    } else if same_text(&text, "/clear") || same_text(&text, "/c") {
        Input::Clear
    } else if same_text(&text, "/config") {
        Input::ShowConfig
    } else if same_text(&text, "/model") {
        Input::ShowModel
    } else {
        Input::Unknown { command: text }
    }
}

} // verus!
