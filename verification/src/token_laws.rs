//! What holds of estimates of tokens.

use vstd::prelude::*;

use crate::json::printed_json;
use crate::text::{contains, lines, starts_with};
use crate::token_estimation::{
    block_chars, blocks_chars, blocks_type, calls_chars, capped, chars_per_token, code_marks,
    code_score, code_semicolons, content_type, context_tokens, definition_words, estimated,
    flow_words, indented_lines, is_code_line, last_assistant, looks_like_cjk, looks_like_code,
    looks_technical, message_chars, message_type, present_in, structural_patterns, total_estimated,
    without_semicolons, ContentType,
};
use crate::types::{BlockView, ContentView, MessageView, Role, ToolCallView, Usage};

verus! {

// ---------------------------------------------------------------------------
// Estimates
// ---------------------------------------------------------------------------

/// An estimate is the smallest number of tokens that has room for all characters of a
/// message, as long as that can be counted: two characters of Chinese make a token,
/// three of code or technical text, four of any other.
pub proof fn law_estimate_rounds_up(m: MessageView)
    requires
        message_chars(m) <= u32::MAX,
    ensures
        ({
            let per_token: int = match message_type(m) {
                ContentType::Chinese => 2,
                ContentType::Code | ContentType::Technical => 3,
                ContentType::Default => 4,
            };
            &&& message_chars(m) <= per_token * estimated(m)
            &&& message_chars(m) > per_token * (estimated(m) - 1)
            &&& message_chars(m) == 0 <==> estimated(m) == 0
        }),
{
}

/// A number is capped at the largest 32-bit one.
pub proof fn law_capped(n: nat)
    ensures
        n <= u32::MAX ==> capped(n) == n,
        n > u32::MAX ==> capped(n) == u32::MAX,
{
}

/// The characters of a message are those of what it says and of the calls it makes.
pub proof fn law_message_chars(m: MessageView)
    ensures
        m.content is None && m.tool_calls is None ==> message_chars(m) == 0,
        m.tool_calls is None ==> (m.content matches Some(ContentView::Text(text))
            ==> message_chars(m) == text.len()),
        m.tool_calls is None ==> (m.content matches Some(ContentView::Blocks(blocks))
            ==> message_chars(m) == blocks_chars(blocks)),
        m.tool_calls matches Some(calls) ==> message_chars(m) == message_chars(
            MessageView { tool_calls: None, ..m },
        ) + calls_chars(calls),
{
}

/// The characters of blocks are those of each of them: texts and results count as they
/// are, an image for 4800, a tool use by its name and its printed input, and thinking
/// not at all.
pub proof fn law_block_chars(a: Seq<BlockView>, b: Seq<BlockView>, block: BlockView)
    ensures
        blocks_chars(a + b) == blocks_chars(a) + blocks_chars(b),
        blocks_chars(seq![block]) == match block {
            BlockView::Text { text } => text.len(),
            BlockView::ToolResult { content, .. } => content.len(),
            BlockView::Image { .. } => 4800,
            BlockView::ToolUse { name, input, .. } => name.len() + printed_json(input).len(),
            BlockView::Thinking { .. } => 0,
        },
    decreases b.len(),
{
    assert(seq![block].drop_last() =~= seq![]);
    assert(blocks_chars(seq![block].drop_last()) == 0);
    assert(blocks_chars(seq![block]) == block_chars(block));
    if b.len() == 0 {
        assert(a + b =~= a);
    } else {
        law_block_chars(a, b.drop_last(), block);
        assert((a + b).drop_last() =~= a + b.drop_last());
        assert((a + b).last() == b.last());
    }
}

/// The characters of calls are those of their names and arguments.
pub proof fn law_call_chars(a: Seq<ToolCallView>, b: Seq<ToolCallView>, call: ToolCallView)
    ensures
        calls_chars(a + b) == calls_chars(a) + calls_chars(b),
        calls_chars(seq![call]) == call.name.len() + call.arguments.len(),
    decreases b.len(),
{
    assert(seq![call].drop_last() =~= seq![]);
    assert(calls_chars(seq![call].drop_last()) == 0);
    if b.len() == 0 {
        assert(a + b =~= a);
    } else {
        law_call_chars(a, b.drop_last(), call);
        assert((a + b).drop_last() =~= a + b.drop_last());
        assert((a + b).last() == b.last());
    }
}

/// The tokens of messages are those of each of them.
pub proof fn law_total_adds_up(a: Seq<MessageView>, b: Seq<MessageView>, m: MessageView)
    ensures
        total_estimated(a + b) == total_estimated(a) + total_estimated(b),
        total_estimated(seq![m]) == estimated(m),
    decreases b.len(),
{
    assert(seq![m].drop_last() =~= seq![]);
    assert(total_estimated(seq![m].drop_last()) == 0);
    if b.len() == 0 {
        assert(a + b =~= a);
    } else {
        law_total_adds_up(a, b.drop_last(), m);
        assert((a + b).drop_last() =~= a + b.drop_last());
        assert((a + b).last() == b.last());
    }
}

/// The size of a conversation is the usage that the last reply reported and the tokens
/// of what was said since: `i` is the last message of the assistant.
pub proof fn law_context_starts_from_the_usage(
    messages: Seq<MessageView>,
    usage: Usage,
    i: int,
)
    requires
        0 <= i < messages.len(),
        messages[i].role == Role::Assistant,
        forall|j: int| i < j < messages.len() ==> (#[trigger] messages[j]).role != Role::Assistant,
        usage.total_tokens > 0,
    ensures
        context_tokens(messages, Some(usage)) == usage.total_tokens + total_estimated(
            messages.skip(i + 1),
        ),
{
    lemma_last_assistant(messages);
}

/// Without a usage, or without a reply that it could be of, the size is that of all
/// messages.
pub proof fn law_context_without_usage(messages: Seq<MessageView>, last_usage: Option<Usage>)
    requires
        last_usage is None || last_usage->0.total_tokens == 0 || forall|j: int|
            0 <= j < messages.len() ==> (#[trigger] messages[j]).role != Role::Assistant,
    ensures
        context_tokens(messages, last_usage) == total_estimated(messages),
{
    lemma_last_assistant(messages);
}

proof fn lemma_last_assistant(messages: Seq<MessageView>)
    ensures
        match last_assistant(messages) {
            Some(i) => 0 <= i < messages.len() && messages[i].role == Role::Assistant && forall|
                j: int,
            |
                i < j < messages.len() ==> (#[trigger] messages[j]).role != Role::Assistant,
            None => forall|j: int|
                0 <= j < messages.len() ==> (#[trigger] messages[j]).role != Role::Assistant,
        },
    decreases messages.len(),
{
    if messages.len() > 0 {
        let front = messages.drop_last();
        lemma_last_assistant(front);
        assert(forall|j: int| 0 <= j < front.len() ==> front[j] == #[trigger] messages[j]);
    }
}

// ---------------------------------------------------------------------------
// Kinds of content
// ---------------------------------------------------------------------------

/// A text is taken for code before it is taken for Chinese, and for that before it is
/// taken for technical.
pub proof fn law_content_type(text: Seq<char>)
    ensures
        content_type(text) == ContentType::Code <==> looks_like_code(text),
        content_type(text) == ContentType::Chinese <==> !looks_like_code(text) && looks_like_cjk(
            text,
        ),
        content_type(text) == ContentType::Technical <==> !looks_like_code(text)
            && !looks_like_cjk(text) && looks_technical(text),
        content_type(text) == ContentType::Default <==> !looks_like_code(text)
            && !looks_like_cjk(text) && !looks_technical(text),
{
}

/// The kind of a message is that of its text; that of blocks is the kind of the last text
/// among them that is of a kind of its own.
pub proof fn law_message_type(m: MessageView)
    ensures
        m.content is None ==> message_type(m) == ContentType::Default,
        m.content matches Some(ContentView::Text(text)) ==> message_type(m) == content_type(text),
        m.content matches Some(ContentView::Blocks(blocks)) ==> is_kind_of(
            message_type(m),
            blocks,
        ),
{
    if let Some(ContentView::Blocks(blocks)) = m.content {
        lemma_blocks_type(blocks);
    }
}

/// The text of a block is of a kind other than the default one.
pub open spec fn has_own_kind(block: BlockView) -> bool {
    block matches BlockView::Text { text } && content_type(text) != ContentType::Default
}

/// A kind is that of the last text block that has one of its own, or the default one
/// where there is none.
pub open spec fn is_kind_of(kind: ContentType, blocks: Seq<BlockView>) -> bool {
    ||| (kind == ContentType::Default && forall|i: int|
        0 <= i < blocks.len() ==> !has_own_kind(#[trigger] blocks[i]))
    ||| exists|i: int|
        0 <= i < blocks.len() && has_own_kind(#[trigger] blocks[i]) && kind == content_type(
            blocks[i]->Text_text,
        ) && forall|j: int| i < j < blocks.len() ==> !has_own_kind(#[trigger] blocks[j])
}

proof fn lemma_blocks_type(blocks: Seq<BlockView>)
    ensures
        is_kind_of(blocks_type(blocks), blocks),
    decreases blocks.len(),
{
    if blocks.len() > 0 {
        let front = blocks.drop_last();
        let n = blocks.len() - 1;
        lemma_blocks_type(front);
        assert(forall|i: int| 0 <= i < n ==> front[i] == #[trigger] blocks[i]);
        if has_own_kind(blocks[n]) {
            assert(blocks_type(blocks) == content_type(blocks[n]->Text_text));
        } else if exists|i: int| 0 <= i < front.len() && has_own_kind(#[trigger] front[i]) {
            let i = choose|i: int|
                0 <= i < front.len() && has_own_kind(#[trigger] front[i]) && blocks_type(front)
                    == content_type(front[i]->Text_text) && forall|j: int|
                    i < j < front.len() ==> !has_own_kind(#[trigger] front[j]);
            assert(has_own_kind(blocks[i]));
        }
    }
}

/// The words and marks of programming languages.
pub open spec fn code_words() -> Seq<Seq<char>> {
    seq![
        "fn "@,
        "let "@,
        "const "@,
        "var "@,
        "function "@,
        "class "@,
        "def "@,
        "import "@,
        "from "@,
        "return "@,
        "if ("@,
        "for ("@,
        "while ("@,
        "match "@,
        "switch "@,
        "case "@,
        "break;"@,
        "continue;"@,
        "//"@,
        "/*"@,
        "*/"@,
        "=>"@,
        "println!"@,
    ]
}

/// How many of the first `n` of some words a text holds.
spec fn held(text: Seq<char>, words: Seq<Seq<char>>, n: nat) -> nat
    decreases n,
{
    if n == 0 {
        0
    } else {
        held(text, words, (n - 1) as nat) + present_in(text, words[n - 1])
    }
}

proof fn lemma_held(text: Seq<char>, words: Seq<Seq<char>>, n: nat)
    requires
        n <= words.len(),
    ensures
        held(text, words, n) >= 1 <==> exists|i: int|
            0 <= i < n && contains(text, #[trigger] words[i]),
        held(text, words, n) >= 2 <==> exists|i: int, j: int|
            0 <= i < j < n && contains(text, #[trigger] words[i]) && contains(
                text,
                #[trigger] words[j],
            ),
    decreases n,
{
    if n > 0 {
        let m = (n - 1) as nat;
        lemma_held(text, words, m);
        reveal(present_in);
        if contains(text, words[m as int]) {
            if exists|i: int| 0 <= i < m && contains(text, #[trigger] words[i]) {
                let i = choose|i: int| 0 <= i < m && contains(text, #[trigger] words[i]);
                assert(contains(text, words[i]) && contains(text, words[m as int]));
            }
        }
    }
}

/// A text looks like code exactly where it holds at least two of the words and marks of
/// programming languages, and is laid out like code.
pub proof fn law_code_holds_two_words(text: Seq<char>)
    ensures
        looks_like_code(text) <==> structural_patterns(text) && exists|i: int, j: int|
            0 <= i < j < code_words().len() && contains(text, #[trigger] code_words()[i])
                && contains(text, #[trigger] code_words()[j]),
{
    let words = code_words();
    lemma_code_score(text);
    lemma_held(text, words, words.len());
}

#[verifier::rlimit(50)]
proof fn lemma_code_score(text: Seq<char>)
    ensures
        code_score(text) == held(text, code_words(), code_words().len()),
{
    let words = code_words();
    assert(words.len() == 23);
    assert(held(text, words, 9) == definition_words(text)) by {
        reveal_with_fuel(held, 10);
        assert(words[0] == "fn "@ && words[1] == "let "@ && words[2] == "const "@ && words[3]
            == "var "@ && words[4] == "function "@ && words[5] == "class "@ && words[6] == "def "@
            && words[7] == "import "@ && words[8] == "from "@);
    }
    assert(held(text, words, 18) == held(text, words, 9) + flow_words(text)) by {
        reveal_with_fuel(held, 10);
        assert(words[9] == "return "@ && words[10] == "if ("@ && words[11] == "for ("@ && words[12]
            == "while ("@ && words[13] == "match "@ && words[14] == "switch "@ && words[15]
            == "case "@ && words[16] == "break;"@ && words[17] == "continue;"@);
    }
    assert(held(text, words, 23) == held(text, words, 18) + code_marks(text)) by {
        reveal_with_fuel(held, 6);
        assert(words[18] == "//"@ && words[19] == "/*"@ && words[20] == "*/"@ && words[21]
            == "=>"@ && words[22] == "println!"@);
    }
}

/// A text is laid out like code where it has an arrow, a comment, a semicolon before a
/// space or at its end, a tab, three indented lines, or a line that ends like one of
/// code.
pub proof fn law_structural_patterns(text: Seq<char>)
    ensures
        structural_patterns(text) <==> {
            ||| contains(text, "=>"@)
            ||| contains(text, "//"@)
            ||| contains(text, "/*"@)
            ||| contains(text, "*/"@)
            ||| contains(text, "; "@)
            ||| text.len() > 0 && text[text.len() - 1] == ';'
            ||| exists|i: int| 0 <= i < text.len() && #[trigger] text[i] == '\t'
            ||| has_three_indented(lines(text))
            ||| exists|i: int| 0 <= i < lines(text).len() && ends_like_code(#[trigger] lines(text)[i])
        },
{
    lemma_three_indented(lines(text));
    assert forall|i: int| 0 <= i < lines(text).len() implies is_code_line(#[trigger] lines(text)[i])
        == ends_like_code(lines(text)[i]) by {
        lemma_code_line(lines(text)[i]);
    }
    if code_semicolons(text) {
        let i = choose|i: int| 0 <= i < lines(text).len() && is_code_line(#[trigger] lines(text)[i]);
        assert(ends_like_code(lines(text)[i]));
    }
    if exists|i: int| 0 <= i < lines(text).len() && ends_like_code(#[trigger] lines(text)[i]) {
        let i = choose|i: int|
            0 <= i < lines(text).len() && ends_like_code(#[trigger] lines(text)[i]);
        assert(is_code_line(lines(text)[i]));
    }
    if exists|i: int| 0 <= i < text.len() && #[trigger] text[i] == '\t' {
        let i = choose|i: int| 0 <= i < text.len() && #[trigger] text[i] == '\t';
        assert(text.contains('\t'));
    }
}

/// Three of some lines begin with four spaces.
pub open spec fn has_three_indented(lines: Seq<Seq<char>>) -> bool {
    exists|i: int, j: int, k: int|
        0 <= i < j < k < lines.len() && is_indented(#[trigger] lines[i]) && is_indented(
            #[trigger] lines[j],
        ) && is_indented(#[trigger] lines[k])
}

/// A line begins with four spaces.
pub open spec fn is_indented(line: Seq<char>) -> bool {
    line.len() >= 4 && line[0] == ' ' && line[1] == ' ' && line[2] == ' ' && line[3] == ' '
}

proof fn lemma_indented(line: Seq<char>)
    ensures
        starts_with(line, "    "@) == is_indented(line),
{
    reveal_strlit("    ");
    if is_indented(line) {
        assert(line.subrange(0, 4) =~= "    "@);
    }
    if starts_with(line, "    "@) {
        assert(line.subrange(0, 4) == "    "@);
        assert(line.subrange(0, 4)[0] == line[0] && line.subrange(0, 4)[1] == line[1]
            && line.subrange(0, 4)[2] == line[2] && line.subrange(0, 4)[3] == line[3]);
    }
}

proof fn lemma_three_indented(lines: Seq<Seq<char>>)
    ensures
        indented_lines(lines) >= 1 <==> exists|i: int|
            0 <= i < lines.len() && is_indented(#[trigger] lines[i]),
        indented_lines(lines) >= 2 <==> exists|i: int, j: int|
            0 <= i < j < lines.len() && is_indented(#[trigger] lines[i]) && is_indented(
                #[trigger] lines[j],
            ),
        indented_lines(lines) >= 3 <==> has_three_indented(lines),
    decreases lines.len(),
{
    if lines.len() > 0 {
        let front = lines.drop_last();
        let n = lines.len() - 1;
        lemma_three_indented(front);
        lemma_indented(lines[n]);
        assert(forall|i: int| 0 <= i < n ==> #[trigger] front[i] == lines[i]);
        if has_three_indented(front) {
            let (i, j, k) = choose|i: int, j: int, k: int|
                0 <= i < j < k < front.len() && is_indented(#[trigger] front[i]) && is_indented(
                    #[trigger] front[j],
                ) && is_indented(#[trigger] front[k]);
            assert(is_indented(lines[i]) && is_indented(lines[j]) && is_indented(lines[k]));
        }
        if indented_lines(front) >= 2 {
            let (i, j) = choose|i: int, j: int|
                0 <= i < j < front.len() && is_indented(#[trigger] front[i]) && is_indented(
                    #[trigger] front[j],
                );
            assert(is_indented(lines[i]) && is_indented(lines[j]));
            if is_indented(lines[n]) {
                assert(is_indented(lines[i]) && is_indented(lines[j]) && is_indented(lines[n]));
            }
        }
        if indented_lines(front) >= 1 {
            let i = choose|i: int| 0 <= i < front.len() && is_indented(#[trigger] front[i]);
            assert(is_indented(lines[i]));
            if is_indented(lines[n]) {
                assert(is_indented(lines[i]) && is_indented(lines[n]));
            }
        }
        if has_three_indented(lines) {
            let (i, j, k) = choose|i: int, j: int, k: int|
                0 <= i < j < k < lines.len() && is_indented(#[trigger] lines[i]) && is_indented(
                    #[trigger] lines[j],
                ) && is_indented(#[trigger] lines[k]);
            assert(front[i] == lines[i] && front[j] == lines[j]);
            if k < n {
                assert(front[k] == lines[k]);
                assert(has_three_indented(front));
            }
        }
        if exists|i: int, j: int|
            0 <= i < j < lines.len() && is_indented(#[trigger] lines[i]) && is_indented(
                #[trigger] lines[j],
            ) {
            let (i, j) = choose|i: int, j: int|
                0 <= i < j < lines.len() && is_indented(#[trigger] lines[i]) && is_indented(
                    #[trigger] lines[j],
                );
            assert(front[i] == lines[i]);
            if j < n {
                assert(front[j] == lines[j]);
            }
        }
        if exists|i: int| 0 <= i < lines.len() && is_indented(#[trigger] lines[i]) {
            let i = choose|i: int| 0 <= i < lines.len() && is_indented(#[trigger] lines[i]);
            if i < n {
                assert(front[i] == lines[i]);
            }
        }
    }
}

/// A line ends with semicolons after anything but a small letter.
pub open spec fn ends_like_code(line: Seq<char>) -> bool {
    exists|n: int| #[trigger] ends_from(line, n)
}

/// All characters of a line from a place on are semicolons, and the one before them is
/// neither a semicolon nor a small letter.
pub open spec fn ends_from(line: Seq<char>, n: int) -> bool {
    &&& 0 < n < line.len()
    &&& forall|i: int| n <= i < line.len() ==> #[trigger] line[i] == ';'
    &&& line[n - 1] != ';'
    &&& !('a' <= line[n - 1] <= 'z')
}

proof fn lemma_semicolons(line: Seq<char>) -> (n: int)
    ensures
        0 <= n <= line.len(),
        without_semicolons(line) == line.take(n),
        forall|i: int| n <= i < line.len() ==> #[trigger] line[i] == ';',
        n > 0 ==> line[n - 1] != ';',
    decreases line.len(),
{
    if line.len() > 0 && line.last() == ';' {
        let front = line.drop_last();
        let n = lemma_semicolons(front);
        assert(front.take(n) =~= line.take(n));
        assert forall|i: int| n <= i < line.len() implies #[trigger] line[i] == ';' by {
            if i < front.len() {
                assert(front[i] == ';');
            }
        }
        if n > 0 {
            assert(front[n - 1] == line[n - 1]);
        }
        n
    } else {
        assert(line.take(line.len() as int) =~= line);
        line.len() as int
    }
}

proof fn lemma_code_line(line: Seq<char>)
    ensures
        is_code_line(line) == ends_like_code(line),
{
    let n = lemma_semicolons(line);
    if is_code_line(line) {
        assert(line.take(n).last() == line[n - 1]);
        assert(ends_from(line, n));
    }
    if ends_like_code(line) {
        let m = choose|m: int| #[trigger] ends_from(line, m);
        assert(m == n) by {
            if n < m {
                assert(line[m - 1] == ';');
            } else if m < n {
                assert(line[n - 1] == ';');
            }
        }
        assert(line.take(n).last() == line[n - 1]);
        assert(line[line.len() - 1] == ';');
    }
}

/// A text is technical where it has a closing tag, an empty one, a processing instruction
/// or raw character data, a brace together with a colon, or a URL.
pub proof fn law_technical(text: Seq<char>)
    ensures
        contains(text, "</"@) ==> looks_technical(text),
        contains(text, "/>"@) ==> looks_technical(text),
        contains(text, "<?"@) ==> looks_technical(text),
        contains(text, "<![CDATA["@) ==> looks_technical(text),
        contains(text, "://"@) ==> looks_technical(text),
        text.contains('{') && text.contains(':') ==> looks_technical(text),
        looks_technical(text) && !contains(text, "</"@) && !contains(text, "/>"@) && !contains(
            text,
            "<?"@,
        ) && !contains(text, "<![CDATA["@) && !contains(text, "://"@) ==> text.contains('{')
            && text.contains(':'),
{
}

/// A text is taken for Chinese, Japanese or Korean where one of its characters is an
/// ideograph, kana, jamo or Hangul.
pub proof fn law_cjk(text: Seq<char>)
    ensures
        looks_like_cjk(text) <==> exists|i: int|
            0 <= i < text.len() && {
                ||| 0x4e00 <= #[trigger] text[i] as int <= 0x9fff
                ||| 0x3400 <= text[i] as int <= 0x4dbf
                ||| 0xf900 <= text[i] as int <= 0xfaff
                ||| 0x3040 <= text[i] as int <= 0x30ff
                ||| 0x1100 <= text[i] as int <= 0x11ff
                ||| 0x3130 <= text[i] as int <= 0x318f
                ||| 0xac00 <= text[i] as int <= 0xd7a3
            },
{
    if looks_like_cjk(text) {
        let i = choose|i: int|
            0 <= i < text.len() && crate::token_estimation::is_cjk_char(#[trigger] text[i]);
        assert(0 <= i < text.len());
        assert(text[i] as int >= 0);
    }
}

/// How many characters make a token differs between kinds of text.
pub proof fn law_chars_per_token()
    ensures
        chars_per_token(ContentType::Chinese) == 2,
        chars_per_token(ContentType::Code) == 3,
        chars_per_token(ContentType::Technical) == 3,
        chars_per_token(ContentType::Default) == 4,
{
}

} // verus!
