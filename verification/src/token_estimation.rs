//! Token estimation for context management.

use vstd::prelude::*;

use crate::json::{print_json, printed_json};
use crate::text::{
    char_count, chars_of, contains, contains_char, contains_text, lines, lines_of, starts_with,
    starts_with_text,
};
use crate::types::{
    BlockView, ContentBlock, ContentView, Message, MessageContent, MessageView, Role, ToolCallView,
    Usage,
};

verus! {

/// Content type for token estimation heuristics.
#[derive(Debug, Clone, Copy, PartialEq, Eq, Structural)]
pub enum ContentType {
    /// Default content (English text)
    Default,
    /// Programming code
    Code,
    /// Chinese/Japanese/Korean text
    Chinese,
    /// Technical content (JSON, XML, etc.)
    Technical,
}

/// Approximate character count per image for token estimation.
pub const IMAGE_APPROX_CHARS: u64 = 4800;

// ---------------------------------------------------------------------------
// Content types
// ---------------------------------------------------------------------------

/// Text without the semicolons at its end.
pub open spec fn without_semicolons(s: Seq<char>) -> Seq<char>
    decreases s.len(),
{
    if s.len() > 0 && s.last() == ';' {
        without_semicolons(s.drop_last())
    } else {
        s
    }
}

/// A line that ends with a semicolon after anything but a small ASCII letter.
pub open spec fn is_code_line(line: Seq<char>) -> bool {
    &&& line.len() > 0
    &&& line.last() == ';'
    &&& without_semicolons(line).len() > 0
    &&& !('a' <= without_semicolons(line).last() <= 'z')
}

/// Some line looks like code by its semicolon.
pub open spec fn code_semicolons(text: Seq<char>) -> bool {
    exists|i: int| 0 <= i < lines(text).len() && is_code_line(#[trigger] lines(text)[i])
}

/// The number of lines that begin with four spaces.
pub open spec fn indented_lines(lines: Seq<Seq<char>>) -> nat
    decreases lines.len(),
{
    if lines.len() == 0 {
        0
    } else {
        indented_lines(lines.drop_last()) + if starts_with(lines.last(), "    "@) {
            1nat
        } else {
            0nat
        }
    }
}

/// Text has structural patterns that indicate code.
pub open spec fn structural_patterns(text: Seq<char>) -> bool {
    ||| contains(text, "=>"@)
    ||| contains(text, "//"@)
    ||| contains(text, "/*"@)
    ||| contains(text, "*/"@)
    ||| contains(text, "; "@)
    ||| text.len() > 0 && text.last() == ';'
    ||| indented_lines(lines(text)) >= 3
    ||| code_semicolons(text)
    ||| text.contains('\t')
}

/// One where a text holds a word, zero where it does not.
#[verifier::opaque]
pub open spec fn present_in(text: Seq<char>, word: Seq<char>) -> nat {
    if contains(text, word) {
        1
    } else {
        0
    }
}

/// How many of the words that open a definition a text holds.
pub open spec fn definition_words(text: Seq<char>) -> nat {
    present_in(text, "fn "@)
        + present_in(text, "let "@)
        + present_in(text, "const "@)
        + present_in(text, "var "@)
        + present_in(text, "function "@)
        + present_in(text, "class "@)
        + present_in(text, "def "@)
        + present_in(text, "import "@)
        + present_in(text, "from "@)
}

/// How many of the words that direct the flow of a program a text holds.
pub open spec fn flow_words(text: Seq<char>) -> nat {
    present_in(text, "return "@)
        + present_in(text, "if ("@)
        + present_in(text, "for ("@)
        + present_in(text, "while ("@)
        + present_in(text, "match "@)
        + present_in(text, "switch "@)
        + present_in(text, "case "@)
        + present_in(text, "break;"@)
        + present_in(text, "continue;"@)
}

/// How many other marks of programming languages a text holds.
pub open spec fn code_marks(text: Seq<char>) -> nat {
    present_in(text, "//"@)
        + present_in(text, "/*"@)
        + present_in(text, "*/"@)
        + present_in(text, "=>"@)
        + present_in(text, "println!"@)
}

/// How many words of programming languages a text holds.
pub open spec fn code_score(text: Seq<char>) -> nat {
    definition_words(text) + flow_words(text) + code_marks(text)
}

/// Text looks like programming code: it holds at least two words of programming
/// languages, and structural patterns as well.
pub open spec fn looks_like_code(text: Seq<char>) -> bool {
    code_score(text) >= 2 && structural_patterns(text)
}

/// A Chinese, Japanese or Korean character: an ideograph, kana or Hangul.
pub open spec fn is_cjk_char(c: char) -> bool {
    ||| '\u{4e00}' <= c <= '\u{9fff}'
    ||| '\u{3400}' <= c <= '\u{4dbf}'
    ||| '\u{f900}' <= c <= '\u{faff}'
    ||| '\u{3040}' <= c <= '\u{309f}'
    ||| '\u{30a0}' <= c <= '\u{30ff}'
    ||| '\u{1100}' <= c <= '\u{11ff}'
    ||| '\u{3130}' <= c <= '\u{318f}'
    ||| '\u{ac00}' <= c <= '\u{d7a3}'
}

/// Text holds a Chinese, Japanese or Korean character.
pub open spec fn looks_like_cjk(text: Seq<char>) -> bool {
    exists|i: int| 0 <= i < text.len() && is_cjk_char(#[trigger] text[i])
}

/// Text looks like technical content.
pub open spec fn looks_technical(text: Seq<char>) -> bool {
    ||| contains(text, "</"@)
    ||| contains(text, "/>"@)
    ||| contains(text, "<?"@)
    ||| contains(text, "<![CDATA["@)
    ||| text.contains('{') && text.contains(':')
    ||| contains(text, "://"@)
}

/// The content type of a text.
pub open spec fn content_type(text: Seq<char>) -> ContentType {
    if looks_like_code(text) {
        ContentType::Code
    } else if looks_like_cjk(text) {
        ContentType::Chinese
    } else if looks_technical(text) {
        ContentType::Technical
    } else {
        ContentType::Default
    }
}

/// Check for semicolon-newline patterns that look like code (not prose).
/// Matches `42;\n`, `);\n`, `};\n`, but not `done;\n`, `however;\n`.
pub fn has_code_semicolons(text: &str) -> (r: bool)
    ensures
        r == code_semicolons(text@),
{
    let all: Vec<String> = lines_of(text);
    let mut i: usize = 0;
    while i < all.len()
        invariant
            all.deep_view() == lines(text@),
            i <= all@.len(),
            forall|j: int| 0 <= j < i ==> !is_code_line(#[trigger] lines(text@)[j]),
        decreases all@.len() - i,
    {
        assert(lines(text@)[i as int] == all@[i as int]@);
        let line: Vec<char> = chars_of(&all[i]);
        let mut end: usize = line.len();
        assert(line@.take(end as int) == line@);
        while end > 0 && line[end - 1] == ';'
            invariant
                end <= line@.len(),
                without_semicolons(line@.take(end as int)) == without_semicolons(line@),
            decreases end,
        {
            assert(line@.take(end as int).drop_last() == line@.take(end - 1));
            end = end - 1;
        }
        assert(without_semicolons(line@) == line@.take(end as int));
        if line.len() > 0 && line[line.len() - 1] == ';' && end > 0 && !('a' <= line[end - 1]
            && line[end - 1] <= 'z') {
            assert(is_code_line(lines(text@)[i as int]));
            return true;
        }
        i = i + 1;
    }
    false
}

/// Check if 3+ lines are indented (code blocks), avoiding false positives on
/// markdown lists which typically have fewer indented lines.
pub fn has_multi_line_indent(text: &str) -> (r: bool)
    ensures
        r == (indented_lines(lines(text@)) >= 3),
{
    let all: Vec<String> = lines_of(text);
    let ghost views = all.deep_view();
    let mut count: usize = 0;
    let mut i: usize = 0;
    assert(views.take(0) =~= seq![]);
    while i < all.len()
        invariant
            views == all.deep_view(),
            i <= all@.len(),
            count <= i,
            count == indented_lines(views.take(i as int)),
        decreases all@.len() - i,
    {
        assert(views.take(i + 1).drop_last() == views.take(i as int));
        assert(views.take(i + 1).last() == all@[i as int]@);
        if starts_with_text(&all[i], "    ") {
            count = count + 1;
        }
        i = i + 1;
    }
    assert(views.take(views.len() as int) == views);
    count >= 3
}

/// Check if text contains structural patterns that indicate code.
pub fn has_structural_patterns(text: &str) -> (r: bool)
    ensures
        r == structural_patterns(text@),
{
    let chars: Vec<char> = chars_of(text);
    contains_text(text, "=>") || contains_text(text, "//") || contains_text(text, "/*")
        || contains_text(text, "*/") || contains_text(text, "; ") || (chars.len() > 0
        && chars[chars.len() - 1] == ';') || has_multi_line_indent(text) || has_code_semicolons(
        text,
    ) || contains_char(text, '\t')
}

fn count_in(text: &str, word: &str) -> (r: u32)
    ensures
        r == present_in(text@, word@),
        r <= 1,
{
    reveal(present_in);
    if contains_text(text, word) {
        1
    } else {
        0
    }
}

fn count_definition_words(text: &str) -> (r: u32)
    ensures
        r == definition_words(text@),
        r <= 9,
{
    let n0: u32 = count_in(text, "fn ");
    let n1: u32 = count_in(text, "let ");
    let n2: u32 = count_in(text, "const ");
    let n3: u32 = count_in(text, "var ");
    let n4: u32 = count_in(text, "function ");
    let n5: u32 = count_in(text, "class ");
    let n6: u32 = count_in(text, "def ");
    let n7: u32 = count_in(text, "import ");
    let n8: u32 = count_in(text, "from ");
    n0 + n1 + n2 + n3 + n4 + n5 + n6 + n7 + n8
}

fn count_flow_words(text: &str) -> (r: u32)
    ensures
        r == flow_words(text@),
        r <= 9,
{
    let n0: u32 = count_in(text, "return ");
    let n1: u32 = count_in(text, "if (");
    let n2: u32 = count_in(text, "for (");
    let n3: u32 = count_in(text, "while (");
    let n4: u32 = count_in(text, "match ");
    let n5: u32 = count_in(text, "switch ");
    let n6: u32 = count_in(text, "case ");
    let n7: u32 = count_in(text, "break;");
    let n8: u32 = count_in(text, "continue;");
    n0 + n1 + n2 + n3 + n4 + n5 + n6 + n7 + n8
}

fn count_code_marks(text: &str) -> (r: u32)
    ensures
        r == code_marks(text@),
        r <= 5,
{
    let n0: u32 = count_in(text, "//");
    let n1: u32 = count_in(text, "/*");
    let n2: u32 = count_in(text, "*/");
    let n3: u32 = count_in(text, "=>");
    let n4: u32 = count_in(text, "println!");
    n0 + n1 + n2 + n3 + n4
}

/// Check if text looks like programming code.
pub fn is_code(text: &str) -> (r: bool)
    ensures
        r == looks_like_code(text@),
{
    let score: u32 = count_definition_words(text) + count_flow_words(text) + count_code_marks(text);
    score >= 2 && has_structural_patterns(text)
}

/// Check if text contains CJK characters (Chinese, Japanese, Korean).
pub fn is_cjk(text: &str) -> (r: bool)
    ensures
        r == looks_like_cjk(text@),
{
    let chars: Vec<char> = chars_of(text);
    let mut i: usize = 0;
    while i < chars.len()
        invariant
            chars@ == text@,
            i <= chars@.len(),
            forall|j: int| 0 <= j < i ==> !is_cjk_char(#[trigger] text@[j]),
        decreases chars@.len() - i,
    {
        let c: char = chars[i];
        if ('\u{4e00}' <= c && c <= '\u{9fff}') || ('\u{3400}' <= c && c <= '\u{4dbf}') || (
        '\u{f900}' <= c && c <= '\u{faff}') || ('\u{3040}' <= c && c <= '\u{309f}') || ('\u{30a0}'
            <= c && c <= '\u{30ff}') || ('\u{1100}' <= c && c <= '\u{11ff}') || ('\u{3130}' <= c
            && c <= '\u{318f}') || ('\u{ac00}' <= c && c <= '\u{d7a3}') {
            assert(is_cjk_char(text@[i as int]));
            return true;
        }
        i = i + 1;
    }
    false
}

/// Check if text looks like technical content (JSON, XML, etc.).
pub fn is_technical(text: &str) -> (r: bool)
    ensures
        r == looks_technical(text@),
{
    contains_text(text, "</") || contains_text(text, "/>") || contains_text(text, "<?")
        || contains_text(text, "<![CDATA[") || (contains_char(text, '{') && contains_char(
        text,
        ':',
    )) || contains_text(text, "://")
}

/// Detect content type based on text characteristics.
pub fn detect_content_type(text: &str) -> (r: ContentType)
    ensures
        r == content_type(text@),
{
    if is_code(text) {
        ContentType::Code
    } else if is_cjk(text) {
        ContentType::Chinese
    } else if is_technical(text) {
        ContentType::Technical
    } else {
        ContentType::Default
    }
}

// ---------------------------------------------------------------------------
// Messages
// ---------------------------------------------------------------------------

/// The number of characters that a block counts for.
pub open spec fn block_chars(block: BlockView) -> nat {
    match block {
        BlockView::Text { text } => text.len(),
        BlockView::Image { .. } => IMAGE_APPROX_CHARS as nat,
        BlockView::Thinking { .. } => 0,
        BlockView::ToolUse { name, input, .. } => name.len() + printed_json(input).len(),
        BlockView::ToolResult { content, .. } => content.len(),
    }
}

/// The number of characters that blocks count for.
pub open spec fn blocks_chars(blocks: Seq<BlockView>) -> nat
    decreases blocks.len(),
{
    if blocks.len() == 0 {
        0
    } else {
        blocks_chars(blocks.drop_last()) + block_chars(blocks.last())
    }
}

/// The content type of blocks: that of the last text block that has another
/// than the default one.
pub open spec fn blocks_type(blocks: Seq<BlockView>) -> ContentType
    decreases blocks.len(),
{
    if blocks.len() == 0 {
        ContentType::Default
    } else {
        match blocks.last() {
            BlockView::Text { text } => if content_type(text) != ContentType::Default {
                content_type(text)
            } else {
                blocks_type(blocks.drop_last())
            },
            _ => blocks_type(blocks.drop_last()),
        }
    }
}

/// The number of characters that tool calls count for.
pub open spec fn calls_chars(calls: Seq<ToolCallView>) -> nat
    decreases calls.len(),
{
    if calls.len() == 0 {
        0
    } else {
        calls_chars(calls.drop_last()) + calls.last().name.len() + calls.last().arguments.len()
    }
}

/// The number of characters that a message counts for.
pub open spec fn message_chars(m: MessageView) -> nat {
    (match m.content {
        Some(ContentView::Text(t)) => t.len(),
        Some(ContentView::Blocks(b)) => blocks_chars(b),
        None => 0,
    }) + match m.tool_calls {
        Some(calls) => calls_chars(calls),
        None => 0,
    }
}

/// The content type of a message.
pub open spec fn message_type(m: MessageView) -> ContentType {
    match m.content {
        Some(ContentView::Text(t)) => content_type(t),
        Some(ContentView::Blocks(b)) => blocks_type(b),
        None => ContentType::Default,
    }
}

/// How many characters make a token.
pub open spec fn chars_per_token(t: ContentType) -> nat {
    match t {
        ContentType::Code => 3,
        ContentType::Chinese => 2,
        ContentType::Technical => 3,
        ContentType::Default => 4,
    }
}

/// The smaller of a number and the largest 32-bit one.
pub open spec fn capped(n: nat) -> u32 {
    if n <= u32::MAX {
        n as u32
    } else {
        u32::MAX
    }
}

/// The number of tokens estimated for a message: its characters over those of a
/// token, rounded up.
pub open spec fn estimated(m: MessageView) -> u32 {
    let per_token = chars_per_token(message_type(m));
    capped((message_chars(m) + per_token - 1) as nat / per_token)
}

/// Add to a count that stays at the largest number once it has reached it.
fn add_chars(total: u64, more: u64) -> (r: u64)
    ensures
        r == if total + more <= u64::MAX {
            total + more
        } else {
            u64::MAX as int
        },
{
    if more > u64::MAX - total {
        u64::MAX
    } else {
        total + more
    }
}

/// `total` stands for `n`: it is `n`, or the largest number where `n` is larger.
spec fn stands_for(total: u64, n: nat) -> bool {
    total == n || (total == u64::MAX && n > u64::MAX)
}

/// Estimate token count for a single message using chars/4 heuristic.
pub fn estimate_tokens(message: &Message) -> (r: u32)
    ensures
        r == estimated(message.deep_view()),
{
    let mut chars: u64 = 0;
    let mut content_type: ContentType = ContentType::Default;
    match &message.content {
        Some(MessageContent::Text(text)) => {
            chars = char_count(text) as u64;
            content_type = detect_content_type(text);
        },
        Some(MessageContent::Blocks(blocks)) => {
            let ghost views = blocks.deep_view();
            let mut i: usize = 0;
            assert(views.take(0) =~= seq![]);
            while i < blocks.len()
                invariant
                    views == blocks.deep_view(),
                    i <= blocks@.len(),
                    stands_for(chars, blocks_chars(views.take(i as int))),
                    content_type == blocks_type(views.take(i as int)),
                decreases blocks@.len() - i,
            {
                assert(views.take(i + 1).drop_last() == views.take(i as int));
                assert(views.take(i + 1).last() == blocks@[i as int].deep_view());
                match &blocks[i] {
                    ContentBlock::Text { text } => {
                        chars = add_chars(chars, char_count(text) as u64);
                        let block_type: ContentType = detect_content_type(text);
                        if block_type != ContentType::Default {
                            content_type = block_type;
                        }
                    },
                    ContentBlock::Image { .. } => {
                        chars = add_chars(chars, IMAGE_APPROX_CHARS);
                    },
                    ContentBlock::Thinking { .. } => {},
                    ContentBlock::ToolUse { name, input, .. } => {
                        chars = add_chars(chars, char_count(name) as u64);
                        chars = add_chars(chars, char_count(&print_json(input)) as u64);
                    },
                    ContentBlock::ToolResult { content, .. } => {
                        chars = add_chars(chars, char_count(content) as u64);
                    },
                }
                i = i + 1;
            }
            assert(views.take(views.len() as int) == views);
        },
        None => {},
    }
    if let Some(calls) = &message.tool_calls {
        let ghost views = calls.deep_view();
        let ghost content_chars = (message_chars(message.deep_view()) - calls_chars(views)) as nat;
        let mut i: usize = 0;
        assert(views.take(0) =~= seq![]);
        while i < calls.len()
            invariant
                views == calls.deep_view(),
                i <= calls@.len(),
                stands_for(chars, content_chars + calls_chars(views.take(i as int))),
            decreases calls@.len() - i,
        {
            assert(views.take(i + 1).drop_last() == views.take(i as int));
            assert(views.take(i + 1).last() == calls@[i as int].deep_view());
            chars = add_chars(chars, char_count(&calls[i].function.name) as u64);
            chars = add_chars(chars, char_count(&calls[i].function.arguments) as u64);
            i = i + 1;
        }
        assert(views.take(views.len() as int) == views);
    }
    let divisor: u64 = match content_type {
        ContentType::Code => 3,
        ContentType::Chinese => 2,
        ContentType::Technical => 3,
        ContentType::Default => 4,
    };
    let ghost total = message_chars(message.deep_view());
    assert(stands_for(chars, total));
    let whole: u64 = chars / divisor;
    let tokens: u64 = if chars % divisor > 0 {
        whole + 1
    } else {
        whole
    };
    proof {
        lemma_rounded_up(chars as nat, divisor as nat);
        if total > u64::MAX {
            assert((total + divisor - 1) / divisor as int > u32::MAX) by (nonlinear_arith)
                requires
                    total > u64::MAX,
                    2 <= divisor <= 4,
            ;
        }
    }
    if tokens > 0xffff_ffff {
        0xffff_ffff
    } else {
        tokens as u32
    }
}

proof fn lemma_rounded_up(n: nat, d: nat)
    requires
        d > 0,
    ensures
        (n + d - 1) as nat / d == n / d + (if n % d > 0 {
            1nat
        } else {
            0nat
        }),
{
    let q = n / d;
    let m = n % d;
    assert(n == d * q + m) by (nonlinear_arith)
        requires
            d > 0,
            q == n / d,
            m == n % d,
    ;
    assert(m < d);
    if m > 0 {
        assert((n + d - 1) as nat / d == q + 1) by (nonlinear_arith)
            requires
                n == d * q + m,
                0 < m < d,
        ;
    } else {
        assert((n + d - 1) as nat / d == q) by (nonlinear_arith)
            requires
                n == d * q,
                d > 0,
        ;
    }
}

/// The number of tokens estimated for messages, without a bound.
pub open spec fn total_estimated(messages: Seq<MessageView>) -> nat
    decreases messages.len(),
{
    if messages.len() == 0 {
        0
    } else {
        total_estimated(messages.drop_last()) + estimated(messages.last()) as nat
    }
}

pub proof fn lemma_total_estimated_grows(messages: Seq<MessageView>, n: int)
    requires
        0 <= n <= messages.len(),
    ensures
        total_estimated(messages.take(n)) <= total_estimated(messages),
    decreases messages.len() - n,
{
    if n < messages.len() {
        assert(messages.take(n + 1).drop_last() == messages.take(n));
        lemma_total_estimated_grows(messages, n + 1);
    } else {
        assert(messages.take(n) == messages);
    }
}

/// Estimates of messages from an index on, added up without a bound.
fn total_from(messages: &Vec<Message>, start: usize) -> (r: u128)
    requires
        start <= messages@.len(),
    ensures
        r == total_estimated(messages.deep_view().skip(start as int)),
        r <= (messages@.len() - start) * 0xffff_ffff,
{
    let ghost views = messages.deep_view().skip(start as int);
    let mut total: u128 = 0;
    let mut i: usize = start;
    let n: usize = messages.len();
    assert(views.take(0) =~= seq![]);
    while i < n
        invariant
            views == messages.deep_view().skip(start as int),
            n == messages@.len(),
            start <= i <= n,
            total == total_estimated(views.take(i - start)),
            total <= (i - start) * 0xffff_ffff,
        decreases messages@.len() - i,
    {
        assert(views.take(i - start + 1).drop_last() == views.take(i - start));
        assert(views.take(i - start + 1).last() == messages@[i as int].deep_view());
        assert((i - start) * 0xffff_ffff <= 0xffff_ffff_ffff_ffff * 0xffff_ffff)
            by (nonlinear_arith)
            requires
                0 <= i - start <= 0xffff_ffff_ffff_ffff,
        ;
        total = total + estimate_tokens(&messages[i]) as u128;
        i = i + 1;
    }
    assert(views.take(views.len() as int) == views);
    total
}

/// The sum of the estimates of messages, up to the largest 32-bit number.
pub fn sum_tokens_saturating(messages: &Vec<Message>) -> (r: u32)
    ensures
        r == capped(total_estimated(messages.deep_view())),
{
    let total: u128 = total_from(messages, 0);
    assert(messages.deep_view().skip(0) == messages.deep_view());
    if total > 0xffff_ffff {
        0xffff_ffff
    } else {
        total as u32
    }
}

/// The position of the last assistant message.
pub open spec fn last_assistant(messages: Seq<MessageView>) -> Option<int>
    decreases messages.len(),
{
    if messages.len() == 0 {
        None
    } else if messages.last().role == Role::Assistant {
        Some(messages.len() - 1)
    } else {
        last_assistant(messages.drop_last())
    }
}

/// The context size of messages: the usage that the last response reported and
/// an estimate of what came after it, or else an estimate of all of them.
pub open spec fn context_tokens(messages: Seq<MessageView>, last_usage: Option<Usage>) -> nat {
    match (last_usage, last_assistant(messages)) {
        (Some(usage), Some(i)) => if usage.total_tokens > 0 {
            usage.total_tokens as nat + total_estimated(messages.skip(i + 1))
        } else {
            total_estimated(messages)
        },
        _ => total_estimated(messages),
    }
}

/// Estimate total context tokens for a set of messages, where the total is a
/// 32-bit number.
/// Uses usage-based estimation when available, heuristic fallback.
pub fn checked_context_tokens(messages: &Vec<Message>, last_usage: Option<Usage>) -> (r: Option<
    u32,
>)
    ensures
        r == if context_tokens(messages.deep_view(), last_usage) <= u32::MAX {
            Some(context_tokens(messages.deep_view(), last_usage) as u32)
        } else {
            None
        },
{
    let ghost views = messages.deep_view();
    let mut base: u32 = 0;
    let mut start: usize = 0;
    if let Some(usage) = last_usage {
        if usage.total_tokens > 0 {
            let mut i: usize = messages.len();
            let mut found: bool = false;
            assert(views.take(views.len() as int) == views);
            while i > 0 && !found
                invariant
                    views == messages.deep_view(),
                    i <= messages@.len(),
                    !found ==> last_assistant(views.take(i as int)) == last_assistant(views),
                    found ==> i > 0 && last_assistant(views) == Some(i - 1),
                decreases i + if found {
                    0int
                } else {
                    1int
                },
            {
                assert(views.take(i as int).drop_last() == views.take(i - 1));
                assert(views.take(i as int).last() == messages@[i - 1].deep_view());
                if messages[i - 1].role == Role::Assistant {
                    found = true;
                } else {
                    i = i - 1;
                }
            }
            if found {
                base = usage.total_tokens;
                start = i;
            }
        }
    }
    assert(views.skip(0) == views);
    let n: usize = messages.len();
    let total: u128 = total_from(messages, start);
    assert((n - start) * 0xffff_ffff <= 0xffff_ffff_ffff_ffff * 0xffff_ffff)
        by (nonlinear_arith)
        requires
            0 <= n - start <= 0xffff_ffff_ffff_ffff,
    ;
    let sum: u128 = base as u128 + total;
    if sum > 0xffff_ffff {
        None
    } else {
        Some(sum as u32)
    }
}

/// Estimate total context tokens for a set of messages.
/// Uses usage-based estimation when available, heuristic fallback.
pub fn estimate_context_tokens(messages: &Vec<Message>, last_usage: Option<Usage>) -> (r: u32)
    requires
        context_tokens(messages.deep_view(), last_usage) <= u32::MAX,
    ensures
        r == context_tokens(messages.deep_view(), last_usage),
{
    match checked_context_tokens(messages, last_usage) {
        Some(total) => total,
        None => 0,
    }
}

} // verus!
