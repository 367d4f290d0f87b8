//! Streaming JSON repair and partial parsing helpers.

use vstd::prelude::*;

use crate::json::{
    json_result_view, json_view, lemma_object_view, parse_json, parsed_json, Json, JsonView,
};
use crate::text::{
    byte_len, char_width, chars_of, lemma_fitting_take, lemma_utf8_len_take, same_text, string_between, take_bytes,
    trim, trimmed, utf8_len,
};

verus! {

// ---------------------------------------------------------------------------
// Repair
// ---------------------------------------------------------------------------

/// A hexadecimal digit.
pub open spec fn is_hex_digit(c: char) -> bool {
    '0' <= c <= '9' || 'a' <= c <= 'f' || 'A' <= c <= 'F'
}

/// A character that can follow a backslash in a string.
pub open spec fn is_escape(c: char) -> bool {
    c == '"' || c == '\\' || c == '/' || c == 'b' || c == 'f' || c == 'n' || c == 'r' || c == 't'
        || c == 'u'
}

/// A character that cannot stand in a string as it is.
pub open spec fn is_control(c: char) -> bool {
    c <= '\u{1f}'
}

/// Four hexadecimal digits come first.
pub open spec fn starts_with_hex(s: Seq<char>) -> bool {
    s.len() >= 4 && is_hex_digit(s[0]) && is_hex_digit(s[1]) && is_hex_digit(s[2]) && is_hex_digit(
        s[3],
    )
}

/// The lower-case hexadecimal digit for a number below sixteen.
pub open spec fn hex_digit(n: int) -> char {
    if n == 0 {
        '0'
    } else if n == 1 {
        '1'
    } else if n == 2 {
        '2'
    } else if n == 3 {
        '3'
    } else if n == 4 {
        '4'
    } else if n == 5 {
        '5'
    } else if n == 6 {
        '6'
    } else if n == 7 {
        '7'
    } else if n == 8 {
        '8'
    } else if n == 9 {
        '9'
    } else if n == 10 {
        'a'
    } else if n == 11 {
        'b'
    } else if n == 12 {
        'c'
    } else if n == 13 {
        'd'
    } else if n == 14 {
        'e'
    } else {
        'f'
    }
}

/// A number in hexadecimal digits, most significant first.
pub open spec fn hex_digits(n: nat) -> Seq<char>
    decreases n,
{
    if n < 16 {
        seq![hex_digit(n as int)]
    } else {
        hex_digits(n / 16).push(hex_digit((n % 16) as int))
    }
}

/// A number in at least four hexadecimal digits.
pub open spec fn padded_hex(n: nat) -> Seq<char> {
    let digits = hex_digits(n);
    if digits.len() >= 4 {
        digits
    } else {
        Seq::new((4 - digits.len()) as nat, |i: int| '0') + digits
    }
}

/// The escape sequence for a control character.
pub open spec fn control_escape(c: char) -> Seq<char> {
    if c == '\u{8}' {
        seq!['\\', 'b']
    } else if c == '\u{c}' {
        seq!['\\', 'f']
    } else if c == '\n' {
        seq!['\\', 'n']
    } else if c == '\r' {
        seq!['\\', 'r']
    } else if c == '\t' {
        seq!['\\', 't']
    } else {
        seq!['\\', 'u'] + padded_hex(c as nat)
    }
}

/// How many characters are taken at once in a string: an escape sequence, or one
/// character.
pub open spec fn step_len(s: Seq<char>) -> int {
    if s[0] == '\\' && s.len() > 1 && s[1] == 'u' && starts_with_hex(s.skip(2)) {
        6
    } else if s[0] == '\\' && s.len() > 1 && is_escape(s[1]) {
        2
    } else {
        1
    }
}

/// What is written in a string for the characters that are taken at once.
pub open spec fn step_text(s: Seq<char>) -> Seq<char> {
    if s[0] == '\\' && step_len(s) == 1 {
        seq!['\\', '\\']
    } else if is_control(s[0]) {
        control_escape(s[0])
    } else {
        s.take(step_len(s))
    }
}

/// A text with the malformed string literals in it repaired, from outside or from
/// within a string.
pub open spec fn repaired(s: Seq<char>, in_string: bool) -> Seq<char>
    decreases s.len(),
{
    if s.len() == 0 {
        seq![]
    } else if !in_string {
        seq![s[0]] + repaired(s.skip(1), s[0] == '"')
    } else if s[0] == '"' {
        seq![s[0]] + repaired(s.skip(1), false)
    } else {
        step_text(s) + repaired(s.skip(step_len(s)), true)
    }
}

fn hex_digit_at(chars: &Vec<char>, i: usize) -> (r: bool)
    requires
        i < chars@.len(),
    ensures
        r == is_hex_digit(chars@[i as int]),
{
    let c: char = chars[i];
    ('0' <= c && c <= '9') || ('a' <= c && c <= 'f') || ('A' <= c && c <= 'F')
}

fn has_valid_unicode_escape(chars: &Vec<char>, start: usize) -> (r: bool)
    requires
        start <= chars@.len(),
    ensures
        r == starts_with_hex(chars@.skip(start as int)),
{
    if chars.len() - start < 4 {
        return false;
    }
    hex_digit_at(chars, start) && hex_digit_at(chars, start + 1) && hex_digit_at(chars, start + 2)
        && hex_digit_at(chars, start + 3)
}

/// Whether a character can follow a backslash in a string.
pub fn is_valid_json_escape(c: char) -> (r: bool)
    ensures
        r == is_escape(c),
{
    c == '"' || c == '\\' || c == '/' || c == 'b' || c == 'f' || c == 'n' || c == 'r' || c == 't'
        || c == 'u'
}

/// Whether a character cannot stand in a string as it is.
pub fn is_control_character(c: char) -> (r: bool)
    ensures
        r == is_control(c),
{
    c <= '\u{1f}'
}

fn hex_char(n: u32) -> (r: char)
    requires
        n < 16,
    ensures
        r == hex_digit(n as int),
{
    if n == 0 {
        '0'
    } else if n == 1 {
        '1'
    } else if n == 2 {
        '2'
    } else if n == 3 {
        '3'
    } else if n == 4 {
        '4'
    } else if n == 5 {
        '5'
    } else if n == 6 {
        '6'
    } else if n == 7 {
        '7'
    } else if n == 8 {
        '8'
    } else if n == 9 {
        '9'
    } else if n == 10 {
        'a'
    } else if n == 11 {
        'b'
    } else if n == 12 {
        'c'
    } else if n == 13 {
        'd'
    } else if n == 14 {
        'e'
    } else {
        'f'
    }
}

fn hex_chars(n: u32) -> (r: Vec<char>)
    ensures
        r@ == hex_digits(n as nat),
    decreases n,
{
    if n < 16 {
        let mut r: Vec<char> = Vec::new();
        r.push(hex_char(n));
        assert(r@ =~= hex_digits(n as nat));
        r
    } else {
        let mut r: Vec<char> = hex_chars(n / 16);
        r.push(hex_char(n % 16));
        r
    }
}

/// The escape sequence for a control character.
pub fn escape_control_character(c: char) -> (r: String)
    ensures
        r@ == control_escape(c),
{
    let mut out: String = String::new();
    out.push('\\');
    if c == '\u{8}' {
        out.push('b');
    } else if c == '\u{c}' {
        out.push('f');
    } else if c == '\n' {
        out.push('n');
    } else if c == '\r' {
        out.push('r');
    } else if c == '\t' {
        out.push('t');
    } else {
        out.push('u');
        let digits: Vec<char> = hex_chars(c as u32);
        let ghost padded = padded_hex(c as nat);
        let mut len: usize = digits.len();
        let ghost mut zeros: nat = 0;
        assert(out@ =~= seq!['\\', 'u'] + padded.take(0));
        while len < 4
            invariant
                digits@ == hex_digits(c as nat),
                padded == padded_hex(c as nat),
                len == digits@.len() + zeros,
                len <= 4 || zeros == 0,
                zeros <= padded.len() - digits@.len(),
                out@ == seq!['\\', 'u'] + padded.take(zeros as int),
            decreases 4 - len,
        {
            out.push('0');
            len = len + 1;
            proof {
                zeros = zeros + 1;
            }
            assert(out@ =~= seq!['\\', 'u'] + padded.take(zeros as int));
        }
        assert(padded.skip(zeros as int) =~= digits@);
        out.push_str(&string_between(&digits, 0, digits.len()));
        assert(out@ =~= seq!['\\', 'u'] + padded);
    }
    assert(out@ =~= control_escape(c));
    out
}

/// Repair malformed JSON string literals by escaping raw control characters and
/// doubling backslashes before invalid escape characters.
pub fn repair_json(json: &str) -> (r: String)
    ensures
        r@ == repaired(json@, false),
{
    let chars: Vec<char> = chars_of(json);
    let ghost whole = repaired(json@, false);
    let mut out: String = String::new();
    let mut in_string: bool = false;
    let mut i: usize = 0;
    assert(json@.skip(0) =~= json@);
    assert(out@ + whole =~= whole);
    while i < chars.len()
        invariant
            chars@ == json@,
            i <= chars@.len(),
            out@ + repaired(json@.skip(i as int), in_string) == whole,
        decreases chars@.len() - i,
    {
        let c: char = chars[i];
        let ghost rest = json@.skip(i as int);
        let ghost before = out@;
        assert(rest[0] == c);
        assert(rest.skip(1) =~= json@.skip(i + 1));
        if !in_string {
            out.push(c);
            in_string = c == '"';
            i = i + 1;
            assert(out@ + repaired(json@.skip(i as int), in_string) =~= before + (seq![c]
                + repaired(json@.skip(i as int), in_string)));
            continue ;
        }
        if c == '"' {
            out.push(c);
            in_string = false;
            i = i + 1;
            assert(out@ + repaired(json@.skip(i as int), in_string) =~= before + (seq![c]
                + repaired(json@.skip(i as int), in_string)));
            continue ;
        }
        let mut len: usize = 1;
        if c == '\\' && chars.len() - i > 1 {
            assert(rest[1] == chars@[i + 1]);
            assert(rest.skip(2) =~= json@.skip(i + 2));
            let next: char = chars[i + 1];
            if next == 'u' && has_valid_unicode_escape(&chars, i + 2) {
                len = 6;
            } else if is_valid_json_escape(next) {
                len = 2;
            }
        }
        assert(len == step_len(rest));
        assert(rest.skip(len as int) =~= json@.skip(i + len));
        if c == '\\' && len == 1 {
            out.push('\\');
            out.push('\\');
            assert(out@ =~= before + step_text(rest));
        } else if is_control_character(c) {
            assert(c != '\\');
            out.push_str(&escape_control_character(c));
        } else {
            let part: String = string_between(&chars, i, i + len);
            out.push_str(&part);
            assert(part@ =~= rest.take(len as int));
        }
        assert(out@ =~= before + step_text(rest));
        i = i + len;
        assert(out@ + repaired(json@.skip(i as int), true) =~= before + (step_text(rest)
            + repaired(json@.skip(i as int), true)));
    }
    assert(out@ + Seq::<char>::empty() =~= out@);
    out
}

/// A text without backslashes and control characters needs no repair.
pub proof fn law_plain_text_not_repaired(s: Seq<char>, in_string: bool)
    requires
        forall|i: int| 0 <= i < s.len() ==> #[trigger] s[i] != '\\' && !is_control(s[i]),
    ensures
        repaired(s, in_string) == s,
    decreases s.len(),
{
    if s.len() > 0 {
        let rest = s.skip(1);
        assert forall|i: int| 0 <= i < rest.len() implies #[trigger] rest[i] != '\\'
            && !is_control(rest[i]) by {
            assert(rest[i] == s[i + 1]);
        }
        law_plain_text_not_repaired(rest, s[0] == '"');
        law_plain_text_not_repaired(rest, false);
        law_plain_text_not_repaired(rest, true);
        assert(seq![s[0]] + rest =~= s);
        assert(s.take(1) =~= seq![s[0]]);
    }
}

proof fn lemma_hex_digits()
    ensures
        forall|n: int| is_hex_digit(#[trigger] hex_digit(n)),
{
}

/// A control character has four hexadecimal digits.
proof fn lemma_control_hex(c: char)
    requires
        is_control(c),
    ensures
        padded_hex(c as nat).len() == 4,
        forall|i: int| 0 <= i < 4 ==> is_hex_digit(#[trigger] padded_hex(c as nat)[i]),
{
    let n = c as nat;
    lemma_hex_digits();
    if n >= 16 {
        assert(hex_digits(n / 16) =~= seq![hex_digit((n / 16) as int)]);
    }
}

/// After a part that no longer needs repair, repair goes on with the rest.
proof fn lemma_step_repaired(s: Seq<char>, t: Seq<char>)
    requires
        s.len() > 0,
        s[0] != '"',
        t == repaired(s.skip(step_len(s)), true),
    ensures
        repaired(step_text(s) + t, true) == step_text(s) + repaired(t, true),
{
    let text = step_text(s);
    let all = text + t;
    lemma_hex_digits();
    if s[0] == '\\' && step_len(s) == 1 {
        assert(all[0] == '\\' && all[1] == '\\');
        assert(step_len(all) == 2);
        assert(all.take(2) =~= text);
        assert(all.skip(2) =~= t);
        assert(step_text(all) == text);
    } else if is_control(s[0]) {
        assert(all[0] == '\\' && all[1] == text[1]);
        lemma_control_hex(s[0]);
        if text[1] == 'u' {
            let digits = padded_hex(s[0] as nat);
            assert(text =~= seq!['\\', 'u'] + digits);
            assert(all.skip(2)[0] == digits[0] && all.skip(2)[1] == digits[1]);
            assert(all.skip(2)[2] == digits[2] && all.skip(2)[3] == digits[3]);
            assert(starts_with_hex(all.skip(2)));
            assert(step_len(all) == 6);
            assert(all.take(6) =~= text);
            assert(all.skip(6) =~= t);
        } else {
            assert(step_len(all) == 2);
            assert(all.take(2) =~= text);
            assert(all.skip(2) =~= t);
        }
        assert(step_text(all) == text);
    } else if s[0] != '\\' {
        assert(all[0] == s[0]);
        assert(step_len(all) == 1);
        assert(all.take(1) =~= text);
        assert(all.skip(1) =~= t);
    } else if step_len(s) == 6 {
        assert(all[0] == '\\' && all[1] == 'u');
        assert(all.skip(2)[0] == s.skip(2)[0] && all.skip(2)[1] == s.skip(2)[1]);
        assert(all.skip(2)[2] == s.skip(2)[2] && all.skip(2)[3] == s.skip(2)[3]);
        assert(step_len(all) == 6);
        assert(all.take(6) =~= text);
        assert(all.skip(6) =~= t);
    } else {
        assert(all[0] == '\\' && all[1] == s[1]);
        assert(all.skip(2) =~= t);
        assert(s.skip(2) =~= s.skip(step_len(s)));
        lemma_repair_makes_no_hex(s.skip(2), 4);
        assert(step_len(all) == 2);
        assert(all.take(2) =~= text);
    }
}

/// Whether hexadecimal digits come first is not changed by repair.
proof fn lemma_repair_makes_no_hex(s: Seq<char>, n: int)
    requires
        0 <= n <= 4,
    ensures
        ({
            let t = repaired(s, true);
            (t.len() >= n && forall|i: int| 0 <= i < n ==> is_hex_digit(#[trigger] t[i])) ==> (
            s.len() >= n && forall|i: int| 0 <= i < n ==> is_hex_digit(#[trigger] s[i]))
        }),
    decreases n,
{
    let t = repaired(s, true);
    if n > 0 && t.len() >= n && (forall|i: int| 0 <= i < n ==> is_hex_digit(#[trigger] t[i])) {
        assert(is_hex_digit(t[0]));
        assert(s.len() > 0);
        if s[0] == '"' {
            assert(t[0] == '"');
            assert(false);
        }
        assert(t[0] == step_text(s)[0]);
        if s[0] == '\\' || is_control(s[0]) {
            assert(t[0] == '\\');
            assert(false);
        }
        assert(step_len(s) == 1);
        assert(s.take(1) =~= seq![s[0]]);
        let rest = s.skip(1);
        let u = repaired(rest, true);
        assert(t =~= seq![s[0]] + u);
        assert forall|i: int| 0 <= i < n - 1 implies is_hex_digit(#[trigger] u[i]) by {
            assert(u[i] == t[i + 1]);
        }
        lemma_repair_makes_no_hex(rest, n - 1);
        assert forall|i: int| 0 <= i < n implies is_hex_digit(#[trigger] s[i]) by {
            if i == 0 {
                assert(s[0] == t[0]);
            } else {
                assert(s[i] == rest[i - 1]);
            }
        }
    }
}

/// A repaired text needs no further repair.
pub proof fn law_repairing_twice(s: Seq<char>, in_string: bool)
    ensures
        repaired(repaired(s, in_string), in_string) == repaired(s, in_string),
    decreases s.len(),
{
    if s.len() > 0 {
        let t = repaired(s, in_string);
        if !in_string || s[0] == '"' {
            let inside = !in_string && s[0] == '"';
            let u = repaired(s.skip(1), inside);
            law_repairing_twice(s.skip(1), inside);
            assert(t[0] == s[0]);
            assert(t.skip(1) =~= u);
        } else {
            let u = repaired(s.skip(step_len(s)), true);
            assert(s.skip(step_len(s)).len() < s.len());
            law_repairing_twice(s.skip(step_len(s)), true);
            lemma_step_repaired(s, u);
        }
    }
}

// ---------------------------------------------------------------------------
// Reading with repair
// ---------------------------------------------------------------------------

/// The text to read in place of one that could not be read, where repair changes
/// it.
pub fn text_to_retry(json: &str) -> (r: Option<String>)
    ensures
        r.deep_view() == if repaired(json@, false) == json@ {
            None
        } else {
            Some(repaired(json@, false))
        },
{
    let repaired: String = repair_json(json);
    if same_text(&repaired, json) {
        None
    } else {
        Some(repaired)
    }
}

/// What a text is read as: as it is, or else repaired.
pub open spec fn read_with_repair(json: Seq<char>) -> Result<JsonView, Seq<char>> {
    if parsed_json(json) is Err && repaired(json, false) != json {
        parsed_json(repaired(json, false))
    } else {
        parsed_json(json)
    }
}

/// Parse JSON, retrying once after repairing malformed string literals.
pub fn parse_json_with_repair(json: &str) -> (r: Result<Json, String>)
    ensures
        json_result_view(r) == read_with_repair(json@),
{
    let first: Result<Json, String> = parse_json(json);
    if first.is_ok() {
        return first;
    }
    match text_to_retry(json) {
        Some(text) => parse_json(&text),
        None => first,
    }
}

// ---------------------------------------------------------------------------
// Partial objects
// ---------------------------------------------------------------------------

/// Where a scan of a text is: within a string or not, after a backslash or not,
/// and which brackets are to be closed, the innermost last.
pub struct Scan {
    pub in_string: bool,
    pub escaped: bool,
    pub open: Seq<char>,
}

/// The scan after one more character; none where a bracket closes nothing, or
/// something else.
pub open spec fn scan_step(scan: Scan, c: char) -> Option<Scan> {
    if scan.in_string {
        Some(
            Scan {
                in_string: scan.escaped || c != '"',
                escaped: !scan.escaped && c == '\\',
                open: scan.open,
            },
        )
    } else if c == '"' {
        Some(Scan { in_string: true, ..scan })
    } else if c == '{' {
        Some(Scan { open: scan.open.push('}'), ..scan })
    } else if c == '[' {
        Some(Scan { open: scan.open.push(']'), ..scan })
    } else if c == '}' || c == ']' {
        if scan.open.len() > 0 && scan.open.last() == c {
            Some(Scan { open: scan.open.drop_last(), ..scan })
        } else {
            None
        }
    } else {
        Some(scan)
    }
}

/// The scan of a text.
pub open spec fn scanned(json: Seq<char>) -> Option<Scan>
    decreases json.len(),
{
    if json.len() == 0 {
        Some(Scan { in_string: false, escaped: false, open: seq![] })
    } else {
        match scanned(json.drop_last()) {
            Some(scan) => scan_step(scan, json.last()),
            None => None,
        }
    }
}

/// The brackets that close what a text has left open; none where the text ends
/// within a string, or where its brackets do not match.
pub open spec fn closing_suffix(json: Seq<char>) -> Option<Seq<char>> {
    match scanned(json) {
        Some(scan) => if scan.in_string || scan.escaped {
            None
        } else {
            Some(scan.open.reverse())
        },
        None => None,
    }
}

proof fn lemma_scan_fails(json: Seq<char>, n: int)
    requires
        0 <= n <= json.len(),
        scanned(json.take(n)) is None,
    ensures
        scanned(json) is None,
    decreases json.len() - n,
{
    if n < json.len() {
        assert(json.take(n + 1).drop_last() =~= json.take(n));
        lemma_scan_fails(json, n + 1);
    } else {
        assert(json.take(n) =~= json);
    }
}

/// The brackets that close what a text has left open.
pub fn inferred_closing_suffix(json: &str) -> (r: Option<String>)
    ensures
        r.deep_view() == closing_suffix(json@),
{
    let chars: Vec<char> = chars_of(json);
    let mut in_string: bool = false;
    let mut escaped: bool = false;
    let mut stack: Vec<char> = Vec::new();
    let mut i: usize = 0;
    assert(json@.take(0) =~= seq![]);
    assert(stack@ =~= seq![]);
    while i < chars.len()
        invariant
            chars@ == json@,
            i <= chars@.len(),
            scanned(json@.take(i as int)) == Some(Scan { in_string, escaped, open: stack@ }),
        decreases chars@.len() - i,
    {
        let c: char = chars[i];
        assert(json@.take(i + 1).drop_last() =~= json@.take(i as int));
        assert(json@.take(i + 1).last() == c);
        i = i + 1;
        if in_string {
            if escaped {
                escaped = false;
            } else if c == '\\' {
                escaped = true;
            } else if c == '"' {
                in_string = false;
            }
        } else if c == '"' {
            proof {
                lemma_not_escaped(json@.take(i - 1));
            }
            in_string = true;
        } else if c == '{' {
            stack.push('}');
        } else if c == '[' {
            stack.push(']');
        } else if c == '}' || c == ']' {
            let ghost before = stack@;
            match stack.pop() {
                Some(expected) => {
                    assert(expected == before.last());
                    if c != expected {
                        proof {
                            lemma_scan_fails(json@, i as int);
                        }
                        return None;
                    }
                    assert(stack@ =~= before.drop_last());
                },
                None => {
                    proof {
                        lemma_scan_fails(json@, i as int);
                    }
                    return None;
                },
            }
        }
    }
    assert(json@.take(json@.len() as int) =~= json@);
    if in_string || escaped {
        return None;
    }
    let ghost open = stack@;
    let mut suffix: String = String::new();
    let mut k: usize = stack.len();
    assert(suffix@ =~= open.reverse().take(0));
    while k > 0
        invariant
            open == stack@,
            k <= stack@.len(),
            suffix@ == open.reverse().take(stack@.len() - k),
        decreases k,
    {
        k = k - 1;
        suffix.push(stack[k]);
        assert(suffix@ =~= open.reverse().take(stack@.len() - k));
    }
    assert(open.reverse().take(open.len() as int) =~= open.reverse());
    Some(suffix)
}

/// Outside a string, nothing is escaped.
proof fn lemma_not_escaped(json: Seq<char>)
    ensures
        scanned(json) matches Some(scan) ==> (scan.escaped ==> scan.in_string),
    decreases json.len(),
{
    if json.len() > 0 {
        lemma_not_escaped(json.drop_last());
    }
}

proof fn lemma_open_brackets(json: Seq<char>)
    ensures
        scanned(json) matches Some(scan) ==> (forall|i: int|
            0 <= i < scan.open.len() ==> (#[trigger] scan.open[i] == '}' || scan.open[i] == ']')),
    decreases json.len(),
{
    if json.len() > 0 {
        lemma_open_brackets(json.drop_last());
    }
}

proof fn lemma_closed(json: Seq<char>, n: int)
    requires
        scanned(json) matches Some(scan) && !scan.in_string && !scan.escaped && 0 <= n
            <= scan.open.len(),
    ensures
        ({
            let scan = scanned(json)->0;
            scanned(json + scan.open.reverse().take(n)) == Some(
                Scan { open: scan.open.take(scan.open.len() - n), ..scan },
            )
        }),
    decreases n,
{
    let scan = scanned(json)->0;
    let closing = scan.open.reverse();
    if n == 0 {
        assert(json + closing.take(0) =~= json);
        assert(scan.open.take(scan.open.len() as int) =~= scan.open);
    } else {
        lemma_closed(json, n - 1);
        lemma_open_brackets(json);
        let longer = json + closing.take(n);
        assert(longer.drop_last() =~= json + closing.take(n - 1));
        assert(longer.last() == closing[n - 1]);
        let left = scan.open.take(scan.open.len() - (n - 1));
        assert(left.last() == longer.last());
        assert(scan.open[scan.open.len() - n] == longer.last());
        assert(left.drop_last() =~= scan.open.take(scan.open.len() - n));
    }
}

/// A text that is followed by the brackets that close what it has left open has
/// nothing left to close.
pub proof fn law_closing_suffix_closes(json: Seq<char>)
    requires
        closing_suffix(json) is Some,
    ensures
        closing_suffix(json + closing_suffix(json)->0) == Some(Seq::<char>::empty()),
{
    let scan = scanned(json)->0;
    lemma_closed(json, scan.open.len() as int);
    assert(scan.open.reverse().take(scan.open.len() as int) =~= scan.open.reverse());
    assert(scan.open.take(0).reverse() =~= Seq::<char>::empty());
}

/// Where a search for commas is: within a string or not, after a backslash or
/// not, and within how many brackets.
pub struct Depth {
    pub in_string: bool,
    pub escaped: bool,
    pub depth: u32,
}

/// The search after one more character.
pub open spec fn depth_step(at: Depth, c: char) -> Depth {
    if at.in_string {
        Depth {
            in_string: at.escaped || c != '"',
            escaped: !at.escaped && c == '\\',
            depth: at.depth,
        }
    } else if c == '"' {
        Depth { in_string: true, ..at }
    } else if c == '{' || c == '[' {
        Depth {
            depth: if at.depth == u32::MAX {
                u32::MAX
            } else {
                (at.depth + 1) as u32
            },
            ..at
        }
    } else if c == '}' || c == ']' {
        Depth {
            depth: if at.depth == 0 {
                0
            } else {
                (at.depth - 1) as u32
            },
            ..at
        }
    } else {
        at
    }
}

/// Where a search for commas is after a text.
pub open spec fn depth_after(json: Seq<char>) -> Depth
    decreases json.len(),
{
    if json.len() == 0 {
        Depth { in_string: false, escaped: false, depth: 0 }
    } else {
        depth_step(depth_after(json.drop_last()), json.last())
    }
}

/// A comma between the members of the outermost object stands at a position.
pub open spec fn is_top_level_comma(json: Seq<char>, i: int) -> bool {
    let at = depth_after(json.take(i));
    json[i] == ',' && !at.in_string && at.depth == 1
}

/// The positions of the commas between the members of the outermost object, in
/// order, among the first `n` characters.
pub open spec fn commas_before(json: Seq<char>, n: int) -> Seq<int>
    decreases n,
{
    if n <= 0 {
        seq![]
    } else if is_top_level_comma(json, n - 1) {
        commas_before(json, n - 1).push(n - 1)
    } else {
        commas_before(json, n - 1)
    }
}

/// What a list of positions holds.
pub open spec fn positions(list: Seq<usize>) -> Seq<int> {
    list.map_values(|i: usize| i as int)
}

/// The byte at which each of some characters of a text starts.
pub open spec fn byte_offsets(text: Seq<char>, characters: Seq<int>) -> Seq<int> {
    characters.map_values(|i: int| utf8_len(text.take(i)) as int)
}

/// The byte offsets of the commas between the members of the outermost object.
pub fn top_level_commas(json: &str) -> (r: Vec<usize>)
    ensures
        positions(r@) == byte_offsets(json@, commas_before(json@, json@.len() as int)),
{
    let chars: Vec<char> = chars_of(json);
    let total: usize = byte_len(json);
    let mut offset: usize = 0;
    let mut commas: Vec<usize> = Vec::new();
    let mut in_string: bool = false;
    let mut escaped: bool = false;
    let mut depth: u32 = 0;
    let mut i: usize = 0;
    assert(json@.take(0) =~= seq![]);
    assert(positions(commas@) =~= byte_offsets(json@, seq![]));
    while i < chars.len()
        invariant
            chars@ == json@,
            i <= chars@.len(),
            total == utf8_len(json@),
            offset == utf8_len(json@.take(i as int)),
            depth_after(json@.take(i as int)) == (Depth { in_string, escaped, depth }),
            positions(commas@) == byte_offsets(json@, commas_before(json@, i as int)),
        decreases chars@.len() - i,
    {
        let c: char = chars[i];
        assert(json@.take(i + 1).drop_last() =~= json@.take(i as int));
        assert(json@.take(i + 1).last() == c);
        if in_string {
            if escaped {
                escaped = false;
            } else if c == '\\' {
                escaped = true;
            } else if c == '"' {
                in_string = false;
            }
        } else if c == '"' {
            in_string = true;
        } else if c == '{' || c == '[' {
            if depth < u32::MAX {
                depth = depth + 1;
            }
        } else if c == '}' || c == ']' {
            if depth > 0 {
                depth = depth - 1;
            }
        } else if c == ',' && depth == 1 {
            let ghost before = commas@;
            commas.push(offset);
            let ghost places = commas_before(json@, i as int);
            assert(byte_offsets(json@, places.push(i as int)) =~= byte_offsets(json@, places).push(
                offset as int,
            ));
            assert(positions(commas@) =~= positions(before).push(offset as int));
        }
        proof {
            lemma_utf8_len_take(json@, i as int);
        }
        offset = offset + char_width(c);
        i = i + 1;
    }
    commas
}

/// A text that is complete once what it has left open is closed; none where that
/// cannot be.
pub open spec fn closed_text(json: Seq<char>) -> Seq<Seq<char>> {
    match closing_suffix(json) {
        Some(suffix) => seq![json + suffix],
        None => seq![],
    }
}

/// The parts of a text up to each of some positions, the last first, closed.
pub open spec fn closed_prefixes(json: Seq<char>, commas: Seq<int>) -> Seq<Seq<char>>
    decreases commas.len(),
{
    if commas.len() == 0 {
        seq![]
    } else {
        closed_text(json.take(commas.last())) + closed_prefixes(json, commas.drop_last())
    }
}

/// The texts to try in place of an object that is not complete: the whole of it
/// closed, and then what stands before each comma between its members, the last
/// first.
pub open spec fn candidates(partial: Seq<char>) -> Seq<Seq<char>> {
    let text = repaired(trimmed(partial), false);
    if text.len() > 0 && text[0] == '{' {
        closed_text(text) + closed_prefixes(text, commas_before(text, text.len() as int))
    } else {
        seq![]
    }
}

fn push_closed(list: &mut Vec<String>, json: String)
    ensures
        final(list).deep_view() == old(list).deep_view() + closed_text(json@),
{
    let ghost before = list.deep_view();
    if let Some(suffix) = inferred_closing_suffix(&json) {
        let mut text: String = json;
        text.push_str(&suffix);
        let ghost t = text@;
        list.push(text);
        assert(list.deep_view() =~= before + seq![t]);
    } else {
        assert(list.deep_view() =~= before + Seq::<Seq<char>>::empty());
    }
}

proof fn lemma_commas_are_positions(json: Seq<char>, n: int)
    requires
        n <= json.len(),
    ensures
        forall|i: int|
            0 <= i < commas_before(json, n).len() ==> 0 <= #[trigger] commas_before(json, n)[i]
                < json.len(),
    decreases n,
{
    if n > 0 {
        lemma_commas_are_positions(json, n - 1);
        let front = commas_before(json, n - 1);
        assert forall|i: int| 0 <= i < commas_before(json, n).len() implies 0 <= #[trigger]
        commas_before(json, n)[i] < json.len() by {
            if i < front.len() {
                assert(commas_before(json, n)[i] == front[i]);
            }
        }
    }
}

/// The texts to try in place of an object that is not complete.
pub fn closing_candidates(partial_json: &str) -> (r: Vec<String>)
    ensures
        r.deep_view() == candidates(partial_json@),
{
    let text: String = repair_json(&trim(partial_json));
    let chars: Vec<char> = chars_of(&text);
    let mut list: Vec<String> = Vec::new();
    assert(list.deep_view() =~= seq![]);
    if chars.len() == 0 || chars[0] != '{' {
        return list;
    }
    let commas: Vec<usize> = top_level_commas(&text);
    let ghost json = text@;
    let ghost all = commas_before(json, json.len() as int);
    push_closed(&mut list, text.clone());
    let ghost first = closed_text(json);
    let mut k: usize = commas.len();
    proof {
        lemma_commas_are_positions(json, json.len() as int);
        assert(all.take(all.len() as int) =~= all);
        assert(list.deep_view() =~= first);
        assert(positions(commas@).len() == byte_offsets(json, all).len());
    }
    while k > 0
        invariant
            text@ == json,
            positions(commas@) == byte_offsets(json, all),
            forall|i: int| 0 <= i < all.len() ==> 0 <= #[trigger] all[i] < json.len(),
            k <= commas@.len() == all.len(),
            list.deep_view() + closed_prefixes(json, all.take(k as int)) == first + closed_prefixes(
                json,
                all,
            ),
        decreases k,
    {
        k = k - 1;
        let ghost before = list.deep_view();
        assert(all.take(k + 1).last() == all[k as int]);
        assert(all.take(k + 1).drop_last() =~= all.take(k as int));
        assert(positions(commas@)[k as int] == byte_offsets(json, all)[k as int]);
        let prefix: String = take_bytes(&text, commas[k]);
        proof {
            lemma_fitting_take(json, all[k as int]);
        }
        push_closed(&mut list, prefix);
        assert(list.deep_view() + closed_prefixes(json, all.take(k as int)) =~= before + (
        closed_text(json.take(all[k as int])) + closed_prefixes(json, all.take(k as int))));
    }
    assert(all.take(0) =~= seq![]);
    assert(list.deep_view() + Seq::<Seq<char>>::empty() =~= list.deep_view());
    list
}

/// A text has nothing left to close.
pub open spec fn is_closed(json: Seq<char>) -> bool {
    closing_suffix(json) == Some(Seq::<char>::empty())
}

/// Each text that is tried in place of an object that is not complete has nothing
/// left to close.
pub proof fn law_candidates_are_closed(partial: Seq<char>)
    ensures
        forall|i: int|
            0 <= i < candidates(partial).len() ==> is_closed(#[trigger] candidates(partial)[i]),
{
    let text = repaired(trimmed(partial), false);
    if text.len() > 0 && text[0] == '{' {
        if closing_suffix(text) is Some {
            law_closing_suffix_closes(text);
        }
        lemma_prefixes_are_closed(text, commas_before(text, text.len() as int));
    }
}

proof fn lemma_prefixes_are_closed(json: Seq<char>, commas: Seq<int>)
    ensures
        forall|i: int|
            0 <= i < closed_prefixes(json, commas).len() ==> is_closed(
                #[trigger] closed_prefixes(json, commas)[i],
            ),
    decreases commas.len(),
{
    if commas.len() > 0 {
        lemma_prefixes_are_closed(json, commas.drop_last());
        let prefix = json.take(commas.last());
        let rest = closed_prefixes(json, commas.drop_last());
        let first = closed_text(prefix);
        if closing_suffix(prefix) is Some {
            law_closing_suffix_closes(prefix);
        }
        assert forall|i: int| 0 <= i < closed_prefixes(json, commas).len() implies is_closed(
            #[trigger] closed_prefixes(json, commas)[i],
        ) by {
            if i >= first.len() {
                assert(closed_prefixes(json, commas)[i] == rest[i - first.len()]);
            } else {
                assert(closed_prefixes(json, commas)[i] == first[i]);
            }
        }
    }
}

/// The value of the first of some texts that can be read.
pub open spec fn first_read(texts: Seq<Seq<char>>) -> Option<JsonView>
    decreases texts.len(),
{
    if texts.len() == 0 {
        None
    } else if parsed_json(texts[0]) is Ok {
        Some(parsed_json(texts[0])->Ok_0)
    } else {
        first_read(texts.skip(1))
    }
}

/// Read an object that is not complete.
pub fn parse_partial_object(partial_json: &str) -> (r: Option<Json>)
    ensures
        r.deep_view() == first_read(candidates(partial_json@)),
{
    let texts: Vec<String> = closing_candidates(partial_json);
    let ghost all = texts.deep_view();
    let mut i: usize = 0;
    assert(all.skip(0) =~= all);
    while i < texts.len()
        invariant
            all == texts.deep_view(),
            all == candidates(partial_json@),
            i <= texts@.len(),
            first_read(all) == first_read(all.skip(i as int)),
        decreases texts@.len() - i,
    {
        assert(all.skip(i as int)[0] == texts@[i as int]@);
        assert(all.skip(i as int).skip(1) =~= all.skip(i + 1));
        if let Ok(value) = parse_json(&texts[i]) {
            return Some(value);
        }
        i = i + 1;
    }
    None
}

/// What streamed arguments are read as: an empty object where nothing can be
/// read.
pub open spec fn streamed_value(partial: Option<Seq<char>>) -> JsonView {
    let nothing = JsonView::Object(seq![]);
    match partial {
        None => nothing,
        Some(text) => if trimmed(text).len() == 0 {
            nothing
        } else {
            match read_with_repair(text) {
                Ok(value) => value,
                Err(_) => match first_read(candidates(text)) {
                    Some(value) => value,
                    None => nothing,
                },
            }
        },
    }
}

fn empty_object() -> (r: Json)
    ensures
        json_view(r) == JsonView::Object(seq![]),
{
    let entries: Vec<(String, Json)> = Vec::new();
    assert(entries.deep_view() =~= seq![]);
    proof {
        lemma_object_view(entries);
    }
    Json::Object(entries)
}

/// Parse potentially incomplete JSON from streamed tool arguments.
///
/// Invalid or unrecoverable input returns an empty object.
pub fn parse_streaming_json(partial_json: Option<&str>) -> (r: Json)
    ensures
        json_view(r) == streamed_value(partial_json.deep_view()),
{
    match partial_json {
        None => empty_object(),
        Some(text) => {
            if trim(text).as_str().is_empty() {
                return empty_object();
            }
            match parse_json_with_repair(text) {
                Ok(value) => value,
                Err(_) => match parse_partial_object(text) {
                    Some(value) => value,
                    None => empty_object(),
                },
            }
        },
    }
}

/// Streamed arguments that are complete are read as they are.
pub proof fn law_complete_arguments_read_as_they_are(text: Seq<char>)
    requires
        trimmed(text).len() > 0,
        parsed_json(text) is Ok,
    ensures
        streamed_value(Some(text)) == parsed_json(text)->Ok_0,
{
}

} // verus!
