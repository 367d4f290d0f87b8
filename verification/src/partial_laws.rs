//! What holds of JSON that is malformed or not complete: how it is repaired, closed, and
//! read.

use vstd::prelude::*;

use crate::json::{parsed_json, JsonView};
use crate::json_stream::{
    candidates, closed_prefixes, closed_text, closing_suffix, commas_before, control_escape,
    depth_after, first_read, hex_digit, hex_digits, is_control, is_escape, is_top_level_comma,
    padded_hex, read_with_repair, repaired, scanned, step_len, step_text, streamed_value, Scan,
};
use crate::text::trimmed;
use crate::text_laws::{is_blank, law_trimmed};

verus! {

// ---------------------------------------------------------------------------
// Repair
// ---------------------------------------------------------------------------

/// The value of a hexadecimal digit.
pub open spec fn hex_value(c: char) -> int {
    if '0' <= c <= '9' {
        c as int - '0' as int
    } else if 'a' <= c <= 'f' {
        c as int - 'a' as int + 10
    } else {
        c as int - 'A' as int + 10
    }
}

/// What the content of a string literal stands for.
pub open spec fn unescaped(s: Seq<char>) -> Seq<char>
    decreases s.len(),
{
    if s.len() == 0 {
        seq![]
    } else if s[0] != '\\' || s.len() == 1 {
        seq![s[0]] + unescaped(s.skip(1))
    } else if s[1] == 'u' && s.len() >= 6 {
        seq![
            (4096 * hex_value(s[2]) + 256 * hex_value(s[3]) + 16 * hex_value(s[4]) + hex_value(
                s[5],
            )) as char,
        ] + unescaped(s.skip(6))
    } else {
        seq![
            if s[1] == 'b' {
                '\u{8}'
            } else if s[1] == 'f' {
                '\u{c}'
            } else if s[1] == 'n' {
                '\n'
            } else if s[1] == 'r' {
                '\r'
            } else if s[1] == 't' {
                '\t'
            } else {
                s[1]
            },
        ] + unescaped(s.skip(2))
    }
}

proof fn lemma_padded(c: char)
    requires
        is_control(c),
    ensures
        padded_hex(c as nat).len() == 4,
        4096 * hex_value(padded_hex(c as nat)[0]) + 256 * hex_value(padded_hex(c as nat)[1]) + 16
            * hex_value(padded_hex(c as nat)[2]) + hex_value(padded_hex(c as nat)[3]) == c as int,
{
    let n = c as nat;
    let digits = hex_digits(n);
    let all = padded_hex(n);
    assert(hex_value('0') == 0);
    if n < 16 {
        assert(digits =~= seq![hex_digit(n as int)]);
        assert(all[0] == '0' && all[1] == '0' && all[2] == '0' && all[3] == hex_digit(n as int));
        assert(hex_value(hex_digit(n as int)) == n);
    } else {
        assert(n / 16 == 1);
        assert(hex_digits(1) =~= seq![hex_digit(1)]);
        assert(digits =~= seq![hex_digit(1), hex_digit((n % 16) as int)]);
        assert(all[0] == '0' && all[1] == '0' && all[2] == hex_digit(1) && all[3] == hex_digit(
            (n % 16) as int,
        ));
        assert(hex_value(hex_digit(1)) == 1);
        assert(hex_value(hex_digit((n % 16) as int)) == n % 16);
    }
}

proof fn lemma_unescaped_front(c: char, rest: Seq<char>)
    requires
        c != '\\',
    ensures
        unescaped(
            (if is_control(c) {
                control_escape(c)
            } else {
                seq![c]
            }) + rest,
        ) == seq![c] + unescaped(rest),
{
    if is_control(c) {
        let text = control_escape(c) + rest;
        if c == '\u{8}' || c == '\u{c}' || c == '\n' || c == '\r' || c == '\t' {
            assert(text.skip(2) =~= rest);
        } else {
            lemma_padded(c);
            let hex = padded_hex(c as nat);
            assert(text[0] == '\\' && text[1] == 'u');
            assert(text[2] == hex[0] && text[3] == hex[1] && text[4] == hex[2] && text[5]
                == hex[3]);
            assert(text.skip(6) =~= rest);
        }
    } else {
        assert((seq![c] + rest).skip(1) =~= rest);
    }
}

/// The content of a string in which characters stand that it cannot hold as they are
/// stands for those very characters once it is repaired, and then holds none of them.
pub proof fn law_repair_keeps_characters(s: Seq<char>)
    requires
        forall|i: int| 0 <= i < s.len() ==> #[trigger] s[i] != '"' && s[i] != '\\',
    ensures
        unescaped(repaired(s, true)) == s,
    decreases s.len(),
{
    if s.len() > 0 {
        let rest = s.skip(1);
        assert(s[0] != '"' && s[0] != '\\');
        assert forall|i: int| 0 <= i < rest.len() implies #[trigger] rest[i] != '"' && rest[i]
            != '\\' by {
            assert(rest[i] == s[i + 1]);
        }
        law_repair_keeps_characters(rest);
        assert(step_len(s) == 1);
        assert(s.take(1) =~= seq![s[0]]);
        lemma_unescaped_front(s[0], repaired(rest, true));
        assert(seq![s[0]] + rest =~= s);
    } else {
        assert(repaired(s, true) =~= s);
    }
}

/// A repaired string literal holds no control character.
pub proof fn law_repaired_string_has_no_control(s: Seq<char>)
    requires
        forall|i: int| 0 <= i < s.len() ==> #[trigger] s[i] != '"',
    ensures
        forall|i: int|
            0 <= i < repaired(s, true).len() ==> !is_control(#[trigger] repaired(s, true)[i]),
    decreases s.len(),
{
    let all = repaired(s, true);
    if s.len() > 0 {
        let n = step_len(s);
        let rest = s.skip(n);
        assert(s[0] != '"');
        assert forall|i: int| 0 <= i < rest.len() implies #[trigger] rest[i] != '"' by {
            assert(rest[i] == s[i + n]);
        }
        law_repaired_string_has_no_control(rest);
        let front = step_text(s);
        if is_control(s[0]) {
            lemma_padded(s[0]);
            lemma_hex_is_plain(s[0]);
        } else if s[0] == '\\' && n > 1 {
            assert(s.take(n).len() == n);
        }
        assert forall|i: int| 0 <= i < all.len() implies !is_control(#[trigger] all[i]) by {
            if i < front.len() {
                assert(all[i] == front[i]);
            } else {
                assert(all[i] == repaired(rest, true)[i - front.len()]);
            }
        }
    }
}

proof fn lemma_hex_is_plain(c: char)
    requires
        is_control(c),
    ensures
        forall|i: int|
            0 <= i < padded_hex(c as nat).len() ==> !is_control(
                #[trigger] padded_hex(c as nat)[i],
            ),
{
    let n = c as nat;
    let digits = hex_digits(n);
    if n < 16 {
        assert(digits =~= seq![hex_digit(n as int)]);
    } else {
        assert(n / 16 == 1);
        assert(hex_digits(1) =~= seq![hex_digit(1)]);
        assert(digits =~= seq![hex_digit(1), hex_digit((n % 16) as int)]);
    }
}

/// A backslash that starts an escape sequence is left with it, and one that starts none
/// is doubled.
pub proof fn law_backslashes(c: char, rest: Seq<char>)
    ensures
        is_escape(c) && c != 'u' ==> repaired(seq!['\\', c] + rest, true) == seq!['\\', c]
            + repaired(rest, true),
        !is_escape(c) ==> repaired(seq!['\\', c] + rest, true) == seq!['\\', '\\'] + repaired(
            seq![c] + rest,
            true,
        ),
        repaired(seq!['\\'], true) == seq!['\\', '\\'],
{
    let s = seq!['\\', c] + rest;
    assert(s[0] == '\\' && s[1] == c);
    if is_escape(c) && c != 'u' {
        assert(step_len(s) == 2);
        assert(s.take(2) =~= seq!['\\', c]);
        assert(s.skip(2) =~= rest);
    }
    if !is_escape(c) {
        assert(step_len(s) == 1);
        assert(s.skip(1) =~= seq![c] + rest);
    }
    let lone = seq!['\\'];
    assert(lone.skip(1) =~= seq![]);
    assert(repaired(lone.skip(1), true) =~= seq![]);
    assert(repaired(lone, true) =~= seq!['\\', '\\']);
}

/// Only the content of strings is repaired: what stands outside stays as it is, up to the
/// next quotation mark, and from the one that ends the string on.
pub proof fn law_only_strings_are_repaired(
    outside: Seq<char>,
    inside: Seq<char>,
    rest: Seq<char>,
)
    requires
        forall|i: int| 0 <= i < outside.len() ==> #[trigger] outside[i] != '"',
        forall|i: int| 0 <= i < inside.len() ==> #[trigger] inside[i] != '"' && inside[i] != '\\',
    ensures
        repaired(outside + seq!['"'] + inside + seq!['"'] + rest, false) == outside + seq!['"']
            + repaired(inside, true) + seq!['"'] + repaired(rest, false),
    decreases outside.len(),
{
    let s = outside + seq!['"'] + inside + seq!['"'] + rest;
    if outside.len() == 0 {
        assert(s[0] == '"');
        assert(s.skip(1) =~= inside + seq!['"'] + rest);
        lemma_inside(inside, rest);
        assert(repaired(s, false) =~= outside + seq!['"'] + repaired(inside, true) + seq!['"']
            + repaired(rest, false));
    } else {
        let less = outside.skip(1);
        assert forall|i: int| 0 <= i < less.len() implies #[trigger] less[i] != '"' by {
            assert(less[i] == outside[i + 1]);
        }
        law_only_strings_are_repaired(less, inside, rest);
        assert(outside[0] != '"');
        assert(s[0] == outside[0]);
        assert(s.skip(1) =~= less + seq!['"'] + inside + seq!['"'] + rest);
        assert(repaired(s, false) =~= outside + seq!['"'] + repaired(inside, true) + seq!['"']
            + repaired(rest, false));
    }
}

proof fn lemma_inside(inside: Seq<char>, rest: Seq<char>)
    requires
        forall|i: int| 0 <= i < inside.len() ==> #[trigger] inside[i] != '"' && inside[i] != '\\',
    ensures
        repaired(inside + seq!['"'] + rest, true) == repaired(inside, true) + seq!['"'] + repaired(
            rest,
            false,
        ),
    decreases inside.len(),
{
    let s = inside + seq!['"'] + rest;
    if inside.len() == 0 {
        assert(s[0] == '"');
        assert(s.skip(1) =~= rest);
        assert(repaired(s, true) =~= repaired(inside, true) + seq!['"'] + repaired(rest, false));
    } else {
        let less = inside.skip(1);
        assert(inside[0] != '"' && inside[0] != '\\');
        assert forall|i: int| 0 <= i < less.len() implies #[trigger] less[i] != '"' && less[i]
            != '\\' by {
            assert(less[i] == inside[i + 1]);
        }
        lemma_inside(less, rest);
        assert(s[0] == inside[0]);
        assert(step_len(s) == 1 && step_len(inside) == 1);
        assert(s.skip(1) =~= less + seq!['"'] + rest);
        assert(s.take(1) =~= inside.take(1));
        assert(step_text(s) == step_text(inside));
        assert(repaired(s, true) =~= repaired(inside, true) + seq!['"'] + repaired(rest, false));
    }
}

// ---------------------------------------------------------------------------
// Closing
// ---------------------------------------------------------------------------

/// What closes a text is told by its brackets: each that is opened is closed first, each
/// that is closed must be the one to be closed next, and other characters change nothing.
pub proof fn law_brackets_are_closed(json: Seq<char>, c: char)
    requires
        c != '"',
    ensures
        closing_suffix(Seq::empty()) == Some(Seq::<char>::empty()),
        closing_suffix(json) matches Some(suffix) ==> closing_suffix(json.push(c)) == if c == '{' {
            Some(seq!['}'] + suffix)
        } else if c == '[' {
            Some(seq![']'] + suffix)
        } else if c == '}' || c == ']' {
            if suffix.len() > 0 && suffix[0] == c {
                Some(suffix.skip(1))
            } else {
                None
            }
        } else {
            Some(suffix)
        },
{
    let none = Seq::<char>::empty();
    assert(none.reverse() =~= none);
    let more = json.push(c);
    assert(more.drop_last() =~= json);
    lemma_escaped_in_string(json);
    if let Some(suffix) = closing_suffix(json) {
        let open = scanned(json)->0.open;
        assert(suffix == open.reverse());
        if c == '{' {
            assert(open.push('}').reverse() =~= seq!['}'] + suffix);
        } else if c == '[' {
            assert(open.push(']').reverse() =~= seq![']'] + suffix);
        } else if (c == '}' || c == ']') && open.len() > 0 {
            assert(suffix[0] == open.last());
            assert(open.drop_last().reverse() =~= suffix.skip(1));
        }
    }
}

/// Only a string has escape sequences.
proof fn lemma_escaped_in_string(json: Seq<char>)
    ensures
        scanned(json) matches Some(scan) ==> (scan.escaped ==> scan.in_string),
    decreases json.len(),
{
    if json.len() > 0 {
        lemma_escaped_in_string(json.drop_last());
    }
}

/// A string in a text, whatever it holds, changes nothing of what closes the text; within
/// it, the text cannot be closed.
pub proof fn law_strings_hide_brackets(json: Seq<char>, inside: Seq<char>)
    requires
        closing_suffix(json) is Some,
        forall|i: int| 0 <= i < inside.len() ==> #[trigger] inside[i] != '"' && inside[i] != '\\',
    ensures
        closing_suffix(json + seq!['"'] + inside) is None,
        closing_suffix(json + seq!['"'] + inside + seq!['"']) == closing_suffix(json),
{
    lemma_escaped_in_string(json);
    lemma_in_string(json, inside);
    let open = json + seq!['"'] + inside;
    let whole = open + seq!['"'];
    assert(whole.drop_last() =~= open);
    assert(whole.last() == '"');
}

proof fn lemma_in_string(json: Seq<char>, inside: Seq<char>)
    requires
        closing_suffix(json) is Some,
        forall|i: int| 0 <= i < inside.len() ==> #[trigger] inside[i] != '"' && inside[i] != '\\',
    ensures
        scanned(json + seq!['"'] + inside) == Some(
            (Scan { in_string: true, escaped: false, open: scanned(json)->0.open }),
        ),
    decreases inside.len(),
{
    let s = json + seq!['"'] + inside;
    if inside.len() == 0 {
        assert(s.drop_last() =~= json);
        assert(s.last() == '"');
    } else {
        let less = inside.drop_last();
        assert forall|i: int| 0 <= i < less.len() implies #[trigger] less[i] != '"' && less[i]
            != '\\' by {
            assert(less[i] == inside[i]);
        }
        lemma_in_string(json, less);
        assert(s.drop_last() =~= json + seq!['"'] + less);
        assert(s.last() == inside[inside.len() - 1]);
    }
}

/// A quotation mark after a backslash does not end a string.
pub proof fn law_escaped_quotes_stay_inside(json: Seq<char>, c: char)
    requires
        closing_suffix(json) is Some,
    ensures
        closing_suffix(json + seq!['"', '\\', c]) is None,
        closing_suffix(json + seq!['"', '\\', c, '"']) == closing_suffix(json),
{
    lemma_in_string(json, seq![]);
    let a = json + seq!['"'] + Seq::<char>::empty();
    let b = json + seq!['"', '\\'];
    let d = json + seq!['"', '\\', c];
    let e = json + seq!['"', '\\', c, '"'];
    assert(b.drop_last() =~= a);
    assert(d.drop_last() =~= b);
    assert(e.drop_last() =~= d);
    assert(b.last() == '\\' && d.last() == c && e.last() == '"');
    lemma_escaped_in_string(json);
    let open = scanned(json)->0.open;
    assert(scanned(b) == Some((Scan { in_string: true, escaped: true, open })));
    assert(scanned(d) == Some((Scan { in_string: true, escaped: false, open })));
    assert(scanned(e) == Some((Scan { in_string: false, escaped: false, open })));
}

/// The depth at which a comma is looked for is the number of brackets that are open.
pub proof fn law_depth_counts_brackets(json: Seq<char>)
    requires
        json.len() < u32::MAX,
        scanned(json) is Some,
    ensures
        depth_after(json).depth == scanned(json)->0.open.len(),
        depth_after(json).in_string == scanned(json)->0.in_string,
        depth_after(json).escaped == scanned(json)->0.escaped,
        depth_after(json).depth <= json.len(),
    decreases json.len(),
{
    if json.len() > 0 {
        law_depth_counts_brackets(json.drop_last());
    }
}

// ---------------------------------------------------------------------------
// Reading what is not complete
// ---------------------------------------------------------------------------

/// A comma separates members where one bracket is open before it and it stands in no
/// string.
pub proof fn law_comma_separates_members(json: Seq<char>, i: int)
    requires
        0 <= i < json.len() < u32::MAX,
        scanned(json.take(i)) is Some,
    ensures
        is_top_level_comma(json, i) <==> json[i] == ',' && !scanned(json.take(i))->0.in_string
            && scanned(json.take(i))->0.open.len() == 1,
{
    law_depth_counts_brackets(json.take(i));
}

/// The commas between members are found all, and in order.
pub proof fn law_commas(json: Seq<char>, n: int)
    requires
        0 <= n <= json.len(),
    ensures
        ({
            let commas = commas_before(json, n);
            &&& forall|i: int|
                0 <= i < n && #[trigger] is_top_level_comma(json, i) ==> commas.contains(i)
            &&& forall|k: int|
                0 <= k < commas.len() ==> 0 <= #[trigger] commas[k] < n && is_top_level_comma(
                    json,
                    commas[k],
                )
            &&& forall|a: int, b: int|
                0 <= a < b < commas.len() ==> (#[trigger] commas[a]) < (#[trigger] commas[b])
        }),
    decreases n,
{
    if n > 0 {
        law_commas(json, n - 1);
        let front = commas_before(json, n - 1);
        let commas = commas_before(json, n);
        assert forall|i: int|
            0 <= i < n && #[trigger] is_top_level_comma(json, i) implies commas.contains(i) by {
            if i < n - 1 {
                let k = choose|k: int| 0 <= k < front.len() && front[k] == i;
                assert(commas[k] == i);
            } else {
                assert(commas[front.len() as int] == i);
            }
        }
        assert forall|k: int| 0 <= k < commas.len() implies 0 <= #[trigger] commas[k] < n
            && is_top_level_comma(json, commas[k]) by {
            if k < front.len() {
                assert(commas[k] == front[k]);
            }
        }
        assert forall|a: int, b: int| 0 <= a < b < commas.len() implies (#[trigger] commas[a]) < (
        #[trigger] commas[b]) by {
            assert(commas[a] == front[a]);
            if b < front.len() {
                assert(commas[b] == front[b]);
            }
        }
    }
}

/// Texts are fronts of an object, each closed: those that end at some places, of which
/// each comes before the one before it, and all that can be closed.
pub open spec fn are_closed_fronts(
    texts: Seq<Seq<char>>,
    json: Seq<char>,
    cuts: Seq<int>,
    places: Seq<int>,
) -> bool {
    &&& places.len() == texts.len()
    &&& forall|i: int|
        0 <= i < places.len() ==> 0 <= #[trigger] places[i] < cuts.len() && (closing_suffix(
            json.take(cuts[places[i]]),
        ) matches Some(suffix) && texts[i] == json.take(cuts[places[i]]) + suffix)
    &&& forall|i: int, j: int|
        0 <= i < j < places.len() ==> (#[trigger] places[i]) < (#[trigger] places[j])
    &&& forall|k: int|
        0 <= k < cuts.len() && closing_suffix(json.take(#[trigger] cuts[k])) is Some
            ==> places.contains(k)
}

proof fn lemma_closed_fronts(json: Seq<char>, commas: Seq<int>) -> (places: Seq<int>)
    ensures
        are_closed_fronts(closed_prefixes(json, commas), json, commas.reverse(), places),
    decreases commas.len(),
{
    if commas.len() == 0 {
        seq![]
    } else {
        let front = commas.drop_last();
        let later = lemma_closed_fronts(json, front);
        let texts = closed_prefixes(json, commas);
        let rest = closed_prefixes(json, front);
        let cuts = commas.reverse();
        assert(cuts[0] == commas.last());
        assert(forall|k: int| 0 < k < cuts.len() ==> #[trigger] cuts[k] == front.reverse()[k - 1]);
        lemma_one_more_front(json, cuts, front.reverse(), texts, rest, later)
    }
}

proof fn lemma_one_more_front(
    json: Seq<char>,
    cuts: Seq<int>,
    fewer: Seq<int>,
    texts: Seq<Seq<char>>,
    rest: Seq<Seq<char>>,
    later: Seq<int>,
) -> (places: Seq<int>)
    requires
        cuts.len() == fewer.len() + 1,
        forall|k: int| 0 < k < cuts.len() ==> #[trigger] cuts[k] == fewer[k - 1],
        texts == closed_text(json.take(cuts[0])) + rest,
        are_closed_fronts(rest, json, fewer, later),
    ensures
        are_closed_fronts(texts, json, cuts, places),
{
    let first = closed_text(json.take(cuts[0]));
    let n = first.len() as int;
    let places = Seq::new(
        texts.len(),
        |i: int|
            if i < n {
                0
            } else {
                later[i - n] + 1
            },
    );
    assert forall|i: int| 0 <= i < places.len() implies 0 <= #[trigger] places[i] < cuts.len() && (
    closing_suffix(json.take(cuts[places[i]])) matches Some(suffix) && texts[i] == json.take(
        cuts[places[i]],
    ) + suffix) by {
        if i >= n {
            assert(texts[i] == rest[i - n]);
            assert(0 <= later[i - n] < fewer.len());
            assert(cuts[places[i]] == fewer[later[i - n]]);
        } else {
            assert(texts[i] == first[i]);
        }
    }
    assert forall|i: int, j: int| 0 <= i < j < places.len() implies (#[trigger] places[i]) < (
    #[trigger] places[j]) by {
        if i >= n {
            assert(later[i - n] < later[j - n]);
        } else {
            assert(0 <= later[j - n]);
        }
    }
    assert forall|k: int|
        0 <= k < cuts.len() && closing_suffix(json.take(#[trigger] cuts[k])) is Some implies
        places.contains(k) by {
        if k == 0 {
            assert(places[0] == 0);
        } else {
            assert(cuts[k] == fewer[k - 1]);
            let a = choose|a: int| 0 <= a < later.len() && later[a] == k - 1;
            assert(places[a + n] == k);
        }
    }
    places
}

/// The texts that are tried in place of an object that is not complete are the object
/// itself, repaired, and its fronts up to each comma between its members, the longest
/// first, each closed, as far as that can be.
pub proof fn law_candidates(partial: Seq<char>) -> (r: (Seq<int>, Seq<int>))
    ensures
        ({
            let text = repaired(trimmed(partial), false);
            let (cuts, places) = r;
            if text.len() > 0 && text[0] == '{' {
                &&& are_closed_fronts(candidates(partial), text, cuts, places)
                &&& cuts.len() > 0
                &&& cuts[0] == text.len()
                &&& forall|i: int|
                    0 < i < cuts.len() ==> 0 <= #[trigger] cuts[i] < text.len()
                        && is_top_level_comma(text, cuts[i])
                &&& forall|i: int, j: int|
                    0 <= i < j < cuts.len() ==> (#[trigger] cuts[i]) > (#[trigger] cuts[j])
                &&& forall|i: int|
                    0 <= i < text.len() && #[trigger] is_top_level_comma(text, i) ==> cuts.contains(
                        i,
                    )
            } else {
                candidates(partial).len() == 0
            }
        }),
{
    let text = repaired(trimmed(partial), false);
    let n = text.len() as int;
    let commas = commas_before(text, n);
    let fewer = commas.reverse();
    let cuts = seq![n] + fewer;
    let later = lemma_closed_fronts(text, commas);
    if text.len() > 0 && text[0] == '{' {
        law_commas(text, n);
        assert(text.take(n) =~= text);
        assert(forall|k: int| 0 < k < cuts.len() ==> #[trigger] cuts[k] == fewer[k - 1]);
        let places = lemma_one_more_front(
            text,
            cuts,
            fewer,
            candidates(partial),
            closed_prefixes(text, commas),
            later,
        );
        assert forall|i: int| 0 < i < cuts.len() implies 0 <= #[trigger] cuts[i] < text.len()
            && is_top_level_comma(text, cuts[i]) by {
            assert(cuts[i] == commas[commas.len() - i]);
        }
        assert forall|i: int, j: int| 0 <= i < j < cuts.len() implies (#[trigger] cuts[i]) > (
        #[trigger] cuts[j]) by {
            assert(cuts[j] == commas[commas.len() - j]);
            if i > 0 {
                assert(cuts[i] == commas[commas.len() - i]);
            }
        }
        assert forall|i: int|
            0 <= i < text.len() && #[trigger] is_top_level_comma(text, i) implies cuts.contains(
            i,
        ) by {
            let k = choose|k: int| 0 <= k < commas.len() && commas[k] == i;
            assert(cuts[commas.len() - k] == i);
        }
        (cuts, places)
    } else {
        (cuts, later)
    }
}

/// The value is that of the first text that can be read; there is none exactly where none
/// can.
pub proof fn law_first_read(texts: Seq<Seq<char>>)
    ensures
        match first_read(texts) {
            Some(value) => exists|i: int|
                0 <= i < texts.len() && parsed_json(#[trigger] texts[i]) == Ok::<
                    JsonView,
                    Seq<char>,
                >(value) && forall|j: int| 0 <= j < i ==> parsed_json(#[trigger] texts[j]) is Err,
            None => forall|i: int| 0 <= i < texts.len() ==> parsed_json(#[trigger] texts[i]) is Err,
        },
    decreases texts.len(),
{
    if texts.len() > 0 {
        if parsed_json(texts[0]) is Ok {
            assert(parsed_json(texts[0]) == Ok::<JsonView, Seq<char>>(first_read(texts)->0));
        } else {
            let rest = texts.skip(1);
            law_first_read(rest);
            assert(forall|j: int| 0 < j < texts.len() ==> rest[j - 1] == #[trigger] texts[j]);
            if let Some(value) = first_read(rest) {
                let i = choose|i: int|
                    0 <= i < rest.len() && parsed_json(#[trigger] rest[i]) == Ok::<
                        JsonView,
                        Seq<char>,
                    >(value) && forall|j: int|
                        0 <= j < i ==> parsed_json(#[trigger] rest[j]) is Err;
                assert(texts[i + 1] == rest[i]);
            }
        }
    }
}

/// Arguments are read as they are where that can be, else repaired, else as far as they
/// are complete; nothing comes of arguments that are blank, or of which nothing can be
/// read.
pub proof fn law_streamed_value(text: Seq<char>)
    ensures
        is_blank(text) ==> streamed_value(Some(text)) == JsonView::Object(Seq::empty()),
        streamed_value(None) == JsonView::Object(Seq::empty()),
        !is_blank(text) && parsed_json(text) is Ok ==> streamed_value(Some(text)) == parsed_json(
            text,
        )->Ok_0,
        !is_blank(text) && parsed_json(text) is Err ==> {
            let again = repaired(text, false);
            &&& parsed_json(again) is Ok ==> streamed_value(Some(text)) == parsed_json(again)->Ok_0
            &&& parsed_json(again) is Err ==> streamed_value(Some(text)) == match first_read(
                candidates(text),
            ) {
                Some(value) => value,
                None => JsonView::Object(Seq::empty()),
            }
        },
{
    law_trimmed(text);
    assert(read_with_repair(text) is Ok || read_with_repair(text) is Err);
}

} // verus!
