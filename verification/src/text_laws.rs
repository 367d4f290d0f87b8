//! What holds of texts.

use vstd::prelude::*;

use crate::text::{
    ascii_lower, contains, decimal, digit_char, digits_value, fitting, index_of, is_white_space,
    join, lemma_index_of, lemma_utf8_len_parts, lines, occurs_at, outgrows_u32, replaced,
    signed_text_value, starts_with, trimmed, trimmed_end, trimmed_start, u32_error_text,
    unsigned_value, utf8_len, utf8_width, without_prefix, without_trailing,
};

verus! {

// ---------------------------------------------------------------------------
// Texts in texts
// ---------------------------------------------------------------------------

/// A text stands in one that it is a part of.
pub proof fn lemma_contains_part(front: Seq<char>, part: Seq<char>, back: Seq<char>)
    ensures
        contains(front + part + back, part),
{
    reveal(contains);
    let whole = front + part + back;
    assert(whole.subrange(front.len() as int, (front.len() + part.len()) as int) =~= part);
    assert(occurs_at(whole, part, front.len() as int));
}

/// What stands in a part of a text stands in the text.
pub proof fn lemma_contains_within(hay: Seq<char>, middle: Seq<char>, needle: Seq<char>)
    requires
        contains(hay, middle),
        contains(middle, needle),
    ensures
        contains(hay, needle),
{
    reveal(contains);
    let a = choose|at: int| occurs_at(hay, middle, at);
    let b = choose|at: int| occurs_at(middle, needle, at);
    assert(hay.subrange(a + b, a + b + needle.len()) =~= middle.subrange(b, b + needle.len()));
    assert(occurs_at(hay, needle, a + b));
}

/// Each of some texts stands in what they are joined to.
pub proof fn lemma_join_contains(parts: Seq<Seq<char>>, separator: Seq<char>, i: int)
    requires
        0 <= i < parts.len(),
    ensures
        contains(join(parts, separator), parts[i]),
    decreases parts.len(),
{
    let whole = join(parts, separator);
    if parts.len() == 1 {
        lemma_contains_part(seq![], parts[0], seq![]);
        assert(Seq::<char>::empty() + parts[0] + Seq::<char>::empty() =~= parts[0]);
        assert(whole =~= parts[0]);
    } else if i == parts.len() - 1 {
        let front = join(parts.drop_last(), separator) + separator;
        lemma_contains_part(front, parts[i], seq![]);
        assert(front + parts[i] + Seq::<char>::empty() =~= whole);
    } else {
        let front = join(parts.drop_last(), separator);
        lemma_join_contains(parts.drop_last(), separator, i);
        assert(parts.drop_last()[i] == parts[i]);
        lemma_contains_part(seq![], front, separator + parts.last());
        assert(Seq::<char>::empty() + front + (separator + parts.last()) =~= whole);
        lemma_contains_within(whole, front, parts[i]);
    }
}

// ---------------------------------------------------------------------------
// White space
// ---------------------------------------------------------------------------

/// Every character of a text is white space.
pub open spec fn is_blank(s: Seq<char>) -> bool {
    forall|i: int| 0 <= i < s.len() ==> is_white_space(#[trigger] s[i])
}

proof fn lemma_trimmed_start(s: Seq<char>) -> (k: int)
    ensures
        0 <= k <= s.len(),
        trimmed_start(s) == s.skip(k),
        is_blank(s.take(k)),
        k < s.len() ==> !is_white_space(s[k]),
    decreases s.len(),
{
    if s.len() > 0 && is_white_space(s[0]) {
        let k = lemma_trimmed_start(s.skip(1));
        assert(s.skip(1).skip(k) =~= s.skip(k + 1));
        assert forall|i: int| 0 <= i < s.take(k + 1).len() implies is_white_space(
            #[trigger] s.take(k + 1)[i],
        ) by {
            if i > 0 {
                assert(s.skip(1).take(k)[i - 1] == s.take(k + 1)[i]);
            }
        }
        k + 1
    } else {
        assert(s.skip(0) =~= s);
        0
    }
}

proof fn lemma_trimmed_end(s: Seq<char>) -> (k: int)
    ensures
        0 <= k <= s.len(),
        trimmed_end(s) == s.take(k),
        is_blank(s.skip(k)),
        k > 0 ==> !is_white_space(s[k - 1]),
    decreases s.len(),
{
    if s.len() > 0 && is_white_space(s.last()) {
        let k = lemma_trimmed_end(s.drop_last());
        assert(s.drop_last().take(k) =~= s.take(k));
        assert forall|i: int| 0 <= i < s.skip(k).len() implies is_white_space(
            #[trigger] s.skip(k)[i],
        ) by {
            if i + k < s.len() - 1 {
                assert(s.drop_last().skip(k)[i] == s.skip(k)[i]);
            }
        }
        k
    } else {
        assert(s.take(s.len() as int) =~= s);
        s.len() as int
    }
}

/// Trimming a text takes white space off its ends, and as much of it as there is:
/// what is left is a part of the text that neither starts nor ends with white space.
/// Nothing is left exactly of a blank text.
pub proof fn law_trimmed(s: Seq<char>) -> (r: (Seq<char>, Seq<char>))
    ensures
        s == r.0 + trimmed(s) + r.1,
        is_blank(r.0),
        is_blank(r.1),
        trimmed(s).len() > 0 ==> !is_white_space(trimmed(s)[0]) && !is_white_space(
            trimmed(s).last(),
        ),
        trimmed(s).len() == 0 <==> is_blank(s),
{
    let a = lemma_trimmed_start(s);
    let rest = s.skip(a);
    let b = lemma_trimmed_end(rest);
    let front = s.take(a);
    let back = rest.skip(b);
    assert(s =~= front + trimmed(s) + back);
    if trimmed(s).len() > 0 {
        assert(trimmed(s)[0] == s[a]);
        assert(trimmed(s).last() == rest[b - 1]);
        assert(s[a] == s[a + 0]);
    } else {
        assert forall|i: int| 0 <= i < s.len() implies is_white_space(#[trigger] s[i]) by {
            if i < a {
                assert(front[i] == s[i]);
            } else {
                assert(back[i - a] == s[i]);
            }
        }
    }
    (front, back)
}

// ---------------------------------------------------------------------------
// Parts of texts
// ---------------------------------------------------------------------------

/// A text stands in another exactly where that is made of something, the text, and
/// something.
pub proof fn law_contains(hay: Seq<char>, needle: Seq<char>)
    ensures
        contains(hay, needle) <==> exists|front: Seq<char>, back: Seq<char>| #[trigger]
            is_made_of(hay, front, needle, back),
{
    if contains(hay, needle) {
        reveal(contains);
        let at = choose|at: int| occurs_at(hay, needle, at);
        assert(hay =~= hay.take(at) + needle + hay.skip(at + needle.len()));
        assert(is_made_of(hay, hay.take(at), needle, hay.skip(at + needle.len())));
    }
    if exists|front: Seq<char>, back: Seq<char>| #[trigger] is_made_of(hay, front, needle, back) {
        let (front, back) = choose|front: Seq<char>, back: Seq<char>| #[trigger]
            is_made_of(hay, front, needle, back);
        lemma_contains_part(front, needle, back);
    }
}

/// A text is made of three, one after the other.
pub open spec fn is_made_of(
    whole: Seq<char>,
    front: Seq<char>,
    middle: Seq<char>,
    back: Seq<char>,
) -> bool {
    whole == front + middle + back
}

/// What is left once a text is taken off the front of another is what follows it there.
pub proof fn law_without_prefix(s: Seq<char>, prefix: Seq<char>)
    ensures
        without_prefix(s, prefix) matches Some(rest) ==> s == prefix + rest,
        without_prefix(prefix + s, prefix) == Some(s),
{
    if starts_with(s, prefix) {
        assert(s =~= prefix + s.skip(prefix.len() as int));
    }
    let whole = prefix + s;
    assert(whole.subrange(0, prefix.len() as int) =~= prefix);
    assert(whole.skip(prefix.len() as int) =~= s);
}

/// Joined texts stand one after the other with the separator between them: none are
/// nothing, one is itself, and two lists are joined as their parts are.
pub proof fn law_join(a: Seq<Seq<char>>, b: Seq<Seq<char>>, separator: Seq<char>, part: Seq<char>)
    ensures
        join(Seq::empty(), separator) == Seq::<char>::empty(),
        join(seq![part], separator) == part,
        a.len() > 0 && b.len() > 0 ==> join(a + b, separator) == join(a, separator) + separator
            + join(b, separator),
    decreases b.len(),
{
    if a.len() > 0 && b.len() > 0 {
        let all = a + b;
        assert(all.last() == b.last());
        if b.len() == 1 {
            assert(all.drop_last() =~= a);
            assert(b.last() == b[0]);
        } else {
            law_join(a, b.drop_last(), separator, part);
            assert(all.drop_last() =~= a + b.drop_last());
            assert(join(all, separator) =~= join(a, separator) + separator + join(b, separator));
        }
    }
}

/// The characters that were taken off the end of a text are all of one kind, and what
/// is left does not end with that.
pub proof fn law_without_trailing(s: Seq<char>, c: char) -> (n: int)
    ensures
        0 <= n <= s.len(),
        without_trailing(s, c) == s.take(n),
        forall|i: int| n <= i < s.len() ==> #[trigger] s[i] == c,
        n > 0 ==> s[n - 1] != c,
    decreases s.len(),
{
    if s.len() > 0 && s.last() == c {
        let n = law_without_trailing(s.drop_last(), c);
        assert(s.drop_last().take(n) =~= s.take(n));
        assert forall|i: int| n <= i < s.len() implies #[trigger] s[i] == c by {
            if i < s.len() - 1 {
                assert(s.drop_last()[i] == c);
            }
        }
        if n > 0 {
            assert(s.drop_last()[n - 1] == s[n - 1]);
        }
        n
    } else {
        assert(s.take(s.len() as int) =~= s);
        s.len() as int
    }
}

/// A text has as many characters in small letters, each capital as the small letter and
/// each other character as it is.
pub proof fn law_ascii_lower(s: Seq<char>, i: int)
    requires
        0 <= i < s.len(),
    ensures
        ascii_lower(s).len() == s.len(),
        'A' <= s[i] <= 'Z' ==> 'a' <= ascii_lower(s)[i] <= 'z' && ascii_lower(s)[i] as int
            - 'a' as int == s[i] as int - 'A' as int,
        !('A' <= s[i] <= 'Z') ==> ascii_lower(s)[i] == s[i],
{
}

/// The first line of a text is what stands before its first line end, without a
/// carriage return there, and the others are the lines of what follows. A text without
/// line ends is one line, and an empty one none.
pub proof fn law_lines(line: Seq<char>, rest: Seq<char>)
    requires
        forall|i: int| 0 <= i < line.len() ==> #[trigger] line[i] != '\n',
    ensures
        lines(line) == if line.len() == 0 {
            Seq::<Seq<char>>::empty()
        } else {
            seq![line]
        },
        lines(line + seq!['\n'] + rest) == seq![
            if line.len() > 0 && line.last() == '\r' {
                line.drop_last()
            } else {
                line
            },
        ] + lines(rest),
{
    lemma_index_of(line, '\n');
    if index_of(line, '\n') is Some {
        assert(line[index_of(line, '\n')->0] == '\n');
    }
    let s = line + seq!['\n'] + rest;
    let n = line.len() as int;
    lemma_index_of(s, '\n');
    assert(s[n] == '\n');
    let i = index_of(s, '\n')->0;
    assert(i == n) by {
        if i < n {
            assert(s[i] == line[i]);
        }
    }
    assert(s.take(n) =~= line);
    assert(s.skip(n + 1) =~= rest);
}

/// Where a text stands nowhere, nothing is replaced.
pub proof fn law_nothing_to_replace(s: Seq<char>, from: Seq<char>, to: Seq<char>)
    requires
        !contains(s, from),
    ensures
        replaced(s, from, to) == s,
    decreases s.len(),
{
    if s.len() > 0 && from.len() > 0 {
        let rest = s.skip(1);
        if contains(rest, from) {
            reveal(contains);
            let at = choose|at: int| occurs_at(rest, from, at);
            assert(s.subrange(at + 1, at + 1 + from.len()) =~= rest.subrange(at, at + from.len()));
            assert(occurs_at(s, from, at + 1));
        }
        if starts_with(s, from) {
            reveal(contains);
        }
        law_nothing_to_replace(rest, from, to);
        assert(seq![s[0]] + rest =~= s);
    }
}

/// Replacing takes each place at which a text stands, from the front: what stands before
/// the first stays, and what follows it is looked through in the same way.
pub proof fn law_first_is_replaced(
    front: Seq<char>,
    from: Seq<char>,
    to: Seq<char>,
    back: Seq<char>,
)
    requires
        from.len() > 0,
        forall|i: int|
            0 <= i < front.len() ==> !#[trigger] occurs_at(front + from + back, from, i),
    ensures
        replaced(front + from + back, from, to) == front + to + replaced(back, from, to),
    decreases front.len(),
{
    let s = front + from + back;
    let tail = replaced(back, from, to);
    if front.len() == 0 {
        assert(s.subrange(0, from.len() as int) =~= from);
        assert(s.skip(from.len() as int) =~= back);
        assert(front + to + tail =~= to + tail);
    } else {
        let rest = front.skip(1);
        let others = rest + from + back;
        assert(s.skip(1) =~= others);
        assert(!occurs_at(s, from, 0));
        assert forall|i: int| 0 <= i < rest.len() implies !#[trigger] occurs_at(
            others,
            from,
            i,
        ) by {
            if occurs_at(others, from, i) {
                lemma_occurs_later(s, from, i);
                assert(occurs_at(s, from, i + 1));
            }
        }
        law_first_is_replaced(rest, from, to, back);
        assert(s[0] == front[0]);
        assert(seq![front[0]] + (rest + to + tail) =~= front + to + tail);
    }
}

proof fn lemma_occurs_later(s: Seq<char>, needle: Seq<char>, i: int)
    requires
        s.len() > 0,
        occurs_at(s.skip(1), needle, i),
    ensures
        occurs_at(s, needle, i + 1),
{
    assert(s.subrange(i + 1, i + 1 + needle.len()) =~= s.skip(1).subrange(i, i + needle.len()));
}

/// Where a text stands in another, what it is replaced by stands in the result.
pub proof fn law_replacement_is_there(s: Seq<char>, from: Seq<char>, to: Seq<char>)
    requires
        from.len() > 0,
        contains(s, from),
    ensures
        contains(replaced(s, from, to), to),
    decreases s.len(),
{
    reveal(contains);
    let at = choose|at: int| occurs_at(s, from, at);
    if starts_with(s, from) {
        let tail = replaced(s.skip(from.len() as int), from, to);
        lemma_contains_part(seq![], to, tail);
        assert(Seq::<char>::empty() + to + tail =~= to + tail);
    } else {
        let rest = s.skip(1);
        assert(rest.subrange(at - 1, at - 1 + from.len()) =~= s.subrange(at, at + from.len()));
        assert(occurs_at(rest, from, at - 1));
        law_replacement_is_there(rest, from, to);
        let tail = replaced(rest, from, to);
        let whole = seq![s[0]] + tail;
        lemma_contains_part(seq![s[0]], tail, seq![]);
        assert(whole + Seq::<char>::empty() =~= whole);
        lemma_contains_within(whole, tail, to);
    }
}

/// What fits is a front of the text, it fits, and one more character would not.
pub proof fn law_fitting(s: Seq<char>, n: nat) -> (k: int)
    ensures
        0 <= k <= s.len(),
        fitting(s, n) == s.take(k),
        utf8_len(s.take(k)) <= n,
        k < s.len() ==> utf8_len(s.take(k + 1)) > n,
    decreases s.len(),
{
    if s.len() == 0 {
        assert(fitting(s, n) =~= s.take(0));
        assert(utf8_len(s.take(0)) == 0);
        0
    } else {
        let c = seq![s[0]];
        assert(c.drop_first() =~= seq![]);
        assert(utf8_len(c.drop_first()) == 0);
        assert(utf8_len(c) == utf8_width(s[0]));
        if utf8_width(s[0]) > n {
            assert(s.take(0) =~= seq![]);
            assert(utf8_len(s.take(0)) == 0);
            assert(s.take(1) =~= c);
            0
        } else {
            let rest = s.skip(1);
            let k = law_fitting(rest, (n - utf8_width(s[0])) as nat);
            assert(s.take(k + 1) =~= c + rest.take(k));
            lemma_utf8_len_parts(c, rest.take(k));
            if k < rest.len() {
                assert(s.take(k + 2) =~= c + rest.take(k + 1));
                lemma_utf8_len_parts(c, rest.take(k + 1));
            }
            k + 1
        }
    }
}

// ---------------------------------------------------------------------------
// Numbers
// ---------------------------------------------------------------------------

/// The digits of a number stand for it. There is at least one, and the first is no zero
/// unless it is the only one.
pub proof fn law_decimal(n: nat)
    ensures
        digits_value(decimal(n)) == Some(n as int),
        decimal(n).len() > 0,
        decimal(n)[0] == '0' <==> n == 0,
        forall|i: int| 0 <= i < decimal(n).len() ==> '0' <= #[trigger] decimal(n)[i] <= '9',
    decreases n,
{
    let s = decimal(n);
    if n < 10 {
        assert(s.drop_last() =~= seq![]);
        assert(digits_value(s.drop_last()) == Some(0int));
        assert(s.last() == digit_char(n as int));
    } else {
        law_decimal(n / 10);
        let front = decimal(n / 10);
        assert(s.drop_last() =~= front);
        assert(s[0] == front[0]);
        assert forall|i: int| 0 <= i < s.len() implies '0' <= #[trigger] s[i] <= '9' by {
            if i < front.len() {
                assert(s[i] == front[i]);
            }
        }
    }
}

/// A text stands for a number exactly where all its characters are digits, and zeros in
/// front of it make no difference.
pub proof fn law_digits_value(s: Seq<char>)
    ensures
        digits_value(s) is Some <==> forall|i: int|
            0 <= i < s.len() ==> '0' <= #[trigger] s[i] <= '9',
        digits_value(seq!['0'] + s) == digits_value(s),
    decreases s.len(),
{
    let more = seq!['0'] + s;
    if s.len() == 0 {
        assert(more.drop_last() =~= seq![]);
        assert(digits_value(more.drop_last()) == Some(0int));
    } else {
        let front = s.drop_last();
        law_digits_value(front);
        assert(more.drop_last() =~= seq!['0'] + front);
        assert(more.last() == s.last());
        assert(forall|i: int| 0 <= i < front.len() ==> #[trigger] front[i] == s[i]);
        if digits_value(s) is Some {
            assert forall|i: int| 0 <= i < s.len() implies '0' <= #[trigger] s[i] <= '9' by {
                if i < front.len() {
                    assert('0' <= front[i] <= '9');
                }
            }
        }
        if forall|i: int| 0 <= i < s.len() ==> '0' <= #[trigger] s[i] <= '9' {
            assert forall|i: int| 0 <= i < front.len() implies '0' <= #[trigger] front[i]
                <= '9' by {
                assert('0' <= s[i] <= '9');
            }
            assert('0' <= s[s.len() - 1] <= '9');
        }
    }
}

/// A number is read from its digits, with a minus sign where it is negative, and with or
/// without a plus sign where it is not.
pub proof fn law_signed_text(n: int)
    ensures
        n < 0 ==> signed_text_value(seq!['-'] + decimal((-n) as nat)) == Some(n),
        n >= 0 ==> signed_text_value(decimal(n as nat)) == Some(n),
        n >= 0 ==> signed_text_value(seq!['+'] + decimal(n as nat)) == Some(n),
        n >= 0 ==> unsigned_value(decimal(n as nat)) == Some(n),
        n >= 0 ==> unsigned_value(seq!['+'] + decimal(n as nat)) == Some(n),
{
    if n < 0 {
        let digits = decimal((-n) as nat);
        law_decimal((-n) as nat);
        assert((seq!['-'] + digits).skip(1) =~= digits);
    } else {
        let digits = decimal(n as nat);
        law_decimal(n as nat);
        assert((seq!['+'] + digits).skip(1) =~= digits);
        assert('0' <= digits[0] <= '9');
    }
}

/// A text is one or more digits.
pub open spec fn is_digits(s: Seq<char>) -> bool {
    s.len() > 0 && forall|i: int| 0 <= i < s.len() ==> '0' <= #[trigger] s[i] <= '9'
}

/// A number is read from digits, with or without a sign before them, and from nothing
/// else. A number that cannot be negative takes no minus sign.
pub proof fn law_number_texts(s: Seq<char>)
    ensures
        unsigned_value(s) is Some <==> is_digits(s) || (s.len() > 0 && s[0] == '+' && is_digits(
            s.skip(1),
        )),
        signed_text_value(s) is Some <==> is_digits(s) || (s.len() > 0 && (s[0] == '+' || s[0]
            == '-') && is_digits(s.skip(1))),
{
    law_digits_value(s);
    if s.len() > 0 {
        law_digits_value(s.skip(1));
        if is_digits(s) {
            assert('0' <= s[0] <= '9');
        }
    }
}

/// What keeps a text from being read as a number of 32 bits is told: that it is empty,
/// that the number is too large, or that something in it is no digit.
pub proof fn law_number_problems(n: nat, s: Seq<char>)
    ensures
        u32_error_text(Seq::empty()) == "cannot parse integer from empty string"@,
        n > u32::MAX ==> u32_error_text(decimal(n)) == "number too large to fit in target type"@,
        s.len() > 0 && s[0] != '+' && !('0' <= s[0] <= '9') ==> u32_error_text(s)
            == "invalid digit found in string"@,
{
    let digits = decimal(n);
    law_decimal(n);
    assert('0' <= digits[0] <= '9');
    assert(digits.take(digits.len() as int) =~= digits);
    if n > u32::MAX {
        assert(digits_value(digits.take(digits.len() as int)) == Some(n as int));
        assert(outgrows_u32(digits));
    }
    if s.len() > 0 && s[0] != '+' && !('0' <= s[0] <= '9') {
        assert forall|k: int| 0 <= k <= s.len() implies !(#[trigger] digits_value(
            s.take(k),
        ) matches Some(v) && v > u32::MAX) by {
            law_digits_value(s.take(k));
            if k > 0 {
                assert(s.take(k)[0] == s[0]);
            } else {
                assert(s.take(k) =~= seq![]);
                assert(digits_value(Seq::<char>::empty()) == Some(0int));
            }
        }
    }
}

} // verus!
