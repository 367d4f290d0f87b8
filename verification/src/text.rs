//! Text as a sequence of characters.
//!
//! Strings are modelled by the sequence of their characters. The functions of
//! this module search, split and build strings, and each states its result
//! over that model.

use vstd::prelude::*;

verus! {

/// `String::push` appends one character.
pub assume_specification[ String::push ](s: &mut String, ch: char)
    ensures
        final(s)@ == old(s)@.push(ch),
;

/// `String::push_str` appends a whole string slice.
pub assume_specification[ String::push_str ](s: &mut String, string: &str)
    ensures
        final(s)@ == old(s)@ + string@,
;

/// The characters of a string, in order.
pub fn chars_of(s: &str) -> (r: Vec<char>)
    ensures
        r@ == s@,
{
    let mut r: Vec<char> = Vec::new();
    for c in it: s.chars()
        invariant
            r@ == s@.take(it.index() as int),
            it.seq() == s@,
    {
        r.push(c);
    }
    assert(s@.take(s@.len() as int) == s@);
    r
}

/// The string made of the characters from `start` up to, not including, `end`.
pub fn string_between(chars: &[char], start: usize, end: usize) -> (r: String)
    requires
        start <= end <= chars@.len(),
    ensures
        r@ == chars@.subrange(start as int, end as int),
{
    let mut r: String = String::new();
    let mut i: usize = start;
    while i < end
        invariant
            start <= i <= end <= chars@.len(),
            r@ == chars@.subrange(start as int, i as int),
        decreases end - i,
    {
        r.push(chars[i]);
        i = i + 1;
        assert(chars@.subrange(start as int, i as int) == chars@.subrange(
            start as int,
            i - 1,
        ).push(chars@[i - 1]));
    }
    r
}

/// Two runs of characters are the same.
pub fn same_chars(a: &[char], b: &[char]) -> (r: bool)
    ensures
        r == (a@ == b@),
{
    if a.len() != b.len() {
        return false;
    }
    let mut i: usize = 0;
    while i < a.len()
        invariant
            a@.len() == b@.len(),
            i <= a@.len(),
            forall|j: int| 0 <= j < i ==> a@[j] == b@[j],
        decreases a@.len() - i,
    {
        if a[i] != b[i] {
            return false;
        }
        i = i + 1;
    }
    assert(a@ =~= b@);
    true
}

/// Two strings hold the same text.
pub fn same_text(a: &str, b: &str) -> (r: bool)
    ensures
        r == (a@ == b@),
{
    let x: Vec<char> = chars_of(a);
    let y: Vec<char> = chars_of(b);
    same_chars(&x, &y)
}

/// A copy of an optional string.
pub fn clone_optional_text(a: &Option<String>) -> (r: Option<String>)
    ensures
        r.deep_view() == a.deep_view(),
        r == *a,
{
    match a {
        Some(x) => Some(x.clone()),
        None => None,
    }
}

// ---------------------------------------------------------------------------
// Searching
// ---------------------------------------------------------------------------

/// `needle` stands in `hay` at position `at`.
pub open spec fn occurs_at(hay: Seq<char>, needle: Seq<char>, at: int) -> bool {
    &&& 0 <= at
    &&& at + needle.len() <= hay.len()
    &&& hay.subrange(at, at + needle.len()) == needle
}

/// `needle` stands somewhere in `hay`.
#[verifier::opaque]
pub open spec fn contains(hay: Seq<char>, needle: Seq<char>) -> bool {
    exists|at: int| occurs_at(hay, needle, at)
}

/// `hay` begins with `needle`.
pub open spec fn starts_with(hay: Seq<char>, needle: Seq<char>) -> bool {
    occurs_at(hay, needle, 0)
}

/// `needle` stands in `hay` at `at`.
pub fn chars_occur_at(hay: &[char], needle: &[char], at: usize) -> (r: bool)
    ensures
        r == occurs_at(hay@, needle@, at as int),
{
    if at > hay.len() || needle.len() > hay.len() - at {
        return false;
    }
    let mut i: usize = 0;
    while i < needle.len()
        invariant
            at + needle@.len() <= hay@.len() <= usize::MAX,
            i <= needle@.len(),
            forall|j: int| 0 <= j < i ==> hay@[at + j] == needle@[j],
        decreases needle@.len() - i,
    {
        if hay[at + i] != needle[i] {
            assert(hay@.subrange(at as int, at + needle@.len())[i as int] != needle@[i as int]);
            return false;
        }
        i = i + 1;
    }
    assert(hay@.subrange(at as int, at + needle@.len()) =~= needle@);
    true
}

/// The first position at or after `from` at which `needle` stands in `hay`.
pub fn find_chars(hay: &[char], needle: &[char], from: usize) -> (r: Option<usize>)
    requires
        from <= hay@.len(),
    ensures
        match r {
            Some(at) => {
                &&& from <= at
                &&& occurs_at(hay@, needle@, at as int)
                &&& forall|j: int| from <= j < at ==> !occurs_at(hay@, needle@, j)
            },
            None => forall|j: int| from <= j ==> !occurs_at(hay@, needle@, j),
        },
{
    let mut at: usize = from;
    while at < hay.len()
        invariant
            from <= at <= hay@.len(),
            forall|j: int| from <= j < at ==> !occurs_at(hay@, needle@, j),
        decreases hay@.len() - at,
    {
        if chars_occur_at(hay, needle, at) {
            return Some(at);
        }
        at = at + 1;
    }
    if chars_occur_at(hay, needle, at) {
        return Some(at);
    }
    None
}

/// Whether `needle` stands somewhere in `hay`.
pub fn contains_text(hay: &str, needle: &str) -> (r: bool)
    ensures
        r == contains(hay@, needle@),
{
    reveal(contains);
    let h: Vec<char> = chars_of(hay);
    let n: Vec<char> = chars_of(needle);
    match find_chars(&h, &n, 0) {
        Some(at) => {
            assert(occurs_at(hay@, needle@, at as int));
            true
        },
        None => false,
    }
}

/// Whether `hay` begins with `needle`.
pub fn starts_with_text(hay: &str, needle: &str) -> (r: bool)
    ensures
        r == starts_with(hay@, needle@),
{
    let h: Vec<char> = chars_of(hay);
    let n: Vec<char> = chars_of(needle);
    chars_occur_at(&h, &n, 0)
}

/// `needle` stands at the end of `hay`.
pub open spec fn ends_with(hay: Seq<char>, needle: Seq<char>) -> bool {
    occurs_at(hay, needle, hay.len() - needle.len())
}

/// Whether `needle` stands at the end of `hay`.
pub fn ends_with_text(hay: &str, needle: &str) -> (r: bool)
    ensures
        r == ends_with(hay@, needle@),
{
    let h: Vec<char> = chars_of(hay);
    let n: Vec<char> = chars_of(needle);
    n.len() <= h.len() && chars_occur_at(&h, &n, h.len() - n.len())
}

/// What is left of `s` once `prefix` is taken off its front.
pub open spec fn without_prefix(s: Seq<char>, prefix: Seq<char>) -> Option<Seq<char>> {
    if starts_with(s, prefix) {
        Some(s.skip(prefix.len() as int))
    } else {
        None
    }
}

/// Take `prefix` off the front of `s`, where it stands there.
pub fn strip_prefix_text(s: &str, prefix: &str) -> (r: Option<String>)
    ensures
        r.deep_view() == without_prefix(s@, prefix@),
{
    let h: Vec<char> = chars_of(s);
    let n: Vec<char> = chars_of(prefix);
    if chars_occur_at(&h, &n, 0) {
        let rest: String = string_between(&h, n.len(), h.len());
        assert(s@.skip(prefix@.len() as int) =~= h@.subrange(n@.len() as int, h@.len() as int));
        Some(rest)
    } else {
        None
    }
}

/// The first position of a character.
pub open spec fn index_of(s: Seq<char>, c: char) -> Option<int>
    decreases s.len(),
{
    if s.len() == 0 {
        None
    } else if s[0] == c {
        Some(0)
    } else {
        match index_of(s.skip(1), c) {
            Some(i) => Some(i + 1),
            None => None,
        }
    }
}

/// The first position of a character, stated by its neighbours: `c` stands at
/// the position, and nowhere before it.
pub proof fn lemma_index_of(s: Seq<char>, c: char)
    ensures
        match index_of(s, c) {
            Some(i) => 0 <= i < s.len() && s[i] == c && forall|j: int| 0 <= j < i ==> s[j] != c,
            None => forall|j: int| 0 <= j < s.len() ==> s[j] != c,
        },
    decreases s.len(),
{
    if s.len() > 0 && s[0] != c {
        lemma_index_of(s.skip(1), c);
        assert forall|j: int| 0 < j < s.len() implies s[j] == s.skip(1)[j - 1] by {}
    }
}

/// The first position of `c` in a run of characters.
pub fn find_char(s: &[char], c: char) -> (r: Option<usize>)
    ensures
        r is Some == index_of(s@, c) is Some,
        r is Some ==> r->0 == index_of(s@, c)->0,
        r is Some ==> r->0 < s@.len(),
{
    proof {
        lemma_index_of(s@, c);
    }
    let mut i: usize = 0;
    while i < s.len()
        invariant
            i <= s@.len(),
            forall|j: int| 0 <= j < i ==> s@[j] != c,
            match index_of(s@, c) {
                Some(k) => 0 <= k < s@.len() && s@[k] == c && forall|j: int|
                    0 <= j < k ==> s@[j] != c,
                None => forall|j: int| 0 <= j < s@.len() ==> s@[j] != c,
            },
        decreases s@.len() - i,
    {
        if s[i] == c {
            return Some(i);
        }
        i = i + 1;
    }
    None
}

// ---------------------------------------------------------------------------
// White space
// ---------------------------------------------------------------------------

/// A character with the Unicode `White_Space` property.
pub open spec fn is_white_space(c: char) -> bool {
    ||| '\u{9}' <= c <= '\u{d}'
    ||| c == ' '
    ||| c == '\u{85}'
    ||| c == '\u{a0}'
    ||| c == '\u{1680}'
    ||| '\u{2000}' <= c <= '\u{200a}'
    ||| c == '\u{2028}'
    ||| c == '\u{2029}'
    ||| c == '\u{202f}'
    ||| c == '\u{205f}'
    ||| c == '\u{3000}'
}

/// Whether a character is white space.
pub fn white_space(c: char) -> (r: bool)
    ensures
        r == is_white_space(c),
{
    ('\u{9}' <= c && c <= '\u{d}') || c == ' ' || c == '\u{85}' || c == '\u{a0}' || c
        == '\u{1680}' || ('\u{2000}' <= c && c <= '\u{200a}') || c == '\u{2028}' || c
        == '\u{2029}' || c == '\u{202f}' || c == '\u{205f}' || c == '\u{3000}'
}

/// Text without the white space at its front.
pub open spec fn trimmed_start(s: Seq<char>) -> Seq<char>
    decreases s.len(),
{
    if s.len() > 0 && is_white_space(s[0]) {
        trimmed_start(s.skip(1))
    } else {
        s
    }
}

/// Text without the white space at its back.
pub open spec fn trimmed_end(s: Seq<char>) -> Seq<char>
    decreases s.len(),
{
    if s.len() > 0 && is_white_space(s.last()) {
        trimmed_end(s.drop_last())
    } else {
        s
    }
}

/// Text without the white space at either end.
pub open spec fn trimmed(s: Seq<char>) -> Seq<char> {
    trimmed_end(trimmed_start(s))
}

/// Take white space off both ends of a string.
pub fn trim(s: &str) -> (r: String)
    ensures
        r@ == trimmed(s@),
{
    let chars: Vec<char> = chars_of(s);
    let mut start: usize = 0;
    assert(s@.skip(0) == s@);
    while start < chars.len() && white_space(chars[start])
        invariant
            chars@ == s@,
            start <= chars@.len(),
            trimmed_start(s@.skip(start as int)) == trimmed_start(s@),
        decreases chars@.len() - start,
    {
        assert(s@.skip(start as int).skip(1) == s@.skip(start + 1));
        start = start + 1;
    }
    let mut end: usize = chars.len();
    assert(s@.subrange(start as int, end as int) == s@.skip(start as int));
    while end > start && white_space(chars[end - 1])
        invariant
            chars@ == s@,
            start <= end <= chars@.len(),
            trimmed_end(s@.subrange(start as int, end as int)) == trimmed(s@),
        decreases end,
    {
        assert(s@.subrange(start as int, end as int).drop_last() == s@.subrange(
            start as int,
            end - 1,
        ));
        end = end - 1;
    }
    string_between(&chars, start, end)
}

// ---------------------------------------------------------------------------
// Numbers as text
// ---------------------------------------------------------------------------

/// The character of a decimal digit.
pub open spec fn digit_char(d: int) -> char {
    if d == 0 {
        '0'
    } else if d == 1 {
        '1'
    } else if d == 2 {
        '2'
    } else if d == 3 {
        '3'
    } else if d == 4 {
        '4'
    } else if d == 5 {
        '5'
    } else if d == 6 {
        '6'
    } else if d == 7 {
        '7'
    } else if d == 8 {
        '8'
    } else {
        '9'
    }
}

/// A natural number in decimal, without leading zeros.
pub open spec fn decimal(n: nat) -> Seq<char>
    decreases n,
{
    if n < 10 {
        seq![digit_char(n as int)]
    } else {
        decimal(n / 10).push(digit_char((n % 10) as int))
    }
}

/// Write a number in decimal.
pub fn decimal_text(n: u64) -> (r: String)
    ensures
        r@ == decimal(n as nat),
    decreases n,
{
    let d: u64 = n % 10;
    let c: char = if d == 0 {
        '0'
    } else if d == 1 {
        '1'
    } else if d == 2 {
        '2'
    } else if d == 3 {
        '3'
    } else if d == 4 {
        '4'
    } else if d == 5 {
        '5'
    } else if d == 6 {
        '6'
    } else if d == 7 {
        '7'
    } else if d == 8 {
        '8'
    } else {
        '9'
    };
    let mut r: String = if n < 10 {
        String::new()
    } else {
        decimal_text(n / 10)
    };
    r.push(c);
    r
}

/// The value of a decimal digit, where the character is one.
pub open spec fn digit_value(c: char) -> Option<int> {
    if '0' <= c <= '9' {
        Some(c as int - '0' as int)
    } else {
        None
    }
}

/// The number that a run of decimal digits stands for, most significant first.
pub open spec fn digits_value(s: Seq<char>) -> Option<int>
    decreases s.len(),
{
    if s.len() == 0 {
        Some(0)
    } else {
        match (digits_value(s.drop_last()), digit_value(s.last())) {
            (Some(n), Some(d)) => Some(10 * n + d),
            _ => None,
        }
    }
}

/// The number that an optional plus sign and at least one digit stand for.
pub open spec fn unsigned_value(s: Seq<char>) -> Option<int> {
    let digits = if s.len() > 0 && s[0] == '+' {
        s.skip(1)
    } else {
        s
    };
    if digits.len() == 0 {
        None
    } else {
        digits_value(digits)
    }
}

proof fn lemma_digits_prefix(s: Seq<char>, n: int)
    requires
        0 <= n <= s.len(),
        digits_value(s.take(n)) is None,
    ensures
        digits_value(s) is None,
    decreases s.len() - n,
{
    if n < s.len() {
        assert(s.take(n + 1).drop_last() == s.take(n));
        lemma_digits_prefix(s, n + 1);
    } else {
        assert(s.take(n) == s);
    }
}

proof fn lemma_digits_grow(s: Seq<char>, n: int)
    requires
        0 <= n <= s.len(),
        digits_value(s) is Some,
    ensures
        digits_value(s.take(n)) is Some,
        0 <= digits_value(s.take(n))->0 <= digits_value(s)->0,
    decreases s.len() - n,
{
    if n < s.len() {
        lemma_digits_grow(s, n + 1);
        assert(s.take(n + 1).drop_last() == s.take(n));
        lemma_digits_nonneg(s.take(n));
    } else {
        assert(s.take(n) == s);
        lemma_digits_nonneg(s);
    }
}

proof fn lemma_digits_nonneg(s: Seq<char>)
    ensures
        digits_value(s) is Some ==> digits_value(s)->0 >= 0,
    decreases s.len(),
{
    if s.len() > 0 {
        lemma_digits_nonneg(s.drop_last());
    }
}

/// Read a run of digits from `start` on, up to a bound.
fn read_digits(chars: &[char], start: usize, bound: u64) -> (r: Option<u64>)
    requires
        start <= chars@.len(),
        bound < 0xffff_ffff_ffff_ffff,
    ensures
        match digits_value(chars@.skip(start as int)) {
            Some(n) => if n <= bound {
                r == Some(n as u64)
            } else {
                r is None
            },
            None => r is None,
        },
{
    let ghost digits = chars@.skip(start as int);
    let mut value: u64 = 0;
    let mut i: usize = start;
    assert(digits.take(0) == Seq::<char>::empty());
    while i < chars.len()
        invariant
            start <= i <= chars@.len(),
            digits == chars@.skip(start as int),
            digits_value(digits.take(i - start)) == Some(value as int),
            value <= bound < 0xffff_ffff_ffff_ffff,
        decreases chars@.len() - i,
    {
        let c: char = chars[i];
        assert(digits.take(i - start + 1).drop_last() == digits.take(i - start));
        assert(digits.take(i - start + 1).last() == c);
        if c < '0' || c > '9' {
            proof {
                lemma_digits_prefix(digits, i - start + 1);
            }
            return None;
        }
        let d: u64 = (c as u32 - '0' as u32) as u64;
        if value > (bound - if d <= bound { d } else { bound }) / 10 || d > bound {
            proof {
                if digits_value(digits) is Some {
                    lemma_digits_grow(digits, i - start + 1);
                }
            }
            return None;
        }
        value = 10 * value + d;
        i = i + 1;
    }
    assert(digits.take(digits.len() as int) == digits);
    Some(value)
}

/// Read from the left, the digits of a number come to more than a 32-bit number
/// before anything else stands there.
pub open spec fn outgrows_u32(digits: Seq<char>) -> bool {
    exists|n: int|
        0 <= n <= digits.len() && (#[trigger] digits_value(digits.take(n)) matches Some(v) && v
            > u32::MAX)
}

/// The text of the error on a text that is no 32-bit number: it is empty, its
/// number is too large, or it holds something else than digits.
pub open spec fn u32_error_text(s: Seq<char>) -> Seq<char> {
    if s.len() == 0 {
        "cannot parse integer from empty string"@
    } else if outgrows_u32(
        if s[0] == '+' {
            s.skip(1)
        } else {
            s
        },
    ) {
        "number too large to fit in target type"@
    } else {
        "invalid digit found in string"@
    }
}

/// Whether the digits from `start` on come to more than a 32-bit number.
fn check_outgrows_u32(chars: &[char], start: usize) -> (r: bool)
    requires
        start <= chars@.len(),
    ensures
        r == outgrows_u32(chars@.skip(start as int)),
{
    let ghost digits = chars@.skip(start as int);
    let mut value: u64 = 0;
    let mut i: usize = start;
    assert(digits.take(0) == Seq::<char>::empty());
    while i < chars.len()
        invariant
            start <= i <= chars@.len(),
            digits == chars@.skip(start as int),
            digits_value(digits.take(i - start)) == Some(value as int),
            value <= 0xffff_ffff,
            forall|n: int|
                0 <= n <= i - start ==> (#[trigger] digits_value(digits.take(n)) matches Some(v)
                    ==> v <= u32::MAX),
        decreases chars@.len() - i,
    {
        let c: char = chars[i];
        let ghost m = i - start + 1;
        assert(digits.take(m).drop_last() == digits.take(i - start));
        assert(digits.take(m).last() == c);
        if c < '0' || c > '9' {
            assert forall|n: int| 0 <= n <= digits.len() implies (#[trigger] digits_value(
                digits.take(n),
            ) matches Some(v) ==> v <= u32::MAX) by {
                if n >= m {
                    assert(digits.take(n).take(m) == digits.take(m));
                    lemma_digits_prefix(digits.take(n), m);
                }
            }
            return false;
        }
        let d: u64 = (c as u32 - '0' as u32) as u64;
        value = 10 * value + d;
        assert(digits_value(digits.take(m)) == Some(value as int));
        if value > 0xffff_ffff {
            return true;
        }
        i = i + 1;
    }
    false
}

/// The text of the error on a text that is no 32-bit number.
pub fn describe_u32_error(s: &str) -> (r: String)
    ensures
        r@ == u32_error_text(s@),
{
    let chars: Vec<char> = chars_of(s);
    if chars.len() == 0 {
        return "cannot parse integer from empty string".to_owned();
    }
    let start: usize = if chars[0] == '+' {
        1
    } else {
        0
    };
    assert(s@.skip(0) == s@);
    if check_outgrows_u32(&chars, start) {
        "number too large to fit in target type".to_owned()
    } else {
        "invalid digit found in string".to_owned()
    }
}

/// Read a number no larger than `bound`: an optional plus sign, then digits.
pub fn parse_unsigned(s: &str, bound: u64) -> (r: Option<u64>)
    requires
        bound < 0xffff_ffff_ffff_ffff,
    ensures
        match unsigned_value(s@) {
            Some(n) => if n <= bound {
                r == Some(n as u64)
            } else {
                r is None
            },
            None => r is None,
        },
{
    let chars: Vec<char> = chars_of(s);
    let start: usize = if chars.len() > 0 && chars[0] == '+' {
        1
    } else {
        0
    };
    assert(s@.skip(0) == s@);
    if start == chars.len() {
        return None;
    }
    read_digits(&chars, start, bound)
}

/// Read a 32-bit number: an optional plus sign, then digits.
pub fn parse_u32(s: &str) -> (r: Option<u32>)
    ensures
        match unsigned_value(s@) {
            Some(n) => if n <= u32::MAX {
                r == Some(n as u32)
            } else {
                r is None
            },
            None => r is None,
        },
{
    proof {
        lemma_digits_nonneg(s@);
        lemma_digits_nonneg(s@.skip(1));
    }
    match parse_unsigned(s, 0xffff_ffff) {
        Some(n) => Some(n as u32),
        None => None,
    }
}

/// The number that an optional sign and at least one digit stand for.
pub open spec fn signed_text_value(s: Seq<char>) -> Option<int> {
    if s.len() > 0 && s[0] == '-' {
        match digits_value(s.skip(1)) {
            Some(n) => if s.len() > 1 {
                Some(-n)
            } else {
                None
            },
            None => None,
        }
    } else {
        unsigned_value(s)
    }
}

/// Read a signed 64-bit number: an optional sign, then digits.
pub fn parse_i64(s: &str) -> (r: Option<i64>)
    ensures
        match signed_text_value(s@) {
            Some(n) => if i64::MIN <= n <= i64::MAX {
                r == Some(n as i64)
            } else {
                r is None
            },
            None => r is None,
        },
{
    proof {
        lemma_digits_nonneg(s@);
        lemma_digits_nonneg(s@.skip(1));
    }
    let chars: Vec<char> = chars_of(s);
    if chars.len() > 0 && chars[0] == '-' {
        if chars.len() == 1 {
            return None;
        }
        match read_digits(&chars, 1, 0x8000_0000_0000_0000) {
            Some(n) => if n == 0x8000_0000_0000_0000 {
                Some(i64::MIN)
            } else {
                Some(-(n as i64))
            },
            None => None,
        }
    } else {
        match parse_unsigned(s, 0x7fff_ffff_ffff_ffff) {
            Some(n) => Some(n as i64),
            None => None,
        }
    }
}

// ---------------------------------------------------------------------------
// Case
// ---------------------------------------------------------------------------

/// An ASCII capital as the small letter, any other character as it is.
pub open spec fn ascii_lower_char(c: char) -> char {
    if 'A' <= c <= 'Z' {
        (c as u32 + 32) as char
    } else {
        c
    }
}

/// Text with its ASCII capitals as small letters.
pub open spec fn ascii_lower(s: Seq<char>) -> Seq<char> {
    s.map_values(|c: char| ascii_lower_char(c))
}

/// Turn the ASCII capitals of a string into small letters.
pub fn ascii_lower_text(s: &str) -> (r: String)
    ensures
        r@ == ascii_lower(s@),
{
    let chars: Vec<char> = chars_of(s);
    let mut r: String = String::new();
    let mut i: usize = 0;
    while i < chars.len()
        invariant
            chars@ == s@,
            i <= chars@.len(),
            r@ == ascii_lower(s@.take(i as int)),
        decreases chars@.len() - i,
    {
        let c: char = chars[i];
        let low: char = if 'A' <= c && c <= 'Z' {
            (c as u8 + 32) as char
        } else {
            c
        };
        assert(low == ascii_lower_char(c));
        r.push(low);
        i = i + 1;
        assert(r@ =~= ascii_lower(s@.take(i as int)));
    }
    assert(s@.take(s@.len() as int) == s@);
    r
}

/// The text that `str::to_lowercase` gives for a text.
pub uninterp spec fn lowercase(s: Seq<char>) -> Seq<char>;

/// `str::to_lowercase`: the Unicode lower case of a string, which depends on
/// the string alone. That the lower case of a lower case is the same text is left
/// unsaid.
#[verifier::external_body]
pub(crate) fn to_lowercase(s: &str) -> (r: String)
    ensures
        r@ == lowercase(s@),
{
    s.to_lowercase()
}

/// The text that `str::to_uppercase` gives for a text.
pub uninterp spec fn uppercase(s: Seq<char>) -> Seq<char>;

/// `str::to_uppercase`: the Unicode upper case of a string, which depends on
/// the string alone.
#[verifier::external_body]
pub(crate) fn to_uppercase(s: &str) -> (r: String)
    ensures
        r@ == uppercase(s@),
{
    s.to_uppercase()
}

// ---------------------------------------------------------------------------
// Lists of texts
// ---------------------------------------------------------------------------

/// Texts joined by a separator.
pub open spec fn join(parts: Seq<Seq<char>>, separator: Seq<char>) -> Seq<char>
    decreases parts.len(),
{
    if parts.len() == 0 {
        seq![]
    } else if parts.len() == 1 {
        parts[0]
    } else {
        join(parts.drop_last(), separator) + separator + parts.last()
    }
}

/// Join texts by a separator.
pub fn join_text(parts: &Vec<String>, separator: &str) -> (r: String)
    ensures
        r@ == join(parts.deep_view(), separator@),
{
    let mut r: String = String::new();
    let mut i: usize = 0;
    let ghost all = parts.deep_view();
    assert(all.take(0) == Seq::<Seq<char>>::empty());
    while i < parts.len()
        invariant
            all == parts.deep_view(),
            i <= parts@.len(),
            r@ == join(all.take(i as int), separator@),
        decreases parts@.len() - i,
    {
        if i > 0 {
            r.push_str(separator);
        }
        r.push_str(&parts[i]);
        i = i + 1;
        assert(all.take(i as int).drop_last() == all.take(i - 1));
        assert(all.take(i as int).last() == parts@[i - 1]@);
        assert(r@ =~= join(all.take(i as int), separator@));
    }
    assert(all.take(all.len() as int) == all);
    r
}

/// Whether a list of texts holds a text.
pub fn list_contains(list: &Vec<String>, s: &str) -> (r: bool)
    ensures
        r == list.deep_view().contains(s@),
{
    let mut i: usize = 0;
    while i < list.len()
        invariant
            i <= list@.len(),
            forall|j: int| 0 <= j < i ==> list@[j]@ != s@,
        decreases list@.len() - i,
    {
        if same_text(&list[i], s) {
            assert(list.deep_view()[i as int] == s@);
            return true;
        }
        i = i + 1;
    }
    assert forall|j: int| 0 <= j < list.deep_view().len() implies list.deep_view()[j] != s@ by {}
    false
}

// ---------------------------------------------------------------------------
// Lines
// ---------------------------------------------------------------------------

/// A line without the carriage return at its end.
pub open spec fn without_return(line: Seq<char>) -> Seq<char> {
    if line.len() > 0 && line.last() == '\r' {
        line.drop_last()
    } else {
        line
    }
}

/// The lines of a text. A line ends with a line feed, or with a carriage return
/// and a line feed, which are no part of it; the last one need not.
pub open spec fn lines(s: Seq<char>) -> Seq<Seq<char>>
    decreases s.len(),
    via lines_shorter
{
    if s.len() == 0 {
        seq![]
    } else {
        match index_of(s, '\n') {
            None => seq![s],
            Some(i) => seq![without_return(s.take(i))] + lines(s.skip(i + 1)),
        }
    }
}

#[via_fn]
proof fn lines_shorter(s: Seq<char>) {
    lemma_index_of(s, '\n');
}

/// Split a string into its lines.
pub fn lines_of(s: &str) -> (r: Vec<String>)
    ensures
        r.deep_view() == lines(s@),
{
    let chars: Vec<char> = chars_of(s);
    let mut r: Vec<String> = Vec::new();
    let mut start: usize = 0;
    let mut i: usize = 0;
    assert(s@.skip(0) == s@);
    assert(r.deep_view() + lines(s@) =~= lines(s@));
    while i < chars.len()
        invariant
            chars@ == s@,
            start <= i <= chars@.len(),
            forall|j: int| start <= j < i ==> chars@[j] != '\n',
            lines(s@) == r.deep_view() + lines(s@.skip(start as int)),
        decreases chars@.len() - i,
    {
        if chars[i] == '\n' {
            let ghost rest = s@.skip(start as int);
            proof {
                lemma_index_of(rest, '\n');
                assert(rest[i - start] == '\n');
                assert forall|j: int| 0 <= j < i - start implies rest[j] != '\n' by {
                    assert(rest[j] == chars@[start + j]);
                }
                assert(index_of(rest, '\n') == Some(i - start));
                assert(rest.skip(i - start + 1) == s@.skip(i + 1));
                assert(rest.take(i - start) == s@.subrange(start as int, i as int));
            }
            let end: usize = if i > start && chars[i - 1] == '\r' {
                i - 1
            } else {
                i
            };
            let line: String = string_between(&chars, start, end);
            assert(line@ =~= without_return(s@.subrange(start as int, i as int)));
            let ghost before = r.deep_view();
            r.push(line);
            assert(r.deep_view() =~= before.push(line@));
            start = i + 1;
            assert(lines(s@) =~= r.deep_view() + lines(s@.skip(start as int)));
        }
        i = i + 1;
    }
    let ghost rest = s@.skip(start as int);
    if start < chars.len() {
        proof {
            lemma_index_of(rest, '\n');
            assert forall|j: int| 0 <= j < rest.len() implies rest[j] != '\n' by {
                assert(rest[j] == chars@[start + j]);
            }
            assert(rest == s@.subrange(start as int, s@.len() as int));
        }
        let line: String = string_between(&chars, start, chars.len());
        let ghost before = r.deep_view();
        r.push(line);
        assert(r.deep_view() =~= before.push(line@));
        assert(r.deep_view() =~= lines(s@));
    } else {
        assert(rest =~= seq![]);
        assert(r.deep_view() =~= lines(s@));
    }
    r
}

/// Whether a string holds a character.
pub fn contains_char(s: &str, c: char) -> (r: bool)
    ensures
        r == s@.contains(c),
{
    let chars: Vec<char> = chars_of(s);
    proof {
        lemma_index_of(s@, c);
    }
    match find_char(&chars, c) {
        Some(i) => {
            assert(s@[i as int] == c);
            true
        },
        None => false,
    }
}

/// The number of characters of a string.
pub fn char_count(s: &str) -> (r: usize)
    ensures
        r == s@.len(),
{
    s.unicode_len()
}


// ---------------------------------------------------------------------------
// Replacing
// ---------------------------------------------------------------------------

/// Text with each place at which `from` stands, looked for from the front, taken
/// by `to`.
pub open spec fn replaced(s: Seq<char>, from: Seq<char>, to: Seq<char>) -> Seq<char>
    decreases s.len(),
{
    if s.len() == 0 || from.len() == 0 {
        s
    } else if starts_with(s, from) {
        to + replaced(s.skip(from.len() as int), from, to)
    } else {
        seq![s[0]] + replaced(s.skip(1), from, to)
    }
}

/// Replace each place at which `from` stands by `to`.
pub fn replace_text(s: &str, from: &str, to: &str) -> (r: String)
    requires
        from@.len() > 0,
    ensures
        r@ == replaced(s@, from@, to@),
{
    let chars: Vec<char> = chars_of(s);
    let pattern: Vec<char> = chars_of(from);
    let mut r: String = String::new();
    let mut i: usize = 0;
    let ghost whole = replaced(s@, from@, to@);
    assert(s@.skip(0) == s@);
    assert(r@ + whole =~= whole);
    while i < chars.len()
        invariant
            chars@ == s@,
            pattern@ == from@,
            from@.len() > 0,
            i <= chars@.len(),
            whole == r@ + replaced(s@.skip(i as int), from@, to@),
        decreases chars@.len() - i,
    {
        let ghost rest = s@.skip(i as int);
        let ghost before = r@;
        assert(starts_with(rest, from@) == occurs_at(s@, from@, i as int)) by {
            if i + from@.len() <= s@.len() {
                assert(rest.subrange(0, from@.len() as int) =~= s@.subrange(
                    i as int,
                    i + from@.len(),
                ));
            }
        }
        if chars_occur_at(&chars, &pattern, i) {
            r.push_str(to);
            i = i + pattern.len();
            assert(rest.skip(from@.len() as int) =~= s@.skip(i as int));
            assert(whole =~= r@ + replaced(s@.skip(i as int), from@, to@));
        } else {
            r.push(chars[i]);
            assert(rest[0] == chars@[i as int]);
            i = i + 1;
            assert(rest.skip(1) =~= s@.skip(i as int));
            assert(whole =~= r@ + replaced(s@.skip(i as int), from@, to@));
        }
    }
    assert(s@.skip(i as int) =~= seq![]);
    assert(whole =~= r@);
    r
}


// ---------------------------------------------------------------------------
// Bytes
// ---------------------------------------------------------------------------

/// The number of bytes that a character takes in UTF-8.
pub open spec fn utf8_width(c: char) -> nat {
    vstd::utf8::encode_scalar(c as u32).len()
}

/// The number of bytes that a text takes in UTF-8.
pub open spec fn utf8_len(s: Seq<char>) -> nat {
    vstd::utf8::encode_utf8(s).len()
}

/// The longest front of a text that takes at most `n` bytes in UTF-8.
pub open spec fn fitting(s: Seq<char>, n: nat) -> Seq<char>
    decreases s.len(),
{
    if s.len() == 0 || utf8_width(s[0]) > n {
        seq![]
    } else {
        seq![s[0]] + fitting(s.skip(1), (n - utf8_width(s[0])) as nat)
    }
}

/// The bytes of a text are those of its parts.
pub proof fn lemma_utf8_len_parts(a: Seq<char>, b: Seq<char>)
    ensures
        utf8_len(a + b) == utf8_len(a) + utf8_len(b),
    decreases a.len(),
{
    if a.len() == 0 {
        assert(a + b =~= b);
    } else {
        assert((a + b).drop_first() =~= a.drop_first() + b);
        lemma_utf8_len_parts(a.drop_first(), b);
    }
}

/// The bytes of a longer front of a text.
pub proof fn lemma_utf8_len_take(s: Seq<char>, i: int)
    requires
        0 <= i < s.len(),
    ensures
        utf8_len(s.take(i + 1)) == utf8_len(s.take(i)) + utf8_width(s[i]),
        utf8_len(s.take(i + 1)) <= utf8_len(s),
{
    let c = seq![s[i]];
    assert(c.drop_first() =~= seq![]);
    assert(utf8_len(c.drop_first()) == 0);
    assert(utf8_len(c) == utf8_width(s[i]));
    assert(s.take(i + 1) =~= s.take(i) + c);
    lemma_utf8_len_parts(s.take(i), c);
    assert(s =~= s.take(i + 1) + s.skip(i + 1));
    lemma_utf8_len_parts(s.take(i + 1), s.skip(i + 1));
}

/// A front of a text is what fits into its bytes.
pub proof fn lemma_fitting_take(s: Seq<char>, i: int)
    requires
        0 <= i <= s.len(),
    ensures
        fitting(s, utf8_len(s.take(i))) == s.take(i),
    decreases s.len(),
{
    if i == 0 {
        assert(s.take(0) =~= seq![]);
        if s.len() > 0 {
            vstd::utf8::char_is_scalar(s[0]);
        }
        assert(fitting(s, 0) =~= s.take(0));
    } else {
        let front = s.take(i);
        assert(front.drop_first() =~= s.skip(1).take(i - 1));
        lemma_fitting_take(s.skip(1), i - 1);
        assert(seq![s[0]] + s.skip(1).take(i - 1) =~= front);
    }
}

/// The number of bytes that a character takes in UTF-8.
pub fn char_width(c: char) -> (r: usize)
    ensures
        r == utf8_width(c),
        1 <= r <= 4,
{
    proof {
        vstd::utf8::char_is_scalar(c);
    }
    if '\u{7f}' >= c {
        1
    } else if '\u{7ff}' >= c {
        2
    } else if '\u{ffff}' >= c {
        3
    } else {
        4
    }
}

/// The longest front of a string that takes at most `n` bytes.
pub fn take_bytes(s: &str, n: usize) -> (r: String)
    ensures
        r@ == fitting(s@, n as nat),
{
    let chars: Vec<char> = chars_of(s);
    let mut left: usize = n;
    let mut i: usize = 0;
    assert(s@.skip(0) =~= s@);
    assert(s@.take(0) + fitting(s@, n as nat) =~= fitting(s@, n as nat));
    while i < chars.len() && char_width(chars[i]) <= left
        invariant
            chars@ == s@,
            i <= chars@.len(),
            fitting(s@, n as nat) == s@.take(i as int) + fitting(s@.skip(i as int), left as nat),
        decreases chars@.len() - i,
    {
        let ghost rest = s@.skip(i as int);
        let ghost before = left;
        assert(rest[0] == s@[i as int]);
        assert(rest.skip(1) =~= s@.skip(i + 1));
        left = left - char_width(chars[i]);
        assert(s@.take(i as int) + (seq![rest[0]] + fitting(s@.skip(i + 1), left as nat))
            =~= s@.take(i + 1) + fitting(s@.skip(i + 1), left as nat));
        i = i + 1;
    }
    assert(i < chars@.len() ==> s@.skip(i as int)[0] == s@[i as int]);
    let r: String = string_between(&chars, 0, i);
    assert(r@ =~= s@.take(i as int) + Seq::<char>::empty());
    r
}

/// The number of bytes that a string takes.
pub fn byte_len(s: &str) -> (r: usize)
    ensures
        r == utf8_len(s@),
{
    s.as_bytes().len()
}

/// Text without the given characters at its end.
pub open spec fn without_trailing(s: Seq<char>, c: char) -> Seq<char>
    decreases s.len(),
{
    if s.len() > 0 && s.last() == c {
        without_trailing(s.drop_last(), c)
    } else {
        s
    }
}

/// Take a character off the end of a string, as often as it stands there.
pub fn trim_end_char(s: &str, c: char) -> (r: String)
    ensures
        r@ == without_trailing(s@, c),
{
    let chars: Vec<char> = chars_of(s);
    let mut n: usize = chars.len();
    assert(chars@.take(n as int) =~= chars@);
    while n > 0 && chars[n - 1] == c
        invariant
            chars@ == s@,
            n <= chars@.len(),
            without_trailing(s@.take(n as int), c) == without_trailing(s@, c),
        decreases n,
    {
        assert(s@.take(n as int).drop_last() =~= s@.take(n - 1));
        n = n - 1;
    }
    let r: String = string_between(&chars, 0, n);
    assert(r@ =~= s@.take(n as int));
    r
}

} // verus!
