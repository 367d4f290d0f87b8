//! Cloudflare provider URL helpers.

use vstd::prelude::*;

use crate::config::{find_text, value_named, Env};
use crate::error::{ErrorView, PiError};
use crate::text::{chars_of, index_of, lemma_index_of, same_text, string_between};

verus! {

/// Workers AI direct OpenAI-compatible endpoint template.
pub const CLOUDFLARE_WORKERS_AI_BASE_URL: &'static str =
    "https://api.cloudflare.com/client/v4/accounts/{CLOUDFLARE_ACCOUNT_ID}/ai/v1";

/// AI Gateway Unified API compatible endpoint template.
pub const CLOUDFLARE_AI_GATEWAY_COMPAT_BASE_URL: &'static str =
    "https://gateway.ai.cloudflare.com/v1/{CLOUDFLARE_ACCOUNT_ID}/{CLOUDFLARE_GATEWAY_ID}/compat";

/// AI Gateway OpenAI passthrough endpoint template.
pub const CLOUDFLARE_AI_GATEWAY_OPENAI_BASE_URL: &'static str =
    "https://gateway.ai.cloudflare.com/v1/{CLOUDFLARE_ACCOUNT_ID}/{CLOUDFLARE_GATEWAY_ID}/openai";

/// AI Gateway Anthropic passthrough endpoint template.
pub const CLOUDFLARE_AI_GATEWAY_ANTHROPIC_BASE_URL: &'static str =
    "https://gateway.ai.cloudflare.com/v1/{CLOUDFLARE_ACCOUNT_ID}/{CLOUDFLARE_GATEWAY_ID}/anthropic";

/// Return whether a provider id belongs to Cloudflare.
pub fn is_cloudflare_provider(provider: &str) -> (r: bool)
    ensures
        r == (provider@ == "cloudflare-workers-ai"@ || provider@ == "cloudflare-ai-gateway"@),
{
    same_text(provider, "cloudflare-workers-ai") || same_text(provider, "cloudflare-ai-gateway")
}

/// A character that starts the name of a variable.
pub open spec fn starts_name(c: char) -> bool {
    'A' <= c <= 'Z' || c == '_'
}

/// A name in braces is that of a variable.
pub open spec fn is_variable_name(name: Seq<char>) -> bool {
    &&& name.len() > 0
    &&& starts_name(name[0])
    &&& forall|i: int|
        0 <= i < name.len() ==> (starts_name(#[trigger] name[i]) || '0' <= name[i] <= '9')
}

/// Whether a name in braces is that of a variable.
pub fn is_env_placeholder(name: &str) -> (r: bool)
    ensures
        r == is_variable_name(name@),
{
    let chars: Vec<char> = chars_of(name);
    if chars.len() == 0 {
        return false;
    }
    let first: char = chars[0];
    if !(('A' <= first && first <= 'Z') || first == '_') {
        return false;
    }
    let mut i: usize = 0;
    while i < chars.len()
        invariant
            chars@ == name@,
            i <= chars@.len(),
            forall|j: int|
                0 <= j < i ==> (starts_name(#[trigger] name@[j]) || '0' <= name@[j] <= '9'),
        decreases chars@.len() - i,
    {
        let c: char = chars[i];
        if !(('A' <= c && c <= 'Z') || c == '_' || ('0' <= c && c <= '9')) {
            assert(name@[i as int] == c);
            return false;
        }
        i = i + 1;
    }
    true
}

/// Where the first placeholder for a variable starts, and where it ends: at its
/// braces. Other names in braces are passed over.
pub open spec fn first_placeholder(url: Seq<char>) -> Option<(int, int)>
    decreases url.len(),
{
    match index_of(url, '{') {
        None => None,
        Some(start) => if 0 <= start < url.len() {
            let after = url.skip(start + 1);
            match index_of(after, '}') {
                None => None,
                Some(len) => if 0 <= len < after.len() {
                    if is_variable_name(after.take(len)) {
                        Some((start, start + 1 + len))
                    } else {
                        match first_placeholder(after.skip(len + 1)) {
                            Some((s, e)) => Some((s + start + len + 2, e + start + len + 2)),
                            None => None,
                        }
                    }
                } else {
                    None
                },
            }
        } else {
            None
        },
    }
}

/// A placeholder lies within its text.
pub proof fn lemma_first_placeholder(url: Seq<char>)
    ensures
        first_placeholder(url) matches Some(found) ==> 0 <= found.0 < found.1 < url.len(),
    decreases url.len(),
{
    lemma_index_of(url, '{');
    if let Some(start) = index_of(url, '{') {
        let after = url.skip(start + 1);
        lemma_index_of(after, '}');
        if let Some(len) = index_of(after, '}') {
            lemma_first_placeholder(after.skip(len + 1));
        }
    }
}

/// The names of the variables that a URL has placeholders for, in order.
pub open spec fn placeholder_names(url: Seq<char>) -> Seq<Seq<char>>
    decreases url.len(),
{
    match first_placeholder(url) {
        Some((start, end)) => if 0 <= start < end < url.len() {
            seq![url.subrange(start + 1, end)] + placeholder_names(url.skip(end + 1))
        } else {
            seq![]
        },
        None => seq![],
    }
}

/// The error on a variable that is not set.
pub open spec fn missing_variable(name: Seq<char>, provider: Seq<char>) -> ErrorView {
    ErrorView::Config(
        name + " is required for provider "@ + provider + " but is not set."@,
    )
}

/// A URL with each placeholder replaced by the value of its variable, given the
/// values in order, or the error on the first that is not set.
pub open spec fn resolved(
    url: Seq<char>,
    provider: Seq<char>,
    values: Seq<Option<Seq<char>>>,
) -> Result<Seq<char>, ErrorView>
    decreases url.len(),
{
    match first_placeholder(url) {
        None => Ok(url),
        Some((start, end)) => if 0 <= start < end < url.len() {
            if values.len() > 0 && values[0] is Some {
                match resolved(url.skip(end + 1), provider, values.skip(1)) {
                    Ok(rest) => Ok(url.take(start) + values[0]->0 + rest),
                    Err(e) => Err(e),
                }
            } else {
                Err(missing_variable(url.subrange(start + 1, end), provider))
            }
        } else {
            Ok(url)
        },
    }
}

/// The values of the variables that a URL has placeholders for.
pub open spec fn values_in(names: Seq<Seq<char>>, env: Env) -> Seq<Option<Seq<char>>> {
    names.map_values(|name: Seq<char>| value_named(env, name))
}

/// What a resolution gives.
pub open spec fn url_result(r: Result<String, PiError>) -> Result<Seq<char>, ErrorView> {
    match r {
        Ok(url) => Ok(url@),
        Err(e) => Err(e.deep_view()),
    }
}

/// A URL without placeholders for variables is left as it is.
pub proof fn law_plain_url_unchanged(
    url: Seq<char>,
    provider: Seq<char>,
    values: Seq<Option<Seq<char>>>,
)
    requires
        placeholder_names(url).len() == 0,
    ensures
        resolved(url, provider, values) == Ok::<Seq<char>, ErrorView>(url),
{
    lemma_first_placeholder(url);
}

/// A URL is resolved if and only if each of its variables is set.
pub proof fn law_resolved_when_all_set(
    url: Seq<char>,
    provider: Seq<char>,
    values: Seq<Option<Seq<char>>>,
)
    requires
        values.len() == placeholder_names(url).len(),
    ensures
        resolved(url, provider, values) is Ok <==> (forall|i: int|
            0 <= i < values.len() ==> (#[trigger] values[i]) is Some),
    decreases url.len(),
{
    lemma_first_placeholder(url);
    if let Some((start, end)) = first_placeholder(url) {
        let rest = url.skip(end + 1);
        let later = values.skip(1);
        assert(placeholder_names(url).len() == 1 + placeholder_names(rest).len());
        law_resolved_when_all_set(rest, provider, later);
        if forall|i: int| 0 <= i < values.len() ==> (#[trigger] values[i]) is Some {
            assert forall|i: int| 0 <= i < later.len() implies (#[trigger] later[i]) is Some by {
                assert(later[i] == values[i + 1]);
            }
        }
        if values[0] is Some && (forall|i: int|
            0 <= i < later.len() ==> (#[trigger] later[i]) is Some) {
            assert forall|i: int| 0 <= i < values.len() implies (#[trigger] values[i]) is Some by {
                if i > 0 {
                    assert(values[i] == later[i - 1]);
                }
            }
        }
    }
}

fn find_from(chars: &Vec<char>, c: char, from: usize) -> (r: Option<usize>)
    requires
        from <= chars@.len(),
    ensures
        match r {
            Some(i) => {
                &&& from <= i < chars@.len()
                &&& index_of(chars@.skip(from as int), c) == Some(i - from)
            },
            None => index_of(chars@.skip(from as int), c) is None,
        },
{
    let ghost rest = chars@.skip(from as int);
    let mut i: usize = from;
    while i < chars.len()
        invariant
            from <= i <= chars@.len(),
            rest == chars@.skip(from as int),
            forall|j: int| from <= j < i ==> chars@[j] != c,
        decreases chars@.len() - i,
    {
        if chars[i] == c {
            proof {
                lemma_index_of(rest, c);
                assert(rest[i - from] == c);
                assert forall|j: int| 0 <= j < i - from implies rest[j] != c by {
                    assert(rest[j] == chars@[j + from]);
                }
            }
            return Some(i);
        }
        i = i + 1;
    }
    proof {
        lemma_index_of(rest, c);
        assert forall|j: int| 0 <= j < rest.len() implies rest[j] != c by {
            assert(rest[j] == chars@[j + from]);
        }
    }
    None
}

fn find_first(chars: &Vec<char>, from: usize) -> (r: Option<(usize, usize)>)
    requires
        from <= chars@.len(),
    ensures
        match r {
            Some((start, end)) => {
                &&& from <= start < end < chars@.len()
                &&& first_placeholder(chars@.skip(from as int)) == Some(
                    (start - from, end - from),
                )
            },
            None => first_placeholder(chars@.skip(from as int)) is None,
        },
{
    let ghost whole = first_placeholder(chars@.skip(from as int));
    let n: usize = chars.len();
    let mut i: usize = from;
    loop
        invariant
            n == chars@.len(),
            from <= i <= n,
            whole == first_placeholder(chars@.skip(from as int)),
            whole == match first_placeholder(chars@.skip(i as int)) {
                Some((start, end)) => Some((start + (i - from), end + (i - from))),
                None => None,
            },
        decreases chars@.len() - i,
    {
        let ghost rest = chars@.skip(i as int);
        let start: usize = match find_from(chars, '{', i) {
            Some(start) => start,
            None => {
                return None;
            },
        };
        let ghost after = rest.skip(start - i + 1);
        assert(after =~= chars@.skip(start + 1));
        let end: usize = match find_from(chars, '}', start + 1) {
            Some(end) => end,
            None => {
                return None;
            },
        };
        let ghost len = end - start - 1;
        let name: String = string_between(chars, start + 1, end);
        assert(name@ =~= after.take(len));
        if is_env_placeholder(&name) {
            return Some((start, end));
        }
        assert(after.skip(len + 1) =~= chars@.skip(end + 1));
        i = end + 1;
    }
}

/// Values are the answers of a lookup for some names, up to the first that is not
/// set.
pub open spec fn are_answers<F: Fn(&str) -> Option<String>>(
    lookup: F,
    names: Seq<Seq<char>>,
    values: Seq<Option<Seq<char>>>,
) -> bool {
    &&& values.len() <= names.len()
    &&& values.len() < names.len() ==> values.len() > 0 && values.last() is None
    &&& forall|i: int|
        0 <= i < values.len() ==> is_answer(lookup, names[i], #[trigger] values[i])
}

/// A value is an answer of a lookup for a name.
pub open spec fn is_answer<F: Fn(&str) -> Option<String>>(
    lookup: F,
    name: Seq<char>,
    value: Option<Seq<char>>,
) -> bool {
    exists|text: &str, answer: Option<String>| #[trigger]
        call_ensures(lookup, (text,), answer) && text@ == name && answer.deep_view() == value
}

proof fn lemma_more_answers<F: Fn(&str) -> Option<String>>(
    lookup: F,
    names: Seq<Seq<char>>,
    value: Option<Seq<char>>,
    later: Seq<Option<Seq<char>>>,
)
    requires
        names.len() > 0,
        is_answer(lookup, names[0], value),
        value is Some ==> are_answers(lookup, names.skip(1), later),
        value is None ==> later.len() == 0,
    ensures
        are_answers(lookup, names, seq![value] + later),
{
    let values = seq![value] + later;
    assert forall|i: int| 0 <= i < values.len() implies is_answer(
        lookup,
        names[i],
        #[trigger] values[i],
    ) by {
        if i > 0 {
            assert(values[i] == later[i - 1]);
            assert(names[i] == names.skip(1)[i - 1]);
        }
    }
}

fn resolve_from<F: Fn(&str) -> Option<String>>(
    chars: &Vec<char>,
    from: usize,
    provider: &str,
    lookup: &F,
) -> (r: Result<String, PiError>)
    requires
        from <= chars@.len(),
        forall|name: &str| call_requires(*lookup, (name,)),
    ensures
        exists|values: Seq<Option<Seq<char>>>| #[trigger]
            are_answers(*lookup, placeholder_names(chars@.skip(from as int)), values) && url_result(
                r,
            ) == resolved(chars@.skip(from as int), provider@, values),
    decreases chars@.len() - from,
{
    let n: usize = chars.len();
    let ghost url = chars@.skip(from as int);
    let ghost names = placeholder_names(url);
    proof {
        lemma_first_placeholder(url);
    }
    let (start, end): (usize, usize) = match find_first(chars, from) {
        Some(found) => found,
        None => {
            let rest: String = string_between(chars, from, n);
            assert(rest@ =~= url);
            assert(are_answers(*lookup, names, seq![]));
            return Ok(rest);
        },
    };
    let name: String = string_between(chars, start + 1, end);
    assert(name@ =~= url.subrange(start - from + 1, end - from));
    let ghost after = url.skip(end - from + 1);
    assert(after =~= chars@.skip(end + 1));
    assert(names.skip(1) =~= placeholder_names(after));
    let answer: Option<String> = lookup(&name);
    let ghost value = answer.deep_view();
    assert(is_answer(*lookup, names[0], value));
    match answer {
        None => {
            let mut message: String = name;
            message.push_str(" is required for provider ");
            message.push_str(provider);
            message.push_str(" but is not set.");
            proof {
                lemma_more_answers(*lookup, names, value, seq![]);
            }
            assert(are_answers(*lookup, names, seq![value] + Seq::empty()));
            Err(PiError::Config(message))
        },
        Some(text) => {
            let rest: Result<String, PiError> = resolve_from(chars, end + 1, provider, lookup);
            let ghost later = choose|values: Seq<Option<Seq<char>>>| #[trigger]
                are_answers(*lookup, placeholder_names(after), values) && url_result(rest)
                    == resolved(after, provider@, values);
            let ghost values = seq![value] + later;
            proof {
                lemma_more_answers(*lookup, names, value, later);
                assert(values.skip(1) =~= later);
                assert(values[0] == value);
            }
            match rest {
                Err(e) => Err(e),
                Ok(rest) => {
                    let mut out: String = string_between(chars, from, start);
                    assert(out@ =~= url.take(start - from));
                    out.push_str(&text);
                    out.push_str(&rest);
                    Ok(out)
                },
            }
        },
    }
}

/// Resolve Cloudflare `{ENV_VAR}` placeholders using a caller-supplied lookup.
pub fn resolve_cloudflare_base_url_with<F: Fn(&str) -> Option<String>>(
    base_url: &str,
    provider: &str,
    lookup: F,
) -> (r: Result<String, PiError>)
    requires
        forall|name: &str| call_requires(lookup, (name,)),
    ensures
        exists|values: Seq<Option<Seq<char>>>| #[trigger]
            are_answers(lookup, placeholder_names(base_url@), values) && url_result(r) == resolved(
                base_url@,
                provider@,
                values,
            ),
{
    let chars: Vec<char> = chars_of(base_url);
    assert(chars@.skip(0) =~= base_url@);
    resolve_from(&chars, 0, provider, &lookup)
}

/// Resolve Cloudflare `{ENV_VAR}` placeholders using the environment.
pub fn resolve_cloudflare_base_url(
    base_url: &str,
    provider: &str,
    env: &Vec<(String, String)>,
) -> (r: Result<String, PiError>)
    ensures
        url_result(r) == resolved(
            base_url@,
            provider@,
            values_in(placeholder_names(base_url@), env.deep_view()),
        ),
{
    let lookup = |name: &str| -> (answer: Option<String>)
        ensures
            answer.deep_view() == value_named(env.deep_view(), name@),
    {
            match find_text(env, name) {
                Some(text) => Some(text.to_owned()),
                None => None,
            }
        };
    let r: Result<String, PiError> = resolve_cloudflare_base_url_with(base_url, provider, lookup);
    proof {
        let names = placeholder_names(base_url@);
        let values = choose|values: Seq<Option<Seq<char>>>| #[trigger]
            are_answers(lookup, names, values) && url_result(r) == resolved(
                base_url@,
                provider@,
                values,
            );
        let all = values_in(names, env.deep_view());
        assert forall|i: int| 0 <= i < values.len() implies values[i] == all[i] by {
            assert(is_answer(lookup, names[i], values[i]));
        }
        lemma_first_missing(base_url@, provider@, values, all);
    }
    r
}

/// Values after the first that is not set make no difference.
proof fn lemma_first_missing(
    url: Seq<char>,
    provider: Seq<char>,
    values: Seq<Option<Seq<char>>>,
    all: Seq<Option<Seq<char>>>,
)
    requires
        values.len() <= all.len(),
        values.len() < all.len() ==> values.len() > 0 && values.last() is None,
        forall|i: int| 0 <= i < values.len() ==> values[i] == all[i],
        all.len() == placeholder_names(url).len(),
    ensures
        resolved(url, provider, values) == resolved(url, provider, all),
    decreases url.len(),
{
    lemma_first_placeholder(url);
    if let Some((start, end)) = first_placeholder(url) {
        assert(placeholder_names(url).len() == 1 + placeholder_names(url.skip(end + 1)).len());
        if values.len() > 0 && values[0] is Some {
            let a = values.skip(1);
            let b = all.skip(1);
            assert forall|i: int| 0 <= i < a.len() implies a[i] == b[i] by {
                assert(a[i] == values[i + 1] && b[i] == all[i + 1]);
            }
            if a.len() < b.len() {
                assert(values.len() > 1);
                assert(a.last() == values.last());
            }
            lemma_first_missing(url.skip(end + 1), provider, a, b);
        }
    }
}

} // verus!
