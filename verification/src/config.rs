//! Configuration: its values, and the layers that they come from.
//!
//! The layers are, from the weakest to the strongest: the defaults, the files of
//! the user, the files of the project, the environment, and what the command line
//! sets. Placeholders for environment variables are filled in last.

use vstd::prelude::*;

use crate::compaction::CompactionSettings;
use crate::json::{parse_real, parsed_real};
use crate::text::{
    ascii_lower, ascii_lower_text, chars_of, clone_optional_text, describe_u32_error, find_char,
    index_of, lemma_index_of, parse_u32, same_text, string_between, strip_prefix_text,
    u32_error_text, unsigned_value, without_prefix,
};
use crate::types::{clone_pairs, Model, ModelView};

verus! {

// ---------------------------------------------------------------------------
// Errors
// ---------------------------------------------------------------------------

/// Why a configuration was not accepted.
#[derive(Debug, PartialEq, Eq)]
#[allow(inconsistent_fields)]
pub enum ConfigError {
    /// The value is no whole number that fits.
    InvalidInteger {
        /// The value.
        value: String,
    },
    /// The value is no number.
    InvalidNumber {
        /// The value.
        value: String,
    },
    /// The value is neither true nor false.
    InvalidBool {
        /// The value.
        value: String,
    },
    /// There is no such key.
    UnknownKey {
        /// The key.
        key: String,
    },
    /// There is no such key for compaction.
    UnknownCompactionKey {
        /// The key.
        key: String,
    },
    /// The environment sets a key to a value that it cannot have.
    InvalidVariable {
        /// The environment variable.
        name: String,
        /// The value.
        value: String,
    },
    /// A placeholder is not closed.
    Unclosed,
    /// A placeholder names an environment variable that is not set.
    MissingVariable {
        /// The environment variable.
        name: String,
    },
}

/// What a configuration error holds.
pub enum ConfigErrorView {
    InvalidInteger { value: Seq<char> },
    InvalidNumber { value: Seq<char> },
    InvalidBool { value: Seq<char> },
    UnknownKey { key: Seq<char> },
    UnknownCompactionKey { key: Seq<char> },
    InvalidVariable { name: Seq<char>, value: Seq<char> },
    Unclosed,
    MissingVariable { name: Seq<char> },
}

impl DeepView for ConfigError {
    type V = ConfigErrorView;

    open spec fn deep_view(&self) -> ConfigErrorView {
        match *self {
            ConfigError::InvalidInteger { value } => ConfigErrorView::InvalidInteger {
                value: value@,
            },
            ConfigError::InvalidNumber { value } => ConfigErrorView::InvalidNumber {
                value: value@,
            },
            ConfigError::InvalidBool { value } => ConfigErrorView::InvalidBool { value: value@ },
            ConfigError::UnknownKey { key } => ConfigErrorView::UnknownKey { key: key@ },
            ConfigError::UnknownCompactionKey { key } => ConfigErrorView::UnknownCompactionKey {
                key: key@,
            },
            ConfigError::InvalidVariable { name, value } => ConfigErrorView::InvalidVariable {
                name: name@,
                value: value@,
            },
            ConfigError::Unclosed => ConfigErrorView::Unclosed,
            ConfigError::MissingVariable { name } => ConfigErrorView::MissingVariable {
                name: name@,
            },
        }
    }
}

/// The text of a configuration error.
pub open spec fn config_error_text(e: ConfigErrorView) -> Seq<char> {
    match e {
        ConfigErrorView::InvalidInteger { value } => u32_error_text(value),
        ConfigErrorView::InvalidNumber { value } => if value.len() == 0 {
            "cannot parse float from empty string"@
        } else {
            "invalid float literal"@
        },
        ConfigErrorView::InvalidBool { .. } => "provided string was not `true` or `false`"@,
        ConfigErrorView::UnknownKey { key } => "Unknown config key: "@ + key,
        ConfigErrorView::UnknownCompactionKey { key } => "Unknown compaction config key: "@ + key,
        ConfigErrorView::InvalidVariable { name, value } => "Invalid "@ + name + " value: "@
            + value,
        ConfigErrorView::Unclosed => "Unclosed environment interpolation in config value"@,
        ConfigErrorView::MissingVariable { name } => "Missing environment variable "@ + name,
    }
}

fn prefixed(prefix: &str, text: &str) -> (r: String)
    ensures
        r@ == prefix@ + text@,
{
    let mut r: String = prefix.to_owned();
    r.push_str(text);
    r
}

impl ConfigError {
    /// The text of the error.
    pub fn to_text(&self) -> (r: String)
        ensures
            r@ == config_error_text(self.deep_view()),
    {
        match self {
            ConfigError::InvalidInteger { value } => describe_u32_error(value),
            ConfigError::InvalidNumber { value } => if value.as_str().is_empty() {
                "cannot parse float from empty string".to_owned()
            } else {
                "invalid float literal".to_owned()
            },
            ConfigError::InvalidBool { .. } => "provided string was not `true` or `false`".to_owned(),
            ConfigError::UnknownKey { key } => prefixed("Unknown config key: ", key),
            ConfigError::UnknownCompactionKey { key } => prefixed(
                "Unknown compaction config key: ",
                key,
            ),
            ConfigError::InvalidVariable { name, value } => {
                let mut r: String = prefixed("Invalid ", name);
                r.push_str(" value: ");
                r.push_str(value);
                r
            },
            ConfigError::Unclosed => "Unclosed environment interpolation in config value".to_owned(),
            ConfigError::MissingVariable { name } => prefixed(
                "Missing environment variable ",
                name,
            ),
        }
    }
}

// ---------------------------------------------------------------------------
// Values by name
// ---------------------------------------------------------------------------

/// The value with a name.
pub open spec fn value_named<V>(pairs: Seq<(Seq<char>, V)>, name: Seq<char>) -> Option<V>
    decreases pairs.len(),
{
    if pairs.len() == 0 {
        None
    } else if pairs[0].0 == name {
        Some(pairs[0].1)
    } else {
        value_named(pairs.skip(1), name)
    }
}

/// Values with one more, which takes the place of the one with its name.
pub open spec fn with_value<V>(pairs: Seq<(Seq<char>, V)>, name: Seq<char>, value: V) -> Seq<
    (Seq<char>, V),
>
    decreases pairs.len(),
{
    if pairs.len() == 0 {
        seq![(name, value)]
    } else if pairs[0].0 == name {
        seq![(name, value)] + pairs.skip(1)
    } else {
        seq![pairs[0]] + with_value(pairs.skip(1), name, value)
    }
}

/// Values with more, which take the places of those with their names.
pub open spec fn with_values<V>(pairs: Seq<(Seq<char>, V)>, more: Seq<(Seq<char>, V)>) -> Seq<
    (Seq<char>, V),
>
    decreases more.len(),
{
    if more.len() == 0 {
        pairs
    } else {
        with_value(with_values(pairs, more.drop_last()), more.last().0, more.last().1)
    }
}

/// A value that is set is the one with its name, and all others stay.
pub proof fn law_set_value_is_found<V>(
    pairs: Seq<(Seq<char>, V)>,
    name: Seq<char>,
    value: V,
    other: Seq<char>,
)
    ensures
        value_named(with_value(pairs, name, value), name) == Some(value),
        other != name ==> value_named(with_value(pairs, name, value), other) == value_named(
            pairs,
            other,
        ),
    decreases pairs.len(),
{
    let w = with_value(pairs, name, value);
    if pairs.len() == 0 {
        assert(w.skip(1) =~= pairs);
    } else if pairs[0].0 == name {
        assert(w.skip(1) =~= pairs.skip(1));
    } else {
        law_set_value_is_found(pairs.skip(1), name, value, other);
        assert(w.skip(1) =~= with_value(pairs.skip(1), name, value));
        assert(w[0] == pairs[0]);
    }
}

fn position_of<T: DeepView>(pairs: &Vec<(String, T)>, name: &str) -> (r: Option<usize>)
    ensures
        match r {
            Some(i) => {
                &&& i < pairs@.len()
                &&& value_named(pairs.deep_view(), name@) == Some(pairs@[i as int].1.deep_view())
                &&& forall|value: T::V|
                    #[trigger] with_value(pairs.deep_view(), name@, value)
                        == pairs.deep_view().update(i as int, (name@, value))
            },
            None => {
                &&& value_named(pairs.deep_view(), name@) is None
                &&& forall|value: T::V|
                    #[trigger] with_value(pairs.deep_view(), name@, value)
                        == pairs.deep_view().push((name@, value))
            },
        },
{
    let ghost all = pairs.deep_view();
    let mut i: usize = 0;
    while i < pairs.len()
        invariant
            all == pairs.deep_view(),
            i <= pairs@.len(),
            forall|j: int| 0 <= j < i ==> (#[trigger] all[j]).0 != name@,
        decreases pairs@.len() - i,
    {
        assert(all[i as int] == pairs@[i as int].deep_view());
        if same_text(&pairs[i].0, name) {
            proof {
                lemma_position(all, name@, i as int);
            }
            return Some(i);
        }
        i = i + 1;
    }
    proof {
        lemma_position(all, name@, i as int);
    }
    None
}

proof fn lemma_position<V>(pairs: Seq<(Seq<char>, V)>, name: Seq<char>, n: int)
    requires
        0 <= n <= pairs.len(),
        forall|j: int| 0 <= j < n ==> (#[trigger] pairs[j]).0 != name,
        n < pairs.len() ==> pairs[n].0 == name,
    ensures
        n < pairs.len() ==> value_named(pairs, name) == Some(pairs[n].1),
        n == pairs.len() ==> value_named(pairs, name) is None,
        forall|value: V|
            #![trigger with_value(pairs, name, value)]
            n < pairs.len() ==> with_value(pairs, name, value) == pairs.update(n, (name, value)),
        forall|value: V|
            #![trigger with_value(pairs, name, value)]
            n == pairs.len() ==> with_value(pairs, name, value) == pairs.push((name, value)),
    decreases pairs.len(),
{
    if pairs.len() == 0 {
        assert forall|value: V| with_value(pairs, name, value) == #[trigger] pairs.push(
            (name, value),
        ) by {
            assert(seq![(name, value)] =~= pairs.push((name, value)));
        }
    } else if n == 0 {
        assert forall|value: V|
            #![trigger with_value(pairs, name, value)]
            with_value(pairs, name, value) == pairs.update(0, (name, value)) by {
            assert(seq![(name, value)] + pairs.skip(1) =~= pairs.update(0, (name, value)));
        }
    } else {
        let rest = pairs.skip(1);
        assert forall|j: int| 0 <= j < n - 1 implies (#[trigger] rest[j]).0 != name by {
            assert(rest[j] == pairs[j + 1]);
        }
        if n < pairs.len() {
            assert(rest[n - 1] == pairs[n]);
        }
        lemma_position(rest, name, n - 1);
        assert forall|value: V|
            #![trigger with_value(pairs, name, value)]
            n < pairs.len() implies with_value(pairs, name, value) == pairs.update(
            n,
            (name, value),
        ) by {
            assert(with_value(rest, name, value) == rest.update(n - 1, (name, value)));
            assert(seq![pairs[0]] + rest.update(n - 1, (name, value)) =~= pairs.update(
                n,
                (name, value),
            ));
        }
        assert forall|value: V|
            #![trigger with_value(pairs, name, value)]
            n == pairs.len() implies with_value(pairs, name, value) == pairs.push(
            (name, value),
        ) by {
            assert(with_value(rest, name, value) == rest.push((name, value)));
            assert(seq![pairs[0]] + rest.push((name, value)) =~= pairs.push((name, value)));
        }
    }
}

fn set_value<T: DeepView>(pairs: &mut Vec<(String, T)>, name: String, value: T)
    ensures
        final(pairs).deep_view() == with_value(old(pairs).deep_view(), name@, value.deep_view()),
{
    let ghost before = pairs.deep_view();
    let ghost pair = (name@, value.deep_view());
    match position_of(pairs, &name) {
        Some(i) => {
            pairs.set(i, (name, value));
            assert(pairs.deep_view() =~= before.update(i as int, pair));
        },
        None => {
            pairs.push((name, value));
            assert(pairs.deep_view() =~= before.push(pair));
        },
    }
}

fn extend_values<T: DeepView>(pairs: &mut Vec<(String, T)>, more: Vec<(String, T)>)
    ensures
        final(pairs).deep_view() == with_values(old(pairs).deep_view(), more.deep_view()),
{
    let ghost start = pairs.deep_view();
    let ghost all = more.deep_view();
    assert(all.take(0) =~= seq![]);
    for pair in it: more.into_iter()
        invariant
            it.seq() == more@,
            all == more.deep_view(),
            pairs.deep_view() == with_values(start, all.take(it.index() as int)),
    {
        let ghost n = it.index() as int;
        assert(all.take(n + 1).drop_last() =~= all.take(n));
        assert(all.take(n + 1).last() == pair.deep_view());
        set_value(pairs, pair.0, pair.1);
    }
    assert(all.take(all.len() as int) =~= all);
}

/// The text with a name.
pub fn find_text<'a>(pairs: &'a Vec<(String, String)>, name: &str) -> (r: Option<&'a str>)
    ensures
        r.deep_view() == value_named(pairs.deep_view(), name@),
{
    match position_of(pairs, name) {
        Some(i) => Some(pairs[i].1.as_str()),
        None => None,
    }
}

// ---------------------------------------------------------------------------
// Placeholders for environment variables
// ---------------------------------------------------------------------------

/// The names and values of the environment.
pub type Env = Seq<(Seq<char>, Seq<char>)>;

/// Where the first placeholder starts.
pub open spec fn placeholder(s: Seq<char>) -> Option<int>
    decreases s.len(),
{
    if s.len() < 2 {
        None
    } else if s[0] == '$' && s[1] == '{' {
        Some(0)
    } else {
        match placeholder(s.skip(1)) {
            Some(i) => Some(i + 1),
            None => None,
        }
    }
}

/// A text with more in front, where there is one.
pub open spec fn after_text(
    front: Seq<char>,
    rest: Result<Seq<char>, ConfigErrorView>,
) -> Result<Seq<char>, ConfigErrorView> {
    match rest {
        Ok(text) => Ok(front + text),
        Err(e) => Err(e),
    }
}

/// A text with each placeholder replaced by the value of the variable that it
/// names, or the first error.
pub open spec fn interpolated(value: Seq<char>, env: Env) -> Result<Seq<char>, ConfigErrorView>
    decreases value.len(),
{
    match placeholder(value) {
        None => Ok(value),
        Some(start) => if 0 <= start <= value.len() - 2 {
            let after = value.skip(start + 2);
            match index_of(after, '}') {
                None => Err(ConfigErrorView::Unclosed),
                Some(end) => if 0 <= end < after.len() {
                    let name = after.take(end);
                    match value_named(env, name) {
                        None => Err(ConfigErrorView::MissingVariable { name }),
                        Some(text) => after_text(
                            value.take(start) + text,
                            interpolated(after.skip(end + 1), env),
                        ),
                    }
                } else {
                    Err(ConfigErrorView::Unclosed)
                },
            }
        } else {
            Ok(value)
        },
    }
}

proof fn lemma_placeholder(s: Seq<char>)
    ensures
        placeholder(s) matches Some(i) ==> {
            &&& 0 <= i <= s.len() - 2
            &&& s[i] == '$' && s[i + 1] == '{'
        },
    decreases s.len(),
{
    if s.len() >= 2 {
        lemma_placeholder(s.skip(1));
    }
}

fn find_placeholder(chars: &Vec<char>, from: usize) -> (r: Option<usize>)
    requires
        from <= chars@.len(),
    ensures
        match r {
            Some(i) => {
                &&& from <= i
                &&& i + 2 <= chars@.len()
                &&& placeholder(chars@.skip(from as int)) == Some(i - from)
            },
            None => placeholder(chars@.skip(from as int)) is None,
        },
{
    let ghost rest = chars@.skip(from as int);
    let n: usize = chars.len();
    let mut i: usize = from;
    assert(rest.skip(0) =~= rest);
    while n - i > 1
        invariant
            from <= i,
            i <= n,
            n == chars@.len(),
            rest == chars@.skip(from as int),
            placeholder(rest) == match placeholder(rest.skip(i - from)) {
                Some(j) => Some(j + (i - from)),
                None => None,
            },
        decreases chars@.len() - i,
    {
        assert(rest.skip(i - from)[0] == chars@[i as int]);
        assert(rest.skip(i - from)[1] == chars@[i + 1]);
        if chars[i] == '$' && chars[i + 1] == '{' {
            return Some(i);
        }
        assert(rest.skip(i - from).skip(1) =~= rest.skip(i + 1 - from));
        i = i + 1;
    }
    None
}

/// What an interpolation gives.
pub open spec fn text_result(r: Result<String, ConfigError>) -> Result<
    Seq<char>,
    ConfigErrorView,
> {
    match r {
        Ok(text) => Ok(text@),
        Err(e) => Err(e.deep_view()),
    }
}

/// Replace each `${NAME}` by the value of that environment variable.
pub fn interpolate_env(value: &str, env: &Vec<(String, String)>) -> (r: Result<
    String,
    ConfigError,
>)
    ensures
        text_result(r) == interpolated(value@, env.deep_view()),
{
    let chars: Vec<char> = chars_of(value);
    let n: usize = chars.len();
    let ghost whole = interpolated(value@, env.deep_view());
    let mut out: String = String::new();
    let mut from: usize = 0;
    assert(value@.skip(0) =~= value@);
    assert(after_text(out@, whole) =~= whole) by {
        if let Ok(text) = whole {
            assert(out@ + text =~= text);
        }
    }
    loop
        invariant
            chars@ == value@,
            n == chars@.len(),
            from <= n,
            whole == interpolated(value@, env.deep_view()),
            after_text(out@, interpolated(value@.skip(from as int), env.deep_view())) == whole,
        decreases chars@.len() - from,
    {
        let ghost rest = value@.skip(from as int);
        let ghost before = out@;
        let start: usize = match find_placeholder(&chars, from) {
            Some(start) => start,
            None => {
                out.push_str(&string_between(&chars, from, n));
                assert(rest =~= chars@.subrange(from as int, chars@.len() as int));
                return Ok(out);
            },
        };
        let ghost after = rest.skip(start - from + 2);
        assert(after =~= value@.skip(start + 2));
        let tail: Vec<char> = chars_of(&string_between(&chars, start + 2, n));
        assert(tail@ =~= after);
        proof {
            lemma_index_of(after, '}');
        }
        let end: usize = match find_char(&tail, '}') {
            Some(end) => end,
            None => {
                return Err(ConfigError::Unclosed);
            },
        };
        let name: String = string_between(&tail, 0, end);
        assert(name@ =~= after.take(end as int));
        match find_text(env, &name) {
            None => {
                return Err(ConfigError::MissingVariable { name });
            },
            Some(text) => {
                let plain: String = string_between(&chars, from, start);
                assert(plain@ =~= rest.take(start - from));
                out.push_str(&plain);
                out.push_str(text);
                let ghost later = after.skip(end + 1);
                let ghost shown = rest.take(start - from) + text@;
                assert(out@ =~= before + shown);
                from = start + 2 + end + 1;
                assert(later =~= value@.skip(from as int));
                proof {
                    if let Ok(more) = interpolated(later, env.deep_view()) {
                        assert(before + (shown + more) =~= out@ + more);
                    }
                }
            },
        }
    }
}

/// A text without placeholders stays as it is.
pub proof fn law_plain_value_not_interpolated(value: Seq<char>, env: Env)
    requires
        forall|i: int|
            0 <= i < value.len() - 1 ==> !(#[trigger] value[i] == '$' && value[i + 1] == '{'),
    ensures
        interpolated(value, env) == Ok::<Seq<char>, ConfigErrorView>(value),
{
    lemma_placeholder(value);
}

/// A placeholder gives way to the value of its variable, in which no further
/// placeholder is looked for.
pub proof fn law_placeholder_replaced_once(
    name: Seq<char>,
    text: Seq<char>,
    rest: Seq<char>,
    env: Env,
)
    requires
        !name.contains('}'),
        value_named(env, name) == Some(text),
    ensures
        interpolated(seq!['$', '{'] + name + seq!['}'] + rest, env) == after_text(
            text,
            interpolated(rest, env),
        ),
{
    let value = seq!['$', '{'] + name + seq!['}'] + rest;
    let after = value.skip(2);
    assert(after =~= name + seq!['}'] + rest);
    lemma_index_of(after, '}');
    assert(after[name.len() as int] == '}');
    assert forall|i: int| 0 <= i < name.len() implies after[i] != '}' by {
        assert(name[i] == after[i]);
        assert(name.contains(name[i]));
    }
    assert(index_of(after, '}') == Some(name.len() as int));
    assert(after.take(name.len() as int) =~= name);
    assert(after.skip(name.len() as int + 1) =~= rest);
    assert(value.take(0) + text =~= text);
}

// ---------------------------------------------------------------------------
// Values
// ---------------------------------------------------------------------------

/// Compaction settings of a configuration.
#[derive(Debug, Clone, Copy, PartialEq, Eq)]
pub struct CompactionConfig {
    /// Whether compaction is enabled (default: true)
    pub enabled: bool,
    /// Context window size in tokens (optional override)
    pub context_window: Option<u32>,
    /// Token budget reserved for model response (default: 16384)
    pub reserve_tokens: u32,
    /// Tokens to keep from recent messages (default: 20000)
    pub keep_recent_tokens: u32,
}

/// The compaction settings where a configuration says nothing of them.
pub open spec fn default_compaction() -> CompactionConfig {
    CompactionConfig {
        enabled: true,
        context_window: None,
        reserve_tokens: 16_384,
        keep_recent_tokens: 20_000,
    }
}

impl Default for CompactionConfig {
    fn default() -> (r: Self)
        ensures
            r == default_compaction(),
    {
        CompactionConfig {
            enabled: true,
            context_window: None,
            reserve_tokens: 16_384,
            keep_recent_tokens: 20_000,
        }
    }
}

impl CompactionConfig {
    /// The settings for compaction.
    pub fn to_core_settings(&self) -> (r: CompactionSettings)
        ensures
            r == (CompactionSettings {
                reserve_tokens: self.reserve_tokens,
                keep_recent_tokens: self.keep_recent_tokens,
                enabled: self.enabled,
                context_window: self.context_window,
            }),
    {
        CompactionSettings {
            reserve_tokens: self.reserve_tokens,
            keep_recent_tokens: self.keep_recent_tokens,
            enabled: self.enabled,
            context_window: self.context_window,
        }
    }
}

/// A provider's OAuth token.
#[derive(PartialEq, Eq)]
pub struct OAuthToken {
    /// Provider access token.
    pub access_token: String,
    /// Optional refresh token.
    pub refresh_token: Option<String>,
    /// Optional token expiry timestamp.
    pub expires_at: Option<String>,
}

/// What a token holds.
pub struct TokenView {
    pub access_token: Seq<char>,
    pub refresh_token: Option<Seq<char>>,
    pub expires_at: Option<Seq<char>>,
}

impl DeepView for OAuthToken {
    type V = TokenView;

    open spec fn deep_view(&self) -> TokenView {
        TokenView {
            access_token: self.access_token@,
            refresh_token: self.refresh_token.deep_view(),
            expires_at: self.expires_at.deep_view(),
        }
    }
}

impl Clone for OAuthToken {
    fn clone(&self) -> (r: Self)
        ensures
            r.deep_view() == self.deep_view(),
    {
        OAuthToken {
            access_token: self.access_token.clone(),
            refresh_token: clone_optional_text(&self.refresh_token),
            expires_at: clone_optional_text(&self.expires_at),
        }
    }
}

/// A configuration. In each list of named values, a name occurs once.
pub struct Config {
    /// Default model to use (provider/model format)
    pub default_model: Option<String>,
    /// Provider API keys
    pub api_keys: Vec<(String, String)>,
    /// Provider base URLs (for custom endpoints)
    pub base_urls: Vec<(String, String)>,
    /// Provider OAuth tokens
    pub oauth_tokens: Vec<(String, OAuthToken)>,
    /// Custom model definitions keyed by provider/model id
    pub models: Vec<(String, Model)>,
    /// User keybinding overrides
    pub keybindings: Vec<(String, String)>,
    /// Default system prompt
    pub system_prompt: Option<String>,
    /// Max tokens for responses
    pub max_tokens: Option<u32>,
    /// Temperature, as a text that is a number
    pub temperature: Option<String>,
    /// Compaction settings (optional)
    pub compaction: Option<CompactionConfig>,
}

/// What a configuration holds.
pub struct ConfigView {
    pub default_model: Option<Seq<char>>,
    pub api_keys: Seq<(Seq<char>, Seq<char>)>,
    pub base_urls: Seq<(Seq<char>, Seq<char>)>,
    pub oauth_tokens: Seq<(Seq<char>, TokenView)>,
    pub models: Seq<(Seq<char>, ModelView)>,
    pub keybindings: Seq<(Seq<char>, Seq<char>)>,
    pub system_prompt: Option<Seq<char>>,
    pub max_tokens: Option<u32>,
    pub temperature: Option<Seq<char>>,
    pub compaction: Option<CompactionConfig>,
}

impl DeepView for Config {
    type V = ConfigView;

    open spec fn deep_view(&self) -> ConfigView {
        ConfigView {
            default_model: self.default_model.deep_view(),
            api_keys: self.api_keys.deep_view(),
            base_urls: self.base_urls.deep_view(),
            oauth_tokens: self.oauth_tokens.deep_view(),
            models: self.models.deep_view(),
            keybindings: self.keybindings.deep_view(),
            system_prompt: self.system_prompt.deep_view(),
            max_tokens: self.max_tokens,
            temperature: self.temperature.deep_view(),
            compaction: self.compaction,
        }
    }
}

/// The configuration before any layer.
pub open spec fn default_config() -> ConfigView {
    ConfigView {
        default_model: Some("openai/gpt-4o"@),
        api_keys: seq![],
        base_urls: seq![],
        oauth_tokens: seq![],
        models: seq![],
        keybindings: seq![],
        system_prompt: Some("You are a helpful coding assistant."@),
        max_tokens: Some(4096),
        temperature: Some("0.7"@),
        compaction: None,
    }
}

impl Default for Config {
    fn default() -> (r: Self)
        ensures
            r.deep_view() == default_config(),
    {
        let api_keys: Vec<(String, String)> = Vec::new();
        let base_urls: Vec<(String, String)> = Vec::new();
        let oauth_tokens: Vec<(String, OAuthToken)> = Vec::new();
        let models: Vec<(String, Model)> = Vec::new();
        let keybindings: Vec<(String, String)> = Vec::new();
        assert(api_keys.deep_view() =~= seq![]);
        assert(base_urls.deep_view() =~= seq![]);
        assert(oauth_tokens.deep_view() =~= seq![]);
        assert(models.deep_view() =~= seq![]);
        assert(keybindings.deep_view() =~= seq![]);
        Config {
            default_model: Some("openai/gpt-4o".to_owned()),
            api_keys,
            base_urls,
            oauth_tokens,
            models,
            keybindings,
            system_prompt: Some("You are a helpful coding assistant.".to_owned()),
            max_tokens: Some(4096),
            temperature: Some("0.7".to_owned()),
            compaction: None,
        }
    }
}

fn clone_tokens(pairs: &Vec<(String, OAuthToken)>) -> (r: Vec<(String, OAuthToken)>)
    ensures
        r.deep_view() == pairs.deep_view(),
{
    let ghost all = pairs.deep_view();
    let mut r: Vec<(String, OAuthToken)> = Vec::new();
    let mut i: usize = 0;
    assert(r.deep_view() =~= all.take(0));
    while i < pairs.len()
        invariant
            all == pairs.deep_view(),
            i <= pairs@.len(),
            r.deep_view() == all.take(i as int),
        decreases pairs@.len() - i,
    {
        let ghost before = r.deep_view();
        r.push((pairs[i].0.clone(), pairs[i].1.clone()));
        assert(r.deep_view() =~= before.push(all[i as int]));
        i = i + 1;
        assert(r.deep_view() =~= all.take(i as int));
    }
    assert(all.take(all.len() as int) =~= all);
    r
}

fn clone_models(pairs: &Vec<(String, Model)>) -> (r: Vec<(String, Model)>)
    ensures
        r.deep_view() == pairs.deep_view(),
{
    let ghost all = pairs.deep_view();
    let mut r: Vec<(String, Model)> = Vec::new();
    let mut i: usize = 0;
    assert(r.deep_view() =~= all.take(0));
    while i < pairs.len()
        invariant
            all == pairs.deep_view(),
            i <= pairs@.len(),
            r.deep_view() == all.take(i as int),
        decreases pairs@.len() - i,
    {
        let ghost before = r.deep_view();
        r.push((pairs[i].0.clone(), pairs[i].1.clone()));
        assert(r.deep_view() =~= before.push(all[i as int]));
        i = i + 1;
        assert(r.deep_view() =~= all.take(i as int));
    }
    assert(all.take(all.len() as int) =~= all);
    r
}

impl Clone for Config {
    fn clone(&self) -> (r: Self)
        ensures
            r.deep_view() == self.deep_view(),
    {
        Config {
            default_model: clone_optional_text(&self.default_model),
            api_keys: clone_pairs(&self.api_keys),
            base_urls: clone_pairs(&self.base_urls),
            oauth_tokens: clone_tokens(&self.oauth_tokens),
            models: clone_models(&self.models),
            keybindings: clone_pairs(&self.keybindings),
            system_prompt: clone_optional_text(&self.system_prompt),
            max_tokens: self.max_tokens,
            temperature: clone_optional_text(&self.temperature),
            compaction: self.compaction,
        }
    }
}

// ---------------------------------------------------------------------------
// Setting values
// ---------------------------------------------------------------------------

/// What a change of a configuration gives.
pub open spec fn config_result(r: Result<Config, ConfigError>) -> Result<
    ConfigView,
    ConfigErrorView,
> {
    match r {
        Ok(config) => Ok(config.deep_view()),
        Err(e) => Err(e.deep_view()),
    }
}

/// The 32-bit number that a text is, where it is one.
pub open spec fn u32_of(text: Seq<char>) -> Option<u32> {
    match unsigned_value(text) {
        Some(n) => if n <= u32::MAX {
            Some(n as u32)
        } else {
            None
        },
        None => None,
    }
}

/// What a text is as true or false, where it is either.
pub open spec fn bool_of(text: Seq<char>) -> Option<bool> {
    if text == "true"@ {
        Some(true)
    } else if text == "false"@ {
        Some(false)
    } else {
        None
    }
}

fn read_u32(text: &str) -> (r: Option<u32>)
    ensures
        r == u32_of(text@),
{
    parse_u32(text)
}

fn read_bool(text: &str) -> (r: Option<bool>)
    ensures
        r == bool_of(text@),
{
    if same_text(text, "true") {
        Some(true)
    } else if same_text(text, "false") {
        Some(false)
    } else {
        None
    }
}

/// Compaction settings with one field set; none where the value is not one that
/// the field can have, or where there is no such field.
pub open spec fn compaction_with(
    c: CompactionConfig,
    name: Seq<char>,
    value: Seq<char>,
) -> Option<CompactionConfig> {
    if name == "enabled"@ {
        match bool_of(value) {
            Some(enabled) => Some(CompactionConfig { enabled, ..c }),
            None => None,
        }
    } else if name == "context_window"@ {
        match u32_of(value) {
            Some(n) => Some(CompactionConfig { context_window: Some(n), ..c }),
            None => None,
        }
    } else if name == "reserve_tokens"@ {
        match u32_of(value) {
            Some(n) => Some(CompactionConfig { reserve_tokens: n, ..c }),
            None => None,
        }
    } else if name == "keep_recent_tokens"@ {
        match u32_of(value) {
            Some(n) => Some(CompactionConfig { keep_recent_tokens: n, ..c }),
            None => None,
        }
    } else {
        None
    }
}

/// There is such a field of the compaction settings.
pub open spec fn is_compaction_field(name: Seq<char>) -> bool {
    name == "enabled"@ || name == "context_window"@ || name == "reserve_tokens"@ || name
        == "keep_recent_tokens"@
}

fn set_compaction(c: CompactionConfig, name: &str, value: &str) -> (r: Option<CompactionConfig>)
    ensures
        r == compaction_with(c, name@, value@),
{
    let mut c: CompactionConfig = c;
    if same_text(name, "enabled") {
        match read_bool(value) {
            Some(enabled) => {
                c.enabled = enabled;
                Some(c)
            },
            None => None,
        }
    } else if same_text(name, "context_window") {
        match read_u32(value) {
            Some(n) => {
                c.context_window = Some(n);
                Some(c)
            },
            None => None,
        }
    } else if same_text(name, "reserve_tokens") {
        match read_u32(value) {
            Some(n) => {
                c.reserve_tokens = n;
                Some(c)
            },
            None => None,
        }
    } else if same_text(name, "keep_recent_tokens") {
        match read_u32(value) {
            Some(n) => {
                c.keep_recent_tokens = n;
                Some(c)
            },
            None => None,
        }
    } else {
        None
    }
}

/// The compaction settings of a configuration, or the defaults.
pub open spec fn compaction_of(c: ConfigView) -> CompactionConfig {
    match c.compaction {
        Some(compaction) => compaction,
        None => default_compaction(),
    }
}

/// The compaction settings in which a field is set: those of a configuration, or
/// the defaults, but not enabled.
pub open spec fn compaction_to_set(c: ConfigView) -> CompactionConfig {
    match c.compaction {
        Some(compaction) => compaction,
        None => CompactionConfig { enabled: false, ..default_compaction() },
    }
}

/// A configuration with one field of the compaction settings set.
pub open spec fn with_compaction_field(c: ConfigView, name: Seq<char>, value: Seq<char>) -> Result<
    ConfigView,
    ConfigErrorView,
> {
    match compaction_with(compaction_to_set(c), name, value) {
        Some(compaction) => Ok(ConfigView { compaction: Some(compaction), ..c }),
        None => Err(
            if !is_compaction_field(name) {
                ConfigErrorView::UnknownCompactionKey { key: name }
            } else if name == "enabled"@ {
                ConfigErrorView::InvalidBool { value }
            } else {
                ConfigErrorView::InvalidInteger { value }
            },
        ),
    }
}

/// A configuration with the value of a key set.
pub open spec fn config_with(c: ConfigView, key: Seq<char>, value: Seq<char>) -> Result<
    ConfigView,
    ConfigErrorView,
> {
    if key == "default_model"@ {
        Ok(ConfigView { default_model: Some(value), ..c })
    } else if key == "system_prompt"@ {
        Ok(ConfigView { system_prompt: Some(value), ..c })
    } else if key == "max_tokens"@ {
        match u32_of(value) {
            Some(n) => Ok(ConfigView { max_tokens: Some(n), ..c }),
            None => Err(ConfigErrorView::InvalidInteger { value }),
        }
    } else if key == "temperature"@ {
        if parsed_real(value) is Some {
            Ok(ConfigView { temperature: Some(value), ..c })
        } else {
            Err(ConfigErrorView::InvalidNumber { value })
        }
    } else if let Some(provider) = without_prefix(key, "api_key."@) {
        Ok(ConfigView { api_keys: with_value(c.api_keys, provider, value), ..c })
    } else if let Some(provider) = without_prefix(key, "base_url."@) {
        Ok(ConfigView { base_urls: with_value(c.base_urls, provider, value), ..c })
    } else if let Some(name) = without_prefix(key, "compaction."@) {
        with_compaction_field(c, name, value)
    } else {
        Err(ConfigErrorView::UnknownKey { key })
    }
}

impl Config {
    /// The configuration with the value of a key set.
    pub fn set(&self, key: &str, value: &str) -> (r: Result<Config, ConfigError>)
        ensures
            config_result(r) == config_with(self.deep_view(), key@, value@),
    {
        let mut config: Config = self.clone();
        if same_text(key, "default_model") {
            config.default_model = Some(value.to_owned());
        } else if same_text(key, "system_prompt") {
            config.system_prompt = Some(value.to_owned());
        } else if same_text(key, "max_tokens") {
            match read_u32(value) {
                Some(n) => {
                    config.max_tokens = Some(n);
                },
                None => {
                    return Err(ConfigError::InvalidInteger { value: value.to_owned() });
                },
            }
        } else if same_text(key, "temperature") {
            if parse_real(value).is_none() {
                return Err(ConfigError::InvalidNumber { value: value.to_owned() });
            }
            config.temperature = Some(value.to_owned());
        } else if let Some(provider) = strip_prefix_text(key, "api_key.") {
            set_value(&mut config.api_keys, provider, value.to_owned());
        } else if let Some(provider) = strip_prefix_text(key, "base_url.") {
            set_value(&mut config.base_urls, provider, value.to_owned());
        } else if let Some(name) = strip_prefix_text(key, "compaction.") {
            let compaction: CompactionConfig = match config.compaction {
                Some(compaction) => compaction,
                None => CompactionConfig { enabled: false, ..CompactionConfig::default() },
            };
            match set_compaction(compaction, &name, value) {
                Some(compaction) => {
                    config.compaction = Some(compaction);
                },
                None => {
                    if same_text(&name, "enabled") {
                        return Err(ConfigError::InvalidBool { value: value.to_owned() });
                    }
                    if same_text(&name, "context_window") || same_text(&name, "reserve_tokens")
                        || same_text(&name, "keep_recent_tokens") {
                        return Err(ConfigError::InvalidInteger { value: value.to_owned() });
                    }
                    return Err(ConfigError::UnknownCompactionKey { key: name });
                },
            }
        } else {
            return Err(ConfigError::UnknownKey { key: key.to_owned() });
        }
        Ok(config)
    }

    /// The key for a provider's API.
    pub fn get_api_key(&self, provider: &str) -> (r: Option<&str>)
        ensures
            r.deep_view() == value_named(self.deep_view().api_keys, provider@),
    {
        find_text(&self.api_keys, provider)
    }

    /// The base URL of a provider's API.
    pub fn get_base_url(&self, provider: &str) -> (r: Option<&str>)
        ensures
            r.deep_view() == value_named(self.deep_view().base_urls, provider@),
    {
        find_text(&self.base_urls, provider)
    }
}

/// Setting another field of the compaction settings does not switch compaction on,
/// be it set already or not.
pub proof fn law_setting_does_not_enable(c: ConfigView, name: Seq<char>, value: Seq<char>)
    requires
        name != "enabled"@,
    ensures
        with_compaction_field(c, name, value) matches Ok(changed) ==> changed.compaction matches Some(
            compaction,
        ) && compaction.enabled == (c.compaction matches Some(before) && before.enabled),
{
}

// ---------------------------------------------------------------------------
// Layers
// ---------------------------------------------------------------------------

/// What a file says of compaction.
#[derive(Debug, Clone, Copy, PartialEq, Eq)]
pub struct CompactionPatch {
    /// Whether compaction is enabled.
    pub enabled: Option<bool>,
    /// Context window size in tokens.
    pub context_window: Option<u32>,
    /// Token budget reserved for model response.
    pub reserve_tokens: Option<u32>,
    /// Tokens to keep from recent messages.
    pub keep_recent_tokens: Option<u32>,
}

/// Compaction settings with what a file says of them.
pub open spec fn compaction_patched(
    c: CompactionConfig,
    patch: CompactionPatch,
) -> CompactionConfig {
    CompactionConfig {
        enabled: match patch.enabled {
            Some(enabled) => enabled,
            None => c.enabled,
        },
        context_window: match patch.context_window {
            Some(n) => Some(n),
            None => c.context_window,
        },
        reserve_tokens: match patch.reserve_tokens {
            Some(n) => n,
            None => c.reserve_tokens,
        },
        keep_recent_tokens: match patch.keep_recent_tokens {
            Some(n) => n,
            None => c.keep_recent_tokens,
        },
    }
}

impl CompactionPatch {
    /// Take over what the file says.
    pub fn merge_into(self, config: &mut CompactionConfig)
        ensures
            *final(config) == compaction_patched(*old(config), self),
    {
        if let Some(enabled) = self.enabled {
            config.enabled = enabled;
        }
        if let Some(context_window) = self.context_window {
            config.context_window = Some(context_window);
        }
        if let Some(reserve_tokens) = self.reserve_tokens {
            config.reserve_tokens = reserve_tokens;
        }
        if let Some(keep_recent_tokens) = self.keep_recent_tokens {
            config.keep_recent_tokens = keep_recent_tokens;
        }
    }
}

/// What a file says of the configuration.
pub struct ConfigPatch {
    /// Default model to use.
    pub default_model: Option<String>,
    /// Provider API keys.
    pub api_keys: Vec<(String, String)>,
    /// Provider base URLs.
    pub base_urls: Vec<(String, String)>,
    /// Provider OAuth tokens.
    pub oauth_tokens: Vec<(String, OAuthToken)>,
    /// Custom model definitions.
    pub models: Vec<(String, Model)>,
    /// User keybinding overrides.
    pub keybindings: Vec<(String, String)>,
    /// Default system prompt.
    pub system_prompt: Option<String>,
    /// Max tokens for responses.
    pub max_tokens: Option<u32>,
    /// Temperature.
    pub temperature: Option<String>,
    /// Compaction settings.
    pub compaction: Option<CompactionPatch>,
}

/// What a patch holds.
pub struct PatchView {
    pub default_model: Option<Seq<char>>,
    pub api_keys: Seq<(Seq<char>, Seq<char>)>,
    pub base_urls: Seq<(Seq<char>, Seq<char>)>,
    pub oauth_tokens: Seq<(Seq<char>, TokenView)>,
    pub models: Seq<(Seq<char>, ModelView)>,
    pub keybindings: Seq<(Seq<char>, Seq<char>)>,
    pub system_prompt: Option<Seq<char>>,
    pub max_tokens: Option<u32>,
    pub temperature: Option<Seq<char>>,
    pub compaction: Option<CompactionPatch>,
}

impl DeepView for ConfigPatch {
    type V = PatchView;

    open spec fn deep_view(&self) -> PatchView {
        PatchView {
            default_model: self.default_model.deep_view(),
            api_keys: self.api_keys.deep_view(),
            base_urls: self.base_urls.deep_view(),
            oauth_tokens: self.oauth_tokens.deep_view(),
            models: self.models.deep_view(),
            keybindings: self.keybindings.deep_view(),
            system_prompt: self.system_prompt.deep_view(),
            max_tokens: self.max_tokens,
            temperature: self.temperature.deep_view(),
            compaction: self.compaction,
        }
    }
}

/// A patch that says nothing.
pub open spec fn empty_patch() -> PatchView {
    PatchView {
        default_model: None,
        api_keys: seq![],
        base_urls: seq![],
        oauth_tokens: seq![],
        models: seq![],
        keybindings: seq![],
        system_prompt: None,
        max_tokens: None,
        temperature: None,
        compaction: None,
    }
}

impl Default for ConfigPatch {
    fn default() -> (r: Self)
        ensures
            r.deep_view() == empty_patch(),
    {
        let api_keys: Vec<(String, String)> = Vec::new();
        let base_urls: Vec<(String, String)> = Vec::new();
        let oauth_tokens: Vec<(String, OAuthToken)> = Vec::new();
        let models: Vec<(String, Model)> = Vec::new();
        let keybindings: Vec<(String, String)> = Vec::new();
        assert(api_keys.deep_view() =~= seq![]);
        assert(base_urls.deep_view() =~= seq![]);
        assert(oauth_tokens.deep_view() =~= seq![]);
        assert(models.deep_view() =~= seq![]);
        assert(keybindings.deep_view() =~= seq![]);
        ConfigPatch {
            default_model: None,
            api_keys,
            base_urls,
            oauth_tokens,
            models,
            keybindings,
            system_prompt: None,
            max_tokens: None,
            temperature: None,
            compaction: None,
        }
    }
}

/// The first of two values that is there.
pub open spec fn first_of<V>(a: Option<V>, b: Option<V>) -> Option<V> {
    match a {
        Some(v) => Some(v),
        None => b,
    }
}

/// A configuration with what a file says.
pub open spec fn patched(c: ConfigView, patch: PatchView) -> ConfigView {
    ConfigView {
        default_model: first_of(patch.default_model, c.default_model),
        api_keys: with_values(c.api_keys, patch.api_keys),
        base_urls: with_values(c.base_urls, patch.base_urls),
        oauth_tokens: with_values(c.oauth_tokens, patch.oauth_tokens),
        models: with_values(c.models, patch.models),
        keybindings: with_values(c.keybindings, patch.keybindings),
        system_prompt: first_of(patch.system_prompt, c.system_prompt),
        max_tokens: first_of(patch.max_tokens, c.max_tokens),
        temperature: first_of(patch.temperature, c.temperature),
        compaction: match patch.compaction {
            Some(compaction) => Some(compaction_patched(compaction_of(c), compaction)),
            None => c.compaction,
        },
    }
}

/// A configuration with what each of some files says, one after the other.
pub open spec fn all_patched(c: ConfigView, patches: Seq<PatchView>) -> ConfigView
    decreases patches.len(),
{
    if patches.len() == 0 {
        c
    } else {
        patched(all_patched(c, patches.drop_last()), patches.last())
    }
}

/// A file that says nothing changes nothing.
pub proof fn law_empty_patch_changes_nothing(c: ConfigView)
    ensures
        patched(c, empty_patch()) == c,
{
}

/// A configuration with what an environment variable says.
pub open spec fn with_variable(c: ConfigView, name: Seq<char>, value: Seq<char>) -> Result<
    ConfigView,
    ConfigErrorView,
> {
    let invalid = Err::<ConfigView, ConfigErrorView>(
        ConfigErrorView::InvalidVariable { name, value },
    );
    if name == "RPI_DEFAULT_MODEL"@ {
        Ok(ConfigView { default_model: Some(value), ..c })
    } else if name == "RPI_SYSTEM_PROMPT"@ {
        Ok(ConfigView { system_prompt: Some(value), ..c })
    } else if name == "RPI_MAX_TOKENS"@ {
        match u32_of(value) {
            Some(n) => Ok(ConfigView { max_tokens: Some(n), ..c }),
            None => invalid,
        }
    } else if name == "RPI_TEMPERATURE"@ {
        if parsed_real(value) is Some {
            Ok(ConfigView { temperature: Some(value), ..c })
        } else {
            invalid
        }
    } else if let Some(setting) = compaction_variable(name) {
        match compaction_with(compaction_of(c), setting, value) {
            Some(compaction) => Ok(ConfigView { compaction: Some(compaction), ..c }),
            None => invalid,
        }
    } else if let Some(provider) = without_prefix(name, "RPI_API_KEY_"@) {
        Ok(ConfigView { api_keys: with_value(c.api_keys, ascii_lower(provider), value), ..c })
    } else if let Some(provider) = without_prefix(name, "RPI_BASE_URL_"@) {
        Ok(ConfigView { base_urls: with_value(c.base_urls, ascii_lower(provider), value), ..c })
    } else {
        Ok(c)
    }
}

/// The field of the compaction settings that an environment variable sets.
pub open spec fn compaction_variable(name: Seq<char>) -> Option<Seq<char>> {
    if name == "RPI_COMPACTION_ENABLED"@ {
        Some("enabled"@)
    } else if name == "RPI_COMPACTION_CONTEXT_WINDOW"@ {
        Some("context_window"@)
    } else if name == "RPI_COMPACTION_RESERVE_TOKENS"@ {
        Some("reserve_tokens"@)
    } else if name == "RPI_COMPACTION_KEEP_RECENT_TOKENS"@ {
        Some("keep_recent_tokens"@)
    } else {
        None
    }
}

/// A configuration with what the environment says, or the first error.
pub open spec fn with_env(c: ConfigView, env: Env) -> Result<ConfigView, ConfigErrorView>
    decreases env.len(),
{
    if env.len() == 0 {
        Ok(c)
    } else {
        match with_env(c, env.drop_last()) {
            Ok(front) => with_variable(front, env.last().0, env.last().1),
            Err(e) => Err(e),
        }
    }
}

/// A configuration with the values of some keys set, or the first error.
pub open spec fn with_overrides(c: ConfigView, overrides: Env) -> Result<
    ConfigView,
    ConfigErrorView,
>
    decreases overrides.len(),
{
    if overrides.len() == 0 {
        Ok(c)
    } else {
        match with_overrides(c, overrides.drop_last()) {
            Ok(front) => config_with(front, overrides.last().0, overrides.last().1),
            Err(e) => Err(e),
        }
    }
}

/// The first error stays.
proof fn lemma_env_fails(c: ConfigView, env: Env, n: int)
    requires
        0 <= n <= env.len(),
        with_env(c, env.take(n)) is Err,
    ensures
        with_env(c, env) == with_env(c, env.take(n)),
    decreases env.len() - n,
{
    if n < env.len() {
        assert(env.take(n + 1).drop_last() =~= env.take(n));
        lemma_env_fails(c, env, n + 1);
    } else {
        assert(env.take(n) =~= env);
    }
}

proof fn lemma_overrides_fail(c: ConfigView, overrides: Env, n: int)
    requires
        0 <= n <= overrides.len(),
        with_overrides(c, overrides.take(n)) is Err,
    ensures
        with_overrides(c, overrides) == with_overrides(c, overrides.take(n)),
    decreases overrides.len() - n,
{
    if n < overrides.len() {
        assert(overrides.take(n + 1).drop_last() =~= overrides.take(n));
        lemma_overrides_fail(c, overrides, n + 1);
    } else {
        assert(overrides.take(n) =~= overrides);
    }
}

/// The text of an optional value interpolated.
pub open spec fn optional_interpolated(value: Option<Seq<char>>, env: Env) -> Result<
    Option<Seq<char>>,
    ConfigErrorView,
> {
    match value {
        Some(text) => match interpolated(text, env) {
            Ok(text) => Ok(Some(text)),
            Err(e) => Err(e),
        },
        None => Ok(None),
    }
}

/// Named texts interpolated, or the first error.
pub open spec fn texts_interpolated(pairs: Seq<(Seq<char>, Seq<char>)>, env: Env) -> Result<
    Seq<(Seq<char>, Seq<char>)>,
    ConfigErrorView,
>
    decreases pairs.len(),
{
    if pairs.len() == 0 {
        Ok(seq![])
    } else {
        match texts_interpolated(pairs.drop_last(), env) {
            Ok(front) => match interpolated(pairs.last().1, env) {
                Ok(text) => Ok(front.push((pairs.last().0, text))),
                Err(e) => Err(e),
            },
            Err(e) => Err(e),
        }
    }
}

/// A token interpolated, or the first error.
pub open spec fn token_interpolated(token: TokenView, env: Env) -> Result<
    TokenView,
    ConfigErrorView,
> {
    match interpolated(token.access_token, env) {
        Err(e) => Err(e),
        Ok(access_token) => match optional_interpolated(token.refresh_token, env) {
            Err(e) => Err(e),
            Ok(refresh_token) => match optional_interpolated(token.expires_at, env) {
                Err(e) => Err(e),
                Ok(expires_at) => Ok(TokenView { access_token, refresh_token, expires_at }),
            },
        },
    }
}

/// Tokens interpolated, or the first error.
pub open spec fn tokens_interpolated(pairs: Seq<(Seq<char>, TokenView)>, env: Env) -> Result<
    Seq<(Seq<char>, TokenView)>,
    ConfigErrorView,
>
    decreases pairs.len(),
{
    if pairs.len() == 0 {
        Ok(seq![])
    } else {
        match tokens_interpolated(pairs.drop_last(), env) {
            Ok(front) => match token_interpolated(pairs.last().1, env) {
                Ok(token) => Ok(front.push((pairs.last().0, token))),
                Err(e) => Err(e),
            },
            Err(e) => Err(e),
        }
    }
}

/// A configuration with the placeholders in it filled in, or the first error.
pub open spec fn config_interpolated(c: ConfigView, env: Env) -> Result<
    ConfigView,
    ConfigErrorView,
> {
    match optional_interpolated(c.default_model, env) {
        Err(e) => Err(e),
        Ok(default_model) => match texts_interpolated(c.api_keys, env) {
            Err(e) => Err(e),
            Ok(api_keys) => match texts_interpolated(c.base_urls, env) {
                Err(e) => Err(e),
                Ok(base_urls) => match tokens_interpolated(c.oauth_tokens, env) {
                    Err(e) => Err(e),
                    Ok(oauth_tokens) => match optional_interpolated(c.system_prompt, env) {
                        Err(e) => Err(e),
                        Ok(system_prompt) => Ok(
                            ConfigView {
                                default_model,
                                api_keys,
                                base_urls,
                                oauth_tokens,
                                system_prompt,
                                ..c
                            },
                        ),
                    },
                },
            },
        },
    }
}

/// The configuration that comes out of all layers, or the first error.
pub open spec fn layered(patches: Seq<PatchView>, env: Env, overrides: Env) -> Result<
    ConfigView,
    ConfigErrorView,
> {
    match with_env(all_patched(default_config(), patches), env) {
        Err(e) => Err(e),
        Ok(c) => match with_overrides(c, overrides) {
            Err(e) => Err(e),
            Ok(c) => config_interpolated(c, env),
        },
    }
}

/// What the command line sets last is what the configuration holds, whatever the
/// other layers say.
pub proof fn law_command_line_wins(
    patches: Seq<PatchView>,
    env: Env,
    overrides: Env,
    model: Seq<char>,
)
    requires
        overrides.len() > 0,
        overrides.last() == ("default_model"@, model),
    ensures
        layered(patches, env, overrides) matches Ok(c) ==> {
            &&& interpolated(model, env) is Ok
            &&& c.default_model == Some(interpolated(model, env)->Ok_0)
        },
{
}

/// What the environment says last is what the configuration holds, whatever the
/// files say, unless the command line sets it.
pub proof fn law_environment_beats_files(patches: Seq<PatchView>, env: Env, model: Seq<char>)
    requires
        env.len() > 0,
        env.last() == ("RPI_DEFAULT_MODEL"@, model),
    ensures
        layered(patches, env, seq![]) matches Ok(c) ==> {
            &&& interpolated(model, env) is Ok
            &&& c.default_model == Some(interpolated(model, env)->Ok_0)
        },
{
}

fn interpolate_optional(value: &Option<String>, env: &Vec<(String, String)>) -> (r: Result<
    Option<String>,
    ConfigError,
>)
    ensures
        match r {
            Ok(text) => optional_interpolated(value.deep_view(), env.deep_view()) == Ok::<
                Option<Seq<char>>,
                ConfigErrorView,
            >(text.deep_view()),
            Err(e) => optional_interpolated(value.deep_view(), env.deep_view()) == Err::<
                Option<Seq<char>>,
                ConfigErrorView,
            >(e.deep_view()),
        },
{
    match value {
        Some(text) => match interpolate_env(text, env) {
            Ok(text) => Ok(Some(text)),
            Err(e) => Err(e),
        },
        None => Ok(None),
    }
}

proof fn lemma_texts_fail(pairs: Seq<(Seq<char>, Seq<char>)>, env: Env, n: int)
    requires
        0 <= n <= pairs.len(),
        texts_interpolated(pairs.take(n), env) is Err,
    ensures
        texts_interpolated(pairs, env) == texts_interpolated(pairs.take(n), env),
    decreases pairs.len() - n,
{
    if n < pairs.len() {
        assert(pairs.take(n + 1).drop_last() =~= pairs.take(n));
        lemma_texts_fail(pairs, env, n + 1);
    } else {
        assert(pairs.take(n) =~= pairs);
    }
}

fn interpolate_texts(pairs: &Vec<(String, String)>, env: &Vec<(String, String)>) -> (r: Result<
    Vec<(String, String)>,
    ConfigError,
>)
    ensures
        match r {
            Ok(texts) => texts_interpolated(pairs.deep_view(), env.deep_view()) == Ok::<
                Seq<(Seq<char>, Seq<char>)>,
                ConfigErrorView,
            >(texts.deep_view()),
            Err(e) => texts_interpolated(pairs.deep_view(), env.deep_view()) == Err::<
                Seq<(Seq<char>, Seq<char>)>,
                ConfigErrorView,
            >(e.deep_view()),
        },
{
    let ghost all = pairs.deep_view();
    let mut texts: Vec<(String, String)> = Vec::new();
    let mut i: usize = 0;
    assert(all.take(0) =~= seq![]);
    assert(texts.deep_view() =~= seq![]);
    while i < pairs.len()
        invariant
            all == pairs.deep_view(),
            i <= pairs@.len(),
            texts_interpolated(all.take(i as int), env.deep_view()) == Ok::<
                Seq<(Seq<char>, Seq<char>)>,
                ConfigErrorView,
            >(texts.deep_view()),
        decreases pairs@.len() - i,
    {
        assert(all.take(i + 1).drop_last() =~= all.take(i as int));
        assert(all.take(i + 1).last() == pairs@[i as int].deep_view());
        let ghost before = texts.deep_view();
        match interpolate_env(&pairs[i].1, env) {
            Ok(text) => {
                let ghost t = text@;
                texts.push((pairs[i].0.clone(), text));
                assert(texts.deep_view() =~= before.push((pairs@[i as int].0@, t)));
            },
            Err(e) => {
                proof {
                    lemma_texts_fail(all, env.deep_view(), i + 1);
                }
                return Err(e);
            },
        }
        i = i + 1;
    }
    assert(all.take(all.len() as int) =~= all);
    Ok(texts)
}

fn interpolate_token(token: &OAuthToken, env: &Vec<(String, String)>) -> (r: Result<
    OAuthToken,
    ConfigError,
>)
    ensures
        match r {
            Ok(t) => token_interpolated(token.deep_view(), env.deep_view()) == Ok::<
                TokenView,
                ConfigErrorView,
            >(t.deep_view()),
            Err(e) => token_interpolated(token.deep_view(), env.deep_view()) == Err::<
                TokenView,
                ConfigErrorView,
            >(e.deep_view()),
        },
{
    let access_token: String = match interpolate_env(&token.access_token, env) {
        Ok(text) => text,
        Err(e) => {
            return Err(e);
        },
    };
    let refresh_token: Option<String> = match interpolate_optional(&token.refresh_token, env) {
        Ok(text) => text,
        Err(e) => {
            return Err(e);
        },
    };
    let expires_at: Option<String> = match interpolate_optional(&token.expires_at, env) {
        Ok(text) => text,
        Err(e) => {
            return Err(e);
        },
    };
    Ok(OAuthToken { access_token, refresh_token, expires_at })
}

proof fn lemma_tokens_fail(pairs: Seq<(Seq<char>, TokenView)>, env: Env, n: int)
    requires
        0 <= n <= pairs.len(),
        tokens_interpolated(pairs.take(n), env) is Err,
    ensures
        tokens_interpolated(pairs, env) == tokens_interpolated(pairs.take(n), env),
    decreases pairs.len() - n,
{
    if n < pairs.len() {
        assert(pairs.take(n + 1).drop_last() =~= pairs.take(n));
        lemma_tokens_fail(pairs, env, n + 1);
    } else {
        assert(pairs.take(n) =~= pairs);
    }
}

fn interpolate_tokens(pairs: &Vec<(String, OAuthToken)>, env: &Vec<(String, String)>) -> (r: Result<
    Vec<(String, OAuthToken)>,
    ConfigError,
>)
    ensures
        match r {
            Ok(tokens) => tokens_interpolated(pairs.deep_view(), env.deep_view()) == Ok::<
                Seq<(Seq<char>, TokenView)>,
                ConfigErrorView,
            >(tokens.deep_view()),
            Err(e) => tokens_interpolated(pairs.deep_view(), env.deep_view()) == Err::<
                Seq<(Seq<char>, TokenView)>,
                ConfigErrorView,
            >(e.deep_view()),
        },
{
    let ghost all = pairs.deep_view();
    let mut tokens: Vec<(String, OAuthToken)> = Vec::new();
    let mut i: usize = 0;
    assert(all.take(0) =~= seq![]);
    assert(tokens.deep_view() =~= seq![]);
    while i < pairs.len()
        invariant
            all == pairs.deep_view(),
            i <= pairs@.len(),
            tokens_interpolated(all.take(i as int), env.deep_view()) == Ok::<
                Seq<(Seq<char>, TokenView)>,
                ConfigErrorView,
            >(tokens.deep_view()),
        decreases pairs@.len() - i,
    {
        assert(all.take(i + 1).drop_last() =~= all.take(i as int));
        assert(all.take(i + 1).last() == pairs@[i as int].deep_view());
        let ghost before = tokens.deep_view();
        match interpolate_token(&pairs[i].1, env) {
            Ok(token) => {
                let ghost t = token.deep_view();
                tokens.push((pairs[i].0.clone(), token));
                assert(tokens.deep_view() =~= before.push((pairs@[i as int].0@, t)));
            },
            Err(e) => {
                proof {
                    lemma_tokens_fail(all, env.deep_view(), i + 1);
                }
                return Err(e);
            },
        }
        i = i + 1;
    }
    assert(all.take(all.len() as int) =~= all);
    Ok(tokens)
}

fn compaction_field(name: &str) -> (r: Option<&'static str>)
    ensures
        r.deep_view() == compaction_variable(name@),
{
    if same_text(name, "RPI_COMPACTION_ENABLED") {
        Some("enabled")
    } else if same_text(name, "RPI_COMPACTION_CONTEXT_WINDOW") {
        Some("context_window")
    } else if same_text(name, "RPI_COMPACTION_RESERVE_TOKENS") {
        Some("reserve_tokens")
    } else if same_text(name, "RPI_COMPACTION_KEEP_RECENT_TOKENS") {
        Some("keep_recent_tokens")
    } else {
        None
    }
}

impl Config {
    /// Take over what a file says.
    pub fn merge_patch(&mut self, patch: ConfigPatch)
        ensures
            final(self).deep_view() == patched(old(self).deep_view(), patch.deep_view()),
    {
        if let Some(default_model) = patch.default_model {
            self.default_model = Some(default_model);
        }
        extend_values(&mut self.api_keys, patch.api_keys);
        extend_values(&mut self.base_urls, patch.base_urls);
        extend_values(&mut self.oauth_tokens, patch.oauth_tokens);
        extend_values(&mut self.models, patch.models);
        extend_values(&mut self.keybindings, patch.keybindings);
        if let Some(system_prompt) = patch.system_prompt {
            self.system_prompt = Some(system_prompt);
        }
        if let Some(max_tokens) = patch.max_tokens {
            self.max_tokens = Some(max_tokens);
        }
        if let Some(temperature) = patch.temperature {
            self.temperature = Some(temperature);
        }
        if let Some(compaction) = patch.compaction {
            let mut target: CompactionConfig = match self.compaction {
                Some(target) => target,
                None => CompactionConfig::default(),
            };
            compaction.merge_into(&mut target);
            self.compaction = Some(target);
        }
    }

    fn apply_variable(self, name: &str, value: &str) -> (r: Result<Config, ConfigError>)
        ensures
            config_result(r) == with_variable(self.deep_view(), name@, value@),
    {
        let mut config: Config = self;
        if same_text(name, "RPI_DEFAULT_MODEL") {
            config.default_model = Some(value.to_owned());
        } else if same_text(name, "RPI_SYSTEM_PROMPT") {
            config.system_prompt = Some(value.to_owned());
        } else if same_text(name, "RPI_MAX_TOKENS") {
            match read_u32(value) {
                Some(n) => {
                    config.max_tokens = Some(n);
                },
                None => {
                    return Err(
                        ConfigError::InvalidVariable {
                            name: name.to_owned(),
                            value: value.to_owned(),
                        },
                    );
                },
            }
        } else if same_text(name, "RPI_TEMPERATURE") {
            if parse_real(value).is_none() {
                return Err(
                    ConfigError::InvalidVariable { name: name.to_owned(), value: value.to_owned() },
                );
            }
            config.temperature = Some(value.to_owned());
        } else if let Some(setting) = compaction_field(name) {
            let compaction: CompactionConfig = match config.compaction {
                Some(compaction) => compaction,
                None => CompactionConfig::default(),
            };
            match set_compaction(compaction, setting, value) {
                Some(compaction) => {
                    config.compaction = Some(compaction);
                },
                None => {
                    return Err(
                        ConfigError::InvalidVariable {
                            name: name.to_owned(),
                            value: value.to_owned(),
                        },
                    );
                },
            }
        } else if let Some(provider) = strip_prefix_text(name, "RPI_API_KEY_") {
            set_value(&mut config.api_keys, ascii_lower_text(&provider), value.to_owned());
        } else if let Some(provider) = strip_prefix_text(name, "RPI_BASE_URL_") {
            set_value(&mut config.base_urls, ascii_lower_text(&provider), value.to_owned());
        }
        Ok(config)
    }

    /// Take over what the environment says.
    pub fn apply_env(self, env: &Vec<(String, String)>) -> (r: Result<Config, ConfigError>)
        ensures
            config_result(r) == with_env(self.deep_view(), env.deep_view()),
    {
        let ghost start = self.deep_view();
        let ghost all = env.deep_view();
        let mut config: Config = self;
        let mut i: usize = 0;
        assert(all.take(0) =~= seq![]);
        while i < env.len()
            invariant
                start == self.deep_view(),
                all == env.deep_view(),
                i <= env@.len(),
                with_env(start, all.take(i as int)) == Ok::<ConfigView, ConfigErrorView>(
                    config.deep_view(),
                ),
            decreases env@.len() - i,
        {
            assert(all.take(i + 1).drop_last() =~= all.take(i as int));
            assert(all.take(i + 1).last() == env@[i as int].deep_view());
            match config.apply_variable(&env[i].0, &env[i].1) {
                Ok(next) => {
                    config = next;
                },
                Err(e) => {
                    proof {
                        lemma_env_fails(start, all, i + 1);
                    }
                    return Err(e);
                },
            }
            i = i + 1;
        }
        assert(all.take(all.len() as int) =~= all);
        Ok(config)
    }

    /// Set the values of some keys.
    pub fn apply_overrides(self, overrides: &Vec<(String, String)>) -> (r: Result<
        Config,
        ConfigError,
    >)
        ensures
            config_result(r) == with_overrides(self.deep_view(), overrides.deep_view()),
    {
        let ghost start = self.deep_view();
        let ghost all = overrides.deep_view();
        let mut config: Config = self;
        let mut i: usize = 0;
        assert(all.take(0) =~= seq![]);
        while i < overrides.len()
            invariant
                start == self.deep_view(),
                all == overrides.deep_view(),
                i <= overrides@.len(),
                with_overrides(start, all.take(i as int)) == Ok::<ConfigView, ConfigErrorView>(
                    config.deep_view(),
                ),
            decreases overrides@.len() - i,
        {
            assert(all.take(i + 1).drop_last() =~= all.take(i as int));
            assert(all.take(i + 1).last() == overrides@[i as int].deep_view());
            match config.set(&overrides[i].0, &overrides[i].1) {
                Ok(next) => {
                    config = next;
                },
                Err(e) => {
                    proof {
                        lemma_overrides_fail(start, all, i + 1);
                    }
                    return Err(e);
                },
            }
            i = i + 1;
        }
        assert(all.take(all.len() as int) =~= all);
        Ok(config)
    }

    /// Fill in the placeholders for environment variables.
    pub fn interpolate_env(self, env: &Vec<(String, String)>) -> (r: Result<Config, ConfigError>)
        ensures
            config_result(r) == config_interpolated(self.deep_view(), env.deep_view()),
    {
        let mut config: Config = self;
        match interpolate_optional(&config.default_model, env) {
            Ok(text) => {
                config.default_model = text;
            },
            Err(e) => {
                return Err(e);
            },
        }
        match interpolate_texts(&config.api_keys, env) {
            Ok(texts) => {
                config.api_keys = texts;
            },
            Err(e) => {
                return Err(e);
            },
        }
        match interpolate_texts(&config.base_urls, env) {
            Ok(texts) => {
                config.base_urls = texts;
            },
            Err(e) => {
                return Err(e);
            },
        }
        match interpolate_tokens(&config.oauth_tokens, env) {
            Ok(tokens) => {
                config.oauth_tokens = tokens;
            },
            Err(e) => {
                return Err(e);
            },
        }
        match interpolate_optional(&config.system_prompt, env) {
            Ok(text) => {
                config.system_prompt = text;
            },
            Err(e) => {
                return Err(e);
            },
        }
        Ok(config)
    }

    /// The configuration that comes out of all layers: the defaults, what the files
    /// say, what the environment says, and what the command line sets.
    pub fn load_layered_with_env(
        patches: Vec<ConfigPatch>,
        env: &Vec<(String, String)>,
        cli_overrides: &Vec<(String, String)>,
    ) -> (r: Result<Config, ConfigError>)
        ensures
            config_result(r) == layered(
                patches.deep_view(),
                env.deep_view(),
                cli_overrides.deep_view(),
            ),
    {
        let mut config: Config = Config::default();
        let ghost all = patches.deep_view();
        assert(all.take(0) =~= seq![]);
        for patch in it: patches.into_iter()
            invariant
                it.seq() == patches@,
                all == patches.deep_view(),
                config.deep_view() == all_patched(
                    default_config(),
                    all.take(it.index() as int),
                ),
        {
            let ghost n = it.index() as int;
            assert(all.take(n + 1).drop_last() =~= all.take(n));
            assert(all.take(n + 1).last() == patch.deep_view());
            config.merge_patch(patch);
        }
        assert(all.take(all.len() as int) =~= all);
        match config.apply_env(env) {
            Err(e) => Err(e),
            Ok(config) => match config.apply_overrides(cli_overrides) {
                Err(e) => Err(e),
                Ok(config) => config.interpolate_env(env),
            },
        }
    }
}

// ---------------------------------------------------------------------------
// Files
// ---------------------------------------------------------------------------

/// The files of a configuration directory, in the order in which they are read.
pub fn config_file_names() -> (r: Vec<String>)
    ensures
        r.deep_view() == seq![
            "config.json"@,
            "settings.json"@,
            "auth.json"@,
            "models.json"@,
            "keybindings.json"@,
        ],
{
    let mut names: Vec<String> = Vec::new();
    names.push("config.json".to_owned());
    names.push("settings.json".to_owned());
    names.push("auth.json".to_owned());
    names.push("models.json".to_owned());
    names.push("keybindings.json".to_owned());
    assert(names.deep_view() =~= seq![
        "config.json"@,
        "settings.json"@,
        "auth.json"@,
        "models.json"@,
        "keybindings.json"@,
    ]);
    names
}

/// The name of the file that locks a configuration file.
pub fn lock_file_name(file_name: Option<&str>) -> (r: String)
    ensures
        r@ == match file_name {
            Some(name) => name@ + ".lock"@,
            None => "config.json"@ + ".lock"@,
        },
{
    let mut r: String = match file_name {
        Some(name) => name.to_owned(),
        None => "config.json".to_owned(),
    };
    r.push_str(".lock");
    r
}

/// Whether a lock has been left behind: it is older than 30 seconds. Its age is
/// given in whole seconds and the nanoseconds beyond them, where it is known.
pub fn is_stale(age: Option<(u64, u32)>) -> (r: bool)
    ensures
        r == match age {
            Some((seconds, nanoseconds)) => seconds > 30 || (seconds == 30 && nanoseconds > 0),
            None => false,
        },
{
    match age {
        Some((seconds, nanoseconds)) => seconds > 30 || (seconds == 30 && nanoseconds > 0),
        None => false,
    }
}

} // verus!
