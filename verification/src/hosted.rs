//! The hosted judge (Azure OpenAI): its configuration, the requests it
//! sends, and how its answers are read. The HTTP exchange itself is the
//! caller's.
use vstd::prelude::*;

use crate::json::JsonValue;
use crate::text::{
    ascii_lowercase, ascii_lower, chars_of, decimal, owned, push_str, str_eq, string_from_chars,
    trim, trimmed, u64_to_decimal,
};

verus! {

/// Hosted judge providers.
#[derive(Debug, Clone, Copy, PartialEq, Eq, Structural)]
pub enum HostedJudgeProvider {
    AzureOpenAi,
}

/// Which Azure OpenAI API the judge calls; `Auto` tries chat completions
/// first and falls back to the responses API.
#[derive(Debug, Clone, Copy, PartialEq, Eq, Structural)]
pub enum HostedJudgeApiStyle {
    Auto,
    ChatCompletions,
    Responses,
}

/// A validated hosted-judge configuration.
#[derive(Debug, Clone)]
pub struct HostedJudgeConfig {
    pub provider: HostedJudgeProvider,
    pub endpoint: String,
    pub deployment: String,
    pub api_style: HostedJudgeApiStyle,
    pub api_version: Option<String>,
    pub api_key: String,
    pub max_input_chars: u32,
    pub max_output_tokens: u32,
    pub request_timeout_seconds: u32,
    pub max_retries: u32,
}

/// The settings a hosted-judge configuration is built from, as entered.
#[derive(Debug, Clone, Copy)]
pub struct HostedJudgeConfigInput<'a> {
    pub provider: &'a str,
    pub endpoint: &'a str,
    pub deployment: &'a str,
    pub api_style: &'a str,
    pub api_version: Option<&'a str>,
    pub api_key: &'a str,
    pub max_input_chars: u32,
    pub max_output_tokens: u32,
    pub request_timeout_seconds: u32,
    pub max_retries: u32,
}

impl HostedJudgeConfig {
    /// The model id written into verdicts: `azure_openai:<deployment>`.
    pub fn model_used(&self) -> (r: String)
        ensures
            r@ == "azure_openai:"@ + trimmed(self.deployment@),
    {
        match self.provider {
            HostedJudgeProvider::AzureOpenAi => {
                let mut r = owned("azure_openai:");
                let d = trim(self.deployment.as_str());
                push_str(&mut r, d.as_str());
                r
            },
        }
    }
}

pub open spec fn lowered(s: Seq<char>) -> Seq<char> {
    s.map_values(|c: char| ascii_lower(c))
}

pub open spec fn opt_string_view(o: Option<String>) -> Option<Seq<char>> {
    match o {
        Some(s) => Some(s@),
        None => None,
    }
}

/// The configuration `build_hosted_config` makes of an input: provider and
/// API style named case-insensitively (surrounding whitespace ignored),
/// text fields trimmed, a blank API version dropped.
pub open spec fn config_matches(c: HostedJudgeConfig, input: HostedJudgeConfigInput) -> bool {
    &&& c.provider == HostedJudgeProvider::AzureOpenAi
    &&& c.api_style == (if lowered(trimmed(input.api_style@)) == "auto"@ {
        HostedJudgeApiStyle::Auto
    } else if lowered(trimmed(input.api_style@)) == "chat_completions"@ {
        HostedJudgeApiStyle::ChatCompletions
    } else {
        HostedJudgeApiStyle::Responses
    })
    &&& c.endpoint@ == trimmed(input.endpoint@)
    &&& c.deployment@ == trimmed(input.deployment@)
    &&& opt_string_view(c.api_version) == match input.api_version {
        Some(v) => if trimmed(v@).len() == 0 {
            None
        } else {
            Some(trimmed(v@))
        },
        None => None,
    }
    &&& c.api_key@ == trimmed(input.api_key@)
    &&& c.max_input_chars == input.max_input_chars
    &&& c.max_output_tokens == input.max_output_tokens
    &&& c.request_timeout_seconds == input.request_timeout_seconds
    &&& c.max_retries == input.max_retries
}

pub open spec fn known_api_style(s: Seq<char>) -> bool {
    s == "auto"@ || s == "chat_completions"@ || s == "responses"@
}

/// Builds a hosted-judge configuration from its settings. The provider
/// must be `azure_openai` and the API style `auto`, `chat_completions` or
/// `responses` (case-insensitive); otherwise the error names the value.
pub fn build_hosted_config(input: HostedJudgeConfigInput) -> (r: Result<HostedJudgeConfig, String>)
    ensures
        match r {
            Ok(c) => lowered(trimmed(input.provider@)) == "azure_openai"@ && known_api_style(
                lowered(trimmed(input.api_style@)),
            ) && config_matches(c, input),
            Err(m) => if lowered(trimmed(input.provider@)) != "azure_openai"@ {
                m@ == "unsupported Hosted Judge provider '"@ + lowered(trimmed(input.provider@))
                    + "'"@
            } else {
                !known_api_style(lowered(trimmed(input.api_style@))) && m@
                    == "unsupported Hosted Judge api style '"@ + lowered(trimmed(input.api_style@))
                    + "'"@
            },
        },
{
    let provider_trimmed = trim(input.provider);
    let provider_name = ascii_lowercase(provider_trimmed.as_str());
    if !str_eq(provider_name.as_str(), "azure_openai") {
        let mut m = owned("unsupported Hosted Judge provider '");
        push_str(&mut m, provider_name.as_str());
        push_str(&mut m, "'");
        return Err(m);
    }
    let style_trimmed = trim(input.api_style);
    let style_name = ascii_lowercase(style_trimmed.as_str());
    let api_style = if str_eq(style_name.as_str(), "auto") {
        HostedJudgeApiStyle::Auto
    } else if str_eq(style_name.as_str(), "chat_completions") {
        HostedJudgeApiStyle::ChatCompletions
    } else if str_eq(style_name.as_str(), "responses") {
        HostedJudgeApiStyle::Responses
    } else {
        let mut m = owned("unsupported Hosted Judge api style '");
        push_str(&mut m, style_name.as_str());
        push_str(&mut m, "'");
        return Err(m);
    };
    let api_version = match input.api_version {
        Some(v) => {
            let t = trim(v);
            if t.as_str().is_empty() {
                None
            } else {
                Some(t)
            }
        },
        None => None,
    };
    Ok(HostedJudgeConfig {
        provider: HostedJudgeProvider::AzureOpenAi,
        endpoint: trim(input.endpoint),
        deployment: trim(input.deployment),
        api_style,
        api_version,
        api_key: trim(input.api_key),
        max_input_chars: input.max_input_chars,
        max_output_tokens: input.max_output_tokens,
        request_timeout_seconds: input.request_timeout_seconds,
        max_retries: input.max_retries,
    })
}

/// The first `max_chars` characters of `input` (all of it when shorter).
pub fn trim_to_chars(input: &str, max_chars: usize) -> (r: String)
    ensures
        r@ == if input@.len() <= max_chars {
            input@
        } else {
            input@.take(max_chars as int)
        },
{
    let v = chars_of(input);
    if v.len() <= max_chars {
        return owned(input);
    }
    let r = string_from_chars(&v, 0, max_chars);
    assert(v@.subrange(0, max_chars as int) =~= v@.take(max_chars as int));
    r
}

// ── Requests ─────────────────────────────────────────────────────────────────

/// The API styles a judge call tries, in order.
pub open spec fn styles_to_try(style: HostedJudgeApiStyle) -> Seq<HostedJudgeApiStyle> {
    match style {
        HostedJudgeApiStyle::Auto => seq![
            HostedJudgeApiStyle::ChatCompletions,
            HostedJudgeApiStyle::Responses,
        ],
        _ => seq![style],
    }
}

/// The API styles to try for a configured style: `Auto` tries chat
/// completions, then responses.
pub fn api_styles_to_try(style: HostedJudgeApiStyle) -> (r: Vec<HostedJudgeApiStyle>)
    ensures
        r@ == styles_to_try(style),
{
    match style {
        HostedJudgeApiStyle::Auto => vec![
            HostedJudgeApiStyle::ChatCompletions,
            HostedJudgeApiStyle::Responses,
        ],
        _ => vec![style],
    }
}

/// `s` without its trailing `/` characters.
pub open spec fn strip_trailing_slashes(s: Seq<char>) -> Seq<char>
    decreases s.len(),
{
    if s.len() > 0 && s.last() == '/' {
        strip_trailing_slashes(s.drop_last())
    } else {
        s
    }
}

pub open spec fn endpoint_base(c: HostedJudgeConfig) -> Seq<char> {
    strip_trailing_slashes(trimmed(c.endpoint@))
}

/// Why a configuration cannot be called, if it cannot: an empty endpoint,
/// deployment or API key.
pub open spec fn config_problem(c: HostedJudgeConfig) -> Option<Seq<char>> {
    if endpoint_base(c).len() == 0 {
        Some("Hosted Judge endpoint is empty."@)
    } else if trimmed(c.deployment@).len() == 0 {
        Some("Hosted Judge deployment is empty."@)
    } else if trimmed(c.api_key@).len() == 0 {
        Some("Hosted Judge API key is empty."@)
    } else {
        None
    }
}

/// The API version used: the configured one unless blank, else
/// `2024-10-21`.
pub open spec fn api_version_used(c: HostedJudgeConfig) -> Seq<char> {
    match c.api_version {
        Some(v) => if trimmed(v@).len() == 0 {
            "2024-10-21"@
        } else {
            v@
        },
        None => "2024-10-21"@,
    }
}

/// The URL a call with `style` goes to.
pub open spec fn endpoint_url(c: HostedJudgeConfig, style: HostedJudgeApiStyle) -> Seq<char> {
    match style {
        HostedJudgeApiStyle::Responses => endpoint_base(c) + "/openai/v1/responses"@,
        _ => endpoint_base(c) + "/openai/deployments/"@ + trimmed(c.deployment@)
            + "/chat/completions?api-version="@ + api_version_used(c),
    }
}

proof fn lemma_strip_trailing_slashes(s: Seq<char>)
    ensures
        strip_trailing_slashes(s).len() <= s.len(),
        strip_trailing_slashes(s) == s.take(strip_trailing_slashes(s).len() as int),
        forall|k: int| strip_trailing_slashes(s).len() <= k < s.len() ==> s[k] == '/',
        strip_trailing_slashes(s).len() == 0 || strip_trailing_slashes(s).last() != '/',
    decreases s.len(),
{
    if s.len() > 0 && s.last() == '/' {
        let d = s.drop_last();
        lemma_strip_trailing_slashes(d);
        let b = strip_trailing_slashes(d);
        assert(s.take(b.len() as int) =~= d.take(b.len() as int));
        assert forall|k: int| b.len() <= k < s.len() implies s[k] == '/' by {
            if k < d.len() {
                assert(s[k] == d[k]);
            }
        }
    } else {
        assert(s.take(s.len() as int) =~= s);
    }
}

/// The URLs the hosted judge calls. The base is the configured endpoint,
/// trimmed, without its trailing slashes: a prefix of the trimmed endpoint
/// followed there only by `/`, and not itself ending in `/`. The responses
/// API is called at the base followed by `/openai/v1/responses`; chat
/// completions (also the first try of `Auto`) at
/// `/openai/deployments/<deployment>/chat/completions?api-version=<v>`,
/// where `v` is the configured API version, or `2024-10-21` when it is
/// absent or blank.
pub proof fn lemma_endpoint_urls(c: HostedJudgeConfig)
    ensures
        ({
            let t = trimmed(c.endpoint@);
            let base = endpoint_base(c);
            &&& base.len() <= t.len()
            &&& base == t.take(base.len() as int)
            &&& forall|k: int| base.len() <= k < t.len() ==> t[k] == '/'
            &&& base.len() == 0 || base.last() != '/'
            &&& endpoint_url(c, HostedJudgeApiStyle::Responses) == base + "/openai/v1/responses"@
            &&& endpoint_url(c, HostedJudgeApiStyle::ChatCompletions) == base + "/openai/deployments/"@
                + trimmed(c.deployment@) + "/chat/completions?api-version="@ + api_version_used(c)
            &&& endpoint_url(c, HostedJudgeApiStyle::Auto) == endpoint_url(c, HostedJudgeApiStyle::ChatCompletions)
        }),
        api_version_used(c) == match c.api_version {
            Some(v) => if trimmed(v@).len() == 0 {
                "2024-10-21"@
            } else {
                v@
            },
            None => "2024-10-21"@,
        },
{
    lemma_strip_trailing_slashes(trimmed(c.endpoint@));
}

fn strip_slashes(s: &str) -> (r: String)
    ensures
        r@ == strip_trailing_slashes(s@),
{
    let v = chars_of(s);
    let mut end = v.len();
    assert(v@.take(end as int) =~= v@);
    while end > 0 && v[end - 1] == '/'
        invariant
            v@ == s@,
            end <= v@.len(),
            strip_trailing_slashes(v@.take(end as int)) == strip_trailing_slashes(s@),
        decreases end,
    {
        assert(v@.take(end as int).drop_last() =~= v@.take(end - 1));
        end -= 1;
    }
    let r = string_from_chars(&v, 0, end);
    assert(v@.subrange(0, end as int) =~= v@.take(end as int));
    r
}

/// The URL to call with `style`, or why the configuration cannot be
/// called.
pub fn hosted_endpoint_url(config: &HostedJudgeConfig, style: HostedJudgeApiStyle) -> (r: Result<
    String,
    String,
>)
    ensures
        match r {
            Ok(url) => config_problem(*config) is None && url@ == endpoint_url(*config, style),
            Err(m) => config_problem(*config) == Some(m@),
        },
{
    let trimmed_endpoint = trim(config.endpoint.as_str());
    let base = strip_slashes(trimmed_endpoint.as_str());
    let deployment = trim(config.deployment.as_str());
    let key = trim(config.api_key.as_str());
    if base.as_str().is_empty() {
        return Err(owned("Hosted Judge endpoint is empty."));
    }
    if deployment.as_str().is_empty() {
        return Err(owned("Hosted Judge deployment is empty."));
    }
    if key.as_str().is_empty() {
        return Err(owned("Hosted Judge API key is empty."));
    }
    let mut url = base;
    match style {
        HostedJudgeApiStyle::Responses => {
            push_str(&mut url, "/openai/v1/responses");
        },
        _ => {
            push_str(&mut url, "/openai/deployments/");
            push_str(&mut url, deployment.as_str());
            push_str(&mut url, "/chat/completions?api-version=");
            match &config.api_version {
                Some(v) => {
                    let t = trim(v.as_str());
                    if t.as_str().is_empty() {
                        push_str(&mut url, "2024-10-21");
                    } else {
                        push_str(&mut url, v.as_str());
                    }
                },
                None => {
                    push_str(&mut url, "2024-10-21");
                },
            }
        },
    }
    Ok(url)
}

/// The chat-completions request body: the prompt as the one user message,
/// `max_completion_tokens` (not `max_tokens`, and no temperature), and a
/// JSON-object response format.
pub open spec fn chat_body_spec(prompt: Seq<char>, max_output_tokens: u32) -> JsonValueView {
    JsonValueView::Object(
        seq![
            (
                "messages"@,
                JsonValueView::Array(
                    seq![
                        JsonValueView::Object(
                            seq![
                                ("role"@, JsonValueView::Str("user"@)),
                                ("content"@, JsonValueView::Str(prompt)),
                            ],
                        ),
                    ],
                ),
            ),
            ("max_completion_tokens"@, JsonValueView::Number(decimal(max_output_tokens as nat))),
            (
                "response_format"@,
                JsonValueView::Object(seq![("type"@, JsonValueView::Str("json_object"@))]),
            ),
        ],
    )
}

/// A JSON value as plain sequences, for contracts.
pub enum JsonValueView {
    Null,
    Bool(bool),
    Number(Seq<char>),
    Str(Seq<char>),
    Array(Seq<JsonValueView>),
    Object(Seq<(Seq<char>, JsonValueView)>),
}

/// Whether `v` is the JSON value `w`.
pub open spec fn json_is(v: JsonValue, w: JsonValueView) -> bool
    decreases v,
{
    match (v, w) {
        (JsonValue::Null, JsonValueView::Null) => true,
        (JsonValue::Bool(a), JsonValueView::Bool(b)) => a == b,
        (JsonValue::Number(a), JsonValueView::Number(b)) => a@ == b,
        (JsonValue::Str(a), JsonValueView::Str(b)) => a@ == b,
        (JsonValue::Array(a), JsonValueView::Array(b)) => a@.len() == b.len() && forall|i: int|
            0 <= i < a@.len() ==> json_is(#[trigger] a@[i], b[i]),
        (JsonValue::Object(a), JsonValueView::Object(b)) => a@.len() == b.len() && forall|i: int|
            0 <= i < a@.len() ==> (#[trigger] a@[i]).0@ == b[i].0 && json_is(a@[i].1, b[i].1),
        _ => false,
    }
}

/// The chat-completions request body for `prompt`.
pub fn build_azure_chat_completions_body(prompt: &str, max_output_tokens: u32) -> (r: JsonValue)
    ensures
        json_is(r, chat_body_spec(prompt@, max_output_tokens)),
{
    let message = JsonValue::Object(
        vec![
            (owned("role"), JsonValue::Str(owned("user"))),
            (owned("content"), JsonValue::Str(owned(prompt))),
        ],
    );
    let format = JsonValue::Object(vec![(owned("type"), JsonValue::Str(owned("json_object")))]);
    let body = JsonValue::Object(
        vec![
            (owned("messages"), JsonValue::Array(vec![message])),
            (owned("max_completion_tokens"), JsonValue::Number(u64_to_decimal(max_output_tokens as u64))),
            (owned("response_format"), format),
        ],
    );
    proof {
        reveal_with_fuel(json_is, 4);
    }
    body
}

/// The responses-API request body: model, input and `max_output_tokens`.
pub fn build_azure_responses_body(deployment: &str, prompt: &str, max_output_tokens: u32) -> (r: JsonValue)
    ensures
        json_is(
            r,
            JsonValueView::Object(
                seq![
                    ("model"@, JsonValueView::Str(trimmed(deployment@))),
                    ("input"@, JsonValueView::Str(prompt@)),
                    ("max_output_tokens"@, JsonValueView::Number(decimal(max_output_tokens as nat))),
                ],
            ),
        ),
{
    let body = JsonValue::Object(
        vec![
            (owned("model"), JsonValue::Str(trim(deployment))),
            (owned("input"), JsonValue::Str(owned(prompt))),
            (owned("max_output_tokens"), JsonValue::Number(u64_to_decimal(max_output_tokens as u64))),
        ],
    );
    proof {
        reveal_with_fuel(json_is, 2);
    }
    body
}

// ── Answers ──────────────────────────────────────────────────────────────────

/// One content part of a responses-API output item: its `type` and `text`.
#[derive(Debug, Clone)]
pub struct OutputContent {
    pub kind: Option<String>,
    pub text: Option<String>,
}

pub open spec fn is_output_text(c: OutputContent) -> bool {
    c.kind matches Some(k) && k@ == "output_text"@ && c.text is Some
}

/// The text of the first `output_text` part that has text, across the
/// output items in order; empty when there is none.
pub open spec fn output_text_spec(parts: Seq<OutputContent>) -> Seq<char>
    decreases parts.len(),
{
    if parts.len() == 0 {
        seq![]
    } else if is_output_text(parts[0]) {
        parts[0].text->Some_0@
    } else {
        output_text_spec(parts.drop_first())
    }
}

pub open spec fn flatten_output(output: Seq<Vec<OutputContent>>) -> Seq<OutputContent>
    decreases output.len(),
{
    if output.len() == 0 {
        seq![]
    } else {
        flatten_output(output.drop_last()) + output.last()@
    }
}

proof fn lemma_output_text_concat(a: Seq<OutputContent>, b: Seq<OutputContent>)
    ensures
        output_text_spec(a + b) == if exists|i: int| 0 <= i < a.len() && is_output_text(#[trigger] a[i]) {
            output_text_spec(a)
        } else {
            output_text_spec(b)
        },
    decreases a.len(),
{
    if a.len() > 0 {
        assert((a + b).drop_first() =~= a.drop_first() + b);
        assert((a + b)[0] == a[0]);
        lemma_output_text_concat(a.drop_first(), b);
        if !is_output_text(a[0]) {
            if exists|i: int| 0 <= i < a.drop_first().len() && is_output_text(#[trigger] a.drop_first()[i]) {
                let i = choose|i: int| 0 <= i < a.drop_first().len() && is_output_text(#[trigger] a.drop_first()[i]);
                assert(a[i + 1] == a.drop_first()[i]);
            }
            if exists|i: int| 0 <= i < a.len() && is_output_text(#[trigger] a[i]) {
                let i = choose|i: int| 0 <= i < a.len() && is_output_text(#[trigger] a[i]);
                assert(i > 0);
                assert(a.drop_first()[i - 1] == a[i]);
            }
        }
    } else {
        assert(a + b =~= b);
    }
}

/// The answer text of a responses-API reply without a top-level
/// `output_text`.
pub fn extract_output_text(output: &Vec<Vec<OutputContent>>) -> (r: String)
    ensures
        r@ == output_text_spec(flatten_output(output@)),
{
    let mut i: usize = 0;
    assert(output@.skip(0) =~= output@);
    while i < output.len()
        invariant
            i <= output@.len(),
            output_text_spec(flatten_output(output@)) == output_text_spec(
                flatten_output(output@.skip(i as int)),
            ),
        decreases output@.len() - i,
    {
        let item = &output[i];
        let mut k: usize = 0;
        while k < item.len()
            invariant
                i < output@.len(),
                *item == output@[i as int],
                output_text_spec(flatten_output(output@)) == output_text_spec(
                    flatten_output(output@.skip(i as int)),
                ),
                k <= item@.len(),
                forall|j: int| 0 <= j < k ==> !is_output_text(#[trigger] item@[j]),
            decreases item@.len() - k,
        {
            let c = &item[k];
            if let (Some(kind), Some(text)) = (&c.kind, &c.text) {
                if str_eq(kind.as_str(), "output_text") {
                    proof {
                        lemma_flatten_skip(output@, i as int);
                        lemma_output_text_concat(item@, flatten_output(output@.skip(i + 1)));
                        lemma_first_output_text(item@, k as int);
                    }
                    return text.clone();
                }
            }
            k += 1;
        }
        proof {
            lemma_flatten_skip(output@, i as int);
            lemma_output_text_concat(item@, flatten_output(output@.skip(i + 1)));
        }
        i += 1;
    }
    proof {
        assert(output@.skip(output@.len() as int) =~= Seq::<Vec<OutputContent>>::empty());
    }
    String::new()
}

proof fn lemma_first_output_text(parts: Seq<OutputContent>, k: int)
    requires
        0 <= k < parts.len(),
        is_output_text(parts[k]),
        forall|j: int| 0 <= j < k ==> !is_output_text(#[trigger] parts[j]),
    ensures
        output_text_spec(parts) == parts[k].text->Some_0@,
    decreases k,
{
    if k > 0 {
        assert forall|j: int| 0 <= j < k - 1 implies !is_output_text(#[trigger] parts.drop_first()[j]) by {
            assert(parts.drop_first()[j] == parts[j + 1]);
        }
        lemma_first_output_text(parts.drop_first(), k - 1);
    }
}

proof fn lemma_flatten_skip(output: Seq<Vec<OutputContent>>, i: int)
    requires
        0 <= i < output.len(),
    ensures
        flatten_output(output.skip(i)) == output[i]@ + flatten_output(output.skip(i + 1)),
    decreases output.len() - i,
{
    lemma_flatten_front(output.skip(i));
    assert(output.skip(i).drop_first() =~= output.skip(i + 1));
}

proof fn lemma_flatten_front(output: Seq<Vec<OutputContent>>)
    requires
        output.len() > 0,
    ensures
        flatten_output(output) == output[0]@ + flatten_output(output.drop_first()),
    decreases output.len(),
{
    if output.len() == 1 {
        assert(output.drop_first() =~= Seq::<Vec<OutputContent>>::empty());
        assert(output.drop_last() =~= Seq::<Vec<OutputContent>>::empty());
        assert(output[0]@ + seq![] =~= output[0]@);
        assert(seq![] + output.last()@ =~= output.last()@);
    } else {
        lemma_flatten_front(output.drop_last());
        assert(output.drop_last().drop_first() =~= output.drop_first().drop_last());
        assert(output.drop_first().last() == output.last());
        assert(output.drop_last()[0] == output[0]);
        vstd::seq_lib::lemma_concat_associative(
            output[0]@,
            flatten_output(output.drop_first().drop_last()),
            output.last()@,
        );
    }
}

// ── Calling the hosted judge ─────────────────────────────────────────────────

/// How many times a call is sent before a network failure is final: the
/// configured retries, at least once.
pub fn hosted_attempts(max_retries: u32) -> (r: u32)
    ensures
        r == (if max_retries == 0 {
            1
        } else {
            max_retries
        }),
{
    if max_retries == 0 {
        1
    } else {
        max_retries
    }
}

/// What came back from one send.
#[derive(Debug)]
pub enum HostedReply {
    /// The service answered. `status` is the HTTP status as displayed
    /// (`404 Not Found`); `content` is the text the decoded answer holds,
    /// or why decoding failed.
    Answer { success: bool, status: String, body: String, content: Result<String, String> },
    /// The request did not complete.
    Network { message: String },
}

/// What to do after a send.
#[derive(Debug)]
pub enum HostedStep {
    /// Send again.
    Retry,
    /// The call is over: the judge's text, or the error.
    Finish { outcome: Result<String, String> },
}

/// The word an error message uses for the API of `style`.
pub open spec fn api_word(style: HostedJudgeApiStyle) -> Seq<char> {
    match style {
        HostedJudgeApiStyle::Responses => "Hosted Judge responses"@,
        _ => "Hosted Judge"@,
    }
}

/// The step after send number `attempt` (from 0) of `attempts`: an answer
/// ends the call (an HTTP failure or an undecodable answer is an error);
/// a network failure is retried until the last send, whose failure is
/// final.
pub open spec fn step_spec(style: HostedJudgeApiStyle, attempt: u32, attempts: u32, reply: HostedReply) -> HostedStepView {
    match reply {
        HostedReply::Answer { success, status, body, content } => if !success {
            HostedStepView::Finish(Err(api_word(style) + " request failed with HTTP "@ + status@ + ": "@ + trimmed(body@)))
        } else {
            match content {
                Ok(c) => HostedStepView::Finish(Ok(c@)),
                Err(e) => HostedStepView::Finish(Err(api_word(style) + " decode failed: "@ + e@)),
            }
        },
        HostedReply::Network { message } => if attempt + 1 < attempts {
            HostedStepView::Retry
        } else {
            HostedStepView::Finish(Err(api_word(style) + " request failed: "@ + message@))
        },
    }
}

/// A step as plain values.
pub enum HostedStepView {
    Retry,
    Finish(Result<Seq<char>, Seq<char>>),
}

pub open spec fn step_view(s: HostedStep) -> HostedStepView {
    match s {
        HostedStep::Retry => HostedStepView::Retry,
        HostedStep::Finish { outcome } => HostedStepView::Finish(
            match outcome {
                Ok(c) => Ok(c@),
                Err(e) => Err(e@),
            },
        ),
    }
}

fn word(style: HostedJudgeApiStyle) -> (r: String)
    ensures
        r@ == api_word(style),
{
    match style {
        HostedJudgeApiStyle::Responses => owned("Hosted Judge responses"),
        _ => owned("Hosted Judge"),
    }
}

/// Decides what follows a send to the hosted judge.
pub fn hosted_step(style: HostedJudgeApiStyle, attempt: u32, attempts: u32, reply: HostedReply) -> (r: HostedStep)
    ensures
        step_view(r) == step_spec(style, attempt, attempts, reply),
{
    let ghost rv = reply;
    match reply {
        HostedReply::Answer { success, status, body, content } => {
            if !success {
                let mut m = word(style);
                push_str(&mut m, " request failed with HTTP ");
                push_str(&mut m, status.as_str());
                push_str(&mut m, ": ");
                let t = trim(body.as_str());
                push_str(&mut m, t.as_str());
                HostedStep::Finish { outcome: Err(m) }
            } else {
                match content {
                    Ok(c) => HostedStep::Finish { outcome: Ok(c) },
                    Err(e) => {
                        let mut m = word(style);
                        push_str(&mut m, " decode failed: ");
                        push_str(&mut m, e.as_str());
                        HostedStep::Finish { outcome: Err(m) }
                    },
                }
            }
        },
        HostedReply::Network { message } => {
            if attempt < u32::MAX && attempt + 1 < attempts {
                HostedStep::Retry
            } else {
                let mut m = word(style);
                push_str(&mut m, " request failed: ");
                push_str(&mut m, message.as_str());
                HostedStep::Finish { outcome: Err(m) }
            }
        },
    }
}

/// The error of the auto style when both APIs failed.
pub fn auto_mode_error(chat_error: &str, responses_error: &str) -> (r: String)
    ensures
        r@ == "Hosted Judge auto mode failed for both chat_completions and responses. chat_completions: "@
            + chat_error@ + "; responses: "@ + responses_error@,
{
    let mut m = owned("Hosted Judge auto mode failed for both chat_completions and responses. chat_completions: ");
    push_str(&mut m, chat_error);
    push_str(&mut m, "; responses: ");
    push_str(&mut m, responses_error);
    m
}

} // verus!
