//! Application settings as the user edits them: the labels each choice is
//! stored under, parsing those labels back, and the defaults.
use vstd::prelude::*;

use crate::hosted::{HostedJudgeApiStyle, HostedJudgeProvider};
use crate::text::{ascii_lower, ascii_lowercase, lemma_trimmed_idempotent, owned, push_str, str_eq, trim, trimmed};

verus! {

/// How much the application log records.
#[derive(Debug, Clone, Copy, PartialEq, Eq, Structural)]
pub enum LogLevel {
    Error,
    Info,
    Debug,
}

/// Which judge analyses runs: the bundled local model or a hosted one.
#[derive(Debug, Clone, Copy, PartialEq, Eq, Structural)]
pub enum JudgeMode {
    Local,
    Hosted,
}

/// A choice as the user typed it, compared: surrounding whitespace
/// dropped, ASCII letters lowered.
pub open spec fn normalized(s: Seq<char>) -> Seq<char> {
    trimmed(s).map_values(|c: char| ascii_lower(c))
}

fn normalize(s: &str) -> (r: String)
    ensures
        r@ == normalized(s@),
{
    let t = trim(s);
    ascii_lowercase(t.as_str())
}

fn unsupported(what: &str, other: &str) -> (r: String)
    ensures
        r@ == "unsupported "@ + what@ + " '"@ + other@ + "'"@,
{
    let mut r = owned("unsupported ");
    push_str(&mut r, what);
    push_str(&mut r, " '");
    push_str(&mut r, other);
    push_str(&mut r, "'");
    r
}

pub open spec fn log_level_text(level: LogLevel) -> Seq<char> {
    match level {
        LogLevel::Error => "error"@,
        LogLevel::Info => "info"@,
        LogLevel::Debug => "debug"@,
    }
}

/// The label a log level is stored under.
pub fn log_level_label(level: LogLevel) -> (r: &'static str)
    ensures
        r@ == log_level_text(level),
{
    match level {
        LogLevel::Error => "error",
        LogLevel::Info => "info",
        LogLevel::Debug => "debug",
    }
}

/// Reads a log level; the error names the normalized input.
pub fn parse_log_level(level: &str) -> (r: Result<LogLevel, String>)
    ensures
        match r {
            Ok(l) => log_level_text(l) == normalized(level@),
            Err(m) => (forall|l: LogLevel| log_level_text(l) != normalized(level@)) && m@ == "unsupported log level '"@
                + normalized(level@) + "'"@,
        },
{
    let n = normalize(level);
    proof {
        reveal_strlit("error");
        reveal_strlit("info");
        reveal_strlit("debug");
    }
    if str_eq(n.as_str(), "error") {
        Ok(LogLevel::Error)
    } else if str_eq(n.as_str(), "info") {
        Ok(LogLevel::Info)
    } else if str_eq(n.as_str(), "debug") {
        Ok(LogLevel::Debug)
    } else {
        assert forall|l: LogLevel| log_level_text(l) != normalized(level@) by {}
        let e = unsupported("log level", n.as_str());
        proof {
            reveal_strlit("unsupported ");
            reveal_strlit("log level");
            reveal_strlit(" '");
            reveal_strlit("unsupported log level '");
            assert("unsupported "@ + "log level"@ + " '"@ =~= "unsupported log level '"@);
            assert(e@ =~= "unsupported log level '"@ + n@ + "'"@);
        }
        Err(e)
    }
}

/// The rank of a level: a message is written when its rank is at most the
/// configured level's.
pub open spec fn level_rank_of(level: LogLevel) -> u8 {
    match level {
        LogLevel::Error => 0,
        LogLevel::Info => 1,
        LogLevel::Debug => 2,
    }
}

pub fn level_rank(level: LogLevel) -> (r: u8)
    ensures
        r == level_rank_of(level),
{
    match level {
        LogLevel::Error => 0,
        LogLevel::Info => 1,
        LogLevel::Debug => 2,
    }
}

/// Whether a message of `level` is written under the logging settings.
pub fn should_log(enabled: bool, configured: LogLevel, level: LogLevel) -> (r: bool)
    ensures
        r == (enabled && level_rank_of(level) <= level_rank_of(configured)),
{
    enabled && level_rank(level) <= level_rank(configured)
}

pub open spec fn judge_mode_text(mode: JudgeMode) -> Seq<char> {
    match mode {
        JudgeMode::Local => "local"@,
        JudgeMode::Hosted => "hosted"@,
    }
}

/// The label a judge mode is stored under.
pub fn judge_mode_label(mode: JudgeMode) -> (r: &'static str)
    ensures
        r@ == judge_mode_text(mode),
{
    match mode {
        JudgeMode::Local => "local",
        JudgeMode::Hosted => "hosted",
    }
}

/// Reads a judge mode; the error names the normalized input.
pub fn parse_judge_mode(mode: &str) -> (r: Result<JudgeMode, String>)
    ensures
        match r {
            Ok(m) => judge_mode_text(m) == normalized(mode@),
            Err(e) => (forall|m: JudgeMode| judge_mode_text(m) != normalized(mode@)) && e@ == "unsupported judge mode '"@
                + normalized(mode@) + "'"@,
        },
{
    let n = normalize(mode);
    proof {
        reveal_strlit("local");
        reveal_strlit("hosted");
    }
    if str_eq(n.as_str(), "local") {
        Ok(JudgeMode::Local)
    } else if str_eq(n.as_str(), "hosted") {
        Ok(JudgeMode::Hosted)
    } else {
        assert forall|m: JudgeMode| judge_mode_text(m) != normalized(mode@) by {}
        let e = unsupported("judge mode", n.as_str());
        proof {
            reveal_strlit("unsupported ");
            reveal_strlit("judge mode");
            reveal_strlit(" '");
            reveal_strlit("unsupported judge mode '");
            assert("unsupported "@ + "judge mode"@ + " '"@ =~= "unsupported judge mode '"@);
            assert(e@ =~= "unsupported judge mode '"@ + n@ + "'"@);
        }
        Err(e)
    }
}

pub open spec fn provider_text(p: HostedJudgeProvider) -> Seq<char> {
    match p {
        HostedJudgeProvider::AzureOpenAi => "azure_openai"@,
    }
}

/// The label a hosted judge provider is stored under.
pub fn hosted_provider_label(provider: HostedJudgeProvider) -> (r: &'static str)
    ensures
        r@ == provider_text(provider),
{
    match provider {
        HostedJudgeProvider::AzureOpenAi => "azure_openai",
    }
}

/// Reads a hosted judge provider; the error names the normalized input.
pub fn parse_hosted_provider(provider: &str) -> (r: Result<HostedJudgeProvider, String>)
    ensures
        match r {
            Ok(p) => provider_text(p) == normalized(provider@),
            Err(e) => (forall|p: HostedJudgeProvider| provider_text(p) != normalized(provider@)) && e@
                == "unsupported hosted judge provider '"@ + normalized(provider@) + "'"@,
        },
{
    let n = normalize(provider);
    if str_eq(n.as_str(), "azure_openai") {
        Ok(HostedJudgeProvider::AzureOpenAi)
    } else {
        assert forall|p: HostedJudgeProvider| provider_text(p) != normalized(provider@) by {}
        let e = unsupported("hosted judge provider", n.as_str());
        proof {
            reveal_strlit("unsupported ");
            reveal_strlit("hosted judge provider");
            reveal_strlit(" '");
            reveal_strlit("unsupported hosted judge provider '");
            assert("unsupported "@ + "hosted judge provider"@ + " '"@ =~= "unsupported hosted judge provider '"@);
            assert(e@ =~= "unsupported hosted judge provider '"@ + n@ + "'"@);
        }
        Err(e)
    }
}

pub open spec fn api_style_text(s: HostedJudgeApiStyle) -> Seq<char> {
    match s {
        HostedJudgeApiStyle::Auto => "auto"@,
        HostedJudgeApiStyle::ChatCompletions => "chat_completions"@,
        HostedJudgeApiStyle::Responses => "responses"@,
    }
}

/// The label a hosted API style is stored under.
pub fn hosted_api_style_label(style: HostedJudgeApiStyle) -> (r: &'static str)
    ensures
        r@ == api_style_text(style),
{
    match style {
        HostedJudgeApiStyle::Auto => "auto",
        HostedJudgeApiStyle::ChatCompletions => "chat_completions",
        HostedJudgeApiStyle::Responses => "responses",
    }
}

/// Reads a hosted API style; the error names the normalized input.
pub fn parse_hosted_api_style(style: &str) -> (r: Result<HostedJudgeApiStyle, String>)
    ensures
        match r {
            Ok(s) => api_style_text(s) == normalized(style@),
            Err(e) => (forall|s: HostedJudgeApiStyle| api_style_text(s) != normalized(style@)) && e@
                == "unsupported hosted judge api style '"@ + normalized(style@) + "'"@,
        },
{
    let n = normalize(style);
    proof {
        reveal_strlit("auto");
        reveal_strlit("chat_completions");
        reveal_strlit("responses");
    }
    if str_eq(n.as_str(), "auto") {
        Ok(HostedJudgeApiStyle::Auto)
    } else if str_eq(n.as_str(), "chat_completions") {
        Ok(HostedJudgeApiStyle::ChatCompletions)
    } else if str_eq(n.as_str(), "responses") {
        Ok(HostedJudgeApiStyle::Responses)
    } else {
        assert forall|s: HostedJudgeApiStyle| api_style_text(s) != normalized(style@) by {}
        let e = unsupported("hosted judge api style", n.as_str());
        proof {
            reveal_strlit("unsupported ");
            reveal_strlit("hosted judge api style");
            reveal_strlit(" '");
            reveal_strlit("unsupported hosted judge api style '");
            assert("unsupported "@ + "hosted judge api style"@ + " '"@ =~= "unsupported hosted judge api style '"@);
            assert(e@ =~= "unsupported hosted judge api style '"@ + n@ + "'"@);
        }
        Err(e)
    }
}

/// A text field that may be left blank: trimmed, and `None` when nothing
/// is left.
pub fn normalize_optional_text(value: &str) -> (r: Option<String>)
    ensures
        match r {
            Some(t) => t@ == trimmed(value@) && t@.len() > 0,
            None => trimmed(value@).len() == 0,
        },
{
    let t = trim(value);
    if t.as_str().is_empty() {
        None
    } else {
        Some(t)
    }
}

/// The judge mode of settings that name none.
pub fn default_judge_mode() -> (r: String)
    ensures
        r@ == "local"@,
{
    owned("local")
}

/// Settings that say nothing use the bundled judge prompt.
pub fn default_uses_default_judge_prompt() -> (r: bool)
    ensures
        r,
{
    true
}

/// The hosted provider of settings that name none.
pub fn default_hosted_provider() -> (r: String)
    ensures
        r@ == "azure_openai"@,
{
    owned("azure_openai")
}

/// The hosted API style of settings that name none.
pub fn default_hosted_api_style() -> (r: String)
    ensures
        r@ == "auto"@,
{
    owned("auto")
}

/// Settings that say nothing assume a usable keychain.
pub fn default_keychain_available() -> (r: bool)
    ensures
        r,
{
    true
}

proof fn lemma_plain_label(s: Seq<char>)
    requires
        s.len() > 0,
        !crate::text::is_unicode_whitespace(s[0]),
        !crate::text::is_unicode_whitespace(s.last()),
        forall|k: int| 0 <= k < s.len() ==> !crate::text::is_ascii_upper(#[trigger] s[k]),
    ensures
        normalized(s) == s,
{
    assert(s.subrange(0, s.len() as int) =~= s);
    assert(s.map_values(|c: char| ascii_lower(c)) =~= s);
}

/// Labels read back as the choice they name.
pub proof fn lemma_labels_round_trip(level: LogLevel, mode: JudgeMode, style: HostedJudgeApiStyle)
    ensures
        normalized(log_level_text(level)) == log_level_text(level),
        normalized(judge_mode_text(mode)) == judge_mode_text(mode),
        normalized(api_style_text(style)) == api_style_text(style),
{
    reveal_strlit("error");
    reveal_strlit("info");
    reveal_strlit("debug");
    reveal_strlit("local");
    reveal_strlit("hosted");
    reveal_strlit("auto");
    reveal_strlit("chat_completions");
    reveal_strlit("responses");
    lemma_plain_label(log_level_text(level));
    lemma_plain_label(judge_mode_text(mode));
    lemma_plain_label(api_style_text(style));
}

// ── The settings page ────────────────────────────────────────────────────────

/// Logging settings as the settings page shows and submits them.
#[derive(Debug, Clone, PartialEq, Eq, Default)]
pub struct LoggingSettingsDto {
    pub enabled: bool,
    pub level: String,
    pub body_logging_enabled: bool,
}

/// Hosted judge settings as the settings page shows and submits them.
#[derive(Debug, Clone, PartialEq, Eq)]
pub struct HostedJudgeSettingsDto {
    pub provider: String,
    pub endpoint: String,
    pub deployment: String,
    pub api_style: String,
    pub api_version: String,
    pub secret_ref: String,
    /// Shown only: whether the keychain holds the referenced secret.
    pub secret_stored: bool,
    /// Shown only: whether a keychain can be used at all.
    pub keychain_available: bool,
    pub max_input_chars: u32,
    pub max_output_tokens: u32,
    pub request_timeout_seconds: u32,
    pub max_retries: u32,
}

/// Analyzer settings as the settings page shows and submits them.
#[derive(Debug, Clone, PartialEq, Eq)]
pub struct AnalyzerSettingsDto {
    pub judge_mode: String,
    pub judge_prompt_template: String,
    /// Shown only: the bundled judge prompt.
    pub default_judge_prompt_template: String,
    /// Shown only: whether the bundled judge prompt is in use.
    pub uses_default_judge_prompt: bool,
    pub hosted_judge: HostedJudgeSettingsDto,
}

/// All settings as the settings page shows and submits them.
#[derive(Debug, Clone, PartialEq, Eq)]
pub struct AppSettingsDto {
    pub app_version: String,
    pub analyzer: AnalyzerSettingsDto,
    pub logging: LoggingSettingsDto,
}

/// Hosted judge settings as the application config stores them.
#[derive(Debug, Clone, PartialEq, Eq)]
pub struct HostedJudgeSettings {
    pub provider: HostedJudgeProvider,
    pub endpoint: String,
    pub deployment: String,
    pub api_style: HostedJudgeApiStyle,
    pub api_version: Option<String>,
    pub secret_ref: String,
    pub max_input_chars: u32,
    pub max_output_tokens: u32,
    pub request_timeout_seconds: u32,
    pub max_retries: u32,
}

/// The settings part of the application config.
#[derive(Debug, Clone, PartialEq, Eq)]
pub struct StoredSettings {
    pub judge_mode: JudgeMode,
    /// The custom judge prompt; `None` means the bundled one.
    pub judge_prompt_template: Option<String>,
    pub hosted_judge: HostedJudgeSettings,
    pub logging_enabled: bool,
    pub log_level: LogLevel,
    pub body_logging_enabled: bool,
}

pub open spec fn judge_mode_of(s: Seq<char>) -> Option<JudgeMode> {
    if normalized(s) == "local"@ {
        Some(JudgeMode::Local)
    } else if normalized(s) == "hosted"@ {
        Some(JudgeMode::Hosted)
    } else {
        None
    }
}

pub open spec fn provider_of(s: Seq<char>) -> Option<HostedJudgeProvider> {
    if normalized(s) == "azure_openai"@ {
        Some(HostedJudgeProvider::AzureOpenAi)
    } else {
        None
    }
}

pub open spec fn api_style_of(s: Seq<char>) -> Option<HostedJudgeApiStyle> {
    if normalized(s) == "auto"@ {
        Some(HostedJudgeApiStyle::Auto)
    } else if normalized(s) == "chat_completions"@ {
        Some(HostedJudgeApiStyle::ChatCompletions)
    } else if normalized(s) == "responses"@ {
        Some(HostedJudgeApiStyle::Responses)
    } else {
        None
    }
}

pub open spec fn log_level_of(s: Seq<char>) -> Option<LogLevel> {
    if normalized(s) == "error"@ {
        Some(LogLevel::Error)
    } else if normalized(s) == "info"@ {
        Some(LogLevel::Info)
    } else if normalized(s) == "debug"@ {
        Some(LogLevel::Debug)
    } else {
        None
    }
}

proof fn lemma_judge_mode_of(s: Seq<char>, r: Result<JudgeMode, String>)
    requires
        match r {
            Ok(m) => judge_mode_text(m) == normalized(s),
            Err(_) => forall|m: JudgeMode| judge_mode_text(m) != normalized(s),
        },
    ensures
        match r {
            Ok(m) => judge_mode_of(s) == Some(m),
            Err(_) => judge_mode_of(s) is None,
        },
{
    reveal_strlit("local");
    reveal_strlit("hosted");
    assert("local"@.len() != "hosted"@.len());
    if r is Err {
        assert(judge_mode_text(JudgeMode::Local) != normalized(s));
        assert(judge_mode_text(JudgeMode::Hosted) != normalized(s));
    }
}

proof fn lemma_provider_of(s: Seq<char>, r: Result<HostedJudgeProvider, String>)
    requires
        match r {
            Ok(p) => provider_text(p) == normalized(s),
            Err(_) => forall|p: HostedJudgeProvider| provider_text(p) != normalized(s),
        },
    ensures
        match r {
            Ok(p) => provider_of(s) == Some(p),
            Err(_) => provider_of(s) is None,
        },
{
    if r is Err {
        assert(provider_text(HostedJudgeProvider::AzureOpenAi) != normalized(s));
    }
}

proof fn lemma_api_style_of(s: Seq<char>, r: Result<HostedJudgeApiStyle, String>)
    requires
        match r {
            Ok(t) => api_style_text(t) == normalized(s),
            Err(_) => forall|t: HostedJudgeApiStyle| api_style_text(t) != normalized(s),
        },
    ensures
        match r {
            Ok(t) => api_style_of(s) == Some(t),
            Err(_) => api_style_of(s) is None,
        },
{
    reveal_strlit("auto");
    reveal_strlit("chat_completions");
    reveal_strlit("responses");
    assert("auto"@.len() != "chat_completions"@.len());
    assert("auto"@.len() != "responses"@.len());
    assert("chat_completions"@.len() != "responses"@.len());
    if r is Err {
        assert(api_style_text(HostedJudgeApiStyle::Auto) != normalized(s));
        assert(api_style_text(HostedJudgeApiStyle::ChatCompletions) != normalized(s));
        assert(api_style_text(HostedJudgeApiStyle::Responses) != normalized(s));
    }
}

proof fn lemma_log_level_of(s: Seq<char>, r: Result<LogLevel, String>)
    requires
        match r {
            Ok(l) => log_level_text(l) == normalized(s),
            Err(_) => forall|l: LogLevel| log_level_text(l) != normalized(s),
        },
    ensures
        match r {
            Ok(l) => log_level_of(s) == Some(l),
            Err(_) => log_level_of(s) is None,
        },
{
    reveal_strlit("error");
    reveal_strlit("info");
    reveal_strlit("debug");
    assert("error"@.len() != "info"@.len());
    assert("debug"@.len() != "info"@.len());
    assert("error"@[0] != "debug"@[0]);
    if r is Err {
        assert(log_level_text(LogLevel::Error) != normalized(s));
        assert(log_level_text(LogLevel::Info) != normalized(s));
        assert(log_level_text(LogLevel::Debug) != normalized(s));
    }
}

/// The secret reference stored for what was entered: trimmed, or the
/// default reference when blank.
pub open spec fn secret_ref_value(value: Seq<char>, default_ref: Seq<char>) -> Seq<char> {
    if trimmed(value).len() == 0 {
        default_ref
    } else {
        trimmed(value)
    }
}

/// A secret reference as entered, normalized: trimmed, or `default_ref`
/// when nothing is left.
pub fn normalize_secret_ref(value: &str, default_ref: &str) -> (r: String)
    ensures
        r@ == secret_ref_value(value@, default_ref@),
{
    let t = trim(value);
    if t.as_str().is_empty() {
        owned(default_ref)
    } else {
        t
    }
}

/// The custom judge prompt stored for what was entered: none when the
/// entry is blank or is the bundled prompt (both compared trimmed).
pub open spec fn prompt_override(requested: Seq<char>, default_prompt: Seq<char>) -> Option<Seq<char>> {
    if trimmed(requested).len() == 0 || trimmed(requested) == trimmed(default_prompt) {
        None
    } else {
        Some(trimmed(requested))
    }
}

pub open spec fn optional_text(value: Seq<char>) -> Option<Seq<char>> {
    if trimmed(value).len() == 0 {
        None
    } else {
        Some(trimmed(value))
    }
}

pub open spec fn at_least_u32(v: u32, floor: u32) -> u32 {
    if v < floor {
        floor
    } else {
        v
    }
}

/// The first error submitted settings meet, in the order they are read:
/// judge mode, provider, API style, the hosted judge's secret reference,
/// log level.
pub open spec fn settings_error(dto: AppSettingsDto, default_ref: Seq<char>) -> Option<Seq<char>> {
    let a = dto.analyzer;
    let h = a.hosted_judge;
    if judge_mode_of(a.judge_mode@) is None {
        Some("unsupported judge mode '"@ + normalized(a.judge_mode@) + "'"@)
    } else if provider_of(h.provider@) is None {
        Some("unsupported hosted judge provider '"@ + normalized(h.provider@) + "'"@)
    } else if api_style_of(h.api_style@) is None {
        Some("unsupported hosted judge api style '"@ + normalized(h.api_style@) + "'"@)
    } else if judge_mode_of(a.judge_mode@) == Some(JudgeMode::Hosted) && trimmed(
        secret_ref_value(h.secret_ref@, default_ref),
    ).len() == 0 {
        Some("Hosted Judge requires a non-empty API key reference."@)
    } else if log_level_of(dto.logging.level@) is None {
        Some("unsupported log level '"@ + normalized(dto.logging.level@) + "'"@)
    } else {
        None
    }
}

/// `s` is what accepted settings `dto` are stored as.
pub open spec fn stored_from(s: StoredSettings, dto: AppSettingsDto, default_prompt: Seq<char>, default_ref: Seq<char>) -> bool {
    let a = dto.analyzer;
    let h = a.hosted_judge;
    &&& judge_mode_of(a.judge_mode@) == Some(s.judge_mode)
    &&& crate::hosted::opt_string_view(s.judge_prompt_template) == prompt_override(a.judge_prompt_template@, default_prompt)
    &&& provider_of(h.provider@) == Some(s.hosted_judge.provider)
    &&& s.hosted_judge.endpoint@ == trimmed(h.endpoint@)
    &&& s.hosted_judge.deployment@ == trimmed(h.deployment@)
    &&& api_style_of(h.api_style@) == Some(s.hosted_judge.api_style)
    &&& crate::hosted::opt_string_view(s.hosted_judge.api_version) == optional_text(h.api_version@)
    &&& s.hosted_judge.secret_ref@ == secret_ref_value(h.secret_ref@, default_ref)
    &&& s.hosted_judge.max_input_chars == at_least_u32(h.max_input_chars, 1000)
    &&& s.hosted_judge.max_output_tokens == at_least_u32(h.max_output_tokens, 1)
    &&& s.hosted_judge.request_timeout_seconds == at_least_u32(h.request_timeout_seconds, 1)
    &&& s.hosted_judge.max_retries == h.max_retries
    &&& s.logging_enabled == dto.logging.enabled
    &&& log_level_of(dto.logging.level@) == Some(s.log_level)
    &&& s.body_logging_enabled == dto.logging.body_logging_enabled
}

fn prompt_to_store(requested: &str, default_prompt: &str) -> (r: Option<String>)
    ensures
        crate::hosted::opt_string_view(r) == prompt_override(requested@, default_prompt@),
{
    let t = trim(requested);
    let d = trim(default_prompt);
    if t.as_str().is_empty() || str_eq(t.as_str(), d.as_str()) {
        None
    } else {
        Some(t)
    }
}

/// Reads submitted settings into what the config stores. Choices are read
/// case-insensitively; text is trimmed; a blank or bundled judge prompt is
/// stored as none; the input limit is raised to at least 1000 characters and
/// the output limit and timeout to at least 1; a hosted judge needs a
/// secret reference. The shown-only fields are ignored.
pub fn apply_settings(dto: &AppSettingsDto, default_prompt: &str, default_ref: &str) -> (r: Result<StoredSettings, String>)
    ensures
        match r {
            Ok(s) => settings_error(*dto, default_ref@) is None && stored_from(s, *dto, default_prompt@, default_ref@),
            Err(e) => settings_error(*dto, default_ref@) == Some(e@),
        },
{
    let a = &dto.analyzer;
    let h = &a.hosted_judge;
    let mode_r = parse_judge_mode(a.judge_mode.as_str());
    proof { lemma_judge_mode_of(a.judge_mode@, mode_r); }
    let judge_mode = match mode_r {
        Ok(m) => m,
        Err(e) => {
            return Err(e);
        },
    };
    let judge_prompt_template = prompt_to_store(a.judge_prompt_template.as_str(), default_prompt);
    let provider_r = parse_hosted_provider(h.provider.as_str());
    proof { lemma_provider_of(h.provider@, provider_r); }
    let provider = match provider_r {
        Ok(p) => p,
        Err(e) => {
            return Err(e);
        },
    };
    let endpoint = trim(h.endpoint.as_str());
    let deployment = trim(h.deployment.as_str());
    let style_r = parse_hosted_api_style(h.api_style.as_str());
    proof { lemma_api_style_of(h.api_style@, style_r); }
    let api_style = match style_r {
        Ok(t) => t,
        Err(e) => {
            return Err(e);
        },
    };
    let api_version = normalize_optional_text(h.api_version.as_str());
    let secret_ref = normalize_secret_ref(h.secret_ref.as_str(), default_ref);
    let max_input_chars = if h.max_input_chars < 1000 { 1000 } else { h.max_input_chars };
    let max_output_tokens = if h.max_output_tokens < 1 { 1 } else { h.max_output_tokens };
    let request_timeout_seconds = if h.request_timeout_seconds < 1 { 1 } else { h.request_timeout_seconds };
    let secret_trimmed = trim(secret_ref.as_str());
    if judge_mode == JudgeMode::Hosted && secret_trimmed.as_str().is_empty() {
        proof { reveal_strlit("Hosted Judge requires a non-empty API key reference."); }
        return Err(owned("Hosted Judge requires a non-empty API key reference."));
    }
    let level_r = parse_log_level(dto.logging.level.as_str());
    proof { lemma_log_level_of(dto.logging.level@, level_r); }
    let log_level = match level_r {
        Ok(l) => l,
        Err(e) => {
            return Err(e);
        },
    };
    Ok(StoredSettings {
        judge_mode,
        judge_prompt_template,
        hosted_judge: HostedJudgeSettings {
            provider,
            endpoint,
            deployment,
            api_style,
            api_version,
            secret_ref,
            max_input_chars,
            max_output_tokens,
            request_timeout_seconds,
            max_retries: h.max_retries,
        },
        logging_enabled: dto.logging.enabled,
        log_level,
        body_logging_enabled: dto.logging.body_logging_enabled,
    })
}

/// The custom judge prompt in effect: a stored prompt that is not blank.
pub open spec fn configured_prompt(t: Option<String>) -> Option<Seq<char>> {
    match t {
        Some(p) => if trimmed(p@).len() == 0 {
            None
        } else {
            Some(p@)
        },
        None => None,
    }
}

/// `r` shows the stored settings `s` on the settings page: each choice
/// by its label, the judge prompt in effect (the bundled `default_prompt`
/// unless a custom one is configured), the rest as stored.
pub open spec fn shows(r: AppSettingsDto, s: StoredSettings, default_prompt: Seq<char>) -> bool {
    let h = r.analyzer.hosted_judge;
    &&& r.analyzer.judge_mode@ == judge_mode_text(s.judge_mode)
    &&& r.analyzer.judge_prompt_template@ == match configured_prompt(s.judge_prompt_template) {
        Some(p) => p,
        None => default_prompt,
    }
    &&& h.provider@ == provider_text(s.hosted_judge.provider)
    &&& h.endpoint == s.hosted_judge.endpoint
    &&& h.deployment == s.hosted_judge.deployment
    &&& h.api_style@ == api_style_text(s.hosted_judge.api_style)
    &&& h.api_version@ == match s.hosted_judge.api_version {
        Some(v) => v@,
        None => Seq::<char>::empty(),
    }
    &&& h.secret_ref == s.hosted_judge.secret_ref
    &&& h.max_input_chars == s.hosted_judge.max_input_chars
    &&& h.max_output_tokens == s.hosted_judge.max_output_tokens
    &&& h.request_timeout_seconds == s.hosted_judge.request_timeout_seconds
    &&& h.max_retries == s.hosted_judge.max_retries
    &&& r.logging.enabled == s.logging_enabled
    &&& r.logging.level@ == log_level_text(s.log_level)
    &&& r.logging.body_logging_enabled == s.body_logging_enabled
}

/// The settings page's view of stored settings: each choice by its label,
/// the judge prompt in effect (the bundled one unless a custom one is
/// configured), and the keychain status found for the secret reference.
pub fn settings_dto(stored: &StoredSettings, default_prompt: &str, secret_stored: bool, keychain_available: bool) -> (r: AppSettingsDto)
    ensures
        shows(r, *stored, default_prompt@),
        r.app_version@ == "0.4"@,
        r.analyzer.default_judge_prompt_template@ == default_prompt@,
        r.analyzer.uses_default_judge_prompt == configured_prompt(stored.judge_prompt_template) is None,
        r.analyzer.hosted_judge.secret_stored == secret_stored,
        r.analyzer.hosted_judge.keychain_available == keychain_available,
{
    let configured: Option<String> = match &stored.judge_prompt_template {
        Some(p) => {
            let t = trim(p.as_str());
            if t.as_str().is_empty() {
                None
            } else {
                Some(p.clone())
            }
        },
        None => None,
    };
    let uses_default = configured.is_none();
    let prompt = match configured {
        Some(p) => p,
        None => owned(default_prompt),
    };
    let api_version = match &stored.hosted_judge.api_version {
        Some(v) => v.clone(),
        None => String::new(),
    };
    AppSettingsDto {
        app_version: owned("0.4"),
        analyzer: AnalyzerSettingsDto {
            judge_mode: owned(judge_mode_label(stored.judge_mode)),
            judge_prompt_template: prompt,
            default_judge_prompt_template: owned(default_prompt),
            uses_default_judge_prompt: uses_default,
            hosted_judge: HostedJudgeSettingsDto {
                provider: owned(hosted_provider_label(stored.hosted_judge.provider)),
                endpoint: stored.hosted_judge.endpoint.clone(),
                deployment: stored.hosted_judge.deployment.clone(),
                api_style: owned(hosted_api_style_label(stored.hosted_judge.api_style)),
                api_version,
                secret_ref: stored.hosted_judge.secret_ref.clone(),
                secret_stored,
                keychain_available,
                max_input_chars: stored.hosted_judge.max_input_chars,
                max_output_tokens: stored.hosted_judge.max_output_tokens,
                request_timeout_seconds: stored.hosted_judge.request_timeout_seconds,
                max_retries: stored.hosted_judge.max_retries,
            },
        },
        logging: LoggingSettingsDto {
            enabled: stored.logging_enabled,
            level: owned(log_level_label(stored.log_level)),
            body_logging_enabled: stored.body_logging_enabled,
        },
    }
}

/// Saving the settings page exactly as it shows stored settings stores
/// them unchanged: the shown settings are accepted, and `stored` is what
/// they are read back as (the default secret reference being free of
/// surrounding whitespace).
pub proof fn lemma_saving_shown_settings_keeps_them(
    dto: AppSettingsDto,
    default_prompt: Seq<char>,
    default_ref: Seq<char>,
    stored: StoredSettings,
    shown: AppSettingsDto,
)
    requires
        settings_error(dto, default_ref) is None,
        stored_from(stored, dto, default_prompt, default_ref),
        trimmed(default_ref) == default_ref,
        shows(shown, stored, default_prompt),
    ensures
        settings_error(shown, default_ref) is None,
        stored_from(stored, shown, default_prompt, default_ref),
{
    let a = dto.analyzer;
    let h = a.hosted_judge;
    let sh = shown.analyzer.hosted_judge;
    lemma_labels_round_trip(stored.log_level, stored.judge_mode, stored.hosted_judge.api_style);
    reveal_strlit("local");
    reveal_strlit("hosted");
    reveal_strlit("azure_openai");
    reveal_strlit("auto");
    reveal_strlit("chat_completions");
    reveal_strlit("responses");
    reveal_strlit("error");
    reveal_strlit("info");
    reveal_strlit("debug");
    assert("local"@.len() != "hosted"@.len());
    assert("auto"@.len() != "chat_completions"@.len());
    assert("auto"@.len() != "responses"@.len());
    assert("chat_completions"@.len() != "responses"@.len());
    assert("error"@.len() != "info"@.len());
    assert("debug"@.len() != "info"@.len());
    assert("error"@[0] != "debug"@[0]);
    lemma_plain_label("azure_openai"@);
    // text fields were stored trimmed
    lemma_trimmed_idempotent(h.endpoint@);
    lemma_trimmed_idempotent(h.deployment@);
    lemma_trimmed_idempotent(h.api_version@);
    lemma_trimmed_idempotent(h.secret_ref@);
    lemma_trimmed_idempotent(a.judge_prompt_template@);
    assert(trimmed(Seq::<char>::empty()) =~= Seq::<char>::empty());
    assert(secret_ref_value(sh.secret_ref@, default_ref) == stored.hosted_judge.secret_ref@);
    match stored.judge_prompt_template {
        Some(p) => {
            assert(configured_prompt(stored.judge_prompt_template) == Some(p@));
        },
        None => {},
    }
}

} // verus!
