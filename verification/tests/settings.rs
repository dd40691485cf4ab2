use hamm0r::hosted::{HostedJudgeApiStyle, HostedJudgeProvider};
use hamm0r::settings::{
    default_hosted_api_style, default_hosted_provider, default_judge_mode, default_keychain_available,
    default_uses_default_judge_prompt, hosted_api_style_label, judge_mode_label, log_level_label,
    normalize_optional_text, parse_hosted_api_style, parse_hosted_provider, parse_judge_mode, parse_log_level,
    JudgeMode, LogLevel,
};

#[test]
fn log_levels_parse_case_and_space_insensitively() {
    assert_eq!(parse_log_level(" DEBUG "), Ok(LogLevel::Debug));
    assert_eq!(parse_log_level("Info"), Ok(LogLevel::Info));
    assert_eq!(parse_log_level("error"), Ok(LogLevel::Error));
    assert_eq!(parse_log_level(" Verbose "), Err("unsupported log level 'verbose'".to_owned()));
}

#[test]
fn labels_parse_back() {
    for l in [LogLevel::Error, LogLevel::Info, LogLevel::Debug] {
        assert_eq!(parse_log_level(log_level_label(l)), Ok(l));
    }
    for m in [JudgeMode::Local, JudgeMode::Hosted] {
        assert_eq!(parse_judge_mode(judge_mode_label(m)), Ok(m));
    }
    for s in [HostedJudgeApiStyle::Auto, HostedJudgeApiStyle::ChatCompletions, HostedJudgeApiStyle::Responses] {
        assert_eq!(parse_hosted_api_style(hosted_api_style_label(s)), Ok(s));
    }
}

#[test]
fn unknown_choices_are_refused_with_the_normalized_text() {
    assert_eq!(parse_judge_mode("Cloud"), Err("unsupported judge mode 'cloud'".to_owned()));
    assert_eq!(parse_hosted_provider("AZURE_OPENAI"), Ok(HostedJudgeProvider::AzureOpenAi));
    assert_eq!(parse_hosted_provider("openai"), Err("unsupported hosted judge provider 'openai'".to_owned()));
    assert_eq!(
        parse_hosted_api_style("Chat"),
        Err("unsupported hosted judge api style 'chat'".to_owned())
    );
}

#[test]
fn optional_text_is_trimmed_or_dropped() {
    assert_eq!(normalize_optional_text("  prompt.md "), Some("prompt.md".to_owned()));
    assert_eq!(normalize_optional_text(" \t\n"), None);
    assert_eq!(normalize_optional_text(""), None);
}

#[test]
fn defaults_match_the_stored_labels() {
    assert_eq!(default_judge_mode(), "local");
    assert_eq!(default_hosted_provider(), "azure_openai");
    assert_eq!(default_hosted_api_style(), "auto");
    assert!(default_uses_default_judge_prompt());
    assert!(default_keychain_available());
}
