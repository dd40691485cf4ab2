use hamm0r::error::CommandError;
use hamm0r::hosted::{HostedJudgeApiStyle, HostedJudgeProvider};
use hamm0r::settings::{
    apply_settings, normalize_secret_ref, settings_dto, AnalyzerSettingsDto, AppSettingsDto,
    HostedJudgeSettingsDto, JudgeMode, LogLevel, LoggingSettingsDto,
};

const DEFAULT_PROMPT: &str = "You are a judge.\n";
const DEFAULT_REF: &str = "HOSTED_JUDGE_API_KEY";

fn dto() -> AppSettingsDto {
    AppSettingsDto {
        app_version: String::new(),
        analyzer: AnalyzerSettingsDto {
            judge_mode: " Hosted ".to_string(),
            judge_prompt_template: "  custom prompt  ".to_string(),
            default_judge_prompt_template: String::new(),
            uses_default_judge_prompt: true,
            hosted_judge: HostedJudgeSettingsDto {
                provider: "AZURE_OPENAI".to_string(),
                endpoint: " https://example.openai.azure.com ".to_string(),
                deployment: " gpt-5.2-chat ".to_string(),
                api_style: "Chat_Completions".to_string(),
                api_version: "  ".to_string(),
                secret_ref: " MY_KEY ".to_string(),
                secret_stored: true,
                keychain_available: false,
                max_input_chars: 10,
                max_output_tokens: 0,
                request_timeout_seconds: 0,
                max_retries: 3,
            },
        },
        logging: LoggingSettingsDto {
            enabled: true,
            level: "INFO".to_string(),
            body_logging_enabled: false,
        },
    }
}

#[test]
fn secret_ref_is_trimmed_or_defaulted() {
    assert_eq!(normalize_secret_ref("  KEY ", DEFAULT_REF), "KEY");
    assert_eq!(normalize_secret_ref("   ", DEFAULT_REF), DEFAULT_REF);
}

#[test]
fn apply_settings_normalizes_and_clamps() {
    let s = apply_settings(&dto(), DEFAULT_PROMPT, DEFAULT_REF).unwrap();
    assert_eq!(s.judge_mode, JudgeMode::Hosted);
    assert_eq!(s.judge_prompt_template.as_deref(), Some("custom prompt"));
    assert_eq!(s.hosted_judge.provider, HostedJudgeProvider::AzureOpenAi);
    assert_eq!(s.hosted_judge.endpoint, "https://example.openai.azure.com");
    assert_eq!(s.hosted_judge.deployment, "gpt-5.2-chat");
    assert_eq!(s.hosted_judge.api_style, HostedJudgeApiStyle::ChatCompletions);
    assert_eq!(s.hosted_judge.api_version, None);
    assert_eq!(s.hosted_judge.secret_ref, "MY_KEY");
    assert_eq!(s.hosted_judge.max_input_chars, 1000);
    assert_eq!(s.hosted_judge.max_output_tokens, 1);
    assert_eq!(s.hosted_judge.request_timeout_seconds, 1);
    assert_eq!(s.hosted_judge.max_retries, 3);
    assert!(s.logging_enabled);
    assert_eq!(s.log_level, LogLevel::Info);
    assert!(!s.body_logging_enabled);
}

#[test]
fn bundled_or_blank_prompt_is_stored_as_none() {
    let mut d = dto();
    d.analyzer.judge_prompt_template = " You are a judge. ".to_string();
    let s = apply_settings(&d, DEFAULT_PROMPT, DEFAULT_REF).unwrap();
    assert_eq!(s.judge_prompt_template, None);
    d.analyzer.judge_prompt_template = "\n".to_string();
    let s = apply_settings(&d, DEFAULT_PROMPT, DEFAULT_REF).unwrap();
    assert_eq!(s.judge_prompt_template, None);
}

#[test]
fn apply_settings_reports_the_first_bad_choice() {
    let mut d = dto();
    d.analyzer.judge_mode = "Cloud".to_string();
    d.analyzer.hosted_judge.provider = "openai".to_string();
    assert_eq!(
        apply_settings(&d, DEFAULT_PROMPT, DEFAULT_REF),
        Err("unsupported judge mode 'cloud'".to_string())
    );
    d.analyzer.judge_mode = "local".to_string();
    assert_eq!(
        apply_settings(&d, DEFAULT_PROMPT, DEFAULT_REF),
        Err("unsupported hosted judge provider 'openai'".to_string())
    );
    d.analyzer.hosted_judge.provider = "azure_openai".to_string();
    d.analyzer.hosted_judge.api_style = "batch".to_string();
    assert_eq!(
        apply_settings(&d, DEFAULT_PROMPT, DEFAULT_REF),
        Err("unsupported hosted judge api style 'batch'".to_string())
    );
    d.analyzer.hosted_judge.api_style = "auto".to_string();
    d.logging.level = "Trace".to_string();
    assert_eq!(
        apply_settings(&d, DEFAULT_PROMPT, DEFAULT_REF),
        Err("unsupported log level 'trace'".to_string())
    );
}

#[test]
fn hosted_judge_needs_a_secret_reference() {
    let mut d = dto();
    d.analyzer.hosted_judge.secret_ref = " ".to_string();
    assert_eq!(
        apply_settings(&d, DEFAULT_PROMPT, " "),
        Err("Hosted Judge requires a non-empty API key reference.".to_string())
    );
    d.analyzer.judge_mode = "local".to_string();
    let s = apply_settings(&d, DEFAULT_PROMPT, " ").unwrap();
    assert_eq!(s.hosted_judge.secret_ref, " ");
    let s = apply_settings(&d, DEFAULT_PROMPT, DEFAULT_REF).unwrap();
    assert_eq!(s.hosted_judge.secret_ref, DEFAULT_REF);
}

#[test]
fn settings_page_shows_labels_and_effective_prompt() {
    let mut d = dto();
    d.analyzer.hosted_judge.api_version = " 2024-10-21 ".to_string();
    let s = apply_settings(&d, DEFAULT_PROMPT, DEFAULT_REF).unwrap();
    let shown = settings_dto(&s, DEFAULT_PROMPT, true, true);
    assert_eq!(shown.app_version, "0.4");
    assert_eq!(shown.analyzer.judge_mode, "hosted");
    assert_eq!(shown.analyzer.judge_prompt_template, "custom prompt");
    assert_eq!(shown.analyzer.default_judge_prompt_template, DEFAULT_PROMPT);
    assert!(!shown.analyzer.uses_default_judge_prompt);
    assert_eq!(shown.analyzer.hosted_judge.provider, "azure_openai");
    assert_eq!(shown.analyzer.hosted_judge.api_style, "chat_completions");
    assert_eq!(shown.analyzer.hosted_judge.api_version, "2024-10-21");
    assert_eq!(shown.analyzer.hosted_judge.max_input_chars, 1000);
    assert!(shown.analyzer.hosted_judge.secret_stored);
    assert!(shown.analyzer.hosted_judge.keychain_available);
    assert_eq!(shown.logging.level, "info");

    let mut local = s.clone();
    local.judge_prompt_template = Some("   ".to_string());
    let shown = settings_dto(&local, DEFAULT_PROMPT, false, false);
    assert_eq!(shown.analyzer.judge_prompt_template, DEFAULT_PROMPT);
    assert!(shown.analyzer.uses_default_judge_prompt);
}

#[test]
fn saving_the_shown_settings_keeps_them() {
    let s = apply_settings(&dto(), DEFAULT_PROMPT, DEFAULT_REF).unwrap();
    let shown = settings_dto(&s, DEFAULT_PROMPT, false, true);
    let again = apply_settings(&shown, DEFAULT_PROMPT, DEFAULT_REF).unwrap();
    assert_eq!(again, s);
}

#[test]
fn command_errors_carry_kind_and_message() {
    let e = CommandError::storage("disk full".to_string());
    assert_eq!(e.kind(), "storage");
    assert_eq!(e.message(), "disk full");
}
