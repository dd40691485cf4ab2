//! Verified core of the hamm0r LLM security-testing toolkit.
pub mod adapter;
pub mod analysis;
pub mod binds;
pub mod canary;
pub mod deps;
pub mod error;
pub mod extract;
pub mod hosted;
pub mod install;
pub mod json;
pub mod judge;
pub mod json_template;
pub mod leak;
pub mod library;
pub mod llm;
pub mod logger;
pub mod manifest;
pub mod mutation;
pub mod pipeline;
pub mod redact;
pub mod report;
pub mod report_html;
pub mod request_log;
pub mod report_build;
pub mod report_keys;
pub mod run;
pub mod run_log;
pub mod run_requests;
pub mod runs;
pub mod scenario;
pub mod session;
pub mod setup;
pub mod settings;
pub mod targets;
pub mod template;
pub mod text;
mod wrappers;
