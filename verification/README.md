# hamm0r

A toolkit for security-testing LLM endpoints: it fires attack prompts (and
mutated variants of them) at a target request, records every attempt,
detects cross-session canary leaks, judges the responses, and renders
reports. This crate is its library core, written in Verus: each function
carries a contract and is proved against it.

## Layout

- `src/` — the verified library.
  - `mutation/` — prompt mutators (encoding, obfuscation, structural,
    persona, linguistic) and seed expansion.
  - `template`, `json_template`, `binds`, `deps` — request templates,
    bind references between requests, their dependency order, and the
    values bound along a chain.
  - `adapter`, `request_log`, `redact`, `session` — what a request sends
    and how it is logged with its secrets masked.
  - `extract`, `canary`, `leak` — reading answers out of responses,
    per-session canaries and leak detection.
  - `run`, `run_log`, `run_requests`, `runs`, `pipeline`, `analysis`,
    `judge`, `hosted`, `llm` — runs, their schedules, the records of the
    append-only run log (header, attempts, footer), what a run or judge
    pass checks before it starts, run summaries, and the judge (local,
    hosted, or as a separate program).
  - `report`, `report_build`, `report_keys`, `report_html` — report data,
    its Markdown rendering and the self-contained HTML report.
  - `library`, `install`, `manifest`, `setup`, `settings`, `logger`,
    `targets`, `error` — prompt library ids, analyzer installation (the
    checks before an install, the record written after it, the status
    shown), settings as the settings page submits and shows them, logs,
    and the errors commands report.
  - `wrappers` — the calls into std and outside crates (minijinja,
    serde_json, serde_json_path, regex, sha2) with the contracts they are
    trusted to meet.
- `tests/` — tests run against the compiled library with the outside
  crates linked.
- `app/` — a command-line front end: file and environment access around
  the library.
