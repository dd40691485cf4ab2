//! Run reports: the data a report shows and its Markdown rendering.
use vstd::prelude::*;

use crate::text::{
    chars_of, decimal, owned, push_char, push_decimal, push_str, string_from_chars, trim, trimmed,
};

verus! {

// ── Report data ──────────────────────────────────────────────────────────────

/// One attempt of the run, as the report lists it.
#[derive(Debug, Clone)]
pub struct ReportAttempt {
    pub seq: u32,
    pub prompt_id: String,
    pub step_id: Option<String>,
    pub iteration: Option<u32>,
    pub session: Option<String>,
    pub http_status: u16,
    pub latency_ms: Option<u64>,
    pub response_excerpt: String,
}

/// Which judge produced the verdicts.
#[derive(Debug, Clone)]
pub struct ReportJudgeInfo {
    pub mode: String,
    pub provider: String,
    pub model: String,
}

/// Verdict counts.
#[derive(Debug, Clone, Copy)]
pub struct ReportSummary {
    pub attempts_total: u32,
    pub judged_total: u32,
    pub vulnerable_total: u32,
    pub success_total: u32,
    pub partial_total: u32,
    pub fail_total: u32,
    pub unclear_total: u32,
}

/// One judged attempt within a group.
#[derive(Debug, Clone)]
pub struct ReportFinding {
    pub seq: u32,
    pub verdict: String,
    pub confidence: String,
    pub category: String,
    pub severity: String,
    pub owasp_ref: String,
    pub rationale: String,
}

/// The findings that share a category or an OWASP reference.
#[derive(Debug, Clone)]
pub struct ReportGroup {
    pub key: String,
    pub findings_total: u32,
    pub vulnerable_total: u32,
    pub findings: Vec<ReportFinding>,
}

/// One attempt with its verdict and triage, as the evidence section shows it.
#[derive(Debug, Clone)]
pub struct ReportEvidenceRow {
    pub seq: u32,
    pub prompt_id: String,
    pub step_id: String,
    pub iteration: String,
    pub session: String,
    pub http_status: u16,
    pub latency_ms: String,
    pub verdict: String,
    pub confidence: String,
    pub category: String,
    pub owasp_ref: String,
    pub severity: String,
    pub rationale: String,
    pub response_excerpt: String,
    /// `unreviewed`, `confirmed`, `false_positive` or `needs_review`.
    pub triage_status: String,
    /// Free-text triage note; empty when none is set.
    pub triage_note: String,
}

/// Everything a report shows.
#[derive(Debug, Clone)]
pub struct ReportData {
    pub engagement_slug: String,
    pub run_id: String,
    pub generated_at: String,
    pub started_at: String,
    pub finished_at: String,
    pub judge: ReportJudgeInfo,
    pub summary: ReportSummary,
    pub groups_by_category: Vec<ReportGroup>,
    pub groups_by_owasp: Vec<ReportGroup>,
    pub evidence_rows: Vec<ReportEvidenceRow>,
}

// ── Markdown ─────────────────────────────────────────────────────────────────

/// A character of a single-line table cell: `|` is escaped, line breaks
/// become spaces.
pub open spec fn md_cell_char(c: char) -> Seq<char> {
    if c == '|' {
        seq!['\\', '|']
    } else if c == '\n' || c == '\r' {
        seq![' ']
    } else {
        seq![c]
    }
}

/// `s` made safe for a single-line Markdown table cell.
pub open spec fn md_escape(s: Seq<char>) -> Seq<char>
    decreases s.len(),
{
    if s.len() == 0 {
        seq![]
    } else {
        md_escape(s.drop_last()) + md_cell_char(s.last())
    }
}

/// Escapes the characters that would break a single-line table cell.
pub fn md_escape_inline(s: &str) -> (r: String)
    ensures
        r@ == md_escape(s@),
{
    let v = chars_of(s);
    let mut out = String::new();
    let mut i: usize = 0;
    while i < v.len()
        invariant
            v@ == s@,
            i <= v@.len(),
            out@ == md_escape(s@.take(i as int)),
        decreases v@.len() - i,
    {
        let c = v[i];
        assert(s@.take(i + 1).drop_last() =~= s@.take(i as int));
        if c == '|' {
            push_str(&mut out, "\\|");
            proof {
                reveal_strlit("\\|");
            }
        } else if c == '\n' || c == '\r' {
            push_char(&mut out, ' ');
        } else {
            push_char(&mut out, c);
        }
        assert(out@ =~= md_escape(s@.take(i + 1)));
        i += 1;
    }
    assert(s@.take(v@.len() as int) =~= s@);
    out
}

pub open spec fn finding_row(f: ReportFinding) -> Seq<char> {
    "| "@ + decimal(f.seq as nat) + " | "@ + f.verdict@ + " | "@ + f.confidence@ + " | "@
        + f.category@ + " | "@ + f.owasp_ref@ + " | "@ + f.severity@ + " | "@ + md_escape(
        f.rationale@,
    ) + " |\n"@
}

pub open spec fn finding_rows(fs: Seq<ReportFinding>) -> Seq<char>
    decreases fs.len(),
{
    if fs.len() == 0 {
        seq![]
    } else {
        finding_rows(fs.drop_last()) + finding_row(fs.last())
    }
}

/// A table of findings, one row each, followed by a blank line.
pub open spec fn findings_table(fs: Seq<ReportFinding>) -> Seq<char> {
    "| Seq | Verdict | Confidence | Category | OWASP | Severity | Rationale |\n"@
        + "|---|---|---|---|---|---|---|\n"@ + finding_rows(fs) + "\n"@
}

fn render_finding_row(out: &mut String, f: &ReportFinding)
    ensures
        final(out)@ == old(out)@ + finding_row(*f),
{
    push_str(out, "| ");
    push_decimal(out, f.seq as u64);
    push_str(out, " | ");
    push_str(out, f.verdict.as_str());
    push_str(out, " | ");
    push_str(out, f.confidence.as_str());
    push_str(out, " | ");
    push_str(out, f.category.as_str());
    push_str(out, " | ");
    push_str(out, f.owasp_ref.as_str());
    push_str(out, " | ");
    push_str(out, f.severity.as_str());
    push_str(out, " | ");
    let esc = md_escape_inline(f.rationale.as_str());
    push_str(out, esc.as_str());
    push_str(out, " |\n");
    assert(out@ =~= old(out)@ + finding_row(*f));
}

/// Appends the table of `findings`.
pub fn render_findings_table(out: &mut String, findings: &Vec<ReportFinding>)
    ensures
        final(out)@ == old(out)@ + findings_table(findings@),
{
    push_str(out, "| Seq | Verdict | Confidence | Category | OWASP | Severity | Rationale |\n");
    push_str(out, "|---|---|---|---|---|---|---|\n");
    let ghost head = out@;
    let mut i: usize = 0;
    assert(head + finding_rows(findings@.take(0)) =~= head);
    while i < findings.len()
        invariant
            i <= findings@.len(),
            out@ == head + finding_rows(findings@.take(i as int)),
        decreases findings@.len() - i,
    {
        assert(findings@.take(i + 1).drop_last() =~= findings@.take(i as int));
        let ghost before = out@;
        render_finding_row(out, &findings[i]);
        proof {
            vstd::seq_lib::lemma_concat_associative(head, finding_rows(findings@.take(i as int)), finding_row(findings@[i as int]));
        }
        i += 1;
    }
    assert(findings@.take(findings@.len() as int) =~= findings@);
    push_str(out, "\n");
    assert(out@ =~= old(out)@ + findings_table(findings@));
}

pub open spec fn group_section(g: ReportGroup) -> Seq<char> {
    "### "@ + g.key@ + " \u{2014} "@ + decimal(g.findings_total as nat) + " finding(s), "@ + decimal(
        g.vulnerable_total as nat,
    ) + " vulnerable\n\n"@ + findings_table(g.findings@)
}

pub open spec fn group_sections(gs: Seq<ReportGroup>) -> Seq<char>
    decreases gs.len(),
{
    if gs.len() == 0 {
        seq![]
    } else {
        group_sections(gs.drop_last()) + group_section(gs.last())
    }
}

fn render_groups(out: &mut String, groups: &Vec<ReportGroup>)
    ensures
        final(out)@ == old(out)@ + group_sections(groups@),
{
    let ghost head = out@;
    let mut i: usize = 0;
    while i < groups.len()
        invariant
            i <= groups@.len(),
            out@ == head + group_sections(groups@.take(i as int)),
        decreases groups@.len() - i,
    {
        let g = &groups[i];
        assert(groups@.take(i + 1).drop_last() =~= groups@.take(i as int));
        push_str(out, "### ");
        push_str(out, g.key.as_str());
        push_str(out, " \u{2014} ");
        push_decimal(out, g.findings_total as u64);
        push_str(out, " finding(s), ");
        push_decimal(out, g.vulnerable_total as u64);
        push_str(out, " vulnerable\n\n");
        render_findings_table(out, &g.findings);
        assert(out@ =~= head + group_sections(groups@.take(i + 1)));
        i += 1;
    }
    assert(groups@.take(groups@.len() as int) =~= groups@);
}

pub open spec fn evidence_head(r: ReportEvidenceRow) -> Seq<char> {
    "### #"@ + decimal(r.seq as nat) + " \u{b7} "@ + r.prompt_id@ + " \u{b7} "@ + r.verdict@
        + " \u{b7} "@ + r.confidence@ + "\n\n"@ + "| Field | Value |\n|---|---|\n"@
}

pub open spec fn evidence_fields(r: ReportEvidenceRow) -> Seq<char> {
    "| HTTP status | "@ + decimal(r.http_status as nat) + " |\n"@ + "| Latency | "@ + r.latency_ms@
        + " |\n"@ + "| Session | "@ + r.session@ + " |\n"@ + "| Iteration | "@ + r.iteration@
        + " |\n"@ + "| Category | "@ + r.category@ + " |\n"@ + "| OWASP | "@ + r.owasp_ref@
        + " |\n"@ + "| Severity | "@ + r.severity@ + " |\n"@ + "| Triage | "@ + r.triage_status@
        + " |\n"@
}

pub open spec fn evidence_tail(r: ReportEvidenceRow) -> Seq<char> {
    (if r.triage_note@.len() == 0 {
        seq![]
    } else {
        "| Triage note | "@ + md_escape(r.triage_note@) + " |\n"@
    }) + "| Rationale | "@ + md_escape(r.rationale@) + " |\n\n"@ + (if r.response_excerpt@.len()
        == 0 {
        seq![]
    } else {
        "Response excerpt:\n\n"@ + "```\n"@ + r.response_excerpt@ + "\n```\n\n"@
    })
}

/// One evidence entry: a heading, a table of the attempt's fields, the
/// rationale, and the response excerpt when there is one.
pub open spec fn evidence_section(r: ReportEvidenceRow) -> Seq<char> {
    evidence_head(r) + evidence_fields(r) + evidence_tail(r)
}

pub open spec fn evidence_sections(rs: Seq<ReportEvidenceRow>) -> Seq<char>
    decreases rs.len(),
{
    if rs.len() == 0 {
        seq![]
    } else {
        evidence_sections(rs.drop_last()) + evidence_section(rs.last())
    }
}

fn render_evidence_head(out: &mut String, r: &ReportEvidenceRow)
    ensures
        final(out)@ == old(out)@ + evidence_head(*r),
{
    push_str(out, "### #");
    push_decimal(out, r.seq as u64);
    push_str(out, " \u{b7} ");
    push_str(out, r.prompt_id.as_str());
    push_str(out, " \u{b7} ");
    push_str(out, r.verdict.as_str());
    push_str(out, " \u{b7} ");
    push_str(out, r.confidence.as_str());
    push_str(out, "\n\n");
    push_str(out, "| Field | Value |\n|---|---|\n");
    assert(out@ =~= old(out)@ + evidence_head(*r));
}

#[verifier::spinoff_prover]
fn render_evidence_fields(out: &mut String, r: &ReportEvidenceRow)
    ensures
        final(out)@ == old(out)@ + evidence_fields(*r),
{
    let ghost s0 = out@;
    push_str(out, "| HTTP status | ");
    assert(out@ =~= s0 + ("| HTTP status | "@));
    push_decimal(out, r.http_status as u64);
    assert(out@ =~= s0 + ("| HTTP status | "@ + decimal(r.http_status as nat)));
    push_str(out, " |\n");
    assert(out@ =~= s0 + ("| HTTP status | "@ + decimal(r.http_status as nat) + " |\n"@));
    push_str(out, "| Latency | ");
    assert(out@ =~= s0 + ("| HTTP status | "@ + decimal(r.http_status as nat) + " |\n"@ + "| Latency | "@));
    push_str(out, r.latency_ms.as_str());
    assert(out@ =~= s0 + ("| HTTP status | "@ + decimal(r.http_status as nat) + " |\n"@ + "| Latency | "@ + r.latency_ms@));
    push_str(out, " |\n");
    assert(out@ =~= s0 + ("| HTTP status | "@ + decimal(r.http_status as nat) + " |\n"@ + "| Latency | "@ + r.latency_ms@ + " |\n"@));
    push_str(out, "| Session | ");
    assert(out@ =~= s0 + ("| HTTP status | "@ + decimal(r.http_status as nat) + " |\n"@ + "| Latency | "@ + r.latency_ms@ + " |\n"@ + "| Session | "@));
    push_str(out, r.session.as_str());
    assert(out@ =~= s0 + ("| HTTP status | "@ + decimal(r.http_status as nat) + " |\n"@ + "| Latency | "@ + r.latency_ms@ + " |\n"@ + "| Session | "@ + r.session@));
    push_str(out, " |\n");
    assert(out@ =~= s0 + ("| HTTP status | "@ + decimal(r.http_status as nat) + " |\n"@ + "| Latency | "@ + r.latency_ms@ + " |\n"@ + "| Session | "@ + r.session@ + " |\n"@));
    push_str(out, "| Iteration | ");
    assert(out@ =~= s0 + ("| HTTP status | "@ + decimal(r.http_status as nat) + " |\n"@ + "| Latency | "@ + r.latency_ms@ + " |\n"@ + "| Session | "@ + r.session@ + " |\n"@ + "| Iteration | "@));
    push_str(out, r.iteration.as_str());
    assert(out@ =~= s0 + ("| HTTP status | "@ + decimal(r.http_status as nat) + " |\n"@ + "| Latency | "@ + r.latency_ms@ + " |\n"@ + "| Session | "@ + r.session@ + " |\n"@ + "| Iteration | "@ + r.iteration@));
    push_str(out, " |\n");
    assert(out@ =~= s0 + ("| HTTP status | "@ + decimal(r.http_status as nat) + " |\n"@ + "| Latency | "@ + r.latency_ms@ + " |\n"@ + "| Session | "@ + r.session@ + " |\n"@ + "| Iteration | "@ + r.iteration@ + " |\n"@));
    push_str(out, "| Category | ");
    assert(out@ =~= s0 + ("| HTTP status | "@ + decimal(r.http_status as nat) + " |\n"@ + "| Latency | "@ + r.latency_ms@ + " |\n"@ + "| Session | "@ + r.session@ + " |\n"@ + "| Iteration | "@ + r.iteration@ + " |\n"@ + "| Category | "@));
    push_str(out, r.category.as_str());
    assert(out@ =~= s0 + ("| HTTP status | "@ + decimal(r.http_status as nat) + " |\n"@ + "| Latency | "@ + r.latency_ms@ + " |\n"@ + "| Session | "@ + r.session@ + " |\n"@ + "| Iteration | "@ + r.iteration@ + " |\n"@ + "| Category | "@ + r.category@));
    push_str(out, " |\n");
    assert(out@ =~= s0 + ("| HTTP status | "@ + decimal(r.http_status as nat) + " |\n"@ + "| Latency | "@ + r.latency_ms@ + " |\n"@ + "| Session | "@ + r.session@ + " |\n"@ + "| Iteration | "@ + r.iteration@ + " |\n"@ + "| Category | "@ + r.category@ + " |\n"@));
    push_str(out, "| OWASP | ");
    assert(out@ =~= s0 + ("| HTTP status | "@ + decimal(r.http_status as nat) + " |\n"@ + "| Latency | "@ + r.latency_ms@ + " |\n"@ + "| Session | "@ + r.session@ + " |\n"@ + "| Iteration | "@ + r.iteration@ + " |\n"@ + "| Category | "@ + r.category@ + " |\n"@ + "| OWASP | "@));
    push_str(out, r.owasp_ref.as_str());
    assert(out@ =~= s0 + ("| HTTP status | "@ + decimal(r.http_status as nat) + " |\n"@ + "| Latency | "@ + r.latency_ms@ + " |\n"@ + "| Session | "@ + r.session@ + " |\n"@ + "| Iteration | "@ + r.iteration@ + " |\n"@ + "| Category | "@ + r.category@ + " |\n"@ + "| OWASP | "@ + r.owasp_ref@));
    push_str(out, " |\n");
    assert(out@ =~= s0 + ("| HTTP status | "@ + decimal(r.http_status as nat) + " |\n"@ + "| Latency | "@ + r.latency_ms@ + " |\n"@ + "| Session | "@ + r.session@ + " |\n"@ + "| Iteration | "@ + r.iteration@ + " |\n"@ + "| Category | "@ + r.category@ + " |\n"@ + "| OWASP | "@ + r.owasp_ref@ + " |\n"@));
    push_str(out, "| Severity | ");
    assert(out@ =~= s0 + ("| HTTP status | "@ + decimal(r.http_status as nat) + " |\n"@ + "| Latency | "@ + r.latency_ms@ + " |\n"@ + "| Session | "@ + r.session@ + " |\n"@ + "| Iteration | "@ + r.iteration@ + " |\n"@ + "| Category | "@ + r.category@ + " |\n"@ + "| OWASP | "@ + r.owasp_ref@ + " |\n"@ + "| Severity | "@));
    push_str(out, r.severity.as_str());
    assert(out@ =~= s0 + ("| HTTP status | "@ + decimal(r.http_status as nat) + " |\n"@ + "| Latency | "@ + r.latency_ms@ + " |\n"@ + "| Session | "@ + r.session@ + " |\n"@ + "| Iteration | "@ + r.iteration@ + " |\n"@ + "| Category | "@ + r.category@ + " |\n"@ + "| OWASP | "@ + r.owasp_ref@ + " |\n"@ + "| Severity | "@ + r.severity@));
    push_str(out, " |\n");
    assert(out@ =~= s0 + ("| HTTP status | "@ + decimal(r.http_status as nat) + " |\n"@ + "| Latency | "@ + r.latency_ms@ + " |\n"@ + "| Session | "@ + r.session@ + " |\n"@ + "| Iteration | "@ + r.iteration@ + " |\n"@ + "| Category | "@ + r.category@ + " |\n"@ + "| OWASP | "@ + r.owasp_ref@ + " |\n"@ + "| Severity | "@ + r.severity@ + " |\n"@));
    push_str(out, "| Triage | ");
    assert(out@ =~= s0 + ("| HTTP status | "@ + decimal(r.http_status as nat) + " |\n"@ + "| Latency | "@ + r.latency_ms@ + " |\n"@ + "| Session | "@ + r.session@ + " |\n"@ + "| Iteration | "@ + r.iteration@ + " |\n"@ + "| Category | "@ + r.category@ + " |\n"@ + "| OWASP | "@ + r.owasp_ref@ + " |\n"@ + "| Severity | "@ + r.severity@ + " |\n"@ + "| Triage | "@));
    push_str(out, r.triage_status.as_str());
    assert(out@ =~= s0 + ("| HTTP status | "@ + decimal(r.http_status as nat) + " |\n"@ + "| Latency | "@ + r.latency_ms@ + " |\n"@ + "| Session | "@ + r.session@ + " |\n"@ + "| Iteration | "@ + r.iteration@ + " |\n"@ + "| Category | "@ + r.category@ + " |\n"@ + "| OWASP | "@ + r.owasp_ref@ + " |\n"@ + "| Severity | "@ + r.severity@ + " |\n"@ + "| Triage | "@ + r.triage_status@));
    push_str(out, " |\n");
    assert(out@ =~= s0 + ("| HTTP status | "@ + decimal(r.http_status as nat) + " |\n"@ + "| Latency | "@ + r.latency_ms@ + " |\n"@ + "| Session | "@ + r.session@ + " |\n"@ + "| Iteration | "@ + r.iteration@ + " |\n"@ + "| Category | "@ + r.category@ + " |\n"@ + "| OWASP | "@ + r.owasp_ref@ + " |\n"@ + "| Severity | "@ + r.severity@ + " |\n"@ + "| Triage | "@ + r.triage_status@ + " |\n"@));
    assert(out@ =~= old(out)@ + evidence_fields(*r));
}

fn render_evidence_tail(out: &mut String, r: &ReportEvidenceRow)
    ensures
        final(out)@ == old(out)@ + evidence_tail(*r),
{
    if !r.triage_note.as_str().is_empty() {
        push_str(out, "| Triage note | ");
        let note = md_escape_inline(r.triage_note.as_str());
        push_str(out, note.as_str());
        push_str(out, " |\n");
    }
    push_str(out, "| Rationale | ");
    let why = md_escape_inline(r.rationale.as_str());
    push_str(out, why.as_str());
    push_str(out, " |\n\n");
    if !r.response_excerpt.as_str().is_empty() {
        push_str(out, "Response excerpt:\n\n");
        push_str(out, "```\n");
        push_str(out, r.response_excerpt.as_str());
        push_str(out, "\n```\n\n");
    }
    assert(out@ =~= old(out)@ + evidence_tail(*r));
}

fn render_evidence_row(out: &mut String, r: &ReportEvidenceRow)
    ensures
        final(out)@ == old(out)@ + evidence_section(*r),
{
    render_evidence_head(out, r);
    render_evidence_fields(out, r);
    render_evidence_tail(out, r);
    assert(out@ =~= old(out)@ + evidence_section(*r));
}

fn render_evidence(out: &mut String, rows: &Vec<ReportEvidenceRow>)
    ensures
        final(out)@ == old(out)@ + evidence_sections(rows@),
{
    let ghost head = out@;
    let mut i: usize = 0;
    while i < rows.len()
        invariant
            i <= rows@.len(),
            out@ == head + evidence_sections(rows@.take(i as int)),
        decreases rows@.len() - i,
    {
        assert(rows@.take(i + 1).drop_last() =~= rows@.take(i as int));
        render_evidence_row(out, &rows[i]);
        assert(out@ =~= head + evidence_sections(rows@.take(i + 1)));
        i += 1;
    }
    assert(rows@.take(rows@.len() as int) =~= rows@);
}

pub open spec fn header_md(d: ReportData) -> Seq<char> {
    "# Report \u{2014} "@ + d.engagement_slug@ + "\n\n"@ + "- Run: `"@ + d.run_id@ + "`\n"@
        + "- Generated at: "@ + d.generated_at@ + "\n"@ + "- Started at: "@ + d.started_at@ + "\n"@
        + "- Finished at: "@ + d.finished_at@ + "\n"@ + "- Judge: "@ + d.judge.mode@ + " \u{b7} "@
        + d.judge.provider@ + " \u{b7} "@ + d.judge.model@ + "\n\n"@
}

pub open spec fn summary_counts(s: ReportSummary) -> Seq<char> {
    "| Attempts | "@ + decimal(s.attempts_total as nat) + " |\n"@ + "| Judged | "@ + decimal(
        s.judged_total as nat,
    ) + " |\n"@ + "| Vulnerable (success + partial) | "@ + decimal(s.vulnerable_total as nat)
        + " |\n"@
}

pub open spec fn summary_verdicts(s: ReportSummary) -> Seq<char> {
    "| Success | "@ + decimal(s.success_total as nat) + " |\n"@ + "| Partial | "@ + decimal(
        s.partial_total as nat,
    ) + " |\n"@ + "| Fail | "@ + decimal(s.fail_total as nat) + " |\n"@ + "| Unclear | "@
        + decimal(s.unclear_total as nat) + " |\n\n"@
}

/// The summary table.
pub open spec fn summary_md(s: ReportSummary) -> Seq<char> {
    "## Summary\n\n"@ + "| Metric | Count |\n|---|---|\n"@ + summary_counts(s) + summary_verdicts(s)
}

/// The Markdown report: header, summary table, findings by OWASP
/// reference and by category (each section only when it has groups), and
/// the evidence (only when there are rows).
pub open spec fn markdown_spec(d: ReportData) -> Seq<char> {
    header_md(d) + summary_md(d.summary) + (if d.groups_by_owasp@.len() == 0 {
        seq![]
    } else {
        "## Findings by OWASP reference\n\n"@ + group_sections(d.groups_by_owasp@)
    }) + (if d.groups_by_category@.len() == 0 {
        seq![]
    } else {
        "## Findings by category\n\n"@ + group_sections(d.groups_by_category@)
    }) + (if d.evidence_rows@.len() == 0 {
        seq![]
    } else {
        "## Evidence\n\n"@ + evidence_sections(d.evidence_rows@)
    })
}

fn render_header(out: &mut String, d: &ReportData)
    ensures
        final(out)@ == old(out)@ + header_md(*d),
{
    push_str(out, "# Report \u{2014} ");
    push_str(out, d.engagement_slug.as_str());
    push_str(out, "\n\n");
    push_str(out, "- Run: `");
    push_str(out, d.run_id.as_str());
    push_str(out, "`\n");
    push_str(out, "- Generated at: ");
    push_str(out, d.generated_at.as_str());
    push_str(out, "\n");
    push_str(out, "- Started at: ");
    push_str(out, d.started_at.as_str());
    push_str(out, "\n");
    push_str(out, "- Finished at: ");
    push_str(out, d.finished_at.as_str());
    push_str(out, "\n");
    push_str(out, "- Judge: ");
    push_str(out, d.judge.mode.as_str());
    push_str(out, " \u{b7} ");
    push_str(out, d.judge.provider.as_str());
    push_str(out, " \u{b7} ");
    push_str(out, d.judge.model.as_str());
    push_str(out, "\n\n");
    assert(out@ =~= old(out)@ + header_md(*d));
}

fn render_summary_counts(out: &mut String, s: &ReportSummary)
    ensures
        final(out)@ == old(out)@ + summary_counts(*s),
{
    push_str(out, "| Attempts | ");
    push_decimal(out, s.attempts_total as u64);
    push_str(out, " |\n");
    push_str(out, "| Judged | ");
    push_decimal(out, s.judged_total as u64);
    push_str(out, " |\n");
    push_str(out, "| Vulnerable (success + partial) | ");
    push_decimal(out, s.vulnerable_total as u64);
    push_str(out, " |\n");
    assert(out@ =~= old(out)@ + summary_counts(*s));
}

fn render_summary_verdicts(out: &mut String, s: &ReportSummary)
    ensures
        final(out)@ == old(out)@ + summary_verdicts(*s),
{
    push_str(out, "| Success | ");
    push_decimal(out, s.success_total as u64);
    push_str(out, " |\n");
    push_str(out, "| Partial | ");
    push_decimal(out, s.partial_total as u64);
    push_str(out, " |\n");
    push_str(out, "| Fail | ");
    push_decimal(out, s.fail_total as u64);
    push_str(out, " |\n");
    push_str(out, "| Unclear | ");
    push_decimal(out, s.unclear_total as u64);
    push_str(out, " |\n\n");
    assert(out@ =~= old(out)@ + summary_verdicts(*s));
}

fn render_summary(out: &mut String, s: &ReportSummary)
    ensures
        final(out)@ == old(out)@ + summary_md(*s),
{
    push_str(out, "## Summary\n\n");
    push_str(out, "| Metric | Count |\n|---|---|\n");
    render_summary_counts(out, s);
    render_summary_verdicts(out, s);
    assert(out@ =~= old(out)@ + summary_md(*s));
}

/// Renders the report as a Markdown document.
#[verifier::spinoff_prover]
#[verifier::rlimit(50)]
pub fn render_markdown_report(data: &ReportData) -> (r: String)
    ensures
        r@ == markdown_spec(*data),
{
    let mut out = String::new();
    render_header(&mut out, data);
    render_summary(&mut out, &data.summary);
    let ghost a = out@;
    assert(a =~= header_md(*data) + summary_md(data.summary));
    let ghost owasp_part = if data.groups_by_owasp@.len() == 0 {
        seq![]
    } else {
        "## Findings by OWASP reference\n\n"@ + group_sections(data.groups_by_owasp@)
    };
    if data.groups_by_owasp.len() > 0 {
        push_str(&mut out, "## Findings by OWASP reference\n\n");
        render_groups(&mut out, &data.groups_by_owasp);
    }
    assert(out@ =~= a + owasp_part);
    let ghost b = out@;
    let ghost category_part = if data.groups_by_category@.len() == 0 {
        seq![]
    } else {
        "## Findings by category\n\n"@ + group_sections(data.groups_by_category@)
    };
    if data.groups_by_category.len() > 0 {
        push_str(&mut out, "## Findings by category\n\n");
        render_groups(&mut out, &data.groups_by_category);
    }
    assert(out@ =~= b + category_part);
    let ghost c = out@;
    let ghost evidence_part = if data.evidence_rows@.len() == 0 {
        seq![]
    } else {
        "## Evidence\n\n"@ + evidence_sections(data.evidence_rows@)
    };
    if data.evidence_rows.len() > 0 {
        push_str(&mut out, "## Evidence\n\n");
        render_evidence(&mut out, &data.evidence_rows);
    }
    assert(out@ =~= c + evidence_part);
    assert(out@ == markdown_spec(*data));
    out
}

// ── Labels and excerpts ──────────────────────────────────────────────────────

/// The judge behind a verdict file's model id: `azure_openai:<deployment>`
/// is hosted Azure OpenAI, `ollama:<model>` is local Ollama, ids starting
/// with `heuristic-` are the local heuristic, anything else is a local
/// model. A missing id reads as `unknown`; surrounding whitespace is
/// ignored.
pub open spec fn judge_info_spec(model: Option<Seq<char>>) -> (Seq<char>, Seq<char>, Seq<char>) {
    let raw = trimmed(
        match model {
            Some(m) => m,
            None => "unknown"@,
        },
    );
    if raw.len() >= 13 && raw.take(13) == "azure_openai:"@ {
        ("Hosted"@, "Azure OpenAI"@, raw.skip(13))
    } else if raw.len() >= 7 && raw.take(7) == "ollama:"@ {
        ("Local"@, "Ollama"@, raw.skip(7))
    } else if raw.len() >= 10 && raw.take(10) == "heuristic-"@ {
        ("Local"@, "Heuristic"@, raw)
    } else {
        ("Local"@, "Local Model"@, raw)
    }
}

/// `s` starts with `prefix`.
fn starts_with(s: &Vec<char>, prefix: &str) -> (r: bool)
    ensures
        r == (prefix@.len() <= s@.len() && s@.take(prefix@.len() as int) == prefix@),
{
    let p = chars_of(prefix);
    if p.len() > s.len() {
        return false;
    }
    let mut i: usize = 0;
    while i < p.len()
        invariant
            p@ == prefix@,
            p@.len() <= s@.len(),
            i <= p@.len(),
            forall|k: int| 0 <= k < i ==> s@[k] == p@[k],
        decreases p@.len() - i,
    {
        if s[i] != p[i] {
            assert(s@.take(p@.len() as int)[i as int] != p@[i as int]);
            return false;
        }
        i += 1;
    }
    assert(s@.take(p@.len() as int) =~= p@);
    true
}

pub open spec fn judge_info_view(j: ReportJudgeInfo) -> (Seq<char>, Seq<char>, Seq<char>) {
    (j.mode@, j.provider@, j.model@)
}

/// The judge mode, provider and model named by a verdict file's model id.
pub fn parse_judge_info(model: Option<&str>) -> (r: ReportJudgeInfo)
    ensures
        judge_info_view(r) == judge_info_spec(
            match model {
                Some(m) => Some(m@),
                None => None,
            },
        ),
{
    let raw = match model {
        Some(m) => trim(m),
        None => trim("unknown"),
    };
    let v = chars_of(raw.as_str());
    proof {
        reveal_strlit("azure_openai:");
        reveal_strlit("ollama:");
        reveal_strlit("heuristic-");
    }
    if starts_with(&v, "azure_openai:") {
        let rest = string_from_chars(&v, 13, v.len());
        assert(v@.subrange(13, v@.len() as int) =~= v@.skip(13));
        return ReportJudgeInfo { mode: owned("Hosted"), provider: owned("Azure OpenAI"), model: rest };
    }
    if starts_with(&v, "ollama:") {
        let rest = string_from_chars(&v, 7, v.len());
        assert(v@.subrange(7, v@.len() as int) =~= v@.skip(7));
        return ReportJudgeInfo { mode: owned("Local"), provider: owned("Ollama"), model: rest };
    }
    if starts_with(&v, "heuristic-") {
        return ReportJudgeInfo { mode: owned("Local"), provider: owned("Heuristic"), model: raw };
    }
    ReportJudgeInfo { mode: owned("Local"), provider: owned("Local Model"), model: raw }
}

/// Triage states of a finding.
#[derive(Debug, Clone, Copy, PartialEq, Eq, Structural)]
pub enum TriageStatus {
    Unreviewed,
    Confirmed,
    FalsePositive,
    NeedsReview,
}

pub open spec fn triage_label(s: TriageStatus) -> Seq<char> {
    match s {
        TriageStatus::Unreviewed => "unreviewed"@,
        TriageStatus::Confirmed => "confirmed"@,
        TriageStatus::FalsePositive => "false_positive"@,
        TriageStatus::NeedsReview => "needs_review"@,
    }
}

/// The label of a finding's triage status; a finding without a triage
/// entry is unreviewed.
pub fn triage_status_label(status: Option<TriageStatus>) -> (r: String)
    ensures
        r@ == triage_label(
            match status {
                Some(s) => s,
                None => TriageStatus::Unreviewed,
            },
        ),
{
    match status {
        Some(TriageStatus::Confirmed) => owned("confirmed"),
        Some(TriageStatus::FalsePositive) => owned("false_positive"),
        Some(TriageStatus::NeedsReview) => owned("needs_review"),
        _ => owned("unreviewed"),
    }
}

/// A judge's verdict on one attempt.
#[derive(Debug, Clone, Copy, PartialEq, Eq, Structural)]
pub enum JudgeVerdict {
    Success,
    Fail,
    Partial,
    Unclear,
}

pub open spec fn verdict_text(v: JudgeVerdict) -> Seq<char> {
    match v {
        JudgeVerdict::Success => "SUCCESS"@,
        JudgeVerdict::Fail => "FAIL"@,
        JudgeVerdict::Partial => "PARTIAL"@,
        JudgeVerdict::Unclear => "UNCLEAR"@,
    }
}

/// The label a report shows for a verdict is the verdict's own name in
/// upper case: distinct verdicts get distinct labels, each label is all
/// upper-case ASCII letters, and reading a label back (as the judge reads a
/// model's verdict) gives the verdict it labels.
pub proof fn lemma_verdict_labels(a: JudgeVerdict, b: JudgeVerdict)
    ensures
        a != b ==> verdict_text(a) != verdict_text(b),
        crate::judge::verdict_of_label(verdict_text(a)) == a,
        verdict_text(a).len() > 0,
        forall|i: int| 0 <= i < verdict_text(a).len() ==> crate::text::is_ascii_upper(#[trigger] verdict_text(a)[i]),
{
    reveal_strlit("SUCCESS");
    reveal_strlit("FAIL");
    reveal_strlit("PARTIAL");
    reveal_strlit("UNCLEAR");
    assert("SUCCESS"@ != "FAIL"@ && "SUCCESS"@ != "PARTIAL"@ && "SUCCESS"@ != "UNCLEAR"@) by {
        assert("SUCCESS"@.len() != "FAIL"@.len());
        assert("SUCCESS"@[0] != "PARTIAL"@[0]);
        assert("SUCCESS"@[0] != "UNCLEAR"@[0]);
    }
    assert("FAIL"@ != "PARTIAL"@ && "FAIL"@ != "UNCLEAR"@ && "PARTIAL"@ != "UNCLEAR"@) by {
        assert("FAIL"@.len() != "PARTIAL"@.len());
        assert("FAIL"@.len() != "UNCLEAR"@.len());
        assert("PARTIAL"@[0] != "UNCLEAR"@[0]);
    }
}

/// The upper-case label of a verdict.
pub fn verdict_label(verdict: JudgeVerdict) -> (r: String)
    ensures
        r@ == verdict_text(verdict),
{
    match verdict {
        JudgeVerdict::Success => owned("SUCCESS"),
        JudgeVerdict::Fail => owned("FAIL"),
        JudgeVerdict::Partial => owned("PARTIAL"),
        JudgeVerdict::Unclear => owned("UNCLEAR"),
    }
}

/// Line `k` of `s` runs from `line_start` to the next `\n` (or the end).
pub open spec fn lines_from(s: Seq<char>, start: int, i: int) -> Seq<Seq<char>>
    decreases s.len() - i,
{
    if i < start || i >= s.len() {
        seq![s.subrange(start, s.len() as int)]
    } else if s[i] == '\n' {
        seq![s.subrange(start, i)] + lines_from(s, i + 1, i + 1)
    } else {
        lines_from(s, start, i + 1)
    }
}

/// The non-blank lines, each trimmed, joined by single spaces.
pub open spec fn flatten_lines(lines: Seq<Seq<char>>) -> Seq<char>
    decreases lines.len(),
{
    if lines.len() == 0 {
        seq![]
    } else if trimmed(lines.last()).len() == 0 {
        flatten_lines(lines.drop_last())
    } else if flatten_lines(lines.drop_last()).len() == 0 {
        trimmed(lines.last())
    } else {
        flatten_lines(lines.drop_last()) + seq![' '] + trimmed(lines.last())
    }
}

/// An excerpt of a response: its non-blank lines trimmed and joined by
/// spaces, cut to `max_chars` characters with `…` appended when longer.
pub open spec fn excerpt_spec(input: Seq<char>, max_chars: nat) -> Seq<char> {
    let flat = flatten_lines(lines_from(input, 0, 0));
    if flat.len() <= max_chars {
        flat
    } else {
        flat.take(max_chars as int).push('\u{2026}')
    }
}

/// Flattens a response to one line and cuts it to `max_chars` characters.
pub fn trim_excerpt(input: &str, max_chars: usize) -> (r: String)
    ensures
        r@ == excerpt_spec(input@, max_chars as nat),
{
    let v = chars_of(input);
    let mut flat: Vec<char> = Vec::new();
    let mut start: usize = 0;
    let mut i: usize = 0;
    let ghost mut done: Seq<Seq<char>> = seq![];
    assert(done + lines_from(v@, 0, 0) =~= lines_from(v@, 0, 0));
    while i <= v.len()
        invariant
            v@ == input@,
            start <= i <= v@.len(),
            done + lines_from(v@, start as int, i as int) == lines_from(v@, 0, 0),
            flat@ == flatten_lines(done),
        decreases v@.len() + 1 - i,
    {
        let at_end = i == v.len();
        if at_end || v[i] == '\n' {
            let ghost line = v@.subrange(start as int, i as int);
            let ghost rest = if at_end {
                seq![]
            } else {
                lines_from(v@, i + 1, i + 1)
            };
            assert(lines_from(v@, start as int, i as int) == seq![line] + rest);
            let piece = string_from_chars(&v, start, i);
            let t = trim(piece.as_str());
            let tv = chars_of(t.as_str());
            if tv.len() > 0 {
                if flat.len() > 0 {
                    flat.push(' ');
                }
                let mut k: usize = 0;
                let ghost base = flat@;
                while k < tv.len()
                    invariant
                        k <= tv@.len(),
                        flat@ == base + tv@.take(k as int),
                    decreases tv@.len() - k,
                {
                    flat.push(tv[k]);
                    assert(tv@.take(k + 1) =~= tv@.take(k as int).push(tv@[k as int]));
                    k += 1;
                }
                assert(tv@.take(tv@.len() as int) =~= tv@);
            }
            proof {
                assert(done.push(line).drop_last() =~= done);
                assert(flat@ =~= flatten_lines(done.push(line)));
                done = done.push(line);
            }
            if at_end {
                assert(done =~= lines_from(v@, 0, 0)) by {
                    assert(done.drop_last() + seq![line] =~= done);
                }
                if flat.len() <= max_chars {
                    let r = string_from_chars(&flat, 0, flat.len());
                    assert(flat@.subrange(0, flat@.len() as int) =~= flat@);
                    return r;
                }
                let mut out = string_from_chars(&flat, 0, max_chars);
                push_char(&mut out, '\u{2026}');
                assert(flat@.subrange(0, max_chars as int) =~= flat@.take(max_chars as int));
                return out;
            }
            assert(done + lines_from(v@, i + 1, i + 1) =~= lines_from(v@, 0, 0)) by {
                assert(done.drop_last() + (seq![line] + rest) =~= done + rest);
            }
            start = i + 1;
        } else {
            assert(lines_from(v@, start as int, i as int) == lines_from(v@, start as int, i + 1));
        }
        i += 1;
    }
    String::new()
}

} // verus!
