//! The self-contained HTML report: the report data as JSON, rendered
//! through the bundled HTML template with HTML auto-escaping.
use vstd::prelude::*;

use crate::report::{ReportData, ReportEvidenceRow, ReportFinding, ReportGroup, ReportJudgeInfo, ReportSummary};
use crate::text::{decimal, push_decimal, push_str};
use crate::wrappers::{html_report_of, json_quote, json_string, render_report_template};

verus! {

/// The HTML report template: one page, styles inline, no scripts and no
/// external assets.
pub const REPORT_TEMPLATE: &'static str = r#"<!doctype html>
<html lang="en">
<head>
  <meta charset="utf-8" />
  <meta name="viewport" content="width=device-width, initial-scale=1" />
  <title>hamm0r report · {{ run_id }}</title>
  <style>
    :root {
      --bg: #f6f8fb;
      --panel: #ffffff;
      --text: #111827;
      --muted: #4b5563;
      --line: #d8dee8;
      --ok: #0f766e;
      --warn: #d97706;
      --bad: #b91c1c;
      --ink: #1f2937;
      --mono: ui-monospace, SFMono-Regular, Menlo, Monaco, Consolas, monospace;
      --sans: "Avenir Next", "Segoe UI", Helvetica, Arial, sans-serif;
    }
    * { box-sizing: border-box; }
    body { margin: 0; background: var(--bg); color: var(--text); font-family: var(--sans); line-height: 1.4; }
    .wrap { max-width: 1200px; margin: 0 auto; padding: 20px; }
    .hero { background: var(--panel); border: 1px solid var(--line); border-radius: 14px; padding: 18px 20px; }
    .hero h1 { margin: 0 0 8px; font-size: 24px; }
    .meta { color: var(--muted); font-size: 13px; display: flex; flex-wrap: wrap; gap: 12px; }
    .grid { margin-top: 14px; display: grid; grid-template-columns: repeat(auto-fit, minmax(160px, 1fr)); gap: 10px; }
    .card { background: #f9fbff; border: 1px solid var(--line); border-radius: 10px; padding: 10px 12px; }
    .card .k { font-size: 12px; color: var(--muted); }
    .card .v { font-size: 22px; font-weight: 700; color: var(--ink); }
    h2 { margin: 20px 0 8px; font-size: 18px; }
    .panel { background: var(--panel); border: 1px solid var(--line); border-radius: 14px; padding: 14px; margin-top: 10px; }
    .group + .group { margin-top: 16px; border-top: 1px dashed var(--line); padding-top: 12px; }
    .group-head { display: flex; justify-content: space-between; align-items: baseline; gap: 12px; }
    .group-title { font-size: 15px; font-weight: 700; }
    .group-stats { color: var(--muted); font-size: 12px; }
    table { width: 100%; border-collapse: collapse; margin-top: 8px; }
    th, td { border: 1px solid var(--line); padding: 6px 8px; vertical-align: top; text-align: left; font-size: 12px; }
    th { background: #f1f5f9; color: #1f2937; font-weight: 700; }
    td pre { margin: 0; font-family: var(--mono); white-space: pre-wrap; }
    .v-success { color: var(--bad); font-weight: 700; }
    .v-partial { color: var(--warn); font-weight: 700; }
    .v-fail { color: var(--ok); font-weight: 700; }
    .v-unclear { color: var(--muted); font-weight: 700; }
    .mono { font-family: var(--mono); }
    .note { color: var(--muted); font-size: 12px; }
  </style>
</head>
<body>
  <main class="wrap">
    <section class="hero">
      <h1>hamm0r report · {{ run_id }}</h1>
      <div class="meta">
        <span>engagement: <strong class="mono">{{ engagement_slug }}</strong></span>
        <span>started: <strong class="mono">{{ started_at }}</strong></span>
        <span>finished: <strong class="mono">{{ finished_at }}</strong></span>
        <span>generated: <strong class="mono">{{ generated_at }}</strong></span>
        <span>judge mode: <strong>{{ judge.mode }}</strong></span>
        <span>judge provider: <strong>{{ judge.provider }}</strong></span>
        <span>judge model: <strong class="mono">{{ judge.model }}</strong></span>
      </div>
      <div class="grid">
        <div class="card"><div class="k">attempts</div><div class="v">{{ summary.attempts_total }}</div></div>
        <div class="card"><div class="k">judged</div><div class="v">{{ summary.judged_total }}</div></div>
        <div class="card"><div class="k">vulnerable</div><div class="v">{{ summary.vulnerable_total }}</div></div>
        <div class="card"><div class="k">success</div><div class="v">{{ summary.success_total }}</div></div>
        <div class="card"><div class="k">partial</div><div class="v">{{ summary.partial_total }}</div></div>
        <div class="card"><div class="k">fail</div><div class="v">{{ summary.fail_total }}</div></div>
        <div class="card"><div class="k">unclear</div><div class="v">{{ summary.unclear_total }}</div></div>
      </div>
    </section>

    <h2>Findings by Category</h2>
    <section class="panel">
      {% if groups_by_category|length == 0 %}
        <p class="note">No judged findings available.</p>
      {% else %}
        {% for group in groups_by_category %}
          <div class="group">
            <div class="group-head">
              <div class="group-title">{{ group.key }}</div>
              <div class="group-stats">{{ group.findings_total }} findings · {{ group.vulnerable_total }} vulnerable</div>
            </div>
            <table>
              <thead><tr><th>seq</th><th>verdict</th><th>confidence</th><th>severity</th><th>owasp</th><th>rationale</th></tr></thead>
              <tbody>
                {% for finding in group.findings %}
                  <tr>
                    <td class="mono">{{ finding.seq }}</td>
                    <td class="v-{{ finding.verdict|lower }}">{{ finding.verdict }}</td>
                    <td>{{ finding.confidence }}</td>
                    <td>{{ finding.severity }}</td>
                    <td class="mono">{{ finding.owasp_ref }}</td>
                    <td>{{ finding.rationale }}</td>
                  </tr>
                {% endfor %}
              </tbody>
            </table>
          </div>
        {% endfor %}
      {% endif %}
    </section>

    <h2>Findings by OWASP</h2>
    <section class="panel">
      {% if groups_by_owasp|length == 0 %}
        <p class="note">No judged findings available.</p>
      {% else %}
        {% for group in groups_by_owasp %}
          <div class="group">
            <div class="group-head">
              <div class="group-title">{{ group.key }}</div>
              <div class="group-stats">{{ group.findings_total }} findings · {{ group.vulnerable_total }} vulnerable</div>
            </div>
            <table>
              <thead><tr><th>seq</th><th>verdict</th><th>confidence</th><th>severity</th><th>category</th><th>rationale</th></tr></thead>
              <tbody>
                {% for finding in group.findings %}
                  <tr>
                    <td class="mono">{{ finding.seq }}</td>
                    <td class="v-{{ finding.verdict|lower }}">{{ finding.verdict }}</td>
                    <td>{{ finding.confidence }}</td>
                    <td>{{ finding.severity }}</td>
                    <td>{{ finding.category }}</td>
                    <td>{{ finding.rationale }}</td>
                  </tr>
                {% endfor %}
              </tbody>
            </table>
          </div>
        {% endfor %}
      {% endif %}
    </section>

    <h2>Evidence Table</h2>
    <section class="panel">
      <table>
        <thead>
          <tr>
            <th>seq</th><th>prompt</th><th>step</th><th>iter</th><th>session</th>
            <th>http</th><th>latency</th><th>verdict</th><th>confidence</th>
            <th>category</th><th>owasp</th><th>severity</th><th>rationale</th><th>response excerpt</th>
          </tr>
        </thead>
        <tbody>
          {% for row in evidence_rows %}
            <tr>
              <td class="mono">{{ row.seq }}</td>
              <td class="mono">{{ row.prompt_id }}</td>
              <td class="mono">{{ row.step_id }}</td>
              <td class="mono">{{ row.iteration }}</td>
              <td class="mono">{{ row.session }}</td>
              <td class="mono">{{ row.http_status }}</td>
              <td class="mono">{{ row.latency_ms }}</td>
              <td class="v-{{ row.verdict|lower }}">{{ row.verdict }}</td>
              <td>{{ row.confidence }}</td>
              <td>{{ row.category }}</td>
              <td class="mono">{{ row.owasp_ref }}</td>
              <td>{{ row.severity }}</td>
              <td>{{ row.rationale }}</td>
              <td><pre>{{ row.response_excerpt }}</pre></td>
            </tr>
          {% endfor %}
        </tbody>
      </table>
    </section>
  </main>
</body>
</html>
"#;

/// `items`, comma-separated.
pub open spec fn joined(items: Seq<Seq<char>>) -> Seq<char>
    decreases items.len(),
{
    if items.len() == 0 {
        seq![]
    } else if items.len() == 1 {
        items[0]
    } else {
        joined(items.drop_last()) + ","@ + items.last()
    }
}

fn push_quoted(out: &mut String, s: &str)
    ensures
        final(out)@ == old(out)@ + json_string(s@),
{
    let q = json_quote(s);
    push_str(out, q.as_str());
}

/// A finding as JSON, its fields in declaration order.
#[verifier::opaque]
pub open spec fn finding_json(f: ReportFinding) -> Seq<char> {
    "{\"seq\":"@ + decimal(f.seq as nat)
        + ",\"verdict\":"@ + json_string(f.verdict@)
        + ",\"confidence\":"@ + json_string(f.confidence@)
        + ",\"category\":"@ + json_string(f.category@)
        + ",\"severity\":"@ + json_string(f.severity@)
        + ",\"owasp_ref\":"@ + json_string(f.owasp_ref@)
        + ",\"rationale\":"@ + json_string(f.rationale@)
        + "}"@
}

/// An evidence row as JSON, its fields in declaration order.
/// The first half of an evidence row's JSON.
pub open spec fn row_head(r: ReportEvidenceRow) -> Seq<char> {
    "{\"seq\":"@ + decimal(r.seq as nat)
        + ",\"prompt_id\":"@ + json_string(r.prompt_id@)
        + ",\"step_id\":"@ + json_string(r.step_id@)
        + ",\"iteration\":"@ + json_string(r.iteration@)
        + ",\"session\":"@ + json_string(r.session@)
        + ",\"http_status\":"@ + decimal(r.http_status as nat)
        + ",\"latency_ms\":"@ + json_string(r.latency_ms@)
        + ",\"verdict\":"@ + json_string(r.verdict@)
}

/// The second half of an evidence row's JSON, closing brace included.
pub open spec fn row_tail(r: ReportEvidenceRow) -> Seq<char> {
    ",\"confidence\":"@ + json_string(r.confidence@)
        + ",\"category\":"@ + json_string(r.category@)
        + ",\"owasp_ref\":"@ + json_string(r.owasp_ref@)
        + ",\"severity\":"@ + json_string(r.severity@)
        + ",\"rationale\":"@ + json_string(r.rationale@)
        + ",\"response_excerpt\":"@ + json_string(r.response_excerpt@)
        + ",\"triage_status\":"@ + json_string(r.triage_status@)
        + ",\"triage_note\":"@ + json_string(r.triage_note@)
        + "}"@
}

#[verifier::opaque]
pub open spec fn row_json(r: ReportEvidenceRow) -> Seq<char> {
    row_head(r) + row_tail(r)
}

/// The summary counts as JSON.
pub open spec fn summary_json(s: ReportSummary) -> Seq<char> {
    "{\"attempts_total\":"@ + decimal(s.attempts_total as nat)
        + ",\"judged_total\":"@ + decimal(s.judged_total as nat)
        + ",\"vulnerable_total\":"@ + decimal(s.vulnerable_total as nat)
        + ",\"success_total\":"@ + decimal(s.success_total as nat)
        + ",\"partial_total\":"@ + decimal(s.partial_total as nat)
        + ",\"fail_total\":"@ + decimal(s.fail_total as nat)
        + ",\"unclear_total\":"@ + decimal(s.unclear_total as nat)
        + "}"@
}

/// The judge information as JSON.
pub open spec fn judge_json(j: ReportJudgeInfo) -> Seq<char> {
    "{\"mode\":"@ + json_string(j.mode@)
        + ",\"provider\":"@ + json_string(j.provider@)
        + ",\"model\":"@ + json_string(j.model@)
        + "}"@
}

/// The findings as a JSON array.
pub open spec fn findings_json(fs: Seq<ReportFinding>) -> Seq<char> {
    "["@ + joined(fs.map_values(|f: ReportFinding| finding_json(f))) + "]"@
}

/// A group as JSON.
#[verifier::opaque]
pub open spec fn group_json(g: ReportGroup) -> Seq<char> {
    "{\"key\":"@ + json_string(g.key@) + ",\"findings_total\":"@ + decimal(g.findings_total as nat)
        + ",\"vulnerable_total\":"@ + decimal(g.vulnerable_total as nat) + ",\"findings\":"@
        + findings_json(g.findings@) + "}"@
}

/// The groups as a JSON array.
pub open spec fn groups_json(gs: Seq<ReportGroup>) -> Seq<char> {
    "["@ + joined(gs.map_values(|g: ReportGroup| group_json(g))) + "]"@
}

/// The evidence rows as a JSON array.
pub open spec fn rows_json(rs: Seq<ReportEvidenceRow>) -> Seq<char> {
    "["@ + joined(rs.map_values(|r: ReportEvidenceRow| row_json(r))) + "]"@
}

/// The report data as compact JSON, members in declaration order, as
/// serde_json writes the report's fields.
pub open spec fn report_json_text(d: ReportData) -> Seq<char> {
    "{\"engagement_slug\":"@ + json_string(d.engagement_slug@) + ",\"run_id\":"@ + json_string(d.run_id@)
        + ",\"generated_at\":"@ + json_string(d.generated_at@) + ",\"started_at\":"@ + json_string(
        d.started_at@,
    ) + ",\"finished_at\":"@ + json_string(d.finished_at@) + ",\"judge\":"@ + judge_json(d.judge)
        + ",\"summary\":"@ + summary_json(d.summary) + ",\"groups_by_category\":"@ + groups_json(
        d.groups_by_category@,
    ) + ",\"groups_by_owasp\":"@ + groups_json(d.groups_by_owasp@) + ",\"evidence_rows\":"@ + rows_json(
        d.evidence_rows@,
    ) + "}"@
}

fn push_finding(out: &mut String, f: &ReportFinding)
    ensures
        final(out)@ == old(out)@ + finding_json(*f),
{
    let ghost s0 = out@;
    reveal(finding_json);
    push_str(out, "{\"seq\":");
    assert(out@ =~= s0 + ("{\"seq\":"@));
    push_decimal(out, f.seq as u64);
    assert(out@ =~= s0 + ("{\"seq\":"@ + decimal(f.seq as nat)));
    push_str(out, ",\"verdict\":");
    assert(out@ =~= s0 + ("{\"seq\":"@ + decimal(f.seq as nat) + ",\"verdict\":"@));
    push_quoted(out, f.verdict.as_str());
    assert(out@ =~= s0 + ("{\"seq\":"@ + decimal(f.seq as nat) + ",\"verdict\":"@ + json_string(f.verdict@)));
    push_str(out, ",\"confidence\":");
    assert(out@ =~= s0 + ("{\"seq\":"@ + decimal(f.seq as nat) + ",\"verdict\":"@ + json_string(f.verdict@) + ",\"confidence\":"@));
    push_quoted(out, f.confidence.as_str());
    assert(out@ =~= s0 + ("{\"seq\":"@ + decimal(f.seq as nat) + ",\"verdict\":"@ + json_string(f.verdict@) + ",\"confidence\":"@ + json_string(f.confidence@)));
    push_str(out, ",\"category\":");
    assert(out@ =~= s0 + ("{\"seq\":"@ + decimal(f.seq as nat) + ",\"verdict\":"@ + json_string(f.verdict@) + ",\"confidence\":"@ + json_string(f.confidence@) + ",\"category\":"@));
    push_quoted(out, f.category.as_str());
    assert(out@ =~= s0 + ("{\"seq\":"@ + decimal(f.seq as nat) + ",\"verdict\":"@ + json_string(f.verdict@) + ",\"confidence\":"@ + json_string(f.confidence@) + ",\"category\":"@ + json_string(f.category@)));
    push_str(out, ",\"severity\":");
    assert(out@ =~= s0 + ("{\"seq\":"@ + decimal(f.seq as nat) + ",\"verdict\":"@ + json_string(f.verdict@) + ",\"confidence\":"@ + json_string(f.confidence@) + ",\"category\":"@ + json_string(f.category@) + ",\"severity\":"@));
    push_quoted(out, f.severity.as_str());
    assert(out@ =~= s0 + ("{\"seq\":"@ + decimal(f.seq as nat) + ",\"verdict\":"@ + json_string(f.verdict@) + ",\"confidence\":"@ + json_string(f.confidence@) + ",\"category\":"@ + json_string(f.category@) + ",\"severity\":"@ + json_string(f.severity@)));
    push_str(out, ",\"owasp_ref\":");
    assert(out@ =~= s0 + ("{\"seq\":"@ + decimal(f.seq as nat) + ",\"verdict\":"@ + json_string(f.verdict@) + ",\"confidence\":"@ + json_string(f.confidence@) + ",\"category\":"@ + json_string(f.category@) + ",\"severity\":"@ + json_string(f.severity@) + ",\"owasp_ref\":"@));
    push_quoted(out, f.owasp_ref.as_str());
    assert(out@ =~= s0 + ("{\"seq\":"@ + decimal(f.seq as nat) + ",\"verdict\":"@ + json_string(f.verdict@) + ",\"confidence\":"@ + json_string(f.confidence@) + ",\"category\":"@ + json_string(f.category@) + ",\"severity\":"@ + json_string(f.severity@) + ",\"owasp_ref\":"@ + json_string(f.owasp_ref@)));
    push_str(out, ",\"rationale\":");
    assert(out@ =~= s0 + ("{\"seq\":"@ + decimal(f.seq as nat) + ",\"verdict\":"@ + json_string(f.verdict@) + ",\"confidence\":"@ + json_string(f.confidence@) + ",\"category\":"@ + json_string(f.category@) + ",\"severity\":"@ + json_string(f.severity@) + ",\"owasp_ref\":"@ + json_string(f.owasp_ref@) + ",\"rationale\":"@));
    push_quoted(out, f.rationale.as_str());
    assert(out@ =~= s0 + ("{\"seq\":"@ + decimal(f.seq as nat) + ",\"verdict\":"@ + json_string(f.verdict@) + ",\"confidence\":"@ + json_string(f.confidence@) + ",\"category\":"@ + json_string(f.category@) + ",\"severity\":"@ + json_string(f.severity@) + ",\"owasp_ref\":"@ + json_string(f.owasp_ref@) + ",\"rationale\":"@ + json_string(f.rationale@)));
    push_str(out, "}");
    assert(out@ =~= s0 + ("{\"seq\":"@ + decimal(f.seq as nat) + ",\"verdict\":"@ + json_string(f.verdict@) + ",\"confidence\":"@ + json_string(f.confidence@) + ",\"category\":"@ + json_string(f.category@) + ",\"severity\":"@ + json_string(f.severity@) + ",\"owasp_ref\":"@ + json_string(f.owasp_ref@) + ",\"rationale\":"@ + json_string(f.rationale@) + "}"@));
}

fn push_row_head(out: &mut String, r: &ReportEvidenceRow)
    ensures
        final(out)@ == old(out)@ + row_head(*r),
{
    let ghost s0 = out@;
    push_str(out, "{\"seq\":");
    assert(out@ =~= s0 + ("{\"seq\":"@));
    push_decimal(out, r.seq as u64);
    assert(out@ =~= s0 + ("{\"seq\":"@ + decimal(r.seq as nat)));
    push_str(out, ",\"prompt_id\":");
    assert(out@ =~= s0 + ("{\"seq\":"@ + decimal(r.seq as nat) + ",\"prompt_id\":"@));
    push_quoted(out, r.prompt_id.as_str());
    assert(out@ =~= s0 + ("{\"seq\":"@ + decimal(r.seq as nat) + ",\"prompt_id\":"@ + json_string(r.prompt_id@)));
    push_str(out, ",\"step_id\":");
    assert(out@ =~= s0 + ("{\"seq\":"@ + decimal(r.seq as nat) + ",\"prompt_id\":"@ + json_string(r.prompt_id@) + ",\"step_id\":"@));
    push_quoted(out, r.step_id.as_str());
    assert(out@ =~= s0 + ("{\"seq\":"@ + decimal(r.seq as nat) + ",\"prompt_id\":"@ + json_string(r.prompt_id@) + ",\"step_id\":"@ + json_string(r.step_id@)));
    push_str(out, ",\"iteration\":");
    assert(out@ =~= s0 + ("{\"seq\":"@ + decimal(r.seq as nat) + ",\"prompt_id\":"@ + json_string(r.prompt_id@) + ",\"step_id\":"@ + json_string(r.step_id@) + ",\"iteration\":"@));
    push_quoted(out, r.iteration.as_str());
    assert(out@ =~= s0 + ("{\"seq\":"@ + decimal(r.seq as nat) + ",\"prompt_id\":"@ + json_string(r.prompt_id@) + ",\"step_id\":"@ + json_string(r.step_id@) + ",\"iteration\":"@ + json_string(r.iteration@)));
    push_str(out, ",\"session\":");
    assert(out@ =~= s0 + ("{\"seq\":"@ + decimal(r.seq as nat) + ",\"prompt_id\":"@ + json_string(r.prompt_id@) + ",\"step_id\":"@ + json_string(r.step_id@) + ",\"iteration\":"@ + json_string(r.iteration@) + ",\"session\":"@));
    push_quoted(out, r.session.as_str());
    assert(out@ =~= s0 + ("{\"seq\":"@ + decimal(r.seq as nat) + ",\"prompt_id\":"@ + json_string(r.prompt_id@) + ",\"step_id\":"@ + json_string(r.step_id@) + ",\"iteration\":"@ + json_string(r.iteration@) + ",\"session\":"@ + json_string(r.session@)));
    push_str(out, ",\"http_status\":");
    assert(out@ =~= s0 + ("{\"seq\":"@ + decimal(r.seq as nat) + ",\"prompt_id\":"@ + json_string(r.prompt_id@) + ",\"step_id\":"@ + json_string(r.step_id@) + ",\"iteration\":"@ + json_string(r.iteration@) + ",\"session\":"@ + json_string(r.session@) + ",\"http_status\":"@));
    push_decimal(out, r.http_status as u64);
    assert(out@ =~= s0 + ("{\"seq\":"@ + decimal(r.seq as nat) + ",\"prompt_id\":"@ + json_string(r.prompt_id@) + ",\"step_id\":"@ + json_string(r.step_id@) + ",\"iteration\":"@ + json_string(r.iteration@) + ",\"session\":"@ + json_string(r.session@) + ",\"http_status\":"@ + decimal(r.http_status as nat)));
    push_str(out, ",\"latency_ms\":");
    assert(out@ =~= s0 + ("{\"seq\":"@ + decimal(r.seq as nat) + ",\"prompt_id\":"@ + json_string(r.prompt_id@) + ",\"step_id\":"@ + json_string(r.step_id@) + ",\"iteration\":"@ + json_string(r.iteration@) + ",\"session\":"@ + json_string(r.session@) + ",\"http_status\":"@ + decimal(r.http_status as nat) + ",\"latency_ms\":"@));
    push_quoted(out, r.latency_ms.as_str());
    assert(out@ =~= s0 + ("{\"seq\":"@ + decimal(r.seq as nat) + ",\"prompt_id\":"@ + json_string(r.prompt_id@) + ",\"step_id\":"@ + json_string(r.step_id@) + ",\"iteration\":"@ + json_string(r.iteration@) + ",\"session\":"@ + json_string(r.session@) + ",\"http_status\":"@ + decimal(r.http_status as nat) + ",\"latency_ms\":"@ + json_string(r.latency_ms@)));
    push_str(out, ",\"verdict\":");
    assert(out@ =~= s0 + ("{\"seq\":"@ + decimal(r.seq as nat) + ",\"prompt_id\":"@ + json_string(r.prompt_id@) + ",\"step_id\":"@ + json_string(r.step_id@) + ",\"iteration\":"@ + json_string(r.iteration@) + ",\"session\":"@ + json_string(r.session@) + ",\"http_status\":"@ + decimal(r.http_status as nat) + ",\"latency_ms\":"@ + json_string(r.latency_ms@) + ",\"verdict\":"@));
    push_quoted(out, r.verdict.as_str());
    assert(out@ =~= s0 + ("{\"seq\":"@ + decimal(r.seq as nat) + ",\"prompt_id\":"@ + json_string(r.prompt_id@) + ",\"step_id\":"@ + json_string(r.step_id@) + ",\"iteration\":"@ + json_string(r.iteration@) + ",\"session\":"@ + json_string(r.session@) + ",\"http_status\":"@ + decimal(r.http_status as nat) + ",\"latency_ms\":"@ + json_string(r.latency_ms@) + ",\"verdict\":"@ + json_string(r.verdict@)));
}

fn push_row_tail(out: &mut String, r: &ReportEvidenceRow)
    ensures
        final(out)@ == old(out)@ + row_tail(*r),
{
    let ghost s0 = out@;
    push_str(out, ",\"confidence\":");
    assert(out@ =~= s0 + (",\"confidence\":"@));
    push_quoted(out, r.confidence.as_str());
    assert(out@ =~= s0 + (",\"confidence\":"@ + json_string(r.confidence@)));
    push_str(out, ",\"category\":");
    assert(out@ =~= s0 + (",\"confidence\":"@ + json_string(r.confidence@) + ",\"category\":"@));
    push_quoted(out, r.category.as_str());
    assert(out@ =~= s0 + (",\"confidence\":"@ + json_string(r.confidence@) + ",\"category\":"@ + json_string(r.category@)));
    push_str(out, ",\"owasp_ref\":");
    assert(out@ =~= s0 + (",\"confidence\":"@ + json_string(r.confidence@) + ",\"category\":"@ + json_string(r.category@) + ",\"owasp_ref\":"@));
    push_quoted(out, r.owasp_ref.as_str());
    assert(out@ =~= s0 + (",\"confidence\":"@ + json_string(r.confidence@) + ",\"category\":"@ + json_string(r.category@) + ",\"owasp_ref\":"@ + json_string(r.owasp_ref@)));
    push_str(out, ",\"severity\":");
    assert(out@ =~= s0 + (",\"confidence\":"@ + json_string(r.confidence@) + ",\"category\":"@ + json_string(r.category@) + ",\"owasp_ref\":"@ + json_string(r.owasp_ref@) + ",\"severity\":"@));
    push_quoted(out, r.severity.as_str());
    assert(out@ =~= s0 + (",\"confidence\":"@ + json_string(r.confidence@) + ",\"category\":"@ + json_string(r.category@) + ",\"owasp_ref\":"@ + json_string(r.owasp_ref@) + ",\"severity\":"@ + json_string(r.severity@)));
    push_str(out, ",\"rationale\":");
    assert(out@ =~= s0 + (",\"confidence\":"@ + json_string(r.confidence@) + ",\"category\":"@ + json_string(r.category@) + ",\"owasp_ref\":"@ + json_string(r.owasp_ref@) + ",\"severity\":"@ + json_string(r.severity@) + ",\"rationale\":"@));
    push_quoted(out, r.rationale.as_str());
    assert(out@ =~= s0 + (",\"confidence\":"@ + json_string(r.confidence@) + ",\"category\":"@ + json_string(r.category@) + ",\"owasp_ref\":"@ + json_string(r.owasp_ref@) + ",\"severity\":"@ + json_string(r.severity@) + ",\"rationale\":"@ + json_string(r.rationale@)));
    push_str(out, ",\"response_excerpt\":");
    assert(out@ =~= s0 + (",\"confidence\":"@ + json_string(r.confidence@) + ",\"category\":"@ + json_string(r.category@) + ",\"owasp_ref\":"@ + json_string(r.owasp_ref@) + ",\"severity\":"@ + json_string(r.severity@) + ",\"rationale\":"@ + json_string(r.rationale@) + ",\"response_excerpt\":"@));
    push_quoted(out, r.response_excerpt.as_str());
    assert(out@ =~= s0 + (",\"confidence\":"@ + json_string(r.confidence@) + ",\"category\":"@ + json_string(r.category@) + ",\"owasp_ref\":"@ + json_string(r.owasp_ref@) + ",\"severity\":"@ + json_string(r.severity@) + ",\"rationale\":"@ + json_string(r.rationale@) + ",\"response_excerpt\":"@ + json_string(r.response_excerpt@)));
    push_str(out, ",\"triage_status\":");
    assert(out@ =~= s0 + (",\"confidence\":"@ + json_string(r.confidence@) + ",\"category\":"@ + json_string(r.category@) + ",\"owasp_ref\":"@ + json_string(r.owasp_ref@) + ",\"severity\":"@ + json_string(r.severity@) + ",\"rationale\":"@ + json_string(r.rationale@) + ",\"response_excerpt\":"@ + json_string(r.response_excerpt@) + ",\"triage_status\":"@));
    push_quoted(out, r.triage_status.as_str());
    assert(out@ =~= s0 + (",\"confidence\":"@ + json_string(r.confidence@) + ",\"category\":"@ + json_string(r.category@) + ",\"owasp_ref\":"@ + json_string(r.owasp_ref@) + ",\"severity\":"@ + json_string(r.severity@) + ",\"rationale\":"@ + json_string(r.rationale@) + ",\"response_excerpt\":"@ + json_string(r.response_excerpt@) + ",\"triage_status\":"@ + json_string(r.triage_status@)));
    push_str(out, ",\"triage_note\":");
    assert(out@ =~= s0 + (",\"confidence\":"@ + json_string(r.confidence@) + ",\"category\":"@ + json_string(r.category@) + ",\"owasp_ref\":"@ + json_string(r.owasp_ref@) + ",\"severity\":"@ + json_string(r.severity@) + ",\"rationale\":"@ + json_string(r.rationale@) + ",\"response_excerpt\":"@ + json_string(r.response_excerpt@) + ",\"triage_status\":"@ + json_string(r.triage_status@) + ",\"triage_note\":"@));
    push_quoted(out, r.triage_note.as_str());
    assert(out@ =~= s0 + (",\"confidence\":"@ + json_string(r.confidence@) + ",\"category\":"@ + json_string(r.category@) + ",\"owasp_ref\":"@ + json_string(r.owasp_ref@) + ",\"severity\":"@ + json_string(r.severity@) + ",\"rationale\":"@ + json_string(r.rationale@) + ",\"response_excerpt\":"@ + json_string(r.response_excerpt@) + ",\"triage_status\":"@ + json_string(r.triage_status@) + ",\"triage_note\":"@ + json_string(r.triage_note@)));
    push_str(out, "}");
    assert(out@ =~= s0 + (",\"confidence\":"@ + json_string(r.confidence@) + ",\"category\":"@ + json_string(r.category@) + ",\"owasp_ref\":"@ + json_string(r.owasp_ref@) + ",\"severity\":"@ + json_string(r.severity@) + ",\"rationale\":"@ + json_string(r.rationale@) + ",\"response_excerpt\":"@ + json_string(r.response_excerpt@) + ",\"triage_status\":"@ + json_string(r.triage_status@) + ",\"triage_note\":"@ + json_string(r.triage_note@) + "}"@));
}

fn push_row(out: &mut String, r: &ReportEvidenceRow)
    ensures
        final(out)@ == old(out)@ + row_json(*r),
{
    reveal(row_json);
    push_row_head(out, r);
    push_row_tail(out, r);
}

fn push_summary(out: &mut String, s: &ReportSummary)
    ensures
        final(out)@ == old(out)@ + summary_json(*s),
{
    let ghost s0 = out@;
    push_str(out, "{\"attempts_total\":");
    assert(out@ =~= s0 + ("{\"attempts_total\":"@));
    push_decimal(out, s.attempts_total as u64);
    assert(out@ =~= s0 + ("{\"attempts_total\":"@ + decimal(s.attempts_total as nat)));
    push_str(out, ",\"judged_total\":");
    assert(out@ =~= s0 + ("{\"attempts_total\":"@ + decimal(s.attempts_total as nat) + ",\"judged_total\":"@));
    push_decimal(out, s.judged_total as u64);
    assert(out@ =~= s0 + ("{\"attempts_total\":"@ + decimal(s.attempts_total as nat) + ",\"judged_total\":"@ + decimal(s.judged_total as nat)));
    push_str(out, ",\"vulnerable_total\":");
    assert(out@ =~= s0 + ("{\"attempts_total\":"@ + decimal(s.attempts_total as nat) + ",\"judged_total\":"@ + decimal(s.judged_total as nat) + ",\"vulnerable_total\":"@));
    push_decimal(out, s.vulnerable_total as u64);
    assert(out@ =~= s0 + ("{\"attempts_total\":"@ + decimal(s.attempts_total as nat) + ",\"judged_total\":"@ + decimal(s.judged_total as nat) + ",\"vulnerable_total\":"@ + decimal(s.vulnerable_total as nat)));
    push_str(out, ",\"success_total\":");
    assert(out@ =~= s0 + ("{\"attempts_total\":"@ + decimal(s.attempts_total as nat) + ",\"judged_total\":"@ + decimal(s.judged_total as nat) + ",\"vulnerable_total\":"@ + decimal(s.vulnerable_total as nat) + ",\"success_total\":"@));
    push_decimal(out, s.success_total as u64);
    assert(out@ =~= s0 + ("{\"attempts_total\":"@ + decimal(s.attempts_total as nat) + ",\"judged_total\":"@ + decimal(s.judged_total as nat) + ",\"vulnerable_total\":"@ + decimal(s.vulnerable_total as nat) + ",\"success_total\":"@ + decimal(s.success_total as nat)));
    push_str(out, ",\"partial_total\":");
    assert(out@ =~= s0 + ("{\"attempts_total\":"@ + decimal(s.attempts_total as nat) + ",\"judged_total\":"@ + decimal(s.judged_total as nat) + ",\"vulnerable_total\":"@ + decimal(s.vulnerable_total as nat) + ",\"success_total\":"@ + decimal(s.success_total as nat) + ",\"partial_total\":"@));
    push_decimal(out, s.partial_total as u64);
    assert(out@ =~= s0 + ("{\"attempts_total\":"@ + decimal(s.attempts_total as nat) + ",\"judged_total\":"@ + decimal(s.judged_total as nat) + ",\"vulnerable_total\":"@ + decimal(s.vulnerable_total as nat) + ",\"success_total\":"@ + decimal(s.success_total as nat) + ",\"partial_total\":"@ + decimal(s.partial_total as nat)));
    push_str(out, ",\"fail_total\":");
    assert(out@ =~= s0 + ("{\"attempts_total\":"@ + decimal(s.attempts_total as nat) + ",\"judged_total\":"@ + decimal(s.judged_total as nat) + ",\"vulnerable_total\":"@ + decimal(s.vulnerable_total as nat) + ",\"success_total\":"@ + decimal(s.success_total as nat) + ",\"partial_total\":"@ + decimal(s.partial_total as nat) + ",\"fail_total\":"@));
    push_decimal(out, s.fail_total as u64);
    assert(out@ =~= s0 + ("{\"attempts_total\":"@ + decimal(s.attempts_total as nat) + ",\"judged_total\":"@ + decimal(s.judged_total as nat) + ",\"vulnerable_total\":"@ + decimal(s.vulnerable_total as nat) + ",\"success_total\":"@ + decimal(s.success_total as nat) + ",\"partial_total\":"@ + decimal(s.partial_total as nat) + ",\"fail_total\":"@ + decimal(s.fail_total as nat)));
    push_str(out, ",\"unclear_total\":");
    assert(out@ =~= s0 + ("{\"attempts_total\":"@ + decimal(s.attempts_total as nat) + ",\"judged_total\":"@ + decimal(s.judged_total as nat) + ",\"vulnerable_total\":"@ + decimal(s.vulnerable_total as nat) + ",\"success_total\":"@ + decimal(s.success_total as nat) + ",\"partial_total\":"@ + decimal(s.partial_total as nat) + ",\"fail_total\":"@ + decimal(s.fail_total as nat) + ",\"unclear_total\":"@));
    push_decimal(out, s.unclear_total as u64);
    assert(out@ =~= s0 + ("{\"attempts_total\":"@ + decimal(s.attempts_total as nat) + ",\"judged_total\":"@ + decimal(s.judged_total as nat) + ",\"vulnerable_total\":"@ + decimal(s.vulnerable_total as nat) + ",\"success_total\":"@ + decimal(s.success_total as nat) + ",\"partial_total\":"@ + decimal(s.partial_total as nat) + ",\"fail_total\":"@ + decimal(s.fail_total as nat) + ",\"unclear_total\":"@ + decimal(s.unclear_total as nat)));
    push_str(out, "}");
    assert(out@ =~= s0 + ("{\"attempts_total\":"@ + decimal(s.attempts_total as nat) + ",\"judged_total\":"@ + decimal(s.judged_total as nat) + ",\"vulnerable_total\":"@ + decimal(s.vulnerable_total as nat) + ",\"success_total\":"@ + decimal(s.success_total as nat) + ",\"partial_total\":"@ + decimal(s.partial_total as nat) + ",\"fail_total\":"@ + decimal(s.fail_total as nat) + ",\"unclear_total\":"@ + decimal(s.unclear_total as nat) + "}"@));
}

fn push_judge(out: &mut String, j: &ReportJudgeInfo)
    ensures
        final(out)@ == old(out)@ + judge_json(*j),
{
    let ghost s0 = out@;
    push_str(out, "{\"mode\":");
    assert(out@ =~= s0 + ("{\"mode\":"@));
    push_quoted(out, j.mode.as_str());
    assert(out@ =~= s0 + ("{\"mode\":"@ + json_string(j.mode@)));
    push_str(out, ",\"provider\":");
    assert(out@ =~= s0 + ("{\"mode\":"@ + json_string(j.mode@) + ",\"provider\":"@));
    push_quoted(out, j.provider.as_str());
    assert(out@ =~= s0 + ("{\"mode\":"@ + json_string(j.mode@) + ",\"provider\":"@ + json_string(j.provider@)));
    push_str(out, ",\"model\":");
    assert(out@ =~= s0 + ("{\"mode\":"@ + json_string(j.mode@) + ",\"provider\":"@ + json_string(j.provider@) + ",\"model\":"@));
    push_quoted(out, j.model.as_str());
    assert(out@ =~= s0 + ("{\"mode\":"@ + json_string(j.mode@) + ",\"provider\":"@ + json_string(j.provider@) + ",\"model\":"@ + json_string(j.model@)));
    push_str(out, "}");
    assert(out@ =~= s0 + ("{\"mode\":"@ + json_string(j.mode@) + ",\"provider\":"@ + json_string(j.provider@) + ",\"model\":"@ + json_string(j.model@) + "}"@));
}

fn push_findings(out: &mut String, items: &Vec<ReportFinding>)
    ensures
        final(out)@ == old(out)@ + findings_json(items@),
{
    let ghost start = out@;
    let ghost texts = items@.map_values(|x: ReportFinding| finding_json(x));
    push_str(out, "[");
    let mut i: usize = 0;
    assert(texts.take(0) =~= Seq::<Seq<char>>::empty());
    while i < items.len()
        invariant
            i <= items.len(),
            texts == items@.map_values(|x: ReportFinding| finding_json(x)),
            out@ == start + "["@ + joined(texts.take(i as int)),
        decreases items.len() - i,
    {
        let ghost before = out@;
        if i > 0 {
            push_str(out, ",");
        }
        push_finding(out, &items[i]);
        proof {
            let t = texts.take(i + 1);
            assert(t.drop_last() =~= texts.take(i as int));
            assert(t.last() == finding_json(items@[i as int]));
            if i == 0 {
                assert(t =~= seq![finding_json(items@[0])]);
            }
        }
        i += 1;
    }
    assert(texts.take(items.len() as int) =~= texts);
    push_str(out, "]");
}

fn push_group(out: &mut String, g: &ReportGroup)
    ensures
        final(out)@ == old(out)@ + group_json(*g),
{
    let ghost s0 = out@;
    reveal(group_json);
    push_str(out, "{\"key\":");
    assert(out@ =~= s0 + ("{\"key\":"@));
    push_quoted(out, g.key.as_str());
    assert(out@ =~= s0 + ("{\"key\":"@ + json_string(g.key@)));
    push_str(out, ",\"findings_total\":");
    assert(out@ =~= s0 + ("{\"key\":"@ + json_string(g.key@) + ",\"findings_total\":"@));
    push_decimal(out, g.findings_total as u64);
    assert(out@ =~= s0 + ("{\"key\":"@ + json_string(g.key@) + ",\"findings_total\":"@ + decimal(g.findings_total as nat)));
    push_str(out, ",\"vulnerable_total\":");
    assert(out@ =~= s0 + ("{\"key\":"@ + json_string(g.key@) + ",\"findings_total\":"@ + decimal(g.findings_total as nat) + ",\"vulnerable_total\":"@));
    push_decimal(out, g.vulnerable_total as u64);
    assert(out@ =~= s0 + ("{\"key\":"@ + json_string(g.key@) + ",\"findings_total\":"@ + decimal(g.findings_total as nat) + ",\"vulnerable_total\":"@ + decimal(g.vulnerable_total as nat)));
    push_str(out, ",\"findings\":");
    assert(out@ =~= s0 + ("{\"key\":"@ + json_string(g.key@) + ",\"findings_total\":"@ + decimal(g.findings_total as nat) + ",\"vulnerable_total\":"@ + decimal(g.vulnerable_total as nat) + ",\"findings\":"@));
    push_findings(out, &g.findings);
    assert(out@ =~= s0 + ("{\"key\":"@ + json_string(g.key@) + ",\"findings_total\":"@ + decimal(g.findings_total as nat) + ",\"vulnerable_total\":"@ + decimal(g.vulnerable_total as nat) + ",\"findings\":"@ + findings_json(g.findings@)));
    push_str(out, "}");
    assert(out@ =~= s0 + ("{\"key\":"@ + json_string(g.key@) + ",\"findings_total\":"@ + decimal(g.findings_total as nat) + ",\"vulnerable_total\":"@ + decimal(g.vulnerable_total as nat) + ",\"findings\":"@ + findings_json(g.findings@) + "}"@));
}

fn push_groups(out: &mut String, items: &Vec<ReportGroup>)
    ensures
        final(out)@ == old(out)@ + groups_json(items@),
{
    let ghost start = out@;
    let ghost texts = items@.map_values(|x: ReportGroup| group_json(x));
    push_str(out, "[");
    let mut i: usize = 0;
    assert(texts.take(0) =~= Seq::<Seq<char>>::empty());
    while i < items.len()
        invariant
            i <= items.len(),
            texts == items@.map_values(|x: ReportGroup| group_json(x)),
            out@ == start + "["@ + joined(texts.take(i as int)),
        decreases items.len() - i,
    {
        let ghost before = out@;
        if i > 0 {
            push_str(out, ",");
        }
        push_group(out, &items[i]);
        proof {
            let t = texts.take(i + 1);
            assert(t.drop_last() =~= texts.take(i as int));
            assert(t.last() == group_json(items@[i as int]));
            if i == 0 {
                assert(t =~= seq![group_json(items@[0])]);
            }
        }
        i += 1;
    }
    assert(texts.take(items.len() as int) =~= texts);
    push_str(out, "]");
}

fn push_rows(out: &mut String, items: &Vec<ReportEvidenceRow>)
    ensures
        final(out)@ == old(out)@ + rows_json(items@),
{
    let ghost start = out@;
    let ghost texts = items@.map_values(|x: ReportEvidenceRow| row_json(x));
    push_str(out, "[");
    let mut i: usize = 0;
    assert(texts.take(0) =~= Seq::<Seq<char>>::empty());
    while i < items.len()
        invariant
            i <= items.len(),
            texts == items@.map_values(|x: ReportEvidenceRow| row_json(x)),
            out@ == start + "["@ + joined(texts.take(i as int)),
        decreases items.len() - i,
    {
        let ghost before = out@;
        if i > 0 {
            push_str(out, ",");
        }
        push_row(out, &items[i]);
        proof {
            let t = texts.take(i + 1);
            assert(t.drop_last() =~= texts.take(i as int));
            assert(t.last() == row_json(items@[i as int]));
            if i == 0 {
                assert(t =~= seq![row_json(items@[0])]);
            }
        }
        i += 1;
    }
    assert(texts.take(items.len() as int) =~= texts);
    push_str(out, "]");
}

/// The report data as compact JSON (see `report_json_text`).
pub fn report_json(d: &ReportData) -> (r: String)
    ensures
        r@ == report_json_text(*d),
{
    let ghost s0 = Seq::<char>::empty();
    let mut out = String::new();
    push_str(&mut out, "{\"engagement_slug\":");
    assert(out@ =~= s0 + ("{\"engagement_slug\":"@));
    push_quoted(&mut out, d.engagement_slug.as_str());
    assert(out@ =~= s0 + ("{\"engagement_slug\":"@ + json_string(d.engagement_slug@)));
    push_str(&mut out, ",\"run_id\":");
    assert(out@ =~= s0 + ("{\"engagement_slug\":"@ + json_string(d.engagement_slug@) + ",\"run_id\":"@));
    push_quoted(&mut out, d.run_id.as_str());
    assert(out@ =~= s0 + ("{\"engagement_slug\":"@ + json_string(d.engagement_slug@) + ",\"run_id\":"@ + json_string(d.run_id@)));
    push_str(&mut out, ",\"generated_at\":");
    assert(out@ =~= s0 + ("{\"engagement_slug\":"@ + json_string(d.engagement_slug@) + ",\"run_id\":"@ + json_string(d.run_id@) + ",\"generated_at\":"@));
    push_quoted(&mut out, d.generated_at.as_str());
    assert(out@ =~= s0 + ("{\"engagement_slug\":"@ + json_string(d.engagement_slug@) + ",\"run_id\":"@ + json_string(d.run_id@) + ",\"generated_at\":"@ + json_string(d.generated_at@)));
    push_str(&mut out, ",\"started_at\":");
    assert(out@ =~= s0 + ("{\"engagement_slug\":"@ + json_string(d.engagement_slug@) + ",\"run_id\":"@ + json_string(d.run_id@) + ",\"generated_at\":"@ + json_string(d.generated_at@) + ",\"started_at\":"@));
    push_quoted(&mut out, d.started_at.as_str());
    assert(out@ =~= s0 + ("{\"engagement_slug\":"@ + json_string(d.engagement_slug@) + ",\"run_id\":"@ + json_string(d.run_id@) + ",\"generated_at\":"@ + json_string(d.generated_at@) + ",\"started_at\":"@ + json_string(d.started_at@)));
    push_str(&mut out, ",\"finished_at\":");
    assert(out@ =~= s0 + ("{\"engagement_slug\":"@ + json_string(d.engagement_slug@) + ",\"run_id\":"@ + json_string(d.run_id@) + ",\"generated_at\":"@ + json_string(d.generated_at@) + ",\"started_at\":"@ + json_string(d.started_at@) + ",\"finished_at\":"@));
    push_quoted(&mut out, d.finished_at.as_str());
    assert(out@ =~= s0 + ("{\"engagement_slug\":"@ + json_string(d.engagement_slug@) + ",\"run_id\":"@ + json_string(d.run_id@) + ",\"generated_at\":"@ + json_string(d.generated_at@) + ",\"started_at\":"@ + json_string(d.started_at@) + ",\"finished_at\":"@ + json_string(d.finished_at@)));
    push_str(&mut out, ",\"judge\":");
    assert(out@ =~= s0 + ("{\"engagement_slug\":"@ + json_string(d.engagement_slug@) + ",\"run_id\":"@ + json_string(d.run_id@) + ",\"generated_at\":"@ + json_string(d.generated_at@) + ",\"started_at\":"@ + json_string(d.started_at@) + ",\"finished_at\":"@ + json_string(d.finished_at@) + ",\"judge\":"@));
    push_judge(&mut out, &d.judge);
    assert(out@ =~= s0 + ("{\"engagement_slug\":"@ + json_string(d.engagement_slug@) + ",\"run_id\":"@ + json_string(d.run_id@) + ",\"generated_at\":"@ + json_string(d.generated_at@) + ",\"started_at\":"@ + json_string(d.started_at@) + ",\"finished_at\":"@ + json_string(d.finished_at@) + ",\"judge\":"@ + judge_json(d.judge)));
    push_str(&mut out, ",\"summary\":");
    assert(out@ =~= s0 + ("{\"engagement_slug\":"@ + json_string(d.engagement_slug@) + ",\"run_id\":"@ + json_string(d.run_id@) + ",\"generated_at\":"@ + json_string(d.generated_at@) + ",\"started_at\":"@ + json_string(d.started_at@) + ",\"finished_at\":"@ + json_string(d.finished_at@) + ",\"judge\":"@ + judge_json(d.judge) + ",\"summary\":"@));
    push_summary(&mut out, &d.summary);
    assert(out@ =~= s0 + ("{\"engagement_slug\":"@ + json_string(d.engagement_slug@) + ",\"run_id\":"@ + json_string(d.run_id@) + ",\"generated_at\":"@ + json_string(d.generated_at@) + ",\"started_at\":"@ + json_string(d.started_at@) + ",\"finished_at\":"@ + json_string(d.finished_at@) + ",\"judge\":"@ + judge_json(d.judge) + ",\"summary\":"@ + summary_json(d.summary)));
    push_str(&mut out, ",\"groups_by_category\":");
    assert(out@ =~= s0 + ("{\"engagement_slug\":"@ + json_string(d.engagement_slug@) + ",\"run_id\":"@ + json_string(d.run_id@) + ",\"generated_at\":"@ + json_string(d.generated_at@) + ",\"started_at\":"@ + json_string(d.started_at@) + ",\"finished_at\":"@ + json_string(d.finished_at@) + ",\"judge\":"@ + judge_json(d.judge) + ",\"summary\":"@ + summary_json(d.summary) + ",\"groups_by_category\":"@));
    push_groups(&mut out, &d.groups_by_category);
    assert(out@ =~= s0 + ("{\"engagement_slug\":"@ + json_string(d.engagement_slug@) + ",\"run_id\":"@ + json_string(d.run_id@) + ",\"generated_at\":"@ + json_string(d.generated_at@) + ",\"started_at\":"@ + json_string(d.started_at@) + ",\"finished_at\":"@ + json_string(d.finished_at@) + ",\"judge\":"@ + judge_json(d.judge) + ",\"summary\":"@ + summary_json(d.summary) + ",\"groups_by_category\":"@ + groups_json(d.groups_by_category@)));
    push_str(&mut out, ",\"groups_by_owasp\":");
    assert(out@ =~= s0 + ("{\"engagement_slug\":"@ + json_string(d.engagement_slug@) + ",\"run_id\":"@ + json_string(d.run_id@) + ",\"generated_at\":"@ + json_string(d.generated_at@) + ",\"started_at\":"@ + json_string(d.started_at@) + ",\"finished_at\":"@ + json_string(d.finished_at@) + ",\"judge\":"@ + judge_json(d.judge) + ",\"summary\":"@ + summary_json(d.summary) + ",\"groups_by_category\":"@ + groups_json(d.groups_by_category@) + ",\"groups_by_owasp\":"@));
    push_groups(&mut out, &d.groups_by_owasp);
    assert(out@ =~= s0 + ("{\"engagement_slug\":"@ + json_string(d.engagement_slug@) + ",\"run_id\":"@ + json_string(d.run_id@) + ",\"generated_at\":"@ + json_string(d.generated_at@) + ",\"started_at\":"@ + json_string(d.started_at@) + ",\"finished_at\":"@ + json_string(d.finished_at@) + ",\"judge\":"@ + judge_json(d.judge) + ",\"summary\":"@ + summary_json(d.summary) + ",\"groups_by_category\":"@ + groups_json(d.groups_by_category@) + ",\"groups_by_owasp\":"@ + groups_json(d.groups_by_owasp@)));
    push_str(&mut out, ",\"evidence_rows\":");
    assert(out@ =~= s0 + ("{\"engagement_slug\":"@ + json_string(d.engagement_slug@) + ",\"run_id\":"@ + json_string(d.run_id@) + ",\"generated_at\":"@ + json_string(d.generated_at@) + ",\"started_at\":"@ + json_string(d.started_at@) + ",\"finished_at\":"@ + json_string(d.finished_at@) + ",\"judge\":"@ + judge_json(d.judge) + ",\"summary\":"@ + summary_json(d.summary) + ",\"groups_by_category\":"@ + groups_json(d.groups_by_category@) + ",\"groups_by_owasp\":"@ + groups_json(d.groups_by_owasp@) + ",\"evidence_rows\":"@));
    push_rows(&mut out, &d.evidence_rows);
    assert(out@ =~= s0 + ("{\"engagement_slug\":"@ + json_string(d.engagement_slug@) + ",\"run_id\":"@ + json_string(d.run_id@) + ",\"generated_at\":"@ + json_string(d.generated_at@) + ",\"started_at\":"@ + json_string(d.started_at@) + ",\"finished_at\":"@ + json_string(d.finished_at@) + ",\"judge\":"@ + judge_json(d.judge) + ",\"summary\":"@ + summary_json(d.summary) + ",\"groups_by_category\":"@ + groups_json(d.groups_by_category@) + ",\"groups_by_owasp\":"@ + groups_json(d.groups_by_owasp@) + ",\"evidence_rows\":"@ + rows_json(d.evidence_rows@)));
    push_str(&mut out, "}");
    assert(out@ =~= s0 + ("{\"engagement_slug\":"@ + json_string(d.engagement_slug@) + ",\"run_id\":"@ + json_string(d.run_id@) + ",\"generated_at\":"@ + json_string(d.generated_at@) + ",\"started_at\":"@ + json_string(d.started_at@) + ",\"finished_at\":"@ + json_string(d.finished_at@) + ",\"judge\":"@ + judge_json(d.judge) + ",\"summary\":"@ + summary_json(d.summary) + ",\"groups_by_category\":"@ + groups_json(d.groups_by_category@) + ",\"groups_by_owasp\":"@ + groups_json(d.groups_by_owasp@) + ",\"evidence_rows\":"@ + rows_json(d.evidence_rows@) + "}"@));
    assert(out@ =~= report_json_text(*d));
    out
}

/// The self-contained HTML report of the report data: its JSON rendered
/// through the bundled template, or the template engine's error.
pub fn render_html_report(d: &ReportData) -> (r: Result<String, String>)
    ensures
        match r {
            Ok(h) => html_report_of(REPORT_TEMPLATE@, report_json_text(*d)) == Ok::<Seq<char>, Seq<char>>(h@),
            Err(e) => html_report_of(REPORT_TEMPLATE@, report_json_text(*d)) == Err::<Seq<char>, Seq<char>>(e@),
        },
{
    let json = report_json(d);
    render_report_template(REPORT_TEMPLATE, json.as_str())
}

} // verus!
