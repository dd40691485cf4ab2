//! Application log entries: one header line per message, continuation
//! lines indented.
use vstd::prelude::*;

use crate::report::lines_from;
use crate::run::iso_now;
use crate::settings::{log_level_label, log_level_text, LogLevel};
use crate::text::{chars_of, owned, push_str, string_from_chars, strings_view};

verus! {

/// A line without the `\r` of a `\r\n` ending.
pub open spec fn strip_cr(l: Seq<char>) -> Seq<char> {
    if l.len() > 0 && l.last() == '\r' {
        l.drop_last()
    } else {
        l
    }
}

/// `str::lines`: the text cut at each `\n`, a `\r` before it dropped, and
/// no empty line after a final `\n` (none at all for empty text).
pub open spec fn std_lines(s: Seq<char>) -> Seq<Seq<char>> {
    let p = lines_from(s, 0, 0);
    let done = p.drop_last().map_values(|l: Seq<char>| strip_cr(l));
    if p.last().len() == 0 {
        done
    } else {
        done.push(p.last())
    }
}

proof fn lemma_lines_from_nonempty(s: Seq<char>, start: int, i: int)
    ensures
        lines_from(s, start, i).len() >= 1,
    decreases s.len() - i,
{
    if !(i < start || i >= s.len()) {
        if s[i] == '\n' {
            lemma_lines_from_nonempty(s, i + 1, i + 1);
        } else {
            lemma_lines_from_nonempty(s, start, i + 1);
        }
    }
}

/// Splits text into lines as `str::lines` does.
pub fn split_lines(s: &str) -> (r: Vec<String>)
    ensures
        strings_view(r@) == std_lines(s@),
{
    let v = chars_of(s);
    let mut out: Vec<String> = Vec::new();
    let mut start: usize = 0;
    let mut i: usize = 0;
    let ghost mut done: Seq<Seq<char>> = seq![];
    assert(done + lines_from(v@, 0, 0) =~= lines_from(v@, 0, 0));
    while i < v.len()
        invariant
            v@ == s@,
            start <= i <= v@.len(),
            done + lines_from(v@, start as int, i as int) == lines_from(v@, 0, 0),
            strings_view(out@) == done.map_values(|l: Seq<char>| strip_cr(l)),
        decreases v@.len() - i,
    {
        if v[i] == '\n' {
            let ghost line = v@.subrange(start as int, i as int);
            assert(lines_from(v@, start as int, i as int) == seq![line] + lines_from(v@, i + 1, i + 1));
            let end = if i > start && v[i - 1] == '\r' {
                i - 1
            } else {
                i
            };
            let piece = string_from_chars(&v, start, end);
            assert(piece@ =~= strip_cr(line));
            let ghost prev = out@;
            out.push(piece);
            proof {
                assert(strings_view(out@) =~= strings_view(prev).push(strip_cr(line)));
                assert(done.push(line).map_values(|l: Seq<char>| strip_cr(l)) =~= done.map_values(
                    |l: Seq<char>| strip_cr(l),
                ).push(strip_cr(line)));
                assert(strings_view(out@) =~= done.push(line).map_values(|l: Seq<char>| strip_cr(l)));
                assert(done.push(line) + lines_from(v@, i + 1, i + 1) =~= done + (seq![line] + lines_from(
                    v@,
                    i + 1,
                    i + 1,
                )));
                done = done.push(line);
            }
            start = i + 1;
        } else {
            assert(lines_from(v@, start as int, i as int) == lines_from(v@, start as int, i + 1));
        }
        i += 1;
    }
    let ghost last = v@.subrange(start as int, v@.len() as int);
    assert(lines_from(v@, start as int, i as int) == seq![last]);
    assert(lines_from(v@, 0, 0) =~= done.push(last));
    assert(done.push(last).drop_last() =~= done);
    if start < v.len() {
        let piece = string_from_chars(&v, start, v.len());
        let ghost prev = out@;
        out.push(piece);
        assert(strings_view(out@) =~= strings_view(prev).push(last));
        assert(strings_view(out@) =~= std_lines(s@));
    } else {
        assert(strings_view(out@) =~= std_lines(s@));
    }
    out
}

/// The continuation lines, each indented by four spaces and ended.
pub open spec fn continuation_text(ls: Seq<Seq<char>>) -> Seq<char>
    decreases ls.len(),
{
    if ls.len() == 0 {
        seq![]
    } else {
        continuation_text(ls.drop_last()) + "    "@ + ls.last() + "\n"@
    }
}

/// The message part of an entry: the first line after a space, the rest
/// indented; a lone newline for an empty message.
pub open spec fn message_text(ls: Seq<Seq<char>>) -> Seq<char> {
    if ls.len() == 0 {
        "\n"@
    } else {
        " "@ + ls[0] + "\n"@ + continuation_text(ls.drop_first())
    }
}

pub open spec fn run_part(run_id: Option<Seq<char>>) -> Seq<char> {
    match run_id {
        Some(r) => " [run_id="@ + r + "]"@,
        None => seq![],
    }
}

/// A log entry written at `ts`.
pub open spec fn entry_text(
    ts: Seq<char>,
    level: LogLevel,
    component: Seq<char>,
    app_session_id: Seq<char>,
    run_id: Option<Seq<char>>,
    message: Seq<char>,
) -> Seq<char> {
    "["@ + ts + "] ["@ + log_level_text(level) + "] ["@ + component + "] [app_session_id="@ + app_session_id + "]"@
        + run_part(run_id) + message_text(std_lines(message))
}

pub open spec fn opt_str(o: Option<&str>) -> Option<Seq<char>> {
    match o {
        Some(s) => Some(s@),
        None => None,
    }
}

fn push_message(out: &mut String, message: &str)
    ensures
        final(out)@ == old(out)@ + message_text(std_lines(message@)),
{
    let lines = split_lines(message);
    let ghost ls = std_lines(message@);
    if lines.len() == 0 {
        push_str(out, "\n");
        return;
    }
    let ghost base = out@;
    push_str(out, " ");
    push_str(out, lines[0].as_str());
    push_str(out, "\n");
    let ghost head = out@;
    assert(head =~= base + (" "@ + ls[0] + "\n"@));
    let mut k: usize = 1;
    assert(ls.drop_first().take(0) =~= seq![]);
    while k < lines.len()
        invariant
            1 <= k <= lines@.len(),
            strings_view(lines@) == ls,
            out@ == head + continuation_text(ls.drop_first().take(k - 1)),
        decreases lines@.len() - k,
    {
        let ghost before = out@;
        push_str(out, "    ");
        push_str(out, lines[k].as_str());
        push_str(out, "\n");
        proof {
            let t = ls.drop_first().take(k as int);
            assert(t.drop_last() =~= ls.drop_first().take(k - 1));
            assert(t.last() == ls[k as int]);
            assert(out@ =~= head + continuation_text(t));
        }
        k += 1;
    }
    assert(ls.drop_first().take(k - 1) =~= ls.drop_first());
}

/// The entry for `message` written at time `ts`.
pub fn format_entry_at(
    ts: &str,
    level: LogLevel,
    component: &str,
    app_session_id: &str,
    run_id: Option<&str>,
    message: &str,
) -> (r: String)
    ensures
        r@ == entry_text(ts@, level, component@, app_session_id@, opt_str(run_id), message@),
{
    let mut out = owned("[");
    push_str(&mut out, ts);
    push_str(&mut out, "] [");
    push_str(&mut out, log_level_label(level));
    push_str(&mut out, "] [");
    push_str(&mut out, component);
    push_str(&mut out, "] [app_session_id=");
    push_str(&mut out, app_session_id);
    push_str(&mut out, "]");
    let ghost header = out@;
    match run_id {
        Some(id) => {
            push_str(&mut out, " [run_id=");
            push_str(&mut out, id);
            push_str(&mut out, "]");
        },
        None => {},
    }
    assert(out@ =~= header + run_part(opt_str(run_id)));
    let ghost with_run = out@;
    push_message(&mut out, message);
    assert(out@ =~= entry_text(ts@, level, component@, app_session_id@, opt_str(run_id), message@));
    out
}

/// The entry for `message`, stamped with the current time.
pub fn format_entry(
    level: LogLevel,
    component: &str,
    app_session_id: &str,
    run_id: Option<&str>,
    message: &str,
) -> (r: String)
    ensures
        exists|ts: Seq<char>| r@ == entry_text(ts, level, component@, app_session_id@, opt_str(run_id), message@),
{
    let ts = iso_now();
    format_entry_at(ts.as_str(), level, component, app_session_id, run_id, message)
}

} // verus!
