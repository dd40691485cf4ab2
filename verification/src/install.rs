//! Analyzer installation: install states, hardware classes and the
//! minimum-version check.
use vstd::prelude::*;

use crate::text::{chars_of, is_ascii_digit, owned};

verus! {

// ── Install state ────────────────────────────────────────────────────────────

/// State of the analyzer install, as the UI renders it.
#[derive(Debug, Clone, Copy, PartialEq, Eq, Structural)]
pub enum InstallState {
    NotInstalled,
    Downloading,
    Installed,
    BrokenInstall,
    IncompatibleVersion,
}

impl InstallState {
    pub open spec fn label(self) -> Seq<char> {
        match self {
            InstallState::NotInstalled => "not_installed"@,
            InstallState::Downloading => "downloading"@,
            InstallState::Installed => "installed"@,
            InstallState::BrokenInstall => "broken_install"@,
            InstallState::IncompatibleVersion => "incompatible_version"@,
        }
    }

    /// The stable string the UI switches on.
    pub fn as_str(self) -> (r: &'static str)
        ensures
            r@ == self.label(),
    {
        match self {
            InstallState::NotInstalled => "not_installed",
            InstallState::Downloading => "downloading",
            InstallState::Installed => "installed",
            InstallState::BrokenInstall => "broken_install",
            InstallState::IncompatibleVersion => "incompatible_version",
        }
    }
}

/// What was found on disk about an install, in the order it is checked.
#[derive(Debug, Clone, Copy, PartialEq, Eq, Structural)]
pub enum InstallProbe {
    /// `install.json` does not exist.
    Missing,
    /// `install.json` could not be read or is not JSON.
    Unreadable,
    /// `install.json` is JSON; its `version` field (0 when absent or not
    /// an unsigned integer) and whether it deserialises as an install
    /// record, and, if so, whether the entrypoint and the model file are
    /// present.
    Parsed { version: u32, typed: bool, entrypoint_present: bool, model_present: bool },
}

/// The install state a probe shows: a schema version other than the
/// current one is incompatible; a record that does not deserialise, or
/// whose entrypoint or model is missing, is broken.
pub open spec fn install_state_spec(probe: InstallProbe, current_version: u32) -> InstallState {
    match probe {
        InstallProbe::Missing => InstallState::NotInstalled,
        InstallProbe::Unreadable => InstallState::BrokenInstall,
        InstallProbe::Parsed { version, typed, entrypoint_present, model_present } => {
            if version != current_version {
                InstallState::IncompatibleVersion
            } else if !typed || !entrypoint_present || !model_present {
                InstallState::BrokenInstall
            } else {
                InstallState::Installed
            }
        },
    }
}

/// The install state for what was found on disk.
pub fn install_state_from_probe(probe: InstallProbe, current_version: u32) -> (r: InstallState)
    ensures
        r == install_state_spec(probe, current_version),
{
    match probe {
        InstallProbe::Missing => InstallState::NotInstalled,
        InstallProbe::Unreadable => InstallState::BrokenInstall,
        InstallProbe::Parsed { version, typed, entrypoint_present, model_present } => {
            if version != current_version {
                InstallState::IncompatibleVersion
            } else if !typed || !entrypoint_present || !model_present {
                InstallState::BrokenInstall
            } else {
                InstallState::Installed
            }
        },
    }
}

// ── Hardware ─────────────────────────────────────────────────────────────────

/// The hardware class an analyzer variant is built for.
#[derive(Debug, Clone, Copy, PartialEq, Eq, Structural)]
pub enum HardwareClass {
    AppleSilicon,
    X86_64Avx2,
    Generic,
}

pub open spec fn hardware_label(hw: HardwareClass) -> Seq<char> {
    match hw {
        HardwareClass::AppleSilicon => "apple_silicon"@,
        HardwareClass::X86_64Avx2 => "x86_64_avx2"@,
        HardwareClass::Generic => "generic"@,
    }
}

/// The id of a hardware class, as manifests and the UI write it.
pub fn hardware_id(hw: HardwareClass) -> (r: String)
    ensures
        r@ == hardware_label(hw),
{
    match hw {
        HardwareClass::AppleSilicon => owned("apple_silicon"),
        HardwareClass::X86_64Avx2 => owned("x86_64_avx2"),
        HardwareClass::Generic => owned("generic"),
    }
}

/// The hardware class of a host: Apple Silicon on an aarch64 host, AVX2
/// on an x86-64 host that has it, generic otherwise.
pub fn hardware_class_for(is_aarch64: bool, is_x86_64: bool, has_avx2: bool) -> (r: HardwareClass)
    ensures
        r == if is_aarch64 {
            HardwareClass::AppleSilicon
        } else if is_x86_64 && has_avx2 {
            HardwareClass::X86_64Avx2
        } else {
            HardwareClass::Generic
        },
{
    if is_aarch64 {
        HardwareClass::AppleSilicon
    } else if is_x86_64 && has_avx2 {
        HardwareClass::X86_64Avx2
    } else {
        HardwareClass::Generic
    }
}

// ── Minimum versions ─────────────────────────────────────────────────────────────

/// Where the `MAJOR.MINOR.PATCH` core of a version ends: at the first `-`
/// or `+` (a pre-release or build suffix), or at the end.
pub open spec fn core_end(v: Seq<char>, i: int) -> int
    decreases v.len() - i,
{
    if i < 0 || i >= v.len() || v[i] == '-' || v[i] == '+' {
        i
    } else {
        core_end(v, i + 1)
    }
}

pub open spec fn version_core(v: Seq<char>) -> Seq<char> {
    v.take(core_end(v, 0))
}

/// The value of a string of decimal digits.
pub open spec fn digits_value(s: Seq<char>) -> nat
    decreases s.len(),
{
    if s.len() == 0 {
        0
    } else {
        digits_value(s.drop_last()) * 10 + ((s.last() as u32) - 48) as nat
    }
}

/// `str::parse::<u32>` on a string without a sign: one or more ASCII
/// digits whose value fits in a `u32`.
pub open spec fn parse_u32(s: Seq<char>) -> Option<nat> {
    if s.len() > 0 && (forall|i: int| 0 <= i < s.len() ==> is_ascii_digit(#[trigger] s[i]))
        && digits_value(s) <= u32::MAX {
        Some(digits_value(s))
    } else {
        None
    }
}

/// The dot-separated pieces of `s[start..]`, each piece extending from
/// `start` to the next dot.
pub open spec fn pieces_from(s: Seq<char>, start: int, i: int) -> Seq<Seq<char>>
    decreases s.len() - i,
{
    if i < start || i >= s.len() {
        seq![s.subrange(start, s.len() as int)]
    } else if s[i] == '.' {
        seq![s.subrange(start, i)] + pieces_from(s, i + 1, i + 1)
    } else {
        pieces_from(s, start, i + 1)
    }
}

/// Every piece parsed as a `u32`, or `None` if one fails to.
pub open spec fn parse_pieces(ps: Seq<Seq<char>>) -> Option<Seq<nat>>
    decreases ps.len(),
{
    if ps.len() == 0 {
        Some(seq![])
    } else {
        match (parse_pieces(ps.drop_last()), parse_u32(ps.last())) {
            (Some(rest), Some(x)) => Some(rest.push(x)),
            _ => None,
        }
    }
}

/// The numeric components of a version's core, if it has a core and every
/// component is a `u32`.
pub open spec fn version_parts(v: Seq<char>) -> Option<Seq<nat>> {
    let core = version_core(v);
    if core.len() == 0 {
        None
    } else {
        parse_pieces(pieces_from(core, 0, 0))
    }
}

/// Component `i` of a version, 0 past its end.
pub open spec fn component(p: Seq<nat>, i: int) -> nat {
    if 0 <= i < p.len() {
        p[i]
    } else {
        0
    }
}

/// `a` is at least `m`, comparing components from `i` on, the first
/// difference deciding.
pub open spec fn parts_at_least(a: Seq<nat>, m: Seq<nat>, i: int) -> bool
    decreases (if a.len() > m.len() { a.len() } else { m.len() }) - i,
{
    if i < 0 || (i >= a.len() && i >= m.len()) {
        true
    } else if component(a, i) > component(m, i) {
        true
    } else if component(a, i) < component(m, i) {
        false
    } else {
        parts_at_least(a, m, i + 1)
    }
}

/// `actual` is at least `minimum`; both must parse.
pub open spec fn at_least(actual: Seq<char>, minimum: Seq<char>) -> bool {
    match (version_parts(actual), version_parts(minimum)) {
        (Some(a), Some(m)) => parts_at_least(a, m, 0),
        _ => false,
    }
}

proof fn lemma_core_end(v: Seq<char>, i: int)
    requires
        0 <= i <= v.len(),
    ensures
        i <= core_end(v, i) <= v.len(),
    decreases v.len() - i,
{
    if i < v.len() && v[i] != '-' && v[i] != '+' {
        lemma_core_end(v, i + 1);
    }
}

/// The components of a version's core; `None` when it does not parse.
fn parse_version(v: &str) -> (r: Option<Vec<u32>>)
    ensures
        match r {
            Some(p) => version_parts(v@) == Some(p@.map_values(|x: u32| x as nat)),
            None => version_parts(v@) is None,
        },
{
    let chars = chars_of(v);
    let mut end: usize = 0;
    proof {
        lemma_core_end(v@, 0);
    }
    while end < chars.len() && chars[end] != '-' && chars[end] != '+'
        invariant
            chars@ == v@,
            end <= chars@.len(),
            core_end(v@, end as int) == core_end(v@, 0),
        decreases chars@.len() - end,
    {
        end += 1;
    }
    let ghost core = version_core(v@);
    assert(core =~= chars@.take(end as int));
    if end == 0 {
        return None;
    }
    let mut parts: Vec<u32> = Vec::new();
    let mut start: usize = 0;
    let mut i: usize = 0;
    let mut value: u64 = 0;
    let mut ok = true;
    let ghost mut done: Seq<Seq<char>> = seq![];
    assert(done + pieces_from(core, 0, 0) =~= pieces_from(core, 0, 0));
    assert(core.subrange(0, 0) =~= Seq::<char>::empty());
    assert(parts@.map_values(|x: u32| x as nat) =~= seq![]);
    while i <= end
        invariant
            core == chars@.take(end as int),
            chars@ == v@,
            core.len() == end,
            0 < end <= chars@.len(),
            start <= i <= end,
            done + pieces_from(core, start as int, i as int) == pieces_from(core, 0, 0),
            parse_pieces(done) == Some(parts@.map_values(|x: u32| x as nat)),
            core == version_core(v@),
            value <= 4294967296,
            ok == forall|k: int| start <= k < i ==> is_ascii_digit(#[trigger] core[k]),
            ok ==> value as int == (if digits_value(core.subrange(start as int, i as int)) < 4294967296 {
                digits_value(core.subrange(start as int, i as int)) as int
            } else {
                4294967296
            }),
        decreases end + 1 - i,
    {
        let at_end = i == end;
        if at_end || chars[i] == '.' {
            let ghost piece = core.subrange(start as int, i as int);
            let ghost rest = if at_end {
                seq![]
            } else {
                pieces_from(core, i + 1, i + 1)
            };
            proof {
                assert(pieces_from(core, start as int, i as int) == seq![piece] + rest);
                lemma_parse_concat(done, seq![piece] + rest);
                lemma_parse_concat(seq![piece], rest);
                assert(seq![piece].drop_last() =~= Seq::<Seq<char>>::empty());
            }
            if !ok || i == start || value > 4294967295 {
                proof {
                    assert(parse_u32(piece) is None) by {
                        if !ok {
                            let k = choose|k: int| start <= k < i && !is_ascii_digit(#[trigger] core[k]);
                            assert(!is_ascii_digit(piece[k - start]));
                        }
                    }
                    assert(seq![piece].last() == piece);
                    assert(parse_pieces(seq![piece]) is None);
                    assert(parse_pieces(seq![piece] + rest) is None);
                    assert(done + (seq![piece] + rest) =~= pieces_from(core, 0, 0));
                    assert(parse_pieces(pieces_from(core, 0, 0)) is None);
                }
                return None;
            }
            proof {
                assert forall|k: int| 0 <= k < piece.len() implies is_ascii_digit(#[trigger] piece[k]) by {
                    assert(piece[k] == core[start + k]);
                }
                assert(parse_u32(piece) == Some(value as nat));
            }
            parts.push(value as u32);
            proof {
                assert(done.push(piece).drop_last() =~= done);
                assert(parts@.map_values(|x: u32| x as nat) =~= parts@.drop_last().map_values(
                    |x: u32| x as nat,
                ).push(value as nat));
                done = done.push(piece);
            }
            if at_end {
                proof {
                    assert(done =~= pieces_from(core, 0, 0)) by {
                        assert(done.drop_last() + seq![piece] =~= done);
                    }
                }
                return Some(parts);
            }
            proof {
                assert(done + pieces_from(core, i + 1, i + 1) =~= pieces_from(core, 0, 0)) by {
                    assert(done.drop_last() + (seq![piece] + rest) =~= done + rest);
                }
                assert(core.subrange(i + 1, i + 1) =~= Seq::<char>::empty());
            }
            start = i + 1;
            value = 0;
            ok = true;
        } else {
            let c = chars[i];
            proof {
                assert(pieces_from(core, start as int, i as int) == pieces_from(core, start as int, i + 1));
                assert(core.subrange(start as int, i + 1).drop_last() =~= core.subrange(start as int, i as int));
                assert(core[i as int] == c);
            }
            if '0' <= c && c <= '9' {
                let d = (c as u32 - 48) as u64;
                let next = value * 10 + d;
                value = if next > 4294967296 {
                    4294967296
                } else {
                    next
                };
            } else {
                ok = false;
            }
        }
        i += 1;
    }
    None
}

proof fn lemma_parse_concat(a: Seq<Seq<char>>, b: Seq<Seq<char>>)
    ensures
        parse_pieces(a + b) == match (parse_pieces(a), parse_pieces(b)) {
            (Some(x), Some(y)) => Some(x + y),
            _ => None,
        },
    decreases b.len(),
{
    if b.len() == 0 {
        assert(a + b =~= a);
        if let Some(x) = parse_pieces(a) {
            assert(x + seq![] =~= x);
        }
    } else {
        lemma_parse_concat(a, b.drop_last());
        assert((a + b).drop_last() =~= a + b.drop_last());
        assert((a + b).last() == b.last());
        if let (Some(x), Some(y)) = (parse_pieces(a), parse_pieces(b.drop_last())) {
            if let Some(z) = parse_u32(b.last()) {
                assert((x + y).push(z) =~= x + y.push(z));
            }
        }
    }
}

pub open spec fn nat_parts(p: Seq<u32>) -> Seq<nat> {
    p.map_values(|x: u32| x as nat)
}

/// Whether version `actual` is at least `minimum`, comparing the
/// `MAJOR.MINOR.PATCH` cores component by component as integers (missing
/// components count as 0; suffixes after `-` or `+` are ignored). A
/// version that does not parse never satisfies the minimum.
pub fn version_at_least(actual: &str, minimum: &str) -> (r: bool)
    ensures
        r == at_least(actual@, minimum@),
{
    let a = match parse_version(actual) {
        Some(a) => a,
        None => {
            return false;
        },
    };
    let m = match parse_version(minimum) {
        Some(m) => m,
        None => {
            return false;
        },
    };
    let ghost av = nat_parts(a@);
    let ghost mv = nat_parts(m@);
    assert(a@.map_values(|x: u32| x as nat) == av);
    assert(m@.map_values(|x: u32| x as nat) == mv);
    let len = if a.len() > m.len() {
        a.len()
    } else {
        m.len()
    };
    let mut i: usize = 0;
    while i < len
        invariant
            len == (if av.len() > mv.len() { av.len() } else { mv.len() }),
            av == nat_parts(a@),
            mv == nat_parts(m@),
            version_parts(actual@) == Some(av),
            version_parts(minimum@) == Some(mv),
            i <= len,
            parts_at_least(av, mv, i as int) == parts_at_least(av, mv, 0),
        decreases len - i,
    {
        let x: u32 = if i < a.len() {
            a[i]
        } else {
            0
        };
        let y: u32 = if i < m.len() {
            m[i]
        } else {
            0
        };
        assert(x as nat == component(av, i as int));
        assert(y as nat == component(mv, i as int));
        if x > y {
            return true;
        }
        if x < y {
            return false;
        }
        i += 1;
    }
    true
}

// ── Laws of the version comparison ─────────────────────────────────────────────────

proof fn lemma_parts_reflexive(a: Seq<nat>, i: int)
    requires
        0 <= i,
    ensures
        parts_at_least(a, a, i),
    decreases a.len() - i,
{
    if i < a.len() {
        lemma_parts_reflexive(a, i + 1);
    }
}

proof fn lemma_parts_total(a: Seq<nat>, m: Seq<nat>, i: int)
    requires
        0 <= i,
    ensures
        parts_at_least(a, m, i) || parts_at_least(m, a, i),
    decreases (if a.len() > m.len() { a.len() } else { m.len() }) - i,
{
    if !(i >= a.len() && i >= m.len()) && component(a, i) == component(m, i) {
        lemma_parts_total(a, m, i + 1);
    }
}

/// Every version that parses meets itself as a minimum.
pub proof fn lemma_version_order_reflexive(v: Seq<char>)
    requires
        version_parts(v) is Some,
    ensures
        at_least(v, v),
{
    lemma_parts_reflexive(version_parts(v)->Some_0, 0);
}

/// Of two versions that both parse, one is at least the other.
pub proof fn lemma_version_order_total(a: Seq<char>, b: Seq<char>)
    requires
        version_parts(a) is Some,
        version_parts(b) is Some,
    ensures
        at_least(a, b) || at_least(b, a),
{
    lemma_parts_total(version_parts(a)->Some_0, version_parts(b)->Some_0, 0);
}

} // verus!
