//! Analyzer setup: the bundle manifest the installer reads, the checks made
//! before an install starts, the install record written when it ends, and
//! the status shown to the user.
use vstd::prelude::*;

use crate::install::{hardware_id, hardware_label, at_least, version_at_least, HardwareClass, InstallState};
use crate::text::{chars_of, concat3, owned, push_str, str_eq, string_from_chars};

verus! {

// ── Manifest ─────────────────────────────────────────────────────────────────

/// A downloadable archive and how to check it.
#[derive(Debug, Clone, PartialEq, Eq)]
pub struct Artifact {
    pub url: String,
    pub sha256: String,
    pub size_bytes: u64,
}

/// One installable analyzer bundle: binary, runtime assets and model.
#[derive(Debug, Clone, PartialEq, Eq)]
pub struct AnalyzerVariant {
    pub id: String,
    pub label: String,
    /// Operating system tag, e.g. `"windows"`, `"macos"`, `"linux"`.
    pub os: String,
    /// CPU architecture tag, e.g. `"x86_64"`, `"aarch64"`.
    pub arch: String,
    pub hardware: HardwareClass,
    pub recommended: bool,
    /// Logical model identifier, separate from the file name on disk.
    pub model_id: String,
    pub bundle: Artifact,
}

/// The manifest of installable bundles.
#[derive(Debug, Clone, PartialEq, Eq)]
pub struct AnalyzerManifest {
    pub version: u32,
    pub generated_at: String,
    pub minimum_hamm0r_version: String,
    pub variants: Vec<AnalyzerVariant>,
}

// ── Before an install ────────────────────────────────────────────────────────

/// Why an install request is refused before anything is downloaded.
#[derive(Debug, Clone, PartialEq, Eq)]
pub enum InstallRefusal {
    /// Another install is running, for the variant named.
    InProgress { active: String },
    /// This build is older than the manifest's minimum version.
    AppTooOld { app_version: String, minimum: String },
    /// The manifest has no variant with the requested id.
    UnknownVariant { variant_id: String },
}

pub open spec fn refusal_text(r: InstallRefusal) -> Seq<char> {
    match r {
        InstallRefusal::InProgress { active } =>
            "analyzer install already in progress (variant "@ + active@ + ")"@,
        InstallRefusal::AppTooOld { app_version, minimum } =>
            "this hamm0r build ("@ + app_version@ + ") is older than the analyzer manifest requires ("@
                + minimum@ + "); upgrade hamm0r before installing the analyzer"@,
        InstallRefusal::UnknownVariant { variant_id } => "unknown variant id: "@ + variant_id@,
    }
}

impl InstallRefusal {
    /// The message shown to the user.
    pub fn message(&self) -> (r: String)
        ensures
            r@ == refusal_text(*self),
    {
        match self {
            InstallRefusal::InProgress { active } => {
                concat3("analyzer install already in progress (variant ", active.as_str(), ")")
            },
            InstallRefusal::AppTooOld { app_version, minimum } => {
                let mut r = concat3("this hamm0r build (", app_version.as_str(), ") is older than the analyzer manifest requires (");
                push_str(&mut r, minimum.as_str());
                push_str(&mut r, "); upgrade hamm0r before installing the analyzer");
                r
            },
            InstallRefusal::UnknownVariant { variant_id } => {
                let mut r = owned("unknown variant id: ");
                push_str(&mut r, variant_id.as_str());
                r
            },
        }
    }
}

/// Claims the single install slot for `variant_id`: refused while another
/// install holds it, otherwise the slot holds `variant_id` afterwards.
pub fn claim_install_slot(slot: &mut Option<String>, variant_id: &str) -> (r: Result<(), InstallRefusal>)
    ensures
        match *old(slot) {
            Some(active) => r == Err::<(), InstallRefusal>(InstallRefusal::InProgress { active })
                && *final(slot) == *old(slot),
            None => r is Ok && final(slot).is_some() && final(slot).unwrap()@ == variant_id@,
        },
{
    match slot {
        Some(active) => {
            let active = active.clone();
            Err(InstallRefusal::InProgress { active })
        },
        None => {
            *slot = Some(owned(variant_id));
            Ok(())
        },
    }
}

/// Whether the manifest's variant at `i` carries `variant_id`.
pub open spec fn variant_has_id(m: AnalyzerManifest, i: int, variant_id: Seq<char>) -> bool {
    m.variants@[i].id@ == variant_id
}

/// Whether some variant of the manifest carries `variant_id`.
pub open spec fn has_variant(m: AnalyzerManifest, variant_id: Seq<char>) -> bool {
    exists|i: int| 0 <= i < m.variants@.len() && variant_has_id(m, i, variant_id)
}

/// Checks an install request against the manifest: the app must be at
/// least the manifest's minimum version, and the requested variant must be
/// listed. On success, the index of the first variant with that id.
pub fn select_install_variant(m: &AnalyzerManifest, app_version: &str, variant_id: &str) -> (r: Result<usize, InstallRefusal>)
    ensures
        !at_least(app_version@, m.minimum_hamm0r_version@) ==> r is Err && r->Err_0 is AppTooOld
            && r->Err_0->app_version@ == app_version@ && r->Err_0->minimum@ == m.minimum_hamm0r_version@,
        at_least(app_version@, m.minimum_hamm0r_version@) && !has_variant(*m, variant_id@) ==> r is Err
            && r->Err_0 is UnknownVariant && r->Err_0->variant_id@ == variant_id@,
        at_least(app_version@, m.minimum_hamm0r_version@) && has_variant(*m, variant_id@) ==> r is Ok,
        r matches Ok(i) ==> i < m.variants@.len() && variant_has_id(*m, i as int, variant_id@)
            && forall|j: int| 0 <= j < i ==> !variant_has_id(*m, j, variant_id@),
{
    if !version_at_least(app_version, m.minimum_hamm0r_version.as_str()) {
        return Err(InstallRefusal::AppTooOld {
            app_version: owned(app_version),
            minimum: m.minimum_hamm0r_version.clone(),
        });
    }
    let mut i: usize = 0;
    while i < m.variants.len()
        invariant
            i <= m.variants@.len(),
            at_least(app_version@, m.minimum_hamm0r_version@),
            forall|j: int| 0 <= j < i ==> !variant_has_id(*m, j, variant_id@),
        decreases m.variants.len() - i,
    {
        if str_eq(m.variants[i].id.as_str(), variant_id) {
            assert(variant_has_id(*m, i as int, variant_id@));
            return Ok(i);
        }
        i += 1;
    }
    Err(InstallRefusal::UnknownVariant { variant_id: owned(variant_id) })
}

// ── The install record ───────────────────────────────────────────────────────

/// What follows the last `/` of `s` (all of `s` when it has none).
pub open spec fn after_last_slash(s: Seq<char>) -> Seq<char>
    decreases s.len(),
{
    if s.len() == 0 {
        s
    } else if s.last() == '/' {
        seq![]
    } else {
        after_last_slash(s.drop_last()).push(s.last())
    }
}

/// The file name a bundle is saved under: the last path segment of its
/// URL, or `bundle.zip` when that segment is empty.
pub open spec fn bundle_file_name(url: Seq<char>) -> Seq<char> {
    if after_last_slash(url).len() == 0 {
        "bundle.zip"@
    } else {
        after_last_slash(url)
    }
}

proof fn lemma_after_last_slash_split(s: Seq<char>, i: int)
    requires
        0 <= i <= s.len(),
        forall|k: int| i <= k < s.len() ==> s[k] != '/',
    ensures
        after_last_slash(s) == after_last_slash(s.take(i)) + s.subrange(i, s.len() as int),
    decreases s.len(),
{
    if i == s.len() {
        assert(s.take(i) =~= s);
        assert(s.subrange(i, s.len() as int) =~= Seq::<char>::empty());
        assert(after_last_slash(s) + Seq::<char>::empty() =~= after_last_slash(s));
    } else {
        let d = s.drop_last();
        assert(d.take(i) =~= s.take(i));
        lemma_after_last_slash_split(d, i);
        assert(s.subrange(i, s.len() as int) =~= d.subrange(i, d.len() as int).push(s.last()));
        assert((after_last_slash(d.take(i)) + d.subrange(i, d.len() as int)).push(s.last())
            =~= after_last_slash(s.take(i)) + s.subrange(i, s.len() as int));
    }
}

/// The file name a bundle downloaded from `url` is saved under.
pub fn bundle_filename(url: &str) -> (r: String)
    ensures
        r@ == bundle_file_name(url@),
{
    let cs = chars_of(url);
    let n = cs.len();
    let mut i = n;
    while i > 0 && cs[i - 1] != '/'
        invariant
            i <= n == cs@.len(),
            cs@ == url@,
            forall|k: int| i <= k < n ==> cs@[k] != '/',
        decreases i,
    {
        i -= 1;
    }
    proof {
        lemma_after_last_slash_split(url@, i as int);
        if i > 0 {
            assert(url@.take(i as int).last() == '/');
        } else {
            assert(url@.take(0) =~= Seq::<char>::empty());
        }
        assert(after_last_slash(url@.take(i as int)) =~= Seq::<char>::empty());
        assert(after_last_slash(url@) =~= url@.subrange(i as int, n as int));
    }
    if i == n {
        owned("bundle.zip")
    } else {
        string_from_chars(&cs, i, n)
    }
}

/// The platform tag of a variant: `os-arch`.
pub fn platform_tag(os: &str, arch: &str) -> (r: String)
    ensures
        r@ == os@ + "-"@ + arch@,
{
    concat3(os, "-", arch)
}

pub open spec fn entrypoint_path(os: Seq<char>) -> Seq<char> {
    if os == "windows"@ {
        "bin/analyz0r.exe"@
    } else {
        "bin/analyz0r"@
    }
}

/// Where the analyzer binary lands inside the install, for an OS tag.
pub fn entrypoint_for(os: &str) -> (r: String)
    ensures
        r@ == entrypoint_path(os@),
{
    if str_eq(os, "windows") {
        owned("bin/analyz0r.exe")
    } else {
        owned("bin/analyz0r")
    }
}

/// The record written when an install completes; its presence is what
/// marks the analyzer as installed.
#[derive(Debug, Clone, PartialEq, Eq)]
pub struct InstallRecord {
    pub version: u32,
    pub bundle_version: String,
    pub installed_at: String,
    pub variant_id: String,
    pub model_id: String,
    pub platform: String,
    pub entrypoint: String,
    pub model_file: Option<String>,
}

/// The install record for `variant`, written with record format
/// `current_version` at `installed_at`, naming the model file found.
pub fn install_record(
    variant: &AnalyzerVariant,
    current_version: u32,
    installed_at: String,
    model_file: Option<String>,
) -> (r: InstallRecord)
    ensures
        r.version == current_version,
        r.bundle_version@ == variant.id@,
        r.variant_id@ == variant.id@,
        r.installed_at == installed_at,
        r.model_id@ == variant.model_id@,
        r.platform@ == variant.os@ + "-"@ + variant.arch@,
        r.entrypoint@ == entrypoint_path(variant.os@),
        r.model_file == model_file,
{
    InstallRecord {
        version: current_version,
        bundle_version: variant.id.clone(),
        installed_at,
        variant_id: variant.id.clone(),
        model_id: variant.model_id.clone(),
        platform: platform_tag(variant.os.as_str(), variant.arch.as_str()),
        entrypoint: entrypoint_for(variant.os.as_str()),
        model_file,
    }
}

// ── Status ───────────────────────────────────────────────────────────────────

/// The analyzer status the UI renders.
#[derive(Debug, Clone, PartialEq, Eq)]
pub struct AnalyzerStatus {
    /// One of `not_installed`, `downloading`, `installed`, `broken_install`,
    /// `incompatible_version`.
    pub state: String,
    /// Whether `state` is `installed`.
    pub installed: bool,
    /// File name of the model present on disk, if any.
    pub model_file: Option<String>,
    /// Detected hardware class id.
    pub hardware: String,
    /// Variant id from the install record, when there is one.
    pub variant_id: Option<String>,
    /// Bundle version from the install record, when there is one.
    pub bundle_version: Option<String>,
    /// Variant id of the download in flight, when downloading.
    pub downloading_variant_id: Option<String>,
}

pub open spec fn opt_text(o: Option<String>) -> Option<Seq<char>> {
    match o {
        Some(s) => Some(s@),
        None => None,
    }
}

/// The status: `downloading` while an install holds the slot (the layout on
/// disk is then mid-change and not reported), else the state found on disk
/// with the ids of its install record.
pub fn analyzer_status(
    downloading: Option<String>,
    disk_state: InstallState,
    disk_record: Option<InstallRecord>,
    model_file: Option<String>,
    hardware: HardwareClass,
) -> (r: AnalyzerStatus)
    ensures
        r.state@ == (if downloading is Some { InstallState::Downloading } else { disk_state }).label(),
        r.installed == (downloading is None && disk_state == InstallState::Installed),
        r.model_file == model_file,
        r.hardware@ == hardware_label(hardware),
        r.downloading_variant_id == downloading,
        downloading is Some || disk_record is None ==> r.variant_id is None && r.bundle_version is None,
        downloading is None && disk_record is Some ==> opt_text(r.variant_id) == Some(
            disk_record->Some_0.variant_id@,
        ) && opt_text(r.bundle_version) == Some(disk_record->Some_0.bundle_version@),
{
    let (state, record) = match downloading {
        Some(_) => (InstallState::Downloading, None),
        None => (disk_state, disk_record),
    };
    let (variant_id, bundle_version) = match record {
        Some(rec) => (Some(rec.variant_id), Some(rec.bundle_version)),
        None => (None, None),
    };
    AnalyzerStatus {
        state: owned(state.as_str()),
        installed: state == InstallState::Installed,
        model_file,
        hardware: hardware_id(hardware),
        variant_id,
        bundle_version,
        downloading_variant_id: downloading,
    }
}

} // verus!
