use hamm0r::install::{HardwareClass, InstallState};
use hamm0r::setup::{
    analyzer_status, bundle_filename, claim_install_slot, entrypoint_for, install_record,
    platform_tag, select_install_variant, AnalyzerManifest, AnalyzerVariant, Artifact,
    InstallRecord, InstallRefusal,
};

fn variant(id: &str, os: &str, arch: &str, url: &str) -> AnalyzerVariant {
    AnalyzerVariant {
        id: id.to_string(),
        label: format!("{id} label"),
        os: os.to_string(),
        arch: arch.to_string(),
        hardware: HardwareClass::Generic,
        recommended: false,
        model_id: "qwen2.5-3b".to_string(),
        bundle: Artifact {
            url: url.to_string(),
            sha256: "00".to_string(),
            size_bytes: 10,
        },
    }
}

fn manifest(minimum: &str) -> AnalyzerManifest {
    AnalyzerManifest {
        version: 1,
        generated_at: "2025-01-01T00:00:00Z".to_string(),
        minimum_hamm0r_version: minimum.to_string(),
        variants: vec![
            variant("linux-x64", "linux", "x86_64", "https://x/releases/a.zip"),
            variant("win-x64", "windows", "x86_64", "https://x/releases/b.zip"),
            variant("linux-x64", "linux", "x86_64", "https://x/other.zip"),
        ],
    }
}

#[test]
fn bundle_filename_takes_last_url_segment() {
    assert_eq!(bundle_filename("https://x/releases/a.zip"), "a.zip");
    assert_eq!(bundle_filename("a.zip"), "a.zip");
    assert_eq!(bundle_filename("https://x/releases/"), "bundle.zip");
    assert_eq!(bundle_filename(""), "bundle.zip");
}

#[test]
fn platform_and_entrypoint_follow_the_variant() {
    assert_eq!(platform_tag("macos", "aarch64"), "macos-aarch64");
    assert_eq!(entrypoint_for("windows"), "bin/analyz0r.exe");
    assert_eq!(entrypoint_for("linux"), "bin/analyz0r");
    assert_eq!(entrypoint_for("Windows"), "bin/analyz0r");
}

#[test]
fn install_record_names_variant_platform_and_entrypoint() {
    let v = variant("win-x64", "windows", "x86_64", "https://x/b.zip");
    let rec = install_record(
        &v,
        1,
        "2025-02-03T04:05:06Z".to_string(),
        Some("models/m.gguf".to_string()),
    );
    assert_eq!(
        rec,
        InstallRecord {
            version: 1,
            bundle_version: "win-x64".to_string(),
            installed_at: "2025-02-03T04:05:06Z".to_string(),
            variant_id: "win-x64".to_string(),
            model_id: "qwen2.5-3b".to_string(),
            platform: "windows-x86_64".to_string(),
            entrypoint: "bin/analyz0r.exe".to_string(),
            model_file: Some("models/m.gguf".to_string()),
        }
    );
}

#[test]
fn select_install_variant_finds_first_matching_id() {
    let m = manifest("0.1.0");
    assert_eq!(select_install_variant(&m, "0.2.0", "linux-x64"), Ok(0));
    assert_eq!(select_install_variant(&m, "0.1.0", "win-x64"), Ok(1));
}

#[test]
fn select_install_variant_refuses_old_app() {
    let m = manifest("1.2.0");
    let err = select_install_variant(&m, "1.1.9", "linux-x64").unwrap_err();
    assert_eq!(
        err,
        InstallRefusal::AppTooOld {
            app_version: "1.1.9".to_string(),
            minimum: "1.2.0".to_string()
        }
    );
    assert_eq!(
        err.message(),
        "this hamm0r build (1.1.9) is older than the analyzer manifest requires (1.2.0); upgrade hamm0r before installing the analyzer"
    );
}

#[test]
fn select_install_variant_refuses_unknown_id() {
    let m = manifest("0.1.0");
    let err = select_install_variant(&m, "0.1.0", "mac-arm").unwrap_err();
    assert_eq!(
        err,
        InstallRefusal::UnknownVariant {
            variant_id: "mac-arm".to_string()
        }
    );
    assert_eq!(err.message(), "unknown variant id: mac-arm");
}

#[test]
fn install_slot_is_claimed_once() {
    let mut slot: Option<String> = None;
    assert_eq!(claim_install_slot(&mut slot, "linux-x64"), Ok(()));
    assert_eq!(slot.as_deref(), Some("linux-x64"));
    let err = claim_install_slot(&mut slot, "win-x64").unwrap_err();
    assert_eq!(
        err.message(),
        "analyzer install already in progress (variant linux-x64)"
    );
    assert_eq!(slot.as_deref(), Some("linux-x64"));
}

fn record() -> InstallRecord {
    InstallRecord {
        version: 1,
        bundle_version: "b1".to_string(),
        installed_at: "t".to_string(),
        variant_id: "v1".to_string(),
        model_id: "m".to_string(),
        platform: "linux-x86_64".to_string(),
        entrypoint: "bin/analyz0r".to_string(),
        model_file: None,
    }
}

#[test]
fn status_reports_disk_state_and_record_ids() {
    let s = analyzer_status(
        None,
        InstallState::Installed,
        Some(record()),
        Some("m.gguf".to_string()),
        HardwareClass::X86_64Avx2,
    );
    assert_eq!(s.state, "installed");
    assert!(s.installed);
    assert_eq!(s.model_file.as_deref(), Some("m.gguf"));
    assert_eq!(s.hardware, "x86_64_avx2");
    assert_eq!(s.variant_id.as_deref(), Some("v1"));
    assert_eq!(s.bundle_version.as_deref(), Some("b1"));
    assert_eq!(s.downloading_variant_id, None);
}

#[test]
fn status_while_downloading_hides_disk_state() {
    let s = analyzer_status(
        Some("win-x64".to_string()),
        InstallState::Installed,
        Some(record()),
        None,
        HardwareClass::Generic,
    );
    assert_eq!(s.state, "downloading");
    assert!(!s.installed);
    assert_eq!(s.variant_id, None);
    assert_eq!(s.bundle_version, None);
    assert_eq!(s.downloading_variant_id.as_deref(), Some("win-x64"));
    assert_eq!(s.hardware, "generic");
}
