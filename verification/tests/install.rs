use hamm0r::install::{
    hardware_class_for, hardware_id, install_state_from_probe, version_at_least, HardwareClass,
    InstallProbe, InstallState,
};

#[test]
fn install_state_string_values_are_stable() {
    assert_eq!(InstallState::NotInstalled.as_str(), "not_installed");
    assert_eq!(InstallState::Downloading.as_str(), "downloading");
    assert_eq!(InstallState::Installed.as_str(), "installed");
    assert_eq!(InstallState::BrokenInstall.as_str(), "broken_install");
    assert_eq!(
        InstallState::IncompatibleVersion.as_str(),
        "incompatible_version"
    );
}

#[test]
fn version_at_least_handles_typical_cases() {
    assert!(version_at_least("0.1.0", "0.1.0"));
    assert!(version_at_least("0.2.0", "0.1.0"));
    assert!(version_at_least("0.10.0", "0.2.0"));
    assert!(version_at_least("1.0.0", "0.99.99"));
    assert!(!version_at_least("0.1.0", "0.2.0"));
    assert!(!version_at_least("0.1.0", "0.1.1"));
    assert!(version_at_least("1.2.3-alpha", "1.2.3"));
    assert!(!version_at_least("0.1.0", "abc.def"));
    assert!(!version_at_least("garbage", "0.1.0"));
    assert!(!version_at_least("", "0.1.0"));
}

// ── Beyond the original suite ───────────────────────────────────────────────

#[test]
fn version_components_pad_with_zero_and_reject_overflow() {
    assert!(version_at_least("1", "1.0.0"));
    assert!(version_at_least("1.0.0+build", "1"));
    assert!(!version_at_least("1..0", "1"));
    assert!(!version_at_least("4294967296", "1"));
    assert!(version_at_least("4294967295", "1"));
    assert!(!version_at_least("-1", "0"));
}

#[test]
fn install_state_follows_the_probe() {
    assert_eq!(install_state_from_probe(InstallProbe::Missing, 1), InstallState::NotInstalled);
    assert_eq!(install_state_from_probe(InstallProbe::Unreadable, 1), InstallState::BrokenInstall);
    let parsed = |version, typed, entry, model| InstallProbe::Parsed {
        version,
        typed,
        entrypoint_present: entry,
        model_present: model,
    };
    assert_eq!(install_state_from_probe(parsed(99, true, true, true), 1), InstallState::IncompatibleVersion);
    assert_eq!(install_state_from_probe(parsed(1, true, false, true), 1), InstallState::BrokenInstall);
    assert_eq!(install_state_from_probe(parsed(1, true, true, false), 1), InstallState::BrokenInstall);
    assert_eq!(install_state_from_probe(parsed(1, false, true, true), 1), InstallState::BrokenInstall);
    assert_eq!(install_state_from_probe(parsed(1, true, true, true), 1), InstallState::Installed);
}

#[test]
fn hardware_ids_and_classes() {
    assert_eq!(hardware_id(HardwareClass::AppleSilicon), "apple_silicon");
    assert_eq!(hardware_id(HardwareClass::X86_64Avx2), "x86_64_avx2");
    assert_eq!(hardware_id(HardwareClass::Generic), "generic");
    assert_eq!(hardware_class_for(true, false, false), HardwareClass::AppleSilicon);
    assert_eq!(hardware_class_for(false, true, true), HardwareClass::X86_64Avx2);
    assert_eq!(hardware_class_for(false, true, false), HardwareClass::Generic);
}

fn intact(version: u32) -> InstallProbe {
    InstallProbe::Parsed { version, typed: true, entrypoint_present: true, model_present: true }
}

#[test]
fn state_is_not_installed_when_install_json_missing() {
    assert_eq!(install_state_from_probe(InstallProbe::Missing, 1), InstallState::NotInstalled);
}

#[test]
fn state_is_installed_when_layout_intact() {
    assert_eq!(install_state_from_probe(intact(1), 1), InstallState::Installed);
}

#[test]
fn state_is_broken_install_when_entrypoint_missing() {
    let probe = InstallProbe::Parsed { version: 1, typed: true, entrypoint_present: false, model_present: true };
    assert_eq!(install_state_from_probe(probe, 1), InstallState::BrokenInstall);
}

#[test]
fn state_is_broken_install_when_model_missing() {
    let probe = InstallProbe::Parsed { version: 1, typed: true, entrypoint_present: true, model_present: false };
    assert_eq!(install_state_from_probe(probe, 1), InstallState::BrokenInstall);
}

#[test]
fn state_is_incompatible_version_for_unknown_schema() {
    assert_eq!(install_state_from_probe(intact(99), 1), InstallState::IncompatibleVersion);
}

#[test]
fn state_is_broken_install_for_malformed_json() {
    assert_eq!(install_state_from_probe(InstallProbe::Unreadable, 1), InstallState::BrokenInstall);
}

#[test]
fn detection_uses_exact_model_path_from_install_json() {
    // The named model file is missing, whatever else the models directory holds.
    let probe = InstallProbe::Parsed { version: 1, typed: true, entrypoint_present: true, model_present: false };
    assert_eq!(install_state_from_probe(probe, 1), InstallState::BrokenInstall);
}
