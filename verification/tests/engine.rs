use quiche::errors::BootstrapError;
use quiche::http::UpdateDownloadProgress;
use quiche::updater::{
    decide_update_type, get_base_release_url, get_release_url, select_manifest_url, verify,
    verify_bytes, ActiveUpdate, ApplyAction, ApplyMachine, ApplyPhase, Branch, Config,
    InstallInfo, Installer, Manifest, Package, RegistryHandle, ReleaseBranch, Releases,
    UpdateState, UpdateType,
};

fn manifest(version: &str, files: Vec<&str>) -> Manifest {
    Manifest {
        version: version.to_string(),
        package: Package {
            url: "http://host/stable/1.0.0/package.zip".to_string(),
            hash: "AABB".to_string(),
            files: files.into_iter().map(|f| f.to_string()).collect(),
        },
        installer: Installer {
            url: "http://host/stable/1.0.0/installer.exe".to_string(),
            hash: "CCDD".to_string(),
        },
    }
}

fn install_info(version: &str) -> InstallInfo {
    InstallInfo {
        name: "App".to_string(),
        version: version.to_string(),
        path: "C:\\App".to_string(),
        branch: ReleaseBranch::Stable,
        registry_key: "Key".to_string(),
        registry_handle: RegistryHandle::CurrentUser,
        id: "id".to_string(),
    }
}

fn strings(v: Vec<&str>) -> Vec<String> {
    v.into_iter().map(|s| s.to_string()).collect()
}

#[test]
fn fresh_install_decides_install() {
    // no installation record means a full install, which runs the packaged
    // installer rather than the patch path
    assert_eq!(decide_update_type(&None), UpdateType::Install);
    let active = ActiveUpdate {
        update_type: UpdateType::Install,
        manifest: manifest("1.0.0", vec!["A"]),
        temp_name: String::new(),
        install_info: None,
    };
    assert_eq!(active.get_ext(), ".exe");
    assert_eq!(active.get_url(), "http://host/stable/1.0.0/installer.exe");
    assert_eq!(active.get_hash(), "CCDD");
}

#[test]
fn existing_install_decides_patch() {
    assert_eq!(decide_update_type(&Some(install_info("1.0.0"))), UpdateType::Patch);
    let active = ActiveUpdate {
        update_type: UpdateType::Patch,
        manifest: manifest("1.0.0", vec!["A"]),
        temp_name: String::new(),
        install_info: Some(install_info("1.0.0")),
    };
    assert_eq!(active.get_ext(), ".zip");
    assert_eq!(active.get_url(), "http://host/stable/1.0.0/package.zip");
    assert_eq!(active.get_hash(), "AABB");
}

#[test]
fn up_to_date_needs_no_update() {
    // all manifest files present and the versions match
    let active = ActiveUpdate {
        update_type: UpdateType::Patch,
        manifest: manifest("1.0.0", vec!["A", "B"]),
        temp_name: String::new(),
        install_info: Some(install_info("1.0.0")),
    };
    let on_disk = strings(vec!["A", "B", "unrelated.txt"]);
    assert!(!active.needs_update(&on_disk));
    assert!(active.validate(&on_disk));
}

#[test]
fn corrupted_install_needs_update_despite_version_match() {
    // the version strings agree, but a required file is missing
    let active = ActiveUpdate {
        update_type: UpdateType::Patch,
        manifest: manifest("1.0.0", vec!["A", "B"]),
        temp_name: String::new(),
        install_info: Some(install_info("1.0.0")),
    };
    let on_disk = strings(vec!["A"]);
    assert!(active.needs_update(&on_disk));
    assert!(!active.validate(&on_disk));
}

#[test]
fn version_difference_needs_update() {
    let active = ActiveUpdate {
        update_type: UpdateType::Patch,
        manifest: manifest("1.1.0", vec!["A"]),
        temp_name: String::new(),
        install_info: Some(install_info("1.0.0")),
    };
    assert!(active.needs_update(&strings(vec!["A"])));
}

#[test]
fn temp_name_is_hash_plus_extension() {
    let mut active = ActiveUpdate {
        update_type: UpdateType::Patch,
        manifest: manifest("1.0.0", vec!["A"]),
        temp_name: String::new(),
        install_info: Some(install_info("1.0.0")),
    };
    active.set_temp_file();
    assert_eq!(active.get_temp_name(), "AABB.zip");
}

#[test]
fn verify_accepts_matching_hash_ignoring_case() {
    let active = ActiveUpdate {
        update_type: UpdateType::Patch,
        manifest: manifest("1.0.0", vec!["A"]),
        temp_name: String::new(),
        install_info: Some(install_info("1.0.0")),
    };
    assert!(verify(&active, &"aabb".to_string()).is_ok());
    assert!(verify(&active, &"AABB".to_string()).is_ok());
}

#[test]
fn verify_rejects_hash_mismatch() {
    // a corrupt download is terminal for the attempt
    let active = ActiveUpdate {
        update_type: UpdateType::Patch,
        manifest: manifest("1.0.0", vec!["A"]),
        temp_name: String::new(),
        install_info: Some(install_info("1.0.0")),
    };
    let err = verify(&active, &"FFFF".to_string()).unwrap_err();
    assert_eq!(err, BootstrapError::SignatureMismatch.message());
}

#[test]
fn verify_bytes_hashes_the_buffer() {
    let mut m = manifest("1.0.0", vec!["A"]);
    // SHA-256 of the three bytes "abc"
    m.package.hash =
        "BA7816BF8F01CFEA414140DE5DAE2223B00361A396177A9CB410FF61F20015AD".to_string();
    let active = ActiveUpdate {
        update_type: UpdateType::Patch,
        manifest: m,
        temp_name: String::new(),
        install_info: Some(install_info("1.0.0")),
    };
    assert!(verify_bytes(&active, &vec![b'a', b'b', b'c']).is_ok());
    assert!(verify_bytes(&active, &vec![b'a', b'b', b'd']).is_err());
}

#[test]
fn select_manifest_url_picks_the_branch() {
    let releases = Releases {
        stable: Branch {
            version: "1.0.0".to_string(),
            manifest_url: "http://host/stable.toml".to_string(),
        },
        beta: Branch { version: "1.1.0".to_string(), manifest_url: "http://host/beta.toml".to_string() },
        nightly: Branch { version: "2.0.0".to_string(), manifest_url: String::new() },
    };
    assert_eq!(
        select_manifest_url(&releases, ReleaseBranch::Stable).unwrap(),
        "http://host/stable.toml"
    );
    assert_eq!(
        select_manifest_url(&releases, ReleaseBranch::Beta).unwrap(),
        "http://host/beta.toml"
    );
    // an empty manifest URL means the branch cannot be resolved
    assert!(matches!(
        select_manifest_url(&releases, ReleaseBranch::Nightly),
        Err(BootstrapError::ReleaseLookupFailed(_))
    ));
}

#[test]
fn release_url_prefers_the_override() {
    let config = Config {
        base_release_url: "http://host".to_string(),
        release_path: "/Releases.toml".to_string(),
    };
    assert_eq!(get_base_release_url(&config), "http://host");
    assert_eq!(get_release_url(&config, &None), "http://host/Releases.toml");
    assert_eq!(
        get_release_url(&config, &Some("http://staging/alt.toml".to_string())),
        "http://staging/alt.toml"
    );
}

#[test]
fn download_completeness_is_byte_count_equality() {
    let url = "http://host/package.zip".to_string();
    let mut p = UpdateDownloadProgress::new();
    assert_eq!(p.state, UpdateState::Idle);
    p.start(100);
    p.record_chunk(60);
    p.record_chunk(40);
    assert!(p.is_complete());
    assert_eq!(quiche::http::download_result(&p, &url).unwrap(), true);
}

#[test]
fn truncated_download_is_a_logical_failure_not_an_error() {
    let url = "http://host/package.zip".to_string();
    let mut p = UpdateDownloadProgress::new();
    p.start(100);
    p.record_chunk(60);
    // a short read comes back as Ok(false), never as an error
    assert_eq!(quiche::http::download_result(&p, &url).unwrap(), false);
}

#[test]
fn faulted_download_is_an_error() {
    let url = "http://host/package.zip".to_string();
    let mut p = UpdateDownloadProgress::new();
    p.start(100);
    p.fault();
    assert!(quiche::http::download_result(&p, &url).is_err());
}

#[test]
fn head_judgement_missing_and_empty() {
    let url = "http://host/package.zip".to_string();
    assert!(matches!(
        quiche::http::check_remote_file(404, Some(10), &url),
        Err(BootstrapError::RemoteFileMissing(_))
    ));
    assert!(matches!(
        quiche::http::check_remote_file(200, None, &url),
        Err(BootstrapError::RemoteFileEmpty(_))
    ));
    assert!(matches!(
        quiche::http::check_remote_file(200, Some(0), &url),
        Err(BootstrapError::RemoteFileEmpty(_))
    ));
    assert_eq!(quiche::http::check_remote_file(204, Some(42), &url).unwrap(), 42);
}

fn machine() -> ApplyMachine {
    ApplyMachine::new(
        "C:\\App".to_string(),
        &"C:\\Temp\\".to_string(),
        &"AABB.zip".to_string(),
        &"1.2.3".to_string(),
        &"boot.exe".to_string(),
    )
}

#[test]
fn apply_machine_paths_and_exclusions() {
    let m = machine();
    assert_eq!(m.staging_path, "C:\\Temp\\Update_Stage_1.2.3");
    assert_eq!(m.backup_path, "C:\\Temp\\Update_Backup_1.2.3");
    assert_eq!(m.archive_path, "C:\\Temp\\AABB.zip");
    assert_eq!(m.exclude, vec!["boot.exe", "boot.log", "boot.exe_old", "boot.exe_new"]);
}

#[test]
fn apply_machine_happy_path() {
    let mut m = machine();
    assert!(matches!(m.next_action(), Some(ApplyAction::EnsureAbsent(_))));
    m.step(true); // stale staging cleared
    assert!(matches!(m.next_action(), Some(ApplyAction::EnsureAbsent(_))));
    m.step(true); // stale backup cleared
    assert!(matches!(m.next_action(), Some(ApplyAction::CopyContents(_, _))));
    m.step(true); // backup taken
    assert!(matches!(m.next_action(), Some(ApplyAction::Extract(_, _))));
    m.step(true); // package staged
    assert!(matches!(m.next_action(), Some(ApplyAction::DeleteContents(_))));
    m.step(true); // install path cleared
    match m.next_action() {
        Some(ApplyAction::MoveContents(from, to)) => {
            assert_eq!(from, "C:\\Temp\\Update_Stage_1.2.3");
            assert_eq!(to, "C:\\App");
        }
        other => panic!("unexpected action {:?}", other),
    }
    m.step(true); // committed
    assert!(matches!(m.next_action(), Some(ApplyAction::Cleanse(_))));
    m.step(false); // hygiene failures are not fatal
    assert_eq!(m.phase, ApplyPhase::Done);
    assert!(m.is_terminal());
    assert_eq!(m.outcome().unwrap().unwrap(), "Update applied.");
}

#[test]
fn apply_failed_clear_rolls_back_and_reports_failure() {
    let mut m = machine();
    m.step(true);
    m.step(true);
    m.step(true);
    m.step(true);
    assert_eq!(m.phase, ApplyPhase::Clear);
    m.step(false); // clearing the install path failed partway
    assert_eq!(m.phase, ApplyPhase::Rollback);
    match m.next_action() {
        Some(ApplyAction::MoveContents(from, to)) => {
            assert_eq!(from, "C:\\Temp\\Update_Backup_1.2.3");
            assert_eq!(to, "C:\\App");
        }
        other => panic!("unexpected action {:?}", other),
    }
    m.step(true); // rollback succeeded
    assert_eq!(m.phase, ApplyPhase::Failed);
    assert!(m.outcome().unwrap().is_err());
}

#[test]
fn apply_failed_rollback_is_fatal_and_never_ok() {
    let mut m = machine();
    m.step(true);
    m.step(true);
    m.step(true);
    m.step(true);
    m.step(true);
    assert_eq!(m.phase, ApplyPhase::Commit);
    m.step(false); // the commit failed
    assert_eq!(m.phase, ApplyPhase::Rollback);
    m.step(false); // and so did the rollback
    assert_eq!(m.phase, ApplyPhase::Fatal);
    assert!(m.outcome().unwrap().is_err());
}

#[test]
fn early_failures_need_no_rollback() {
    let mut m = machine();
    m.step(true);
    m.step(true);
    assert_eq!(m.phase, ApplyPhase::Backup);
    m.step(false); // the backup copy failed; nothing was touched
    assert_eq!(m.phase, ApplyPhase::Failed);
    assert!(m.next_action().is_none());
}
