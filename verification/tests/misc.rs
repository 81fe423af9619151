use quiche::bakery::{bake_release, branch_name, branch_release_url};
use quiche::callback::{escape_string, format_callback, format_callback_result};
use quiche::errors::BootstrapError;
use quiche::hash::{hashes_match, sha_256};
use quiche::system::{
    check_dotnet_framework, check_system_compatibility, check_uninstall_entry, get_windows_version,
    Process, RainwayAppState, SelfUpdateAction, SelfUpdateMachine, SelfUpdatePhase, SystemInfo,
    WindowsVersion,
};
use quiche::updater::ReleaseBranch;
use quiche::version::versions_equal;
use quiche::zip::{entry_destination, entry_is_dir, sanitize_entry_name};

#[test]
fn hash_is_deterministic_and_stable() {
    // hashing an unmodified buffer twice gives the same digest
    let data = vec![1u8, 2, 3, 4];
    assert_eq!(sha_256(&data), sha_256(&data));
}

#[test]
fn hash_has_known_values() {
    // the SHA-256 of the empty input and of "abc", upper-case hex
    assert_eq!(
        sha_256(&vec![]),
        "E3B0C44298FC1C149AFBF4C8996FB92427AE41E4649B934CA495991B7852B855"
    );
    assert_eq!(
        sha_256(&vec![b'a', b'b', b'c']),
        "BA7816BF8F01CFEA414140DE5DAE2223B00361A396177A9CB410FF61F20015AD"
    );
}

#[test]
fn hash_comparison_ignores_case() {
    assert!(hashes_match(&"AaBb01".to_string(), &"aAbB01".to_string()));
    assert!(!hashes_match(&"AaBb01".to_string(), &"AaBb02".to_string()));
}

#[test]
fn versions_compare_semantically() {
    let s = |x: &str| x.to_string();
    assert!(versions_equal(&s("1.0"), &s("1.0.0")));
    assert!(versions_equal(&s("1.02.0"), &s("1.2")));
    assert!(versions_equal(&s("0"), &s("0.0.0")));
    assert!(!versions_equal(&s("1.2"), &s("1.10")));
    assert!(!versions_equal(&s("1.0.1"), &s("1.0")));
}

#[test]
fn unparsable_versions_never_compare_equal() {
    let s = |x: &str| x.to_string();
    assert!(!versions_equal(&s("abc"), &s("abc")));
    assert!(!versions_equal(&s("1..0"), &s("1.0")));
    assert!(!versions_equal(&s(""), &s("")));
}

#[test]
fn escape_quotes_and_control_characters() {
    assert_eq!(escape_string("plain".to_string()), "'plain'");
    assert_eq!(escape_string("a'b".to_string()), "'a\\'b'");
    assert_eq!(escape_string("a\"b\\c".to_string()), "'a\\\"b\\\\c'");
    assert_eq!(escape_string("x\n\r\t".to_string()), "'x\\n\\r\\t'");
    assert_eq!(escape_string("\u{1}".to_string()), "'\\u0001'");
    assert_eq!(escape_string("é".to_string()), "'\\u00e9'");
}

#[test]
fn callbacks_format_as_function_calls() {
    assert_eq!(format_callback("done".to_string(), "ok".to_string()), "done('ok')");
    assert_eq!(
        format_callback_result(Ok("fine".to_string()), "good".to_string(), "bad".to_string()),
        "good('fine')"
    );
    assert_eq!(
        format_callback_result(Err("broke".to_string()), "good".to_string(), "bad".to_string()),
        "bad('broke')"
    );
}

#[test]
fn entry_names_sanitise_away_traversal() {
    assert_eq!(sanitize_entry_name(&"../../evil.txt".to_string()), "evil.txt");
    assert_eq!(sanitize_entry_name(&"dir/sub/file.txt".to_string()), "dir\\sub\\file.txt");
    assert_eq!(sanitize_entry_name(&"/abs/./path".to_string()), "abs\\path");
    assert_eq!(sanitize_entry_name(&"..".to_string()), "");
}

#[test]
fn entry_destinations_stay_below_the_target() {
    assert_eq!(
        entry_destination(&"C:\\Stage".to_string(), &"../esc.txt".to_string()),
        "C:\\Stage\\esc.txt"
    );
    assert!(entry_is_dir(&"dir/".to_string()));
    assert!(!entry_is_dir(&"dir/file".to_string()));
    assert!(!entry_is_dir(&"".to_string()));
}

#[test]
fn compatibility_check_orders_its_errors() {
    let info = SystemInfo {
        is_x64: true,
        is_supported: true,
        is_n_edition: false,
        product_name: "Windows 10 Pro".to_string(),
    };
    assert!(check_system_compatibility(&info, false).is_ok());

    let mut bad = info.clone();
    bad.is_x64 = false;
    assert!(matches!(
        check_system_compatibility(&bad, false),
        Err(BootstrapError::ArchitectureUnsupported)
    ));

    let mut old = info.clone();
    old.is_supported = false;
    assert!(matches!(
        check_system_compatibility(&old, false),
        Err(BootstrapError::WindowsVersionUnsupported)
    ));

    let mut n_edition = info.clone();
    n_edition.is_n_edition = true;
    assert!(check_system_compatibility(&n_edition, false).is_ok());
    assert!(matches!(
        check_system_compatibility(&n_edition, true),
        Err(BootstrapError::NeedWindowsMediaPack(_))
    ));
}

#[test]
fn uninstall_entries_need_version_and_path() {
    assert!(matches!(
        check_uninstall_entry(&String::new(), &"C:\\App".to_string()),
        Err(BootstrapError::LocalVersionMissing)
    ));
    assert!(matches!(
        check_uninstall_entry(&"1.0.0".to_string(), &String::new()),
        Err(BootstrapError::InstallPathMissing)
    ));
    assert!(check_uninstall_entry(&"1.0.0".to_string(), &"C:\\App".to_string()).is_ok());
}

#[test]
fn process_getters_report_the_snapshot() {
    let p = Process {
        process_id: 7,
        parent_id: 1,
        process_name: "app.exe".to_string(),
        process_path: Some("C:\\App\\app.exe".to_string()),
    };
    assert_eq!(p.id(), 7);
    assert_eq!(p.parent(), 1);
    assert_eq!(p.name(), "app.exe");
    assert_eq!(p.path().as_deref(), Some("C:\\App\\app.exe"));
}

#[test]
fn app_states_round_trip_their_numbers() {
    assert_eq!(RainwayAppState::from_number(1), RainwayAppState::Activate);
    assert_eq!(RainwayAppState::from_number(2), RainwayAppState::Update);
    assert_eq!(RainwayAppState::from_number(3), RainwayAppState::Deactivate);
    assert_eq!(RainwayAppState::from_number(0), RainwayAppState::Nothing);
    assert_eq!(RainwayAppState::from_number(99), RainwayAppState::Nothing);
    assert_eq!(RainwayAppState::Update.number(), 2);
}

#[test]
fn baking_assembles_the_release() {
    let url = branch_release_url(
        &"http://releases.example".to_string(),
        ReleaseBranch::Stable,
        &"1.2.3".to_string(),
    );
    assert_eq!(url, "http://releases.example/Stable/1.2.3");
    assert_eq!(branch_name(ReleaseBranch::Nightly), "Nightly");

    let dinner = bake_release(
        &"1.2.3".to_string(),
        &url,
        "II".to_string(),
        "PP".to_string(),
        vec!["A".to_string(), "B".to_string()],
    )
    .unwrap();
    assert_eq!(dinner.manifest.version, "1.2.3");
    assert_eq!(dinner.manifest.installer.url, "http://releases.example/Stable/1.2.3/installer.exe");
    assert_eq!(dinner.manifest.installer.hash, "II");
    assert_eq!(dinner.manifest.package.url, "http://releases.example/Stable/1.2.3/package.zip");
    assert_eq!(dinner.manifest.package.hash, "PP");
    assert_eq!(dinner.manifest.package.files, vec!["A", "B"]);
    assert_eq!(dinner.branch.version, "1.2.3");
    assert_eq!(dinner.branch.manifest_url, "http://releases.example/Stable/1.2.3/manifest.toml");
}

#[test]
fn baking_refuses_empty_ingredients() {
    let url = "http://host/Stable/1.0.0".to_string();
    let v = "1.0.0".to_string();
    let files = vec!["A".to_string()];
    assert!(matches!(
        bake_release(&v, &url, String::new(), "PP".to_string(), files.clone()),
        Err(BootstrapError::RecipeBakeFailure(_))
    ));
    assert!(matches!(
        bake_release(&v, &url, "II".to_string(), String::new(), files),
        Err(BootstrapError::RecipeBakeFailure(_))
    ));
    assert!(matches!(
        bake_release(&v, &url, "II".to_string(), "PP".to_string(), vec![]),
        Err(BootstrapError::RecipeBakeFailure(_))
    ));
}

#[test]
fn error_messages_name_their_subject() {
    assert_eq!(
        BootstrapError::RemoteFileEmpty("http://host/p.zip".to_string()).message(),
        "The remote file requested (http://host/p.zip) has a zero byte length."
    );
    assert_eq!(
        BootstrapError::SignatureMismatch.message(),
        "We were unable to validate the updates integrity. Please exit and try again."
    );
}

#[test]
fn branch_names_parse_with_case_and_whitespace() {
    assert_eq!(ReleaseBranch::from_name(&" Stable ".to_string()), ReleaseBranch::Stable);
    assert_eq!(ReleaseBranch::from_name(&"NIGHTLY".to_string()), ReleaseBranch::Nightly);
    assert_eq!(ReleaseBranch::from_name(&"beta\n".to_string()), ReleaseBranch::Beta);
    assert_eq!(ReleaseBranch::from_name(&"unknown".to_string()), ReleaseBranch::Stable);
}

#[test]
fn installer_id_is_read_between_its_markers() {
    let mut data = b"prefix <chief>THE-ID</chief> suffix".to_vec();
    assert_eq!(quiche::system::find_installer_id(&data), Some(b"THE-ID".to_vec()));
    data = b"no markers at all".to_vec();
    assert_eq!(quiche::system::find_installer_id(&data), None);
    data = b"</chief>backwards<chief>".to_vec();
    assert_eq!(quiche::system::find_installer_id(&data), None);
    data = b"<chief></chief>".to_vec();
    assert_eq!(quiche::system::find_installer_id(&data), None);
}

#[test]
fn self_update_runs_its_protocol() {
    // nothing beside the executable: nothing to do
    let idle = SelfUpdateMachine::new(false, false);
    assert_eq!(idle.phase, SelfUpdatePhase::Done);
    assert!(idle.next_action().is_none());

    // a leftover _old alone is removed and that is all
    let mut m = SelfUpdateMachine::new(true, false);
    assert_eq!(m.next_action(), Some(SelfUpdateAction::RemoveOld));
    m.step(true);
    assert_eq!(m.phase, SelfUpdatePhase::Done);

    // a waiting _new is swapped in: current aside, new into place
    let mut m = SelfUpdateMachine::new(false, true);
    assert_eq!(m.next_action(), Some(SelfUpdateAction::RenameCurrentToOld));
    m.step(true);
    assert_eq!(m.next_action(), Some(SelfUpdateAction::RenameNewToCurrent));
    m.step(true);
    assert_eq!(m.phase, SelfUpdatePhase::Done);

    // both: remove the leftover first, then swap
    let mut m = SelfUpdateMachine::new(true, true);
    assert_eq!(m.next_action(), Some(SelfUpdateAction::RemoveOld));
    m.step(true);
    assert_eq!(m.next_action(), Some(SelfUpdateAction::RenameCurrentToOld));
    m.step(true);
}

#[test]
fn self_update_restores_after_a_failed_swap() {
    let mut m = SelfUpdateMachine::new(false, true);
    m.step(true); // current renamed aside
    assert_eq!(m.phase, SelfUpdatePhase::Commit);
    m.step(false); // the new binary could not be moved in
    assert_eq!(m.phase, SelfUpdatePhase::Restore);
    assert_eq!(m.next_action(), Some(SelfUpdateAction::RenameOldToCurrent));
    m.step(true); // the old name is back in place
    assert_eq!(m.phase, SelfUpdatePhase::Done);

    let mut m = SelfUpdateMachine::new(false, true);
    m.step(true);
    m.step(false);
    m.step(false); // the restore failed too
    assert_eq!(m.phase, SelfUpdatePhase::Failed);
    assert!(m.next_action().is_none());
}

#[test]
fn install_state_records_parse_and_are_judged() {
    let text = "name = App\nversion = 1.2.3\npath = C:\\App\nbranch = Beta\n".to_string();
    let source = "install.info".to_string();
    let info = quiche::system::parse_install_info(&text, &source).unwrap();
    assert_eq!(info.name, "App");
    assert_eq!(info.version, "1.2.3");
    assert_eq!(info.path, "C:\\App");
    assert_eq!(info.branch, ReleaseBranch::Beta);
    assert_eq!(info.registry_key, "install.info");

    let slashed = "version = 1.0.0\npath = C:/Apps//Demo\n".to_string();
    let normalised = quiche::system::parse_install_info(&slashed, &source).unwrap();
    assert_eq!(normalised.path, "C:\\Apps\\Demo");

    let missing_version = "name = App\npath = C:\\App\n".to_string();
    assert!(matches!(
        quiche::system::parse_install_info(&missing_version, &source),
        Err(BootstrapError::LocalVersionMissing)
    ));
    let missing_path = "version = 1.0.0\n".to_string();
    assert!(matches!(
        quiche::system::parse_install_info(&missing_path, &source),
        Err(BootstrapError::InstallPathMissing)
    ));
}

#[test]
fn installed_means_the_key_is_recorded() {
    let keys = vec!["OtherApp".to_string(), "{FA19F1DF-3226}".to_string()];
    assert!(quiche::system::is_installed(&keys, &"{FA19F1DF-3226}".to_string()));
    assert!(!quiche::system::is_installed(&keys, &"{00000000-0000}".to_string()));
}

#[test]
fn windows_version_is_the_newest_probe_that_holds() {
    assert_eq!(
        get_windows_version(true, true, true, true, true, true).unwrap(),
        WindowsVersion::Windows10
    );
    assert_eq!(
        get_windows_version(false, true, true, true, true, true).unwrap(),
        WindowsVersion::Windows81
    );
    assert_eq!(
        get_windows_version(false, false, false, true, true, true).unwrap(),
        WindowsVersion::Windows7
    );
    assert_eq!(
        get_windows_version(false, false, false, false, false, true).unwrap(),
        WindowsVersion::WindowsXp
    );
    assert!(matches!(
        get_windows_version(false, false, false, false, false, false),
        Err(BootstrapError::OsVersionNotFound)
    ));
}

#[test]
fn dotnet_framework_must_be_recent_enough() {
    assert!(check_dotnet_framework(Some(461808)).is_ok());
    assert!(check_dotnet_framework(Some(528040)).is_ok());
    assert!(matches!(
        check_dotnet_framework(Some(461807)),
        Err(BootstrapError::NeedDotNetFramework)
    ));
    assert!(matches!(
        check_dotnet_framework(None),
        Err(BootstrapError::NeedDotNetFramework)
    ));
}

#[test]
fn fetch_status_judgement_names_status_and_url() {
    let url = "http://host/Releases.toml".to_string();
    assert!(quiche::http::check_fetch_status(200, &url).is_ok());
    assert!(quiche::http::check_fetch_status(299, &url).is_ok());
    match quiche::http::check_fetch_status(404, &url) {
        Err(BootstrapError::HttpFailed(m)) => {
            assert_eq!(m, "[STATUS] 404 could not reach http://host/Releases.toml");
        }
        other => panic!("unexpected result {:?}", other),
    }
    assert!(quiche::http::check_fetch_status(300, &url).is_err());
    assert!(quiche::http::check_fetch_status(199, &url).is_err());
}
