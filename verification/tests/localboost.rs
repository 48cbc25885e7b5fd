use eli_lib::dependency::RuntimeEnvironment;
use eli_lib::localboost_lifecycle::unit_order;
use eli_lib::localboost::{all_repositories, RepositoryVolume};
use eli_lib::error::{EliError, ErrorKind};
use eli_lib::localboost::{
    confirm, volume_unusable_reason, RepositoryCandidate, VolumeFacts,
    drive_root_of, is_safe_component, is_same_volume, loaded_marker_name, repository_from_selection,
    selection_value, LoadStatus,
};
use eli_lib::localboost_lifecycle::{
    check_manifest_entry, delete_name, list_without, validate_plugin_name, CleanResult,
    CleanSummary, ManifestKind, StartupResult, StartupSummary,
};
use eli_lib::localboost_publish::{
    archive_plan, expose_scripts, has_nested_batch_script, inventory, join_failures,
    plugin_list_contents, script_runs, unique_staging_name, unit_status, with_restore_errors,
    EntryKind, Runner, UnitEntry,
};

fn entry(name: &str, kind: EntryKind) -> UnitEntry {
    UnitEntry { name: name.to_owned(), kind }
}

#[test]
fn parses_the_persistent_repository_drive_selection() {
    assert_eq!(repository_from_selection(" d:\r\n"), Some(r"D:\Edgeless\BoostRepo".to_owned()));
    assert_eq!(repository_from_selection("\"e\""), Some(r"E:\Edgeless\BoostRepo".to_owned()));
}

#[test]
fn load_rejects_non_drive_repository_selections() {
    assert_eq!(repository_from_selection(""), None);
    assert_eq!(repository_from_selection("D:\\other"), None);
    assert_eq!(repository_from_selection("../D"), None);
}

#[test]
fn parses_legacy_drive_selection_forms() {
    assert_eq!(repository_from_selection(" d:\r\n"), Some(r"D:\Edgeless\BoostRepo".to_owned()));
    assert_eq!(repository_from_selection("\"e\""), Some(r"E:\Edgeless\BoostRepo".to_owned()));
}

#[test]
fn repository_rejects_non_drive_repository_selections() {
    assert_eq!(repository_from_selection(""), None);
    assert_eq!(repository_from_selection("D:\\other"), None);
    assert_eq!(repository_from_selection("../D"), None);
}

#[test]
fn drive_roots_and_volumes() {
    assert_eq!(drive_root_of("d:\\Edgeless"), "D:\\");
    assert!(is_same_volume("d:\\a", "D:\\b"));
    assert!(!is_same_volume("C:\\a", "D:\\a"));
    assert_eq!(selection_value("e:\\").unwrap(), "E");
}

#[test]
fn accepts_a_unicode_safe_component() {
    assert!(is_safe_component("工具箱_1.0_作者"));
}

#[test]
fn rejects_unsafe_components() {
    for value in ["", ".", "..", "a/b", r"a\b", r"C:\plugin", "name. ", "CON", "LPT1.txt"] {
        assert!(!is_safe_component(value), "{value}");
    }
}

#[test]
fn loaded_markers_preserve_dots_in_plugin_names() {
    assert_eq!(loaded_marker_name("tool.preview"), "tool.preview.loaded");
}

#[test]
fn accepts_a_unicode_plugin_directory_name() {
    validate_plugin_name("工具箱_1.0_作者").unwrap();
}

#[test]
fn rejects_paths_as_plugin_names() {
    for value in ["", ".", "..", "a/b", r"a\b", r"C:\plugin"] {
        assert_eq!(validate_plugin_name(value).unwrap_err().kind(), ErrorKind::InvalidInput);
    }
}

#[test]
fn empty_startup_summary_is_successful() {
    let summary = StartupSummary::default();
    assert!(summary.is_success());
    assert_eq!(summary.loaded(), 0);
}

#[test]
fn startup_counts_each_outcome() {
    let summary = StartupSummary {
        results: vec![
            StartupResult { plugin: "a".to_owned(), result: Ok(LoadStatus::Loaded) },
            StartupResult {
                plugin: "b".to_owned(),
                result: Ok(LoadStatus::LoadedWithCompatibilityWarning),
            },
            StartupResult { plugin: "c".to_owned(), result: Ok(LoadStatus::AlreadyLoaded) },
            StartupResult {
                plugin: "d".to_owned(),
                result: Err(EliError::new(ErrorKind::Other, "x".to_owned())),
            },
        ],
    };
    assert_eq!(summary.loaded(), 2);
    assert_eq!(summary.already_loaded(), 1);
    assert_eq!(summary.failed(), 1);
    assert!(!summary.is_success());
}

#[test]
fn clean_summaries_report_restarts_and_leftovers() {
    let empty = CleanSummary::default();
    assert!(!empty.requires_restart());
    assert!(empty.is_success());
    let summary = CleanSummary {
        results: vec![
            CleanResult {
                repository: "D:\\Edgeless\\BoostRepo".to_owned(),
                plugin: Some("a".to_owned()),
                result: Ok(()),
                runtime_cleanup_incomplete: true,
            },
            CleanResult {
                repository: "D:\\Edgeless\\BoostRepo".to_owned(),
                plugin: None,
                result: Err(EliError::new(ErrorKind::Other, "x".to_owned())),
                runtime_cleanup_incomplete: false,
            },
        ],
    };
    assert!(summary.requires_restart());
    assert!(summary.runtime_cleanup_incomplete());
    assert_eq!(summary.succeeded(), 1);
    assert_eq!(summary.failed(), 1);
    assert!(!summary.is_success());
}

#[test]
fn manifest_entries_must_be_safe_names() {
    assert!(check_manifest_entry(ManifestKind::File, "payload.dll").is_ok());
    assert_eq!(
        check_manifest_entry(ManifestKind::Directory, "..").unwrap_err(),
        "unsafe directory manifest entry: .."
    );
    assert_eq!(delete_name("tool", 12, 3), ".eli-delete-tool-12-3");
}

#[test]
fn cleaning_removes_the_plugin_from_the_list() {
    assert_eq!(list_without("工具箱\n保留插件\n", "工具箱"), Some("保留插件\n".to_owned()));
    assert_eq!(list_without("Tool\r\nOther\r\n", "tool"), Some("Other\r\n".to_owned()));
    assert_eq!(list_without("tool\n", "TOOL"), None);
}

#[test]
fn publishing_adds_the_plugin_to_the_list_once() {
    assert_eq!(plugin_list_contents(None, "tool"), "tool\n");
    assert_eq!(plugin_list_contents(Some("a\r\n\r\nA\r\n"), "b"), "a\r\nb\r\n");
    assert_eq!(plugin_list_contents(Some("Tool\n"), "tool"), "Tool\n");
}

#[test]
fn inventories_a_unit_in_name_order() {
    let entries = vec![
        entry("z.wcs", EntryKind::File),
        entry("b.CMD", EntryKind::File),
        entry("data", EntryKind::Directory),
        entry("a.cmd", EntryKind::File),
        entry("readme.txt", EntryKind::File),
    ];
    let inv = inventory(&entries, "U", false, "LocalBoost").unwrap();
    assert_eq!(inv.cmd, vec!["U/a.cmd".to_owned(), "U/b.CMD".to_owned()]);
    assert_eq!(inv.wcs, vec!["U/z.wcs".to_owned()]);
    assert_eq!(inv.files, vec!["readme.txt".to_owned()]);
    assert_eq!(inv.directories, vec!["data".to_owned()]);

    let error = inventory(&vec![entry("y", EntryKind::Other), entry("x", EntryKind::Other)], "U", false, "LocalBoost")
        .unwrap_err();
    assert_eq!(error.kind(), ErrorKind::InvalidData);
    assert_eq!(error.to_string(), "unsupported LocalBoost entry: U/x");
}

#[test]
fn exposes_runs_and_archives_scripts_cmd_first() {
    let inv = inventory(
        &vec![entry("b.wcs", EntryKind::File), entry("a.cmd", EntryKind::File)],
        "U",
        false,
        "LocalBoost",
    )
    .unwrap();
    let copies = expose_scripts(&inv, 7, "E", false).unwrap();
    assert_eq!(copies[0].source, "U/a.cmd");
    assert_eq!(copies[0].destination, "E/a_localboost_7.cmd");
    assert_eq!(copies[1].destination, "E/b_localboost_7.wcs");

    let exposed: Vec<String> = copies.iter().rev().map(|c| c.destination.clone()).collect();
    let runs = script_runs(&exposed);
    assert_eq!(runs[0].runner, Runner::Cmd);
    assert_eq!(runs[0].script, "E/a_localboost_7.cmd");
    assert_eq!(runs[1].runner, Runner::Pecmd);

    let plan = archive_plan(&exposed, "I", false);
    assert_eq!(plan[0], Ok("I/b_localboost_7.wcs".to_owned()));
}

#[test]
fn detects_cmd_and_bat_files_in_first_level_directories() {
    assert!(has_nested_batch_script(&vec![entry("x.BAT", EntryKind::File)]));
    assert!(!has_nested_batch_script(&vec![entry("x.bat", EntryKind::Directory), entry("y.txt", EntryKind::File)]));
    assert_eq!(unit_status(true), LoadStatus::LoadedWithCompatibilityWarning);
    assert_eq!(unit_status(false), LoadStatus::Loaded);
}

#[test]
fn failures_are_joined_into_one_error() {
    assert!(join_failures(&Vec::new()).is_ok());
    let error = join_failures(&vec!["a".to_owned(), "b".to_owned()]).unwrap_err();
    assert_eq!(error.to_string(), "a; b");
    let error = with_restore_errors(
        EliError::new(ErrorKind::Other, "copy failed".to_owned()),
        &vec!["x".to_owned()],
    );
    assert_eq!(error.to_string(), "copy failed; failed to restore metadata: x");
    assert_eq!(unique_staging_name("tool", 5, 9), ".eli-tool-5-9");
}

#[test]
fn units_are_restored_in_lower_case_name_order() {
    let units = unit_order(&vec![
        entry("beta", EntryKind::Directory),
        entry("Alpha", EntryKind::Directory),
        entry("file.txt", EntryKind::File),
        entry("..", EntryKind::Directory),
        entry("CON", EntryKind::Directory),
        entry("gamma", EntryKind::Directory),
    ]);
    assert_eq!(units, vec!["Alpha".to_owned(), "beta".to_owned(), "gamma".to_owned()]);
    let units = unit_order(&vec![entry("beta", EntryKind::Directory), entry("Cyan", EntryKind::Directory), entry("Alpha", EntryKind::Directory)]);
    assert_eq!(units, vec!["Alpha".to_owned(), "beta".to_owned(), "Cyan".to_owned()]);
}

#[test]
fn every_repository_is_cleaned_once() {
    let volume = |mount_point: &str, has_repository, boot_disk| RepositoryVolume {
        mount_point: mount_point.to_owned(),
        has_repository,
        boot_disk,
    };
    let repositories = all_repositories(
        &vec![
            volume("E:\\", true, false),
            volume("X:\\", true, false),
            volume("D:\\", true, false),
            volume("U:\\", true, true),
            volume("F:\\", false, false),
            volume("e:\\", true, false),
        ],
        "X:\\",
    );
    assert_eq!(
        repositories,
        vec![r"D:\Edgeless\BoostRepo".to_owned(), r"E:\Edgeless\BoostRepo".to_owned()]
    );
}

fn facts(local: bool, system: bool, boot: bool, available: Option<u64>, writable: bool) -> VolumeFacts {
    VolumeFacts { local_writable_type: local, system_volume: system, boot_disk: boot, available, writable }
}

#[test]
fn explains_why_a_volume_cannot_hold_the_repository() {
    let plenty = Some(3 * 1024 * 1024 * 1024);
    assert_eq!(volume_unusable_reason(facts(true, false, false, plenty, true)), None);
    assert_eq!(volume_unusable_reason(facts(false, false, false, plenty, true)).unwrap(), "不是可用的本地可写卷");
    assert_eq!(
        volume_unusable_reason(facts(false, true, false, plenty, true)).unwrap(),
        "Windows PE 系统盘不能用作 LocalBoost 仓库"
    );
    assert_eq!(
        volume_unusable_reason(facts(true, false, true, None, false)).unwrap(),
        "Edgeless 启动盘不能用作 LocalBoost 仓库"
    );
    assert_eq!(volume_unusable_reason(facts(true, false, false, None, true)).unwrap(), "无法读取卷的可用空间");
    assert_eq!(volume_unusable_reason(facts(true, false, false, Some(1024), true)).unwrap(), "可用空间不足 2 GiB");
    assert_eq!(volume_unusable_reason(facts(true, false, false, plenty, false)).unwrap(), "卷不可写");
}

#[test]
fn confirms_only_a_usable_volume_in_windows_pe() {
    let usable = RepositoryCandidate {
        mount_point: "D:\\".to_owned(),
        label: "Data".to_owned(),
        available_bytes: 4 * 1024 * 1024 * 1024,
        selectable: true,
        reason: None,
        has_repository: false,
    };
    assert_eq!(confirm(RuntimeEnvironment::WindowsPE, &usable).unwrap(), "D:\\Edgeless\\BoostRepo");
    assert_eq!(confirm(RuntimeEnvironment::WindowsNormal, &usable).unwrap_err().kind(), ErrorKind::Unsupported);
    let full = RepositoryCandidate {
        selectable: false,
        reason: Some("可用空间不足 2 GiB".to_owned()),
        ..usable
    };
    let error = confirm(RuntimeEnvironment::WindowsPE, &full).unwrap_err();
    assert_eq!(error.kind(), ErrorKind::InvalidInput);
    assert_eq!(error.to_string(), "可用空间不足 2 GiB");
}

#[test]
fn names_the_first_script_without_a_stem() {
    let inv = eli_lib::localboost_publish::Inventory {
        cmd: vec!["U/a.cmd".to_owned(), String::new()],
        wcs: vec!["U/b.wcs".to_owned()],
        files: Vec::new(),
        directories: Vec::new(),
    };
    let error = expose_scripts(&inv, 1, "E", false).unwrap_err();
    assert_eq!(error.kind(), ErrorKind::InvalidData);
    assert_eq!(error.to_string(), "LocalBoost script has no stem: ");
}

#[test]
fn localboost_runs_only_in_windows_pe() {
    let error = eli_lib::localboost::load(RuntimeEnvironment::WindowsNormal, "a_1_x.7zl", true).unwrap_err();
    assert_eq!(error.kind(), ErrorKind::Unsupported);
    assert_eq!(error.to_string(), "LocalBoost loading is only implemented for Windows PE");
    assert_eq!(eli_lib::localboost::load(RuntimeEnvironment::WindowsPE, "a_1_x.7zl", true).unwrap(), "a_1_x");
    let error = eli_lib::localboost_lifecycle::startup(RuntimeEnvironment::Other).unwrap_err();
    assert_eq!(error.to_string(), "LocalBoost startup is only implemented for Windows PE");
    assert!(eli_lib::localboost_lifecycle::startup(RuntimeEnvironment::WindowsPE).is_ok());
    let error = eli_lib::localboost_lifecycle::clean(RuntimeEnvironment::WindowsNormal).unwrap_err();
    assert_eq!(error.kind(), ErrorKind::Unsupported);
    assert_eq!(error.to_string(), "LocalBoost cleanup is only implemented for Windows PE");
    assert!(eli_lib::localboost_lifecycle::clean(RuntimeEnvironment::WindowsPE).is_ok());
}
