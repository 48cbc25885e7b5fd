use eli_lib::error::ErrorKind;
use eli_lib::cli::format_release;
use eli_lib::iso::{directory_payload_size, IsoEntry};
use eli_lib::dependency::RuntimeEnvironment;
use eli_lib::kernel;
use eli_lib::kernel::{
    check_staged_version, input_kind, iso_file_name, latest_alpha_version_in_directory, read_version_file, validate_logical_name,
    validate_wim_header, wim_name, InputKind, RootEntry,
};
use eli_lib::kernel_journal::{
    disabled_path, publish_kind, read_journal, safe_journal_path, undo_plan, JournalChange,
    JournalRecord, PublishKind, UndoStep,
};
use eli_lib::version::EdgelessVersionIdentifier;

#[test]
fn accepts_the_api_iso_file_name() {
    assert_eq!(iso_file_name("Edgeless_Beta.iso").unwrap(), "Edgeless_Beta.iso");
}

#[test]
fn rejects_an_unsafe_api_iso_file_name() {
    let error = iso_file_name("../Edgeless.iso").unwrap_err();

    assert_eq!(error.kind(), ErrorKind::InvalidData);
}

#[test]
fn formats_an_identified_kernel_version_like_bootdisk_list() {
    let version = EdgelessVersionIdentifier::parse("Edgeless_Beta_Ofial_4.1.0_2").unwrap();

    assert_eq!(version.version.to_string(), "4.1.0");
    assert_eq!(format_release(version), "Beta(Official)");
}

#[test]
fn validates_a_logical_iso_name() {
    let version = validate_logical_name("Edgeless_Beta_Ofial_4.1.0_2.iso", InputKind::Iso).unwrap();

    assert_eq!(version.to_string(), "Edgeless_Beta_Ofial_4.1.0_2");
}

#[test]
fn rejects_a_logical_name_with_a_path() {
    let error = validate_logical_name("nested/Edgeless_Beta_4.1.0.iso", InputKind::Iso).unwrap_err();

    assert_eq!(error.kind(), ErrorKind::InvalidInput);
}

#[test]
fn rejects_a_logical_name_with_the_wrong_extension() {
    let error = validate_logical_name("Edgeless_Beta_4.1.0.wim", InputKind::Iso).unwrap_err();

    assert_eq!(error.kind(), ErrorKind::InvalidInput);
}

#[test]
fn uses_the_actual_source_stem_for_the_wim_name() {
    assert_eq!(wim_name("Edgeless_Beta_4.1.0.iso").unwrap(), "Edgeless_Beta_4.1.0.wim");
}

#[test]
fn directory_size_sums_only_file_payloads() {
    let tree = IsoEntry {
        name: "Edgeless".to_owned(),
        is_directory: true,
        file_length: None,
        children: vec![IsoEntry {
            name: "version.txt".to_owned(),
            is_directory: false,
            file_length: Some(3),
            children: Vec::new(),
        }],
    };

    assert_eq!(directory_payload_size(&tree).unwrap(), 3);
}

#[test]
fn checks_the_wim_magic() {
    assert!(validate_wim_header("k.wim", b"MSWIM\0\0\0").is_ok());
    let error = validate_wim_header("k.wim", b"NOTAWIM!").unwrap_err();
    assert_eq!(error.kind(), ErrorKind::InvalidData);
    assert_eq!(error.to_string(), "kernel source is not a WIM file: k.wim");
}

#[test]
fn reads_and_normalizes_a_version_file() {
    let version = read_version_file("version.txt", "Edgeless_Alpa_4.1.2\r\n").unwrap();
    assert_eq!(version.to_string(), "Edgeless_Alpha_4.1.2");
}

#[test]
fn rejects_an_invalid_version_file() {
    let error = read_version_file("version.txt", "not-a-version").unwrap_err();
    assert_eq!(error.kind(), ErrorKind::InvalidData);
    assert!(error.to_string().contains("invalid Edgeless version identifier"));
    assert_eq!(error.to_string(), "invalid Edgeless version identifier in version.txt: not-a-version");
}

#[test]
fn reads_versions_of_the_running_kernel_and_the_boot_disk() {
    let current = kernel::current(RuntimeEnvironment::WindowsPE, " Edgeless_Beta_4.1.0\n").unwrap();
    assert_eq!(current.to_string(), "Edgeless_Beta_4.1.0");
    assert_eq!(
        kernel::current(RuntimeEnvironment::WindowsNormal, "Edgeless_Beta_4.1.0").unwrap_err().kind(),
        ErrorKind::Unsupported
    );
    let error = kernel::current(RuntimeEnvironment::WindowsPE, "x").unwrap_err();
    assert_eq!(error.to_string(), "invalid Edgeless version identifier in X:\\Program Files\\version.txt: x");
    let error = kernel::bootdisk("U:\\Edgeless\\version.txt", "garbage").unwrap_err();
    assert_eq!(error.kind(), ErrorKind::InvalidData);
    assert_eq!(error.to_string(), "invalid Edgeless version identifier in U:\\Edgeless\\version.txt: garbage");
}

#[test]
fn checks_the_version_an_iso_stages() {
    let expected = read_version_file("v", "Edgeless_Beta_4.1.0").unwrap();
    assert!(check_staged_version("s/version.txt", "Edgeless_Beta_4.1.0\r\n", expected).is_ok());
    let error = check_staged_version("s/version.txt", "Edgeless_Alpha_4.1.2", expected).unwrap_err();
    assert_eq!(
        error.to_string(),
        "ISO Edgeless/version.txt identifies Edgeless_Alpha_4.1.2, but release name identifies Edgeless_Beta_4.1.0"
    );
    let error = check_staged_version("s/version.txt", "?", expected).unwrap_err();
    assert_eq!(error.to_string(), "invalid Edgeless version in ISO s/version.txt: ?");
}

#[test]
fn selects_the_highest_alpha_wim_version() {
    let entries = vec![
        RootEntry { file_name: "Edgeless_Alpha_4.1.2.wim".to_owned(), regular_file: true },
        RootEntry { file_name: "Edgeless_Alpha_4.10.0.wim".to_owned(), regular_file: true },
        RootEntry { file_name: "Edgeless_Alpha_9.0.0.wim".to_owned(), regular_file: false },
        RootEntry { file_name: "notes.txt".to_owned(), regular_file: true },
    ];
    let version = latest_alpha_version_in_directory(&entries).unwrap();
    assert_eq!(version.to_string(), "Edgeless_Alpha_4.10.0");
    assert_eq!(
        latest_alpha_version_in_directory(&Vec::new()).unwrap_err().kind(),
        ErrorKind::NotFound
    );
}

#[test]
fn a_journal_reads_back_its_changes_and_commit() {
    let (changes, committed) = read_journal(vec![
        JournalRecord::Change(JournalChange::Created { destination: "a.wim".to_owned() }),
        JournalRecord::Change(JournalChange::Disabled {
            source: "b.wim".to_owned(),
            destination: "b.wimbak".to_owned(),
        }),
    ]);
    assert_eq!(changes.len(), 2);
    assert!(!committed);
    let (_, committed) = read_journal(vec![JournalRecord::Committed]);
    assert!(committed);
}

#[test]
fn undo_runs_newest_change_first() {
    let changes = vec![
        JournalChange::Created { destination: "sources/a.wim".to_owned() },
        JournalChange::Replaced { destination: "version.txt".to_owned(), backup: "backup/0".to_owned() },
    ];
    let (steps, error) = undo_plan(&changes, "/disk", "/disk/.stage", false);
    assert!(error.is_none());
    match &steps[0] {
        UndoStep::RestoreBackup { backup, destination } => {
            assert_eq!(backup, "/disk/.stage/backup/0");
            assert_eq!(destination, "/disk/version.txt");
        }
        other => panic!("unexpected {other:?}"),
    }
    match &steps[1] {
        UndoStep::RemoveFile { path } => assert_eq!(path, "/disk/sources/a.wim"),
        other => panic!("unexpected {other:?}"),
    }
}

#[test]
fn undo_stops_at_an_unsafe_journal_path() {
    let changes = vec![
        JournalChange::Created { destination: "../outside".to_owned() },
        JournalChange::Created { destination: "inside.wim".to_owned() },
    ];
    let (steps, error) = undo_plan(&changes, "/disk", "/disk/.stage", false);
    assert_eq!(steps.len(), 1);
    assert_eq!(error.unwrap().kind(), ErrorKind::InvalidData);
    assert_eq!(safe_journal_path("/disk", "", false).unwrap_err().kind(), ErrorKind::InvalidData);
    assert_eq!(safe_journal_path("/disk", "/abs", false).unwrap_err().kind(), ErrorKind::InvalidData);
    assert_eq!(safe_journal_path("/disk", "a/b", false).unwrap(), "/disk/a/b");
}

#[test]
fn publishing_replaces_only_regular_files() {
    assert_eq!(publish_kind("x", false, false).unwrap(), PublishKind::Create);
    assert_eq!(publish_kind("x", true, true).unwrap(), PublishKind::Replace);
    assert_eq!(publish_kind("x", true, false).unwrap_err().kind(), ErrorKind::InvalidData);
    assert_eq!(disabled_path("b.wim", false).unwrap(), "b.wimbak");
    assert_eq!(disabled_path("b.wim", true).unwrap_err().kind(), ErrorKind::AlreadyExists);
}

#[test]
fn kernel_source_errors_name_the_file() {
    assert_eq!(
        validate_logical_name("Edgeless_Beta_4.1.0.wim", InputKind::Iso).unwrap_err().to_string(),
        "Edgeless release file name must use the .iso extension: \"Edgeless_Beta_4.1.0.wim\""
    );
    assert_eq!(
        validate_logical_name("a/b.iso", InputKind::Iso).unwrap_err().to_string(),
        "invalid Edgeless release file name: \"a/b.iso\""
    );
    assert_eq!(input_kind("k.img").unwrap_err().to_string(), "kernel source must use the .iso or .wim extension: k.img");
    assert_eq!(input_kind("kernel").unwrap_err().to_string(), "kernel source has no UTF-8 extension: kernel");
    assert_eq!(
        iso_file_name(" ../x.iso ").unwrap_err().to_string(),
        "Edgeless ISO info API returned an invalid file name: \"../x.iso\""
    );
}
