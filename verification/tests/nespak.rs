use eli_lib::bootdisk::Platform;
use eli_lib::dependency::RuntimeEnvironment;
use eli_lib::error::ErrorKind;
use eli_lib::nespak::{load, load_status, nespak_archive_path, store, validate_source, LoadPaths, LoadStatus};

#[test]
fn derives_paths_from_the_explicit_archive_and_program_files() {
    let paths = LoadPaths::new("U:\\NesPak\\_Inport.7z", "X:\\Program Files");

    assert_eq!(paths.archive, "U:\\NesPak\\_Inport.7z");
    assert_eq!(paths.destination, "X:\\Program Files\\Edgeless");
    assert_eq!(paths.configuration, "X:\\Program Files\\Edgeless\\Nes.ini");
}

#[test]
fn builds_the_component_archive_path_with_nes_in_the_file_name() {
    let destination = nespak_archive_path("bootdisk", Platform::Unix);

    assert_eq!(destination, "bootdisk/Edgeless/Nes_Inport.7z");
}

#[test]
fn renders_the_windows_component_archive_path_without_a_separator_after_nes() {
    let destination = nespak_archive_path(r"D:\", Platform::Windows);

    assert_eq!(destination, r"D:\Edgeless\Nes_Inport.7z");
}

#[test]
fn rejects_a_component_archive_without_a_7z_extension() {
    assert_eq!(validate_source("nes.zip", true).unwrap_err().kind(), ErrorKind::InvalidInput);
    assert_eq!(validate_source("nes.7z", false).unwrap_err().kind(), ErrorKind::InvalidInput);
    assert!(validate_source("nes.7z", true).is_ok());
    assert_eq!(
        validate_source("nes.zip", true).unwrap_err().to_string(),
        "NesPak component archive must use the .7z extension: nes.zip"
    );
    assert_eq!(
        validate_source("dir.7z", false).unwrap_err().to_string(),
        "NesPak component archive is not a regular file: dir.7z"
    );
    assert_eq!(store("nes.7z", true, "D:\\", Platform::Windows).unwrap(), "D:\\Edgeless\\Nes_Inport.7z");
}

#[test]
fn loading_needs_windows_and_reports_a_missing_configuration() {
    assert_eq!(load(RuntimeEnvironment::Other).unwrap_err().kind(), ErrorKind::Unsupported);
    assert_eq!(load(RuntimeEnvironment::WindowsNormal).unwrap_err().kind(), ErrorKind::Unsupported);
    assert!(load(RuntimeEnvironment::WindowsPE).is_ok());
    assert_eq!(load_status(false), LoadStatus::Extracted);
    assert_eq!(load_status(true), LoadStatus::Loaded);
}
