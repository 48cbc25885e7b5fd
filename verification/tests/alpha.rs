use eli_lib::alpha::{after_failed_fetch, after_fetch, download, DestinationFacts, DownloadStep};
use eli_lib::api::AlphaDownloadInfo;
use eli_lib::error::{EliError, ErrorKind};
use eli_lib::kernel::read_version_file;

fn alpha_info() -> AlphaDownloadInfo {
    AlphaDownloadInfo {
        version: read_version_file("v", "Edgeless_Alpha_4.1.2").unwrap(),
        name: "Edgeless_Alpha_4.1.2.wim".to_owned(),
    }
}

const DIRECTORY: &str = "alpha";
const DESTINATION: &str = "alpha/Edgeless_Alpha_4.1.2.wim";

fn existing(valid_wim: bool) -> Option<DestinationFacts> {
    Some(DestinationFacts { regular_file: true, valid_wim })
}

#[test]
fn downloads_a_valid_wim_to_the_requested_directory() {
    match download(DIRECTORY, true, DESTINATION, false, &alpha_info(), None).unwrap() {
        DownloadStep::Fetch { file_name, overwrite, existed_before } => {
            assert_eq!(file_name, "Edgeless_Alpha_4.1.2.wim");
            assert!(!overwrite);
            assert!(!existed_before);
        }
        other => panic!("unexpected step {other:?}"),
    }
    assert_eq!(after_fetch(true, false), (true, false));
}

#[test]
fn skips_an_existing_valid_wim_without_force() {
    match download(DIRECTORY, true, DESTINATION, false, &alpha_info(), existing(true)).unwrap() {
        DownloadStep::Skip(name) => assert_eq!(name, "Edgeless_Alpha_4.1.2.wim"),
        other => panic!("unexpected step {other:?}"),
    }
}

#[test]
fn force_replaces_an_existing_wim() {
    match download(DIRECTORY, true, DESTINATION, true, &alpha_info(), existing(true)).unwrap() {
        DownloadStep::Fetch { file_name, overwrite, existed_before } => {
            assert_eq!(file_name, "Edgeless_Alpha_4.1.2.wim");
            assert!(overwrite);
            assert!(existed_before);
        }
        other => panic!("unexpected step {other:?}"),
    }
}

#[test]
fn rejects_an_existing_invalid_wim_without_force() {
    let error = download(DIRECTORY, true, DESTINATION, false, &alpha_info(), existing(false)).unwrap_err();
    assert_eq!(error.kind(), ErrorKind::InvalidData);
    assert!(error.to_string().contains("--force"));
    assert_eq!(
        error.to_string(),
        "existing Alpha kernel WIM is invalid; use --force to replace it alpha/Edgeless_Alpha_4.1.2.wim: \
         kernel source is not a WIM file: alpha/Edgeless_Alpha_4.1.2.wim"
    );
}

#[test]
fn rejects_a_file_as_the_download_directory() {
    let error = download(DIRECTORY, false, DESTINATION, false, &alpha_info(), None).unwrap_err();
    assert_eq!(error.kind(), ErrorKind::InvalidInput);
    assert_eq!(error.to_string(), "Alpha download directory is not a directory: alpha");
}

#[test]
fn refuses_a_destination_that_is_not_a_regular_file() {
    let found = Some(DestinationFacts { regular_file: false, valid_wim: false });
    let error = download(DIRECTORY, true, DESTINATION, true, &alpha_info(), found).unwrap_err();
    assert_eq!(error.kind(), ErrorKind::InvalidData);
    assert_eq!(
        error.to_string(),
        "existing Alpha download destination is not a regular file: alpha/Edgeless_Alpha_4.1.2.wim"
    );
}

#[test]
fn a_destination_that_appears_during_a_download_is_judged_again() {
    let failure = || EliError::new(ErrorKind::AlreadyExists, "appeared".to_owned());
    assert!(after_failed_fetch(DESTINATION, false, failure(), existing(true)).unwrap());
    let error = after_failed_fetch(DESTINATION, false, failure(), existing(false)).unwrap_err();
    assert!(error.to_string().contains("--force"));
    assert_eq!(after_failed_fetch(DESTINATION, true, failure(), existing(true)).unwrap_err().to_string(), "appeared");
    assert_eq!(after_failed_fetch(DESTINATION, false, failure(), None).unwrap_err().to_string(), "appeared");
    assert_eq!(after_fetch(false, false), (false, true));
    assert_eq!(after_fetch(false, true), (false, false));
}
