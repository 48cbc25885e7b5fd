//! NesPak component archives: where they are stored on a boot disk and
//! where they are unpacked at run time.
use crate::bootdisk::Platform;
use crate::dependency::RuntimeEnvironment;
use crate::config::{extension, extension_of};
use crate::error::{EliError, ErrorKind};
use crate::path::{join, join_path};
use crate::text::{chars_of, concat, eq_ignore_ascii_case, eq_ignore_case, string_of};
use vstd::prelude::*;

verus! {

/// What loading a NesPak archive did.
#[derive(Clone, Copy, Debug, PartialEq, Eq, Structural)]
pub enum LoadStatus {
    /// `Nes.ini` was found and handed to PECMD.
    Loaded,
    /// Unpacked; the archive holds no `Nes.ini`.
    Extracted,
}

/// The places a NesPak load uses in Windows PE.
#[derive(Debug)]
pub struct LoadPaths {
    pub archive: String,
    /// `<Program Files>\Edgeless`, where the archive is unpacked.
    pub destination: String,
    /// `Nes.ini` inside the destination.
    pub configuration: String,
}

impl LoadPaths {
    pub fn new(archive: &str, program_files: &str) -> (r: LoadPaths)
        ensures
            r.archive@ == archive@,
            r.destination@ == join(program_files@, "Edgeless"@, true),
            r.configuration@ == join(join(program_files@, "Edgeless"@, true), "Nes.ini"@, true),
    {
        let destination = join_path(program_files, "Edgeless", true);
        let configuration = join_path(destination.as_str(), "Nes.ini", true);
        LoadPaths { archive: archive.to_owned(), destination, configuration }
    }
}

/// NesPak archives are loaded only in Windows PE.
pub fn load(environment: RuntimeEnvironment) -> (r: Result<(), EliError>)
    ensures
        match r {
            Ok(()) => environment == RuntimeEnvironment::WindowsPE,
            Err(e) => environment != RuntimeEnvironment::WindowsPE && e.kind == ErrorKind::Unsupported && e.message@
                == "NesPak loading is only implemented for Windows PE"@,
        },
{
    if environment != RuntimeEnvironment::WindowsPE {
        return Err(
            EliError::new(
                ErrorKind::Unsupported,
                "NesPak loading is only implemented for Windows PE".to_owned(),
            ),
        );
    }
    Ok(())
}

/// After unpacking: the configuration is run when the archive had one.
pub fn load_status(configuration_is_file: bool) -> (r: LoadStatus)
    ensures
        r == if configuration_is_file {
            LoadStatus::Loaded
        } else {
            LoadStatus::Extracted
        },
{
    if configuration_is_file {
        LoadStatus::Loaded
    } else {
        LoadStatus::Extracted
    }
}

/// The one place of the component archive on a boot disk:
/// `Edgeless/Nes_Inport.7z` under its mount point.
pub fn nespak_archive_path(mount_point: &str, platform: Platform) -> (r: String)
    ensures
        r@ == join(
            join(mount_point@, "Edgeless"@, platform == Platform::Windows),
            "Nes_Inport.7z"@,
            platform == Platform::Windows,
        ),
{
    let windows = platform == Platform::Windows;
    let edgeless = join_path(mount_point, "Edgeless", windows);
    join_path(edgeless.as_str(), "Nes_Inport.7z", windows)
}

pub open spec fn seven_zip_archive(path: Seq<char>) -> bool {
    match extension(path) {
        Some(e) => eq_ignore_case(e, "7z"@),
        None => false,
    }
}

/// Why an archive cannot be stored, if it cannot.
pub open spec fn source_problem(source: Seq<char>, is_file: bool) -> Option<Seq<char>> {
    if !is_file {
        Some("NesPak component archive is not a regular file: "@ + source)
    } else if !seven_zip_archive(source) {
        Some("NesPak component archive must use the .7z extension: "@ + source)
    } else {
        None
    }
}

/// Checks an archive that is to be stored: a regular `.7z` file.
pub fn validate_source(source: &str, is_file: bool) -> (r: Result<(), EliError>)
    ensures
        match r {
            Ok(()) => source_problem(source@, is_file) is None,
            Err(e) => source_problem(source@, is_file) == Some(e.message@) && e.kind
                == ErrorKind::InvalidInput,
        },
{
    if !is_file {
        let m = concat(&chars_of("NesPak component archive is not a regular file: "), &chars_of(source));
        return Err(EliError::new(ErrorKind::InvalidInput, string_of(&m)));
    }
    let ok = match extension_of(source) {
        Some(e) => eq_ignore_ascii_case(&e, &chars_of("7z")),
        None => false,
    };
    if !ok {
        let m = concat(&chars_of("NesPak component archive must use the .7z extension: "), &chars_of(source));
        return Err(EliError::new(ErrorKind::InvalidInput, string_of(&m)));
    }
    Ok(())
}

/// Plans storing a component archive: checks it and names its place.
pub fn store(source: &str, is_file: bool, mount_point: &str, platform: Platform) -> (r: Result<
    String,
    EliError,
>)
    ensures
        match r {
            Ok(d) => source_problem(source@, is_file) is None && d@ == join(
                join(mount_point@, "Edgeless"@, platform == Platform::Windows),
                "Nes_Inport.7z"@,
                platform == Platform::Windows,
            ),
            Err(e) => source_problem(source@, is_file) == Some(e.message@) && e.kind
                == ErrorKind::InvalidInput,
        },
{
    match validate_source(source, is_file) {
        Ok(()) => Ok(nespak_archive_path(mount_point, platform)),
        Err(e) => Err(e),
    }
}

} // verus!
