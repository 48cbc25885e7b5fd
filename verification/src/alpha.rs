//! Alpha kernels: the latest one the service offers, the one a boot disk
//! holds, and the decisions of downloading one.
use crate::api::{
    alpha_version_outcome, opt_view, outcome, parse_alpha_version_response, token_accepted,
    validate_alpha_token, AlphaDataResponse, AlphaDownloadInfo,
};
use crate::error::{EliError, ErrorKind};
use crate::kernel::{best_alpha, latest_alpha_version_in_directory, RootEntry};
use crate::text::{chars_of, concat, string_of};
use crate::version::EdgelessVersionIdentifier;
use vstd::prelude::*;

verus! {

/// The latest Alpha kernel the service offers; the token is checked
/// before the answer, fetched with it, is read.
pub fn latest(token: &str, response: AlphaDataResponse) -> (r: Result<
    EdgelessVersionIdentifier,
    EliError,
>)
    ensures
        !token_accepted(token@) ==> outcome(r) == Err::<EdgelessVersionIdentifier, ErrorKind>(
            ErrorKind::InvalidInput,
        ),
        token_accepted(token@) ==> outcome(r) == (match (match opt_view(response.iso_version) {
            Some(v) => Some(v),
            None => opt_view(response.version),
        }) {
            Some(v) => alpha_version_outcome(v),
            None => Err(ErrorKind::InvalidData),
        }),
{
    crate::api::latest_alpha_version(token, response)
}

/// The highest Alpha kernel stored at the selected boot disk's root.
pub fn bootdisk(entries: &Vec<RootEntry>) -> (r: Result<EdgelessVersionIdentifier, EliError>)
    ensures
        match best_alpha(entries@, entries@.len() as int) {
            Some(v) => r matches Ok(x) && x == v,
            None => r matches Err(e) && e.kind == ErrorKind::NotFound,
        },
{
    latest_alpha_version_in_directory(entries)
}

/// What was found at a download destination.
#[derive(Clone, Copy, Debug)]
pub struct DestinationFacts {
    /// A regular file, not a link or a directory.
    pub regular_file: bool,
    /// Starts with a WIM header.
    pub valid_wim: bool,
}

/// Whether a destination exists and may stay: anything but a regular
/// file is refused, and without permission to overwrite it must be a
/// valid WIM.
pub open spec fn inspection(found: Option<DestinationFacts>, allow_overwrite: bool) -> Result<
    bool,
    ErrorKind,
> {
    match found {
        None => Ok(false),
        Some(f) => if !f.regular_file {
            Err(ErrorKind::InvalidData)
        } else if !allow_overwrite && !f.valid_wim {
            Err(ErrorKind::InvalidData)
        } else {
            Ok(true)
        },
    }
}

/// What a destination that may not stay is answered.
pub open spec fn inspection_message(destination: Seq<char>, found: Option<DestinationFacts>) -> Seq<
    char,
> {
    if found matches Some(f) && !f.regular_file {
        "existing Alpha download destination is not a regular file: "@ + destination
    } else {
        "existing Alpha kernel WIM is invalid; use --force to replace it "@ + destination
            + ": kernel source is not a WIM file: "@ + destination
    }
}

/// Inspects what was found at `destination`: whether a file is there
/// that may stay.
pub fn inspect_destination(
    destination: &str,
    found: Option<DestinationFacts>,
    allow_overwrite: bool,
) -> (r: Result<bool, EliError>)
    ensures
        outcome(r) == inspection(found, allow_overwrite),
        r matches Err(e) ==> e.message@ == inspection_message(destination@, found),
{
    match found {
        None => Ok(false),
        Some(f) => {
            if !f.regular_file {
                let m = concat(
                    &chars_of("existing Alpha download destination is not a regular file: "),
                    &chars_of(destination),
                );
                Err(EliError::new(ErrorKind::InvalidData, string_of(&m)))
            } else if !allow_overwrite && !f.valid_wim {
                let head = concat(
                    &chars_of("existing Alpha kernel WIM is invalid; use --force to replace it "),
                    &chars_of(destination),
                );
                let tail = concat(&chars_of(": kernel source is not a WIM file: "), &chars_of(destination));
                Err(EliError::new(ErrorKind::InvalidData, string_of(&concat(&head, &tail))))
            } else {
                Ok(true)
            }
        },
    }
}

/// What an Alpha download does next.
#[derive(Debug)]
pub enum DownloadStep {
    /// The destination file, named as the service said, is kept.
    Skip(String),
    /// Fetch into the destination file, replacing it when `overwrite`.
    Fetch { file_name: String, overwrite: bool, existed_before: bool },
}

/// Decides an Alpha download into `directory`, whose file for the
/// service's kernel is `destination`: the directory must be one, an
/// existing valid WIM is kept unless `force`, and anything else at the
/// destination is refused.
pub fn download(
    directory: &str,
    directory_is_dir: bool,
    destination: &str,
    force: bool,
    info: &AlphaDownloadInfo,
    existing: Option<DestinationFacts>,
) -> (r: Result<DownloadStep, EliError>)
    ensures
        !directory_is_dir ==> (r matches Err(e) && e.kind == ErrorKind::InvalidInput && e.message@
            == "Alpha download directory is not a directory: "@ + directory@),
        directory_is_dir ==> match inspection(existing, force) {
            Err(k) => r matches Err(e) && e.kind == k && e.message@ == inspection_message(
                destination@,
                existing,
            ),
            Ok(existed) => if existed && !force {
                r matches Ok(DownloadStep::Skip(n)) && n@ == info.name@
            } else {
                r matches Ok(DownloadStep::Fetch { file_name, overwrite, existed_before })
                    && file_name@ == info.name@ && overwrite == force && existed_before == existed
            },
        },
{
    if !directory_is_dir {
        let m = concat(&chars_of("Alpha download directory is not a directory: "), &chars_of(directory));
        return Err(EliError::new(ErrorKind::InvalidInput, string_of(&m)));
    }
    let existed = match inspect_destination(destination, existing, force) {
        Ok(b) => b,
        Err(e) => {
            return Err(e);
        },
    };
    let name = string_of(&chars_of(info.name.as_str()));
    if existed && !force {
        Ok(DownloadStep::Skip(name))
    } else {
        Ok(DownloadStep::Fetch { file_name: name, overwrite: force, existed_before: existed })
    }
}

/// After a fetch that failed because `destination` appeared meanwhile: a
/// valid WIM found there now counts as skipped; any other failure, or
/// any failure under `force`, stands.
pub fn after_failed_fetch(
    destination: &str,
    force: bool,
    failure: EliError,
    found_now: Option<DestinationFacts>,
) -> (r: Result<bool, EliError>)
    ensures
        (force || failure.kind != ErrorKind::AlreadyExists) ==> r == Err::<bool, EliError>(failure),
        (!force && failure.kind == ErrorKind::AlreadyExists) ==> match inspection(found_now, false) {
            Ok(true) => r == Ok::<bool, EliError>(true),
            Ok(false) => r == Err::<bool, EliError>(failure),
            Err(k) => r matches Err(e) && e.kind == k && e.message@ == inspection_message(
                destination@,
                found_now,
            ),
        },
{
    if force || failure.kind != ErrorKind::AlreadyExists {
        return Err(failure);
    }
    match inspect_destination(destination, found_now, false) {
        Ok(true) => Ok(true),
        Ok(false) => Err(failure),
        Err(e) => Err(e),
    }
}

/// After a fetch: a file without a WIM header is refused, and removed
/// unless it was there before.
pub fn after_fetch(valid_wim: bool, existed_before: bool) -> (r: (bool, bool))
    ensures
        r.0 == valid_wim,
        r.1 == (!valid_wim && !existed_before),
{
    (valid_wim, !valid_wim && !existed_before)
}

} // verus!
