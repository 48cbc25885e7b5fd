//! Edgeless kernels: which file a kernel comes from, which version it
//! is, where it is stored, and which Alpha kernel a boot disk holds.
//!
//! Reading images, copying files and publishing them happens at the edge
//! of the program; the names, versions and checks are here.
use crate::api::{
    alpha_prefix, outcome, parse_alpha_version_response, parse_latest_beta_version,
    AlphaDataResponse, AlphaDownloadInfo, IsoInfoResponse,
};
use crate::config::{extension, extension_of, file_name, file_name_of};
use crate::dependency::RuntimeEnvironment;
use crate::error::{EliError, ErrorKind};
use crate::text::{
    chars_of, concat, contains_char, eq, eq_ignore_ascii_case, eq_ignore_case, is_control, lower_seq,
    starts_with, starts_with_chars, string_of, trim, trim_ws,
};
use crate::version::{
    identifier_text, parse_identifier, parse_identifier_chars, version_less, EdgelessVersionIdentifier,
    ReleaseStage,
};
use vstd::prelude::*;

verus! {

/// The first bytes of every WIM file.
pub open spec fn wim_magic() -> Seq<u8> {
    seq![0x4du8, 0x53u8, 0x57u8, 0x49u8, 0x4du8, 0u8, 0u8, 0u8]
}

/// Checks the header read from the start of the WIM file `path`; a file
/// too short to hold a header gives fewer bytes.
pub fn validate_wim_header(path: &str, header: &[u8]) -> (r: Result<(), EliError>)
    ensures
        outcome(r) == (if header@ == wim_magic() {
            Ok(())
        } else {
            Err(ErrorKind::InvalidData)
        }),
        r matches Err(e) ==> e.message@ == "kernel source is not a WIM file: "@ + path@,
{
    if header.len() == 8 && header[0] == 0x4d && header[1] == 0x53 && header[2] == 0x57 && header[3]
        == 0x49 && header[4] == 0x4d && header[5] == 0 && header[6] == 0 && header[7] == 0 {
        assert(header@ =~= wim_magic());
        Ok(())
    } else {
        let m = concat(&chars_of("kernel source is not a WIM file: "), &chars_of(path));
        Err(EliError::new(ErrorKind::InvalidData, string_of(&m)))
    }
}

/// What a kernel download did.
#[derive(Debug)]
pub enum DownloadResult {
    Downloaded(String),
    /// The destination already existed and was kept.
    Skipped(String),
}

/// A file name that a service reported is used only when it is a plain
/// file name.
pub open spec fn plain_file_name(name: Seq<char>) -> bool {
    name.len() > 0 && name != seq!['.'] && name != seq!['.', '.'] && !name.contains('/')
        && !name.contains('\\')
}

/// The ISO file name reported by the service, trimmed, when it is a plain
/// file name.
pub fn iso_file_name(name: &str) -> (r: Result<String, EliError>)
    ensures
        match r {
            Ok(n) => n@ == trim(name@) && plain_file_name(trim(name@)),
            Err(e) => !plain_file_name(trim(name@)) && e.kind == ErrorKind::InvalidData && e.message@
                == "Edgeless ISO info API returned an invalid file name: \""@ + trim(name@) + "\""@,
        },
{
    let n = trim_ws(&chars_of(name));
    let dot = crate::api::literal_chars(&['.']);
    let dots = crate::api::literal_chars(&['.', '.']);
    assert(dot@ =~= seq!['.']);
    assert(dots@ =~= seq!['.', '.']);
    if n.len() == 0 || eq(&n, &dot) || eq(&n, &dots) || contains_char(&n, '/') || contains_char(
        &n,
        '\\',
    ) {
        let mut message = concat(
            &chars_of("Edgeless ISO info API returned an invalid file name: \""),
            &n,
        );
        message = concat(&message, &chars_of("\""));
        return Err(EliError::new(ErrorKind::InvalidData, string_of(&message)));
    }
    Ok(string_of(&n))
}

/// An existing destination is kept unless `force` replaces it.
pub fn skip_existing_file(destination: &str, exists: bool, force: bool) -> (r: Option<
    DownloadResult,
>)
    ensures
        match r {
            Some(DownloadResult::Skipped(p)) => exists && !force && p@ == destination@,
            Some(DownloadResult::Downloaded(_)) => false,
            None => !(exists && !force),
        },
{
    if exists && !force {
        Some(DownloadResult::Skipped(destination.to_owned()))
    } else {
        None
    }
}

/// Whether a kernel comes from an ISO image or a WIM file.
#[derive(Clone, Copy, Debug, PartialEq, Eq, Structural)]
pub enum InputKind {
    Iso,
    Wim,
}

pub open spec fn kind_of(source: Seq<char>) -> Option<InputKind> {
    match extension(source) {
        Some(e) => if eq_ignore_case(e, "iso"@) {
            Some(InputKind::Iso)
        } else if eq_ignore_case(e, "wim"@) {
            Some(InputKind::Wim)
        } else {
            None
        },
        None => None,
    }
}

/// Why a kernel source has no kind.
pub open spec fn kind_problem(source: Seq<char>) -> Seq<char> {
    if extension(source) is None {
        "kernel source has no UTF-8 extension: "@ + source
    } else {
        "kernel source must use the .iso or .wim extension: "@ + source
    }
}

/// The kind of a kernel source, by its extension.
pub fn input_kind(source: &str) -> (r: Result<InputKind, EliError>)
    ensures
        match kind_of(source@) {
            Some(k) => r matches Ok(x) && x == k,
            None => r matches Err(e) && e.kind == ErrorKind::InvalidInput && e.message@
                == kind_problem(source@),
        },
{
    match extension_of(source) {
        Some(e) => {
            if eq_ignore_ascii_case(&e, &chars_of("iso")) {
                Ok(InputKind::Iso)
            } else if eq_ignore_ascii_case(&e, &chars_of("wim")) {
                Ok(InputKind::Wim)
            } else {
                let m = concat(
                    &chars_of("kernel source must use the .iso or .wim extension: "),
                    &chars_of(source),
                );
                Err(EliError::new(ErrorKind::InvalidInput, string_of(&m)))
            }
        },
        None => {
            let m = concat(&chars_of("kernel source has no UTF-8 extension: "), &chars_of(source));
            Err(EliError::new(ErrorKind::InvalidInput, string_of(&m)))
        },
    }
}

/// `Path::file_stem`: the file name without its extension.
pub open spec fn file_stem(path: Seq<char>) -> Seq<char> {
    let name = file_name(path);
    match crate::api::extension_dot(name) {
        Some(k) => if name == seq!['.', '.'] {
            name
        } else {
            name.take(k)
        },
        None => name,
    }
}

pub fn file_stem_of(path: &str) -> (r: Vec<char>)
    ensures
        r@ == file_stem(path@),
{
    let name = file_name_of(path);
    let dots = crate::api::literal_chars(&['.', '.']);
    assert(dots@ =~= seq!['.', '.']);
    if eq(&name, &dots) {
        return name;
    }
    match crate::text::last_index_of(&name, '.') {
        Some(k) => {
            if k == 0 {
                return name;
            }
            proof {
                crate::text::lemma_last_index_bounds(name@, '.');
            }
            let stem = crate::text::slice(&name, 0, k);
            assert(stem@ == name@.take(k as int));
            stem
        },
        None => name,
    }
}

pub open spec fn kind_extension(kind: InputKind) -> Seq<char> {
    match kind {
        InputKind::Iso => "iso"@,
        InputKind::Wim => "wim"@,
    }
}

/// The release a kernel file name identifies: a plain name without
/// control characters, with the extension of its kind, whose stem is a
/// version identifier.
pub open spec fn logical_name_version(name: Seq<char>, kind: InputKind) -> Option<
    EdgelessVersionIdentifier,
> {
    if !plain_file_name(name) || exists|i: int| 0 <= i < name.len() && is_control(#[trigger] name[i]) {
        None
    } else {
        match extension(name) {
            Some(e) => if eq_ignore_case(e, kind_extension(kind)) {
                parse_identifier(file_stem(name))
            } else {
                None
            },
            None => None,
        }
    }
}

fn has_control(s: &Vec<char>) -> (r: bool)
    ensures
        r == exists|i: int| 0 <= i < s@.len() && is_control(#[trigger] s@[i]),
{
    let mut i: usize = 0;
    while i < s.len()
        invariant
            i <= s.len(),
            forall|k: int| 0 <= k < i ==> !is_control(#[trigger] s@[k]),
        decreases s.len() - i,
    {
        let c = s[i];
        if c <= '\u{1f}' || ('\u{7f}' <= c && c <= '\u{9f}') {
            assert(is_control(s@[i as int]));
            return true;
        }
        i = i + 1;
    }
    false
}

/// The release that a kernel's published file name identifies.
/// Why a release file name does not name a release of its kind.
pub open spec fn logical_name_message(name: Seq<char>, kind: InputKind) -> Seq<char> {
    let ext_ok = match extension(name) {
        Some(e) => eq_ignore_case(e, kind_extension(kind)),
        None => false,
    };
    if plain_file_name(name) && !(exists|i: int| 0 <= i < name.len() && is_control(#[trigger] name[i]))
        && !ext_ok {
        "Edgeless release file name must use the ."@ + kind_extension(kind) + " extension: "@ + "\""@
            + name + "\""@
    } else {
        "invalid Edgeless release file name: "@ + "\""@ + name + "\""@
    }
}

fn quoted_name_message(prefix: &str, name: &Vec<char>) -> (r: String)
    ensures
        r@ == prefix@ + "\""@ + name@ + "\""@,
{
    let mut m = concat(&chars_of(prefix), &chars_of("\""));
    m = concat(&m, name);
    m = concat(&m, &chars_of("\""));
    string_of(&m)
}

pub fn validate_logical_name(name: &str, kind: InputKind) -> (r: Result<
    EdgelessVersionIdentifier,
    EliError,
>)
    ensures
        match logical_name_version(name@, kind) {
            Some(v) => r matches Ok(x) && x == v,
            None => r matches Err(e) && e.kind == ErrorKind::InvalidInput && e.message@
                == logical_name_message(name@, kind),
        },
{
    let n = chars_of(name);
    let dot = crate::api::literal_chars(&['.']);
    let dots = crate::api::literal_chars(&['.', '.']);
    assert(dot@ =~= seq!['.']);
    assert(dots@ =~= seq!['.', '.']);
    if n.len() == 0 || eq(&n, &dot) || eq(&n, &dots) || contains_char(&n, '/') || contains_char(
        &n,
        '\\',
    ) || has_control(&n) {
        return Err(EliError::new(ErrorKind::InvalidInput, quoted_name_message("invalid Edgeless release file name: ", &n)));
    }
    let wanted = match kind {
        InputKind::Iso => chars_of("iso"),
        InputKind::Wim => chars_of("wim"),
    };
    let matches_kind = match extension_of(name) {
        Some(e) => eq_ignore_ascii_case(&e, &wanted),
        None => false,
    };
    if !matches_kind {
        let prefix = match kind {
            InputKind::Iso => "Edgeless release file name must use the .iso extension: ",
            InputKind::Wim => "Edgeless release file name must use the .wim extension: ",
        };
        proof {
            reveal_strlit("Edgeless release file name must use the .iso extension: ");
            reveal_strlit("Edgeless release file name must use the .wim extension: ");
            reveal_strlit("Edgeless release file name must use the .");
            reveal_strlit(" extension: ");
            reveal_strlit("iso");
            reveal_strlit("wim");
            assert(prefix@ =~= "Edgeless release file name must use the ."@ + kind_extension(kind)
                + " extension: "@);
        }
        return Err(EliError::new(ErrorKind::InvalidInput, quoted_name_message(prefix, &n)));
    }
    match parse_identifier_chars(&file_stem_of(name)) {
        Some(v) => Ok(v),
        None => Err(EliError::new(ErrorKind::InvalidInput, quoted_name_message("invalid Edgeless release file name: ", &n))),
    }
}

/// The name of the stored WIM: the source's own file stem with `.wim`,
/// whatever release name was given.
pub open spec fn wim_name_of(source: Seq<char>) -> Option<Seq<char>> {
    let stem = file_stem(source);
    if stem.len() == 0 || exists|i: int| 0 <= i < stem.len() && is_control(#[trigger] stem[i]) {
        None
    } else {
        Some(stem + ".wim"@)
    }
}

pub fn wim_name(source: &str) -> (r: Result<String, EliError>)
    ensures
        match wim_name_of(source@) {
            Some(n) => r matches Ok(x) && x@ == n,
            None => r matches Err(e) && e.kind == ErrorKind::InvalidInput && e.message@
                == "kernel source has an unsafe file stem: "@ + source@,
        },
{
    let stem = file_stem_of(source);
    if stem.len() == 0 || has_control(&stem) {
        let m = concat(&chars_of("kernel source has an unsafe file stem: "), &chars_of(source));
        return Err(EliError::new(ErrorKind::InvalidInput, string_of(&m)));
    }
    Ok(string_of(&concat(&stem, &chars_of(".wim"))))
}

pub open spec fn beta_wim(path: Seq<char>) -> bool {
    &&& match extension(path) {
        Some(e) => eq_ignore_case(e, "wim"@),
        None => false,
    }
    &&& match parse_identifier(file_stem(path)) {
        Some(id) => id.stage == ReleaseStage::Beta,
        None => false,
    }
}

/// Only a Beta kernel counts as a Beta WIM: a file whose stem names an
/// Alpha kernel, or names no kernel, is never taken for one, so storing an
/// ISO leaves it enabled.
pub proof fn lemma_only_beta_kernels_are_beta_wims(path: Seq<char>)
    ensures
        beta_wim(path) ==> (parse_identifier(file_stem(path)) matches Some(id) && id.stage
            == ReleaseStage::Beta),
        (parse_identifier(file_stem(path)) matches Some(id) && id.stage == ReleaseStage::Alpha)
            ==> !beta_wim(path),
        parse_identifier(file_stem(path)) is None ==> !beta_wim(path),
        beta_wim(path) ==> (extension(path) matches Some(e) && lower_seq(e) == "wim"@),
{
    if beta_wim(path) {
        let e = extension(path)->0;
        reveal_strlit("wim");
        assert(lower_seq(e) =~= "wim"@);
    }
}

/// Whether a file is a Beta kernel WIM, which storing a new ISO disables.
pub fn is_beta_wim(path: &str) -> (r: bool)
    ensures
        r == beta_wim(path@),
        r ==> (parse_identifier(file_stem(path@)) matches Some(id) && id.stage
            == ReleaseStage::Beta),
{
    let is_wim = match extension_of(path) {
        Some(e) => eq_ignore_ascii_case(&e, &chars_of("wim")),
        None => false,
    };
    is_wim && match parse_identifier_chars(&file_stem_of(path)) {
        Some(id) => id.stage == ReleaseStage::Beta,
        None => false,
    }
}

/// What a kernel source is and which release it is.
#[derive(Debug)]
pub struct StorePlan {
    pub kind: InputKind,
    pub version: EdgelessVersionIdentifier,
}

/// What storing a kernel did.
#[derive(Debug)]
pub struct StoreResult {
    pub wim_path: String,
    /// The `Edgeless` directory was updated from an ISO.
    pub updated_edgeless: bool,
    pub version: EdgelessVersionIdentifier,
}

pub open spec fn opt_str(o: Option<&str>) -> Option<Seq<char>> {
    match o {
        Some(s) => Some(s@),
        None => None,
    }
}

/// Plans storing a kernel from `source`, a regular file or not; `name`,
/// when given, is the release file name that the version is read from.
pub fn store(source: &str, name: Option<&str>, regular_file: bool) -> (r: Result<
    StorePlan,
    EliError,
>)
    ensures
        !regular_file ==> (r matches Err(e) && e.kind == ErrorKind::InvalidInput && e.message@
            == "kernel source is not a regular file: "@ + source@),
        regular_file ==> match kind_of(source@) {
            None => r matches Err(e) && e.kind == ErrorKind::InvalidInput && e.message@
                == kind_problem(source@),
            Some(k) => {
                let logical = match opt_str(name) {
                    Some(n) => n,
                    None => file_name(source@),
                };
                match logical_name_version(logical, k) {
                    Some(v) => r matches Ok(p) && p.kind == k && p.version == v,
                    None => r matches Err(e) && e.kind == ErrorKind::InvalidInput && e.message@
                        == logical_name_message(logical, k),
                }
            },
        },
{
    if !regular_file {
        let message = concat(&chars_of("kernel source is not a regular file: "), &chars_of(source));
        return Err(EliError::new(ErrorKind::InvalidInput, string_of(&message)));
    }
    let kind = match input_kind(source) {
        Ok(k) => k,
        Err(e) => {
            return Err(e);
        },
    };
    let logical = match name {
        Some(n) => n.to_owned(),
        None => string_of(&file_name_of(source)),
    };
    match validate_logical_name(logical.as_str(), kind) {
        Ok(version) => Ok(StorePlan { kind, version }),
        Err(e) => Err(e),
    }
}

/// What a version file that does not parse is answered: `prefix`, the
/// file's path, `: ` and the file's trimmed text.
pub open spec fn version_file_message(prefix: Seq<char>, path: Seq<char>, value: Seq<char>) -> Seq<
    char,
> {
    prefix + path + ": "@ + value
}

/// The identifier that the text of a version file holds, surrounding
/// whitespace ignored; a refusal begins with `prefix` and names `path`.
fn parse_version_text(prefix: &str, path: &str, content: &str) -> (r: Result<
    EdgelessVersionIdentifier,
    EliError,
>)
    ensures
        match parse_identifier(trim(content@)) {
            Some(v) => r matches Ok(x) && x == v,
            None => r matches Err(e) && e.kind == ErrorKind::InvalidData && e.message@
                == version_file_message(prefix@, path@, trim(content@)),
        },
{
    let v = trim_ws(&chars_of(content));
    match parse_identifier_chars(&v) {
        Some(id) => Ok(id),
        None => {
            let head = concat(&chars_of(prefix), &chars_of(path));
            let message = concat(&concat(&head, &chars_of(": ")), &v);
            Err(EliError::new(ErrorKind::InvalidData, string_of(&message)))
        },
    }
}

/// The identifier that the version file at `path` holds, surrounding
/// whitespace ignored.
pub fn read_version_file(path: &str, content: &str) -> (r: Result<EdgelessVersionIdentifier, EliError>)
    ensures
        match parse_identifier(trim(content@)) {
            Some(v) => r matches Ok(x) && x == v,
            None => r matches Err(e) && e.kind == ErrorKind::InvalidData && e.message@
                == version_file_message(
                "invalid Edgeless version identifier in "@,
                path@,
                trim(content@),
            ),
        },
{
    proof {
        reveal_strlit("invalid Edgeless version identifier in ");
    }
    parse_version_text("invalid Edgeless version identifier in ", path, content)
}

/// What an ISO whose version file names another release is answered.
pub open spec fn staged_mismatch_message(
    stored: EdgelessVersionIdentifier,
    expected: EdgelessVersionIdentifier,
) -> Seq<char> {
    "ISO Edgeless/version.txt identifies "@ + identifier_text(stored)
        + ", but release name identifies "@ + identifier_text(expected)
}

/// Checks that the version file of an ISO, staged at `path`, names the
/// release being stored.
pub fn check_staged_version(path: &str, content: &str, expected: EdgelessVersionIdentifier) -> (r:
    Result<(), EliError>)
    ensures
        match parse_identifier(trim(content@)) {
            Some(v) => if v == expected {
                r is Ok
            } else {
                r matches Err(e) && e.kind == ErrorKind::InvalidData && e.message@
                    == staged_mismatch_message(v, expected)
            },
            None => r matches Err(e) && e.kind == ErrorKind::InvalidData && e.message@
                == version_file_message("invalid Edgeless version in ISO "@, path@, trim(content@)),
        },
{
    proof {
        reveal_strlit("invalid Edgeless version in ISO ");
    }
    match parse_version_text("invalid Edgeless version in ISO ", path, content) {
        Ok(v) => if v == expected {
            Ok(())
        } else {
            let head = concat(
                &chars_of("ISO Edgeless/version.txt identifies "),
                &chars_of(v.to_string().as_str()),
            );
            let tail = concat(
                &chars_of(", but release name identifies "),
                &chars_of(expected.to_string().as_str()),
            );
            Err(EliError::new(ErrorKind::InvalidData, string_of(&concat(&head, &tail))))
        },
        Err(e) => Err(e),
    }
}

/// Where the running Windows PE keeps its version file.
pub const CURRENT_VERSION_PATH: &'static str = "X:\\Program Files\\version.txt";

/// The version of the running Edgeless, from its version file at
/// `CURRENT_VERSION_PATH`: only Windows PE has one.
pub fn current(environment: RuntimeEnvironment, version_file: &str) -> (r: Result<
    EdgelessVersionIdentifier,
    EliError,
>)
    ensures
        environment != RuntimeEnvironment::WindowsPE ==> (r matches Err(e) && e.kind
            == ErrorKind::Unsupported && e.message@
            == "the running kernel version is only available in Windows PE"@),
        environment == RuntimeEnvironment::WindowsPE ==> match parse_identifier(trim(version_file@)) {
            Some(v) => r matches Ok(x) && x == v,
            None => r matches Err(e) && e.kind == ErrorKind::InvalidData && e.message@
                == version_file_message(
                "invalid Edgeless version identifier in "@,
                CURRENT_VERSION_PATH@,
                trim(version_file@),
            ),
        },
{
    if environment != RuntimeEnvironment::WindowsPE {
        return Err(
            EliError::new(
                ErrorKind::Unsupported,
                "the running kernel version is only available in Windows PE".to_owned(),
            ),
        );
    }
    read_version_file(CURRENT_VERSION_PATH, version_file)
}

/// The version of the selected boot disk, from its version file at
/// `path`, read when the command runs.
pub fn bootdisk(path: &str, version_file: &str) -> (r: Result<EdgelessVersionIdentifier, EliError>)
    ensures
        match parse_identifier(trim(version_file@)) {
            Some(v) => r matches Ok(x) && x == v,
            None => r matches Err(e) && e.kind == ErrorKind::InvalidData && e.message@
                == version_file_message(
                "invalid Edgeless version identifier in "@,
                path@,
                trim(version_file@),
            ),
        },
{
    read_version_file(path, version_file)
}

/// The latest Beta kernel, from the ISO endpoint's answer.
pub fn latest(response: IsoInfoResponse) -> (r: Result<EdgelessVersionIdentifier, EliError>)
    ensures
        outcome(r) == crate::api::beta_version_outcome(response.version@),
{
    parse_latest_beta_version(response)
}

/// A file in a boot disk's root directory.
#[derive(Debug)]
pub struct RootEntry {
    pub file_name: String,
    /// A regular file, not a link or another kind of entry.
    pub regular_file: bool,
}

/// The Alpha kernel a root file name holds: `Edgeless_Alpha_*.wim` whose
/// stem is the canonical spelling of an Alpha identifier.
pub open spec fn alpha_wim_version(name: Seq<char>) -> Option<EdgelessVersionIdentifier> {
    let stem = file_stem(name);
    let is_wim = match extension(name) {
        Some(e) => eq_ignore_case(e, "wim"@),
        None => false,
    };
    if is_wim && starts_with(stem, alpha_prefix()) {
        match parse_identifier(stem) {
            Some(id) => if id.stage == ReleaseStage::Alpha && identifier_text(id) == stem {
                Some(id)
            } else {
                None
            },
            None => None,
        }
    } else {
        None
    }
}

/// The Alpha kernel that a root file name holds, if any.
pub fn alpha_wim_name_version(name: &str) -> (r: Option<EdgelessVersionIdentifier>)
    ensures
        r == alpha_wim_version(name@),
{
    let is_wim = match extension_of(name) {
        Some(e) => eq_ignore_ascii_case(&e, &chars_of("wim")),
        None => false,
    };
    let stem = file_stem_of(name);
    let prefix = concat(&crate::version::edgeless_prefix_chars(), &crate::api::literal_chars(&['A', 'l', 'p', 'h', 'a', '_']));
    assert(prefix@ =~= alpha_prefix());
    if !is_wim || !starts_with_chars(&stem, &prefix) {
        return None;
    }
    match parse_identifier_chars(&stem) {
        Some(id) => {
            if id.stage == ReleaseStage::Alpha && eq(&chars_of(id.to_string().as_str()), &stem) {
                Some(id)
            } else {
                None
            }
        },
        None => None,
    }
}

/// The highest Alpha kernel among the first `n` entries; among equal
/// versions the first one found.
pub open spec fn best_alpha(entries: Seq<RootEntry>, n: int) -> Option<EdgelessVersionIdentifier>
    decreases n,
{
    if n <= 0 {
        None
    } else {
        let prev = best_alpha(entries, n - 1);
        let e = entries[n - 1];
        match alpha_wim_version(e.file_name@) {
            Some(v) => if e.regular_file {
                match prev {
                    None => Some(v),
                    Some(p) => if version_less(p.version, v.version) {
                        Some(v)
                    } else {
                        Some(p)
                    },
                }
            } else {
                prev
            },
            None => prev,
        }
    }
}

/// The best Alpha kernel is newer than or as new as every Alpha kernel
/// among the entries.
pub proof fn lemma_best_alpha_is_highest(entries: Seq<RootEntry>, n: int, k: int)
    requires
        0 <= k < n <= entries.len(),
        entries[k].regular_file,
        alpha_wim_version(entries[k].file_name@) is Some,
    ensures
        best_alpha(entries, n) is Some,
        !version_less(
            best_alpha(entries, n)->0.version,
            alpha_wim_version(entries[k].file_name@)->0.version,
        ),
    decreases n,
{
    if k < n - 1 {
        lemma_best_alpha_is_highest(entries, n - 1, k);
    }
}

/// The highest Alpha kernel stored at a boot disk's root.
pub fn latest_alpha_version_in_directory(entries: &Vec<RootEntry>) -> (r: Result<
    EdgelessVersionIdentifier,
    EliError,
>)
    ensures
        match best_alpha(entries@, entries@.len() as int) {
            Some(v) => r matches Ok(x) && x == v,
            None => r matches Err(e) && e.kind == ErrorKind::NotFound,
        },
{
    let mut latest: Option<EdgelessVersionIdentifier> = None;
    let mut i: usize = 0;
    while i < entries.len()
        invariant
            i <= entries@.len(),
            latest == best_alpha(entries@, i as int),
        decreases entries.len() - i,
    {
        let e = &entries[i];
        match alpha_wim_name_version(e.file_name.as_str()) {
            Some(v) => {
                if e.regular_file {
                    latest = match latest {
                        None => Some(v),
                        Some(p) => if crate::version::is_older(p.version, v.version) {
                            Some(v)
                        } else {
                            Some(p)
                        },
                    };
                }
            },
            None => {},
        }
        i = i + 1;
    }
    match latest {
        Some(v) => Ok(v),
        None => Err(
            EliError::new(
                ErrorKind::NotFound,
                "no Edgeless Alpha kernel WIM found on boot disk".to_owned(),
            ),
        ),
    }
}

} // verus!
