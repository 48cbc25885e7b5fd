//! The Edgeless web service: what its answers must look like, and the
//! version identifiers and file names taken from them.
//!
//! Fetching and decoding the JSON bodies happens at the edge of the
//! program; the functions here receive the decoded fields.
use crate::error::{EliError, ErrorKind};
use crate::text::{
    chars_of, concat, eq, eq_ignore_ascii_case, eq_ignore_case, last_index, last_index_of,
    lemma_last_index_bounds, lemma_utf16_prefix, slice, starts_with, starts_with_chars,
    string_of, trim, trim_ws, utf16_len,
};
use crate::version::{
    alpha_word, beta_word, edgeless_prefix, identifier_text, parse_identifier,
    parse_identifier_chars, EdgelessVersionIdentifier, ReleaseStage,
};
use vstd::prelude::*;

verus! {

/// The kind of a failed result, or the value of a successful one.
pub open spec fn outcome<T>(r: Result<T, EliError>) -> Result<T, ErrorKind> {
    match r {
        Ok(v) => Ok(v),
        Err(e) => Err(e.kind),
    }
}

pub open spec fn opt_view(o: Option<String>) -> Option<Seq<char>> {
    match o {
        Some(s) => Some(s@),
        None => None,
    }
}

/// Decoded body of the Alpha data endpoint. The service has used two
/// sets of field names; the newer (`iso_*`) ones win.
pub struct AlphaDataResponse {
    pub iso_version: Option<String>,
    pub version: Option<String>,
    pub iso_name: Option<String>,
    pub name: Option<String>,
}

/// Decoded body of the ISO info endpoint, as far as versions go.
pub struct IsoInfoResponse {
    pub version: String,
}

/// Decoded body of the ISO info endpoint, as far as downloads go.
pub struct IsoDownloadInfoResponse {
    pub name: String,
    pub url: String,
}

/// What the service says of the latest Alpha kernel.
#[derive(Debug)]
pub struct AlphaDownloadInfo {
    pub version: EdgelessVersionIdentifier,
    /// File name under which the WIM is saved at the boot disk's root.
    pub name: String,
}

/// Where the latest Edgeless ISO is downloaded from.
#[derive(Debug)]
pub struct IsoDownloadInfo {
    pub name: String,
    pub url: String,
}

/// A download request against the Alpha address endpoint.
#[derive(Debug)]
pub struct AlphaDownloadRequest {
    pub url: String,
    pub token: String,
}

pub open spec fn alpha_prefix() -> Seq<char> {
    edgeless_prefix() + alpha_word() + seq!['_']
}

pub open spec fn beta_prefix() -> Seq<char> {
    edgeless_prefix() + beta_word() + seq!['_']
}

pub open spec fn unavailable_version() -> Seq<char> {
    seq!['0', '.', '0', '.', '0']
}

pub open spec fn wim_word() -> Seq<char> {
    seq!['w', 'i', 'm']
}

/// The service counts token length as JavaScript does, in UTF-16 units.
pub open spec fn token_accepted(token: Seq<char>) -> bool {
    4 <= utf16_len(token) <= 10
}

/// Reading an identifier that may also be a bare `major.minor.patch`,
/// completed with the given prefix.
pub open spec fn identifier_or_bare(v: Seq<char>, prefix: Seq<char>) -> Option<
    EdgelessVersionIdentifier,
> {
    match parse_identifier(v) {
        Some(id) => Some(id),
        None => parse_identifier(prefix + v),
    }
}

/// What the Alpha endpoint's version field means.
pub open spec fn alpha_version_outcome(value: Seq<char>) -> Result<
    EdgelessVersionIdentifier,
    ErrorKind,
> {
    let v = trim(value);
    if v == unavailable_version() {
        Err(ErrorKind::NotFound)
    } else {
        match identifier_or_bare(v, alpha_prefix()) {
            Some(id) => if id.stage == ReleaseStage::Alpha {
                Ok(id)
            } else {
                Err(ErrorKind::InvalidData)
            },
            None => Err(ErrorKind::InvalidData),
        }
    }
}

/// What the ISO endpoint's version field means.
pub open spec fn beta_version_outcome(value: Seq<char>) -> Result<
    EdgelessVersionIdentifier,
    ErrorKind,
> {
    match identifier_or_bare(trim(value), beta_prefix()) {
        Some(id) => if id.stage == ReleaseStage::Beta {
            Ok(id)
        } else {
            Err(ErrorKind::InvalidData)
        },
        None => Err(ErrorKind::InvalidData),
    }
}

/// The part of a file name before its extension, when it has one
/// (`Path::file_stem` and `Path::extension` on a bare file name: the last
/// dot counts unless it is the first character).
pub open spec fn extension_dot(name: Seq<char>) -> Option<int> {
    match last_index(name, '.') {
        Some(k) => if k > 0 {
            Some(k)
        } else {
            None
        },
        None => None,
    }
}

/// The WIM name the service reports for an Alpha kernel is acceptable:
/// a plain file name, `.wim` in any case, whose stem is the canonical
/// spelling of the reported Alpha version.
pub open spec fn alpha_wim_name_ok(name: Seq<char>, expected: EdgelessVersionIdentifier) -> bool {
    &&& name.len() > 0
    &&& name != seq!['.']
    &&& name != seq!['.', '.']
    &&& !name.contains('/')
    &&& !name.contains('\\')
    &&& match extension_dot(name) {
        Some(k) => {
            let stem = name.take(k);
            &&& eq_ignore_case(name.skip(k + 1), wim_word())
            &&& starts_with(stem, alpha_prefix())
            &&& parse_identifier(stem) == Some(expected)
            &&& expected.stage == ReleaseStage::Alpha
            &&& identifier_text(expected) == stem
        },
        None => false,
    }
}

/// What a refused Alpha endpoint answer is reported as.
pub open spec fn alpha_download_message(r: AlphaDataResponse) -> Seq<char> {
    let version_field = match opt_view(r.iso_version) {
        Some(v) => Some(v),
        None => opt_view(r.version),
    };
    let name_field = match opt_view(r.iso_name) {
        Some(v) => Some(v),
        None => opt_view(r.name),
    };
    match version_field {
        None => "Edgeless Alpha data API did not return a version"@,
        Some(v) => match alpha_version_outcome(v) {
            Err(_) => alpha_version_message(v),
            Ok(id) => match name_field {
                None => "Edgeless Alpha data API did not return a WIM file name"@,
                Some(n) => alpha_wim_name_message(trim(n), id),
            },
        },
    }
}

/// What a refused Alpha version answer is reported as.
pub open spec fn alpha_version_response_message(r: AlphaDataResponse) -> Seq<char> {
    match (match opt_view(r.iso_version) {
        Some(v) => Some(v),
        None => opt_view(r.version),
    }) {
        Some(v) => alpha_version_message(v),
        None => "Edgeless Alpha data API did not return a version"@,
    }
}

pub open spec fn alpha_download_outcome(r: AlphaDataResponse) -> Result<
    (EdgelessVersionIdentifier, Seq<char>),
    ErrorKind,
> {
    let version_field = match opt_view(r.iso_version) {
        Some(v) => Some(v),
        None => opt_view(r.version),
    };
    let name_field = match opt_view(r.iso_name) {
        Some(v) => Some(v),
        None => opt_view(r.name),
    };
    match version_field {
        None => Err(ErrorKind::InvalidData),
        Some(v) => match alpha_version_outcome(v) {
            Err(k) => Err(k),
            Ok(id) => match name_field {
                None => Err(ErrorKind::InvalidData),
                Some(n) => if alpha_wim_name_ok(trim(n), id) {
                    Ok((id, trim(n)))
                } else {
                    Err(ErrorKind::InvalidData)
                },
            },
        },
    }
}

pub open spec fn https_scheme() -> Seq<char> {
    seq!['h', 't', 't', 'p', 's', ':', '/', '/']
}

pub open spec fn http_scheme() -> Seq<char> {
    seq!['h', 't', 't', 'p', ':', '/', '/']
}

/// The characters of a literal.
pub fn literal_chars(l: &[char]) -> (r: Vec<char>)
    ensures
        r@ == l@,
{
    let mut out: Vec<char> = Vec::new();
    let mut i: usize = 0;
    while i < l.len()
        invariant
            i <= l.len(),
            out@ == l@.take(i as int),
        decreases l.len() - i,
    {
        out.push(l[i]);
        i = i + 1;
        assert(l@.take(i as int) =~= l@.take(i - 1).push(l@[i - 1]));
    }
    assert(l@.take(l.len() as int) =~= l@);
    out
}

fn alpha_prefix_chars() -> (r: Vec<char>)
    ensures
        r@ == alpha_prefix(),
{
    let r = vec!['E', 'd', 'g', 'e', 'l', 'e', 's', 's', '_', 'A', 'l', 'p', 'h', 'a', '_'];
    assert(r@ =~= alpha_prefix());
    r
}

fn beta_prefix_chars() -> (r: Vec<char>)
    ensures
        r@ == beta_prefix(),
{
    let r = vec!['E', 'd', 'g', 'e', 'l', 'e', 's', 's', '_', 'B', 'e', 't', 'a', '_'];
    assert(r@ =~= beta_prefix());
    r
}

fn error(kind: ErrorKind, text: &str, detail: &Vec<char>) -> (e: EliError)
    ensures
        e.kind == kind,
        e.message@ == text@ + detail@,
{
    let message = concat(&chars_of(text), detail);
    EliError::new(kind, string_of(&message))
}

/// `"` + `s` + `"`, as a message quotes a value.
pub open spec fn quoted(s: Seq<char>) -> Seq<char> {
    "\""@ + s + "\""@
}

fn quoted_error(kind: ErrorKind, text: &str, detail: &Vec<char>) -> (e: EliError)
    ensures
        e.kind == kind,
        e.message@ == text@ + quoted(detail@),
{
    let mut message = concat(&chars_of(text), &chars_of("\""));
    message = concat(&message, detail);
    message = concat(&message, &chars_of("\""));
    EliError::new(kind, string_of(&message))
}

/// What a refused Alpha version field is reported as.
pub open spec fn alpha_version_message(value: Seq<char>) -> Seq<char> {
    let v = trim(value);
    if v == unavailable_version() {
        "no Edgeless Alpha kernel is currently available"@
    } else if identifier_or_bare(v, alpha_prefix()) is None {
        "invalid Edgeless Alpha version from data API "@ + quoted(v)
    } else {
        "Edgeless Alpha data API returned a non-Alpha version: "@ + quoted(v)
    }
}

/// What a refused Beta version field is reported as.
pub open spec fn beta_version_message(value: Seq<char>) -> Seq<char> {
    let v = trim(value);
    if identifier_or_bare(v, beta_prefix()) is None {
        "invalid Edgeless Beta version from ISO info API "@ + quoted(v)
    } else {
        "Edgeless ISO info API returned a non-Beta version: "@ + quoted(v)
    }
}

/// What a refused Alpha WIM name is reported as.
pub open spec fn alpha_wim_name_message(name: Seq<char>, expected: EdgelessVersionIdentifier) -> Seq<
    char,
> {
    if name.len() == 0 || name == seq!['.'] || name == seq!['.', '.'] || name.contains('/')
        || name.contains('\\') {
        "Edgeless Alpha data API returned an invalid file name: "@ + quoted(name)
    } else {
        match extension_dot(name) {
            None => "Edgeless Alpha data API returned a non-WIM file name: "@ + quoted(name),
            Some(k) => if !eq_ignore_case(name.skip(k + 1), wim_word()) {
                "Edgeless Alpha data API returned a non-WIM file name: "@ + quoted(name)
            } else if !starts_with(name.take(k), alpha_prefix()) {
                "Edgeless Alpha data API returned a non-Alpha WIM name: "@ + quoted(name)
            } else if parse_identifier(name.take(k)) is None {
                "Edgeless Alpha data API returned an invalid WIM name "@ + quoted(name)
            } else {
                "Edgeless Alpha data API returned inconsistent version and WIM name: "@ + quoted(name)
            },
        }
    }
}

/// Checks a user token against the service's length limits.
pub open spec fn token_message() -> Seq<char> {
    "Alpha token must contain between 4 and 10 characters"@
}

pub fn validate_alpha_token(token: &str) -> (r: Result<(), EliError>)
    ensures
        outcome(r) == (if token_accepted(token@) {
            Ok(())
        } else {
            Err(ErrorKind::InvalidInput)
        }),
        r matches Err(e) ==> e.message@ == token_message(),
{
    let s = chars_of(token);
    let mut n: usize = 0;
    let mut i: usize = 0;
    while i < s.len()
        invariant
            i <= s.len(),
            s@ == token@,
            n == utf16_len(s@.take(i as int)),
            n <= 10,
        decreases s.len() - i,
    {
        assert(s@.take(i + 1).drop_last() =~= s@.take(i as int));
        if (s[i] as u32) >= 0x10000 {
            n = n + 2;
        } else {
            n = n + 1;
        }
        i = i + 1;
        if n > 10 {
            proof {
                lemma_utf16_prefix(s@, i as int);
            }
            return Err(
                EliError::new(
                    ErrorKind::InvalidInput,
                    string_of(&chars_of("Alpha token must contain between 4 and 10 characters")),
                ),
            );
        }
    }
    assert(s@.take(s.len() as int) =~= s@);
    if n < 4 {
        return Err(
            EliError::new(
                ErrorKind::InvalidInput,
                string_of(&chars_of("Alpha token must contain between 4 and 10 characters")),
            ),
        );
    }
    Ok(())
}

fn identifier_or_bare_chars(v: &Vec<char>, prefix: &Vec<char>) -> (r: Option<
    EdgelessVersionIdentifier,
>)
    ensures
        r == identifier_or_bare(v@, prefix@),
{
    match parse_identifier_chars(v) {
        Some(id) => Some(id),
        None => parse_identifier_chars(&concat(prefix, v)),
    }
}

/// Reads the version field of the Alpha endpoint.
pub fn parse_alpha_version(value: &str) -> (r: Result<EdgelessVersionIdentifier, EliError>)
    ensures
        outcome(r) == alpha_version_outcome(value@),
        r matches Err(e) ==> e.message@ == alpha_version_message(value@),
{
    let v = trim_ws(&chars_of(value));
    if eq(&v, &literal_chars(&['0', '.', '0', '.', '0'])) {
        return Err(error(ErrorKind::NotFound, "no Edgeless Alpha kernel is currently available", &Vec::new()));
    }
    match identifier_or_bare_chars(&v, &alpha_prefix_chars()) {
        Some(id) => {
            if id.stage == ReleaseStage::Alpha {
                Ok(id)
            } else {
                Err(quoted_error(ErrorKind::InvalidData, "Edgeless Alpha data API returned a non-Alpha version: ", &v))
            }
        },
        None => Err(quoted_error(ErrorKind::InvalidData, "invalid Edgeless Alpha version from data API ", &v)),
    }
}

/// Checks the WIM file name reported for an Alpha kernel.
pub fn validate_alpha_wim_name(name: &Vec<char>, expected: EdgelessVersionIdentifier) -> (r: Result<
    (),
    EliError,
>)
    ensures
        outcome(r) == (if alpha_wim_name_ok(name@, expected) {
            Ok(())
        } else {
            Err(ErrorKind::InvalidData)
        }),
        r matches Err(e) ==> e.message@ == alpha_wim_name_message(name@, expected),
{
    let dot = literal_chars(&['.']);
    let dots = literal_chars(&['.', '.']);
    assert(dot@ =~= seq!['.']);
    assert(dots@ =~= seq!['.', '.']);
    if name.len() == 0 || eq(name, &dot) || eq(name, &dots) || crate::text::contains_char(name, '/')
        || crate::text::contains_char(name, '\\') {
        return Err(quoted_error(ErrorKind::InvalidData, "Edgeless Alpha data API returned an invalid file name: ", name));
    }
    let non_wim = "Edgeless Alpha data API returned a non-WIM file name: ";
    let k = match last_index_of(name, '.') {
        Some(k) => k,
        None => {
            return Err(quoted_error(ErrorKind::InvalidData, non_wim, name));
        },
    };
    if k == 0 {
        return Err(quoted_error(ErrorKind::InvalidData, non_wim, name));
    }
    proof {
        lemma_last_index_bounds(name@, '.');
    }
    let extension = slice(name, k + 1, name.len());
    assert(extension@ == name@.skip(k + 1));
    if !eq_ignore_ascii_case(&extension, &literal_chars(&['w', 'i', 'm'])) {
        return Err(quoted_error(ErrorKind::InvalidData, non_wim, name));
    }
    let stem = slice(name, 0, k);
    assert(stem@ == name@.take(k as int));
    if !starts_with_chars(&stem, &alpha_prefix_chars()) {
        return Err(quoted_error(ErrorKind::InvalidData, "Edgeless Alpha data API returned a non-Alpha WIM name: ", name));
    }
    let inconsistent = "Edgeless Alpha data API returned inconsistent version and WIM name: ";
    match parse_identifier_chars(&stem) {
        Some(id) => {
            if id.stage != ReleaseStage::Alpha || id != expected {
                return Err(quoted_error(ErrorKind::InvalidData, inconsistent, name));
            }
            let canonical = crate::text::chars_of(&id.to_string().as_str());
            if !eq(&canonical, &stem) {
                return Err(quoted_error(ErrorKind::InvalidData, inconsistent, name));
            }
            Ok(())
        },
        None => Err(quoted_error(ErrorKind::InvalidData, "Edgeless Alpha data API returned an invalid WIM name ", name)),
    }
}

fn first_present(a: &Option<String>, b: &Option<String>) -> (r: Option<Vec<char>>)
    ensures
        match r {
            Some(v) => match opt_view(*a) {
                Some(x) => v@ == x,
                None => opt_view(*b) == Some(v@),
            },
            None => opt_view(*a) is None && opt_view(*b) is None,
        },
{
    match a {
        Some(s) => Some(chars_of(s.as_str())),
        None => match b {
            Some(s) => Some(chars_of(s.as_str())),
            None => None,
        },
    }
}

/// Reads the Alpha endpoint's answer: version and WIM file name.
pub fn parse_alpha_download_info(response: AlphaDataResponse) -> (r: Result<
    AlphaDownloadInfo,
    EliError,
>)
    ensures
        match r {
            Ok(info) => alpha_download_outcome(response) == Ok::<
                (EdgelessVersionIdentifier, Seq<char>),
                ErrorKind,
            >((info.version, info.name@)),
            Err(e) => alpha_download_outcome(response) == Err::<
                (EdgelessVersionIdentifier, Seq<char>),
                ErrorKind,
            >(e.kind) && e.message@ == alpha_download_message(response),
        },
{
    let version_field = match first_present(&response.iso_version, &response.version) {
        Some(v) => v,
        None => {
            return Err(error(ErrorKind::InvalidData, "Edgeless Alpha data API did not return a version", &Vec::new()));
        },
    };
    let version = match parse_alpha_version(string_of(&version_field).as_str()) {
        Ok(v) => v,
        Err(e) => {
            return Err(e);
        },
    };
    let name_field = match first_present(&response.iso_name, &response.name) {
        Some(v) => v,
        None => {
            return Err(error(ErrorKind::InvalidData, "Edgeless Alpha data API did not return a WIM file name", &Vec::new()));
        },
    };
    let name = trim_ws(&name_field);
    match validate_alpha_wim_name(&name, version) {
        Ok(()) => Ok(AlphaDownloadInfo { version, name: string_of(&name) }),
        Err(e) => Err(e),
    }
}

/// Reads only the version from the Alpha endpoint's answer.
pub fn parse_alpha_version_response(response: AlphaDataResponse) -> (r: Result<
    EdgelessVersionIdentifier,
    EliError,
>)
    ensures
        outcome(r) == (match (match opt_view(response.iso_version) {
            Some(v) => Some(v),
            None => opt_view(response.version),
        }) {
            Some(v) => alpha_version_outcome(v),
            None => Err(ErrorKind::InvalidData),
        }),
        r matches Err(e) ==> e.message@ == alpha_version_response_message(response),
{
    match first_present(&response.iso_version, &response.version) {
        Some(v) => parse_alpha_version(string_of(&v).as_str()),
        None => Err(error(ErrorKind::InvalidData, "Edgeless Alpha data API did not return a version", &Vec::new())),
    }
}

/// Reads the latest Beta version from the ISO endpoint's answer.
pub fn parse_latest_beta_version(response: IsoInfoResponse) -> (r: Result<
    EdgelessVersionIdentifier,
    EliError,
>)
    ensures
        outcome(r) == beta_version_outcome(response.version@),
        r matches Err(e) ==> e.message@ == beta_version_message(response.version@),
{
    let v = trim_ws(&chars_of(response.version.as_str()));
    match identifier_or_bare_chars(&v, &beta_prefix_chars()) {
        Some(id) => {
            if id.stage == ReleaseStage::Beta {
                Ok(id)
            } else {
                Err(quoted_error(ErrorKind::InvalidData, "Edgeless ISO info API returned a non-Beta version: ", &v))
            }
        },
        None => Err(quoted_error(ErrorKind::InvalidData, "invalid Edgeless Beta version from ISO info API ", &v)),
    }
}

/// Reads the ISO download name and address; only web addresses are taken.
pub fn parse_iso_download_info(response: IsoDownloadInfoResponse) -> (r: Result<
    IsoDownloadInfo,
    EliError,
>)
    ensures
        match r {
            Ok(info) => {
                &&& info.url@ == trim(response.url@)
                &&& info.name@ == trim(response.name@)
                &&& (starts_with(trim(response.url@), https_scheme()) || starts_with(
                    trim(response.url@),
                    http_scheme(),
                ))
            },
            Err(e) => e.kind == ErrorKind::InvalidData && !starts_with(
                trim(response.url@),
                https_scheme(),
            ) && !starts_with(trim(response.url@), http_scheme()) && e.message@
                == "Edgeless ISO info API returned an invalid URL: "@ + quoted(trim(response.url@)),
        },
{
    let url = trim_ws(&chars_of(response.url.as_str()));
    let https = vec!['h', 't', 't', 'p', 's', ':', '/', '/'];
    let http = vec!['h', 't', 't', 'p', ':', '/', '/'];
    assert(https@ =~= https_scheme());
    assert(http@ =~= http_scheme());
    if !(starts_with_chars(&url, &https) || starts_with_chars(&url, &http)) {
        return Err(quoted_error(ErrorKind::InvalidData, "Edgeless ISO info API returned an invalid URL: ", &url));
    }
    let name = trim_ws(&chars_of(response.name.as_str()));
    Ok(IsoDownloadInfo { name: string_of(&name), url: string_of(&url) })
}

/// The latest Beta kernel version, from the ISO endpoint's answer.
pub fn latest_beta_version(response: IsoInfoResponse) -> (r: Result<
    EdgelessVersionIdentifier,
    EliError,
>)
    ensures
        outcome(r) == beta_version_outcome(response.version@),
        r matches Err(e) ==> e.message@ == beta_version_message(response.version@),
{
    parse_latest_beta_version(response)
}

/// The ISO name and address, from the ISO endpoint's answer.
pub fn latest_iso_download_info(response: IsoDownloadInfoResponse) -> (r: Result<
    IsoDownloadInfo,
    EliError,
>)
    ensures
        match r {
            Ok(info) => info.url@ == trim(response.url@) && info.name@ == trim(response.name@)
                && (starts_with(trim(response.url@), https_scheme()) || starts_with(
                trim(response.url@),
                http_scheme(),
            )),
            Err(e) => e.kind == ErrorKind::InvalidData && !starts_with(
                trim(response.url@),
                https_scheme(),
            ) && !starts_with(trim(response.url@), http_scheme()) && e.message@
                == "Edgeless ISO info API returned an invalid URL: "@ + quoted(trim(response.url@)),
        },
{
    parse_iso_download_info(response)
}

/// The latest Alpha kernel's metadata: the token is checked before the
/// answer, which was fetched with it, is read.
pub fn latest_alpha_download_info(token: &str, response: AlphaDataResponse) -> (r: Result<
    AlphaDownloadInfo,
    EliError,
>)
    ensures
        !token_accepted(token@) ==> (r matches Err(e) && e.kind == ErrorKind::InvalidInput
            && e.message@ == token_message()),
        token_accepted(token@) ==> match r {
            Ok(info) => alpha_download_outcome(response) == Ok::<
                (EdgelessVersionIdentifier, Seq<char>),
                ErrorKind,
            >((info.version, info.name@)),
            Err(e) => alpha_download_outcome(response) == Err::<
                (EdgelessVersionIdentifier, Seq<char>),
                ErrorKind,
            >(e.kind) && e.message@ == alpha_download_message(response),
        },
{
    match validate_alpha_token(token) {
        Ok(()) => parse_alpha_download_info(response),
        Err(e) => Err(e),
    }
}

/// The latest Alpha kernel version: the token is checked before the
/// answer, which was fetched with it, is read.
pub fn latest_alpha_version(token: &str, response: AlphaDataResponse) -> (r: Result<
    EdgelessVersionIdentifier,
    EliError,
>)
    ensures
        !token_accepted(token@) ==> outcome(r) == Err::<EdgelessVersionIdentifier, ErrorKind>(
            ErrorKind::InvalidInput,
        ),
        token_accepted(token@) ==> outcome(r) == (match (match opt_view(response.iso_version) {
            Some(v) => Some(v),
            None => opt_view(response.version),
        }) {
            Some(v) => alpha_version_outcome(v),
            None => Err(ErrorKind::InvalidData),
        }),
        r matches Err(e) ==> e.message@ == if token_accepted(token@) {
            alpha_version_response_message(response)
        } else {
            token_message()
        },
{
    match validate_alpha_token(token) {
        Ok(()) => parse_alpha_version_response(response),
        Err(e) => Err(e),
    }
}

pub open spec fn alpha_download_address() -> Seq<char> {
    seq![
        'h', 't', 't', 'p', 's', ':', '/', '/', 'l', 'e', 'g', 'a', 'c', 'y', '.', 'e', 'd', 'g', 'e',
        'l', 'e', 's', 's', '.', 't', 'o', 'p', '/', 'a', 'p', 'i', '/', 'v', '2', '/', 'a', 'l',
        'p', 'h', 'a', '/', 'a', 'd', 'd', 'r'
    ]
}

/// The request that downloads the latest Alpha WIM; an unacceptable token
/// is refused before anything is sent.
pub fn download_latest_alpha(token: &str) -> (r: Result<AlphaDownloadRequest, EliError>)
    ensures
        match r {
            Ok(req) => token_accepted(token@) && req.token@ == token@ && req.url@
                == alpha_download_address(),
            Err(e) => !token_accepted(token@) && e.kind == ErrorKind::InvalidInput && e.message@
                == token_message(),
        },
{
    match validate_alpha_token(token) {
        Ok(()) => {
            let url = vec![
                'h', 't', 't', 'p', 's', ':', '/', '/', 'l', 'e', 'g', 'a', 'c', 'y', '.', 'e',
                'd', 'g', 'e', 'l', 'e', 's', 's', '.', 't', 'o', 'p', '/', 'a', 'p', 'i', '/',
                'v', '2', '/', 'a', 'l', 'p', 'h', 'a', '/', 'a', 'd', 'd', 'r',
            ];
            assert(url@ =~= alpha_download_address());
            Ok(AlphaDownloadRequest { url: string_of(&url), token: string_of(&chars_of(token)) })
        },
        Err(e) => Err(e),
    }
}

} // verus!
