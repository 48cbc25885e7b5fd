//! Boot-disk configuration: which switches exist for which Edgeless
//! versions, what values they accept, and which change a request makes.
//!
//! The switches are marker directories under `Edgeless/Config`; the other
//! settings are a wallpaper file and two text files. Reading and writing
//! them happens at the edge of the program; the rules are here.
use crate::api::{opt_view, outcome};
use crate::error::{EliError, ErrorKind};
use crate::text::{
    all_digits, chars_of, concat, eq, eq_ignore_ascii_case, eq_ignore_case, last_index,
    last_index_of, lemma_last_index_bounds, parse_unsigned, parse_unsigned_chars, slice,
    starts_with, starts_with_chars, string_of, trim_end_by, trim_end_newlines, views, words,
    words_of,
};
use crate::version::{
    parse_identifier, parse_identifier_chars, version_less, version_text, EdgelessVersion,
};
use vstd::prelude::*;

verus! {

/// A switch that exists as a marker directory, with the versions of
/// Edgeless that read it: newer than `higher_than` and, where set, older
/// than `lower_than`.
#[derive(Clone, Copy, Debug)]
pub struct BooleanConfig {
    pub key: &'static str,
    pub higher_than: EdgelessVersion,
    pub lower_than: Option<EdgelessVersion>,
}

pub open spec fn ver(major: u32, minor: u32, patch: u32) -> EdgelessVersion {
    EdgelessVersion { major, minor, patch }
}

/// The switches, in the order they are listed.
pub open spec fn boolean_config_table() -> Seq<BooleanConfig> {
    seq![
        BooleanConfig { key: "DisablePinBrowsers", higher_than: ver(4, 0, 2), lower_than: None },
        BooleanConfig { key: "RebootDefault", higher_than: ver(3, 1, 0), lower_than: None },
        BooleanConfig { key: "Developer", higher_than: ver(2, 2, 0), lower_than: Some(ver(4, 0, 0)) },
        BooleanConfig { key: "NoOutDateCheck", higher_than: ver(2, 2, 0), lower_than: Some(ver(4, 0, 0)) },
        BooleanConfig { key: "DisableUSBManager", higher_than: ver(3, 0, 0), lower_than: None },
        BooleanConfig { key: "DisableSmartISO", higher_than: ver(3, 0, 6), lower_than: None },
        BooleanConfig { key: "UnfoldRibbon", higher_than: ver(3, 0, 5), lower_than: Some(ver(4, 0, 0)) },
        BooleanConfig { key: "DisableRecycleBin", higher_than: ver(3, 0, 6), lower_than: None },
        BooleanConfig { key: "AutoUnattend", higher_than: ver(3, 0, 0), lower_than: None },
        BooleanConfig { key: "OrderDrvAnotherWay", higher_than: ver(3, 0, 5), lower_than: None },
        BooleanConfig { key: "DisableLoadScreen", higher_than: ver(3, 1, 0), lower_than: None },
        BooleanConfig { key: "UpActDrv", higher_than: ver(3, 0, 0), lower_than: None },
        BooleanConfig { key: "WinFirst", higher_than: ver(3, 0, 0), lower_than: None },
        BooleanConfig { key: "MountEveryPartition", higher_than: ver(3, 1, 5), lower_than: None },
    ]
}

/// The home page setting is read by Edgeless newer than this version.
pub open spec fn homepage_higher_than() -> EdgelessVersion {
    ver(4, 0, 2)
}

pub open spec fn config_available(c: BooleanConfig, v: EdgelessVersion) -> bool {
    version_less(c.higher_than, v) && match c.lower_than {
        Some(l) => version_less(v, l),
        None => true,
    }
}

pub open spec fn range_text(c: BooleanConfig) -> Seq<char> {
    match c.lower_than {
        Some(l) => seq!['>', ' '] + version_text(c.higher_than) + seq![' ', 'a', 'n', 'd', ' ', '<', ' ']
            + version_text(l),
        None => seq!['>', ' '] + version_text(c.higher_than),
    }
}

/// Index of the first switch whose key equals `key` ignoring ASCII case.
pub open spec fn config_index_from(t: Seq<BooleanConfig>, key: Seq<char>, i: int) -> Option<int>
    decreases t.len() - i,
{
    if i < 0 || i >= t.len() {
        None
    } else if eq_ignore_case(t[i].key@, key) {
        Some(i)
    } else {
        config_index_from(t, key, i + 1)
    }
}

pub open spec fn config_index(key: Seq<char>) -> Option<int> {
    config_index_from(boolean_config_table(), key, 0)
}

/// The version part of a boot disk's version file, which may end in a
/// line break.
pub open spec fn bootdisk_version(text: Seq<char>) -> Option<EdgelessVersion> {
    match parse_identifier(trim_end_by(text, |c: char| c == '\r' || c == '\n')) {
        Some(id) => Some(id.version),
        None => None,
    }
}

impl BooleanConfig {
    /// Whether Edgeless `version` reads this switch.
    pub fn is_available_for(self, version: EdgelessVersion) -> (r: bool)
        ensures
            r == config_available(self, version),
    {
        crate::version::is_older(self.higher_than, version) && match self.lower_than {
            Some(l) => crate::version::is_older(version, l),
            None => true,
        }
    }

    /// `> a.b.c`, or `> a.b.c and < x.y.z` when there is an upper bound.
    pub fn supported_version_range(self) -> (s: String)
        ensures
            s@ == range_text(self),
    {
        let mut out = chars_of("> ");
        let low = chars_of(self.higher_than.to_string().as_str());
        out = concat(&out, &low);
        match self.lower_than {
            Some(l) => {
                out = concat(&out, &chars_of(" and < "));
                out = concat(&out, &chars_of(l.to_string().as_str()));
                proof {
                    reveal_strlit("> ");
                    reveal_strlit(" and < ");
                }
            },
            None => {
                proof {
                    reveal_strlit("> ");
                }
            },
        }
        string_of(&out)
    }
}

/// The switches, in the order they are listed.
pub fn boolean_configs() -> (r: Vec<BooleanConfig>)
    ensures
        r@ == boolean_config_table(),
{
    let v = vec![
        BooleanConfig { key: "DisablePinBrowsers", higher_than: EdgelessVersion { major: 4, minor: 0, patch: 2 }, lower_than: None },
        BooleanConfig { key: "RebootDefault", higher_than: EdgelessVersion { major: 3, minor: 1, patch: 0 }, lower_than: None },
        BooleanConfig { key: "Developer", higher_than: EdgelessVersion { major: 2, minor: 2, patch: 0 }, lower_than: Some(EdgelessVersion { major: 4, minor: 0, patch: 0 }) },
        BooleanConfig { key: "NoOutDateCheck", higher_than: EdgelessVersion { major: 2, minor: 2, patch: 0 }, lower_than: Some(EdgelessVersion { major: 4, minor: 0, patch: 0 }) },
        BooleanConfig { key: "DisableUSBManager", higher_than: EdgelessVersion { major: 3, minor: 0, patch: 0 }, lower_than: None },
        BooleanConfig { key: "DisableSmartISO", higher_than: EdgelessVersion { major: 3, minor: 0, patch: 6 }, lower_than: None },
        BooleanConfig { key: "UnfoldRibbon", higher_than: EdgelessVersion { major: 3, minor: 0, patch: 5 }, lower_than: Some(EdgelessVersion { major: 4, minor: 0, patch: 0 }) },
        BooleanConfig { key: "DisableRecycleBin", higher_than: EdgelessVersion { major: 3, minor: 0, patch: 6 }, lower_than: None },
        BooleanConfig { key: "AutoUnattend", higher_than: EdgelessVersion { major: 3, minor: 0, patch: 0 }, lower_than: None },
        BooleanConfig { key: "OrderDrvAnotherWay", higher_than: EdgelessVersion { major: 3, minor: 0, patch: 5 }, lower_than: None },
        BooleanConfig { key: "DisableLoadScreen", higher_than: EdgelessVersion { major: 3, minor: 1, patch: 0 }, lower_than: None },
        BooleanConfig { key: "UpActDrv", higher_than: EdgelessVersion { major: 3, minor: 0, patch: 0 }, lower_than: None },
        BooleanConfig { key: "WinFirst", higher_than: EdgelessVersion { major: 3, minor: 0, patch: 0 }, lower_than: None },
        BooleanConfig { key: "MountEveryPartition", higher_than: EdgelessVersion { major: 3, minor: 1, patch: 5 }, lower_than: None },
    ];
    assert(v@ =~= boolean_config_table());
    v
}

/// The switch named `key`, ignoring ASCII case.
pub fn boolean_config(key: &str) -> (r: Option<BooleanConfig>)
    ensures
        match config_index(key@) {
            Some(i) => r == Some(boolean_config_table()[i]),
            None => r is None,
        },
{
    let table = boolean_configs();
    let wanted = chars_of(key);
    let mut i: usize = 0;
    while i < table.len()
        invariant
            i <= table.len(),
            table@ == boolean_config_table(),
            wanted@ == key@,
            config_index(key@) == config_index_from(table@, key@, i as int),
        decreases table.len() - i,
    {
        let candidate = chars_of(table[i].key);
        if eq_ignore_ascii_case(&candidate, &wanted) {
            return Some(table[i]);
        }
        i = i + 1;
    }
    None
}

/// The Edgeless version in a boot disk's version file.
pub fn parse_bootdisk_version(version: &str) -> (r: Result<EdgelessVersion, EliError>)
    ensures
        match r {
            Ok(v) => bootdisk_version(version@) == Some(v),
            Err(e) => bootdisk_version(version@) is None && e.kind == ErrorKind::InvalidData
                && e.message@ == version_message(version@),
        },
{
    let value = trim_end_newlines(&chars_of(version));
    match parse_identifier_chars(&value) {
        Some(id) => Ok(id.version),
        None => {
            let mut message = concat(&chars_of("invalid Edgeless version identifier "), &chars_of("\""));
            message = concat(&message, &value);
            message = concat(&message, &chars_of("\""));
            Err(EliError::new(ErrorKind::InvalidData, string_of(&message)))
        },
    }
}

/// What an unreadable version file is reported as.
pub open spec fn version_message(version: Seq<char>) -> Seq<char> {
    "invalid Edgeless version identifier "@ + "\""@ + trim_end_by(
        version,
        |c: char| c == '\r' || c == '\n',
    ) + "\""@
}

/// One line of `config list`.
#[derive(Debug)]
pub struct ConfigEntry {
    pub key: String,
    pub value: String,
    pub available: bool,
}

/// What was found on the boot disk: one marker state per switch, in table
/// order, whether a wallpaper is present, and the two optional texts.
pub struct ConfigState {
    pub markers: Vec<bool>,
    pub wallpaper_set: bool,
    pub resolution: Option<String>,
    pub homepage: Option<String>,
}

pub open spec fn bool_text(b: bool) -> Seq<char> {
    if b {
        "true"@
    } else {
        "false"@
    }
}

/// The listing for Edgeless `v`, in order: the switches, then `wallpaper`,
/// `resolution` and `homepage`.
pub open spec fn listing_ok(entries: Seq<ConfigEntry>, v: EdgelessVersion, state: ConfigState) -> bool {
    let t = boolean_config_table();
    &&& entries.len() == t.len() + 3
    &&& forall|i: int|
        0 <= i < t.len() ==> {
            &&& (#[trigger] entries[i]).key@ == t[i].key@
            &&& entries[i].value@ == bool_text(state.markers@[i])
            &&& entries[i].available == config_available(t[i], v)
        }
    &&& entries[14].key@ == "wallpaper"@
    &&& entries[14].value@ == (if state.wallpaper_set {
        "set"@
    } else {
        "not set"@
    })
    &&& entries[14].available
    &&& entries[15].key@ == "resolution"@
    &&& entries[15].value@ == (match opt_view(state.resolution) {
        Some(t) => t,
        None => "auto"@,
    })
    &&& entries[15].available
    &&& entries[16].key@ == "homepage"@
    &&& entries[16].value@ == (match opt_view(state.homepage) {
        Some(t) => t,
        None => "not set"@,
    })
    &&& entries[16].available == version_less(homepage_higher_than(), v)
}

fn text_or(value: &Option<String>, fallback: &str) -> (r: String)
    ensures
        r@ == (match opt_view(*value) {
            Some(t) => t,
            None => fallback@,
        }),
{
    match value {
        Some(t) => t.clone(),
        None => fallback.to_owned(),
    }
}

/// The configuration of a boot disk whose version file reads `version`.
pub fn list(version: &str, state: ConfigState) -> (r: Result<Vec<ConfigEntry>, EliError>)
    requires
        state.markers@.len() == boolean_config_table().len(),
    ensures
        match r {
            Ok(entries) => match bootdisk_version(version@) {
                Some(v) => listing_ok(entries@, v, state),
                None => false,
            },
            Err(e) => bootdisk_version(version@) is None && e.kind == ErrorKind::InvalidData
                && e.message@ == version_message(version@),
        },
{
    let v = match parse_bootdisk_version(version) {
        Ok(v) => v,
        Err(e) => {
            return Err(e);
        },
    };
    let table = boolean_configs();
    let mut entries: Vec<ConfigEntry> = Vec::new();
    let mut i: usize = 0;
    while i < table.len()
        invariant
            i <= table.len(),
            table@ == boolean_config_table(),
            state.markers@.len() == table@.len(),
            entries@.len() == i,
            forall|j: int|
                0 <= j < i ==> {
                    &&& (#[trigger] entries@[j]).key@ == table@[j].key@
                    &&& entries@[j].value@ == bool_text(state.markers@[j])
                    &&& entries@[j].available == config_available(table@[j], v)
                },
        decreases table.len() - i,
    {
        let c = table[i];
        let value = if state.markers[i] {
            "true".to_owned()
        } else {
            "false".to_owned()
        };
        entries.push(ConfigEntry { key: c.key.to_owned(), value, available: c.is_available_for(v) });
        i = i + 1;
    }
    entries.push(
        ConfigEntry {
            key: "wallpaper".to_owned(),
            value: if state.wallpaper_set {
                "set".to_owned()
            } else {
                "not set".to_owned()
            },
            available: true,
        },
    );
    entries.push(
        ConfigEntry {
            key: "resolution".to_owned(),
            value: text_or(&state.resolution, "auto"),
            available: true,
        },
    );
    let homepage_available = crate::version::is_older(
        EdgelessVersion { major: 4, minor: 0, patch: 2 },
        v,
    );
    entries.push(
        ConfigEntry {
            key: "homepage".to_owned(),
            value: text_or(&state.homepage, "not set"),
            available: homepage_available,
        },
    );
    Ok(entries)
}


/// Options of `config set`.
#[derive(Clone, Copy, Debug, PartialEq, Eq, Structural)]
pub struct SetOptions {
    /// Accept any well-formed custom resolution, not only the listed ones.
    pub skip_resolution_validation: bool,
}

impl Default for SetOptions {
    fn default() -> (r: SetOptions)
        ensures
            !r.skip_resolution_validation,
    {
        SetOptions { skip_resolution_validation: false }
    }
}

/// The change that a `config set` request makes on the boot disk.
#[derive(Debug)]
pub enum ConfigChange {
    /// Create (`enabled`) or remove the marker directory of a switch.
    SetMarker { key: String, enabled: bool },
    /// Copy the JPEG at `source` to `Edgeless/wp.jpg`.
    SetWallpaper { source: String },
    /// Remove the resolution file, which restores automatic resolution.
    RemoveResolution,
    /// Write `text` to the resolution file.
    WriteResolution { text: String },
    /// Remove the home page file.
    RemoveHomepage,
    /// Write `text` to the home page file.
    WriteHomepage { text: String },
}

pub enum ChangeView {
    SetMarker(Seq<char>, bool),
    SetWallpaper(Seq<char>),
    RemoveResolution,
    WriteResolution(Seq<char>),
    RemoveHomepage,
    WriteHomepage(Seq<char>),
}

pub open spec fn change_view(c: ConfigChange) -> ChangeView {
    match c {
        ConfigChange::SetMarker { key, enabled } => ChangeView::SetMarker(key@, enabled),
        ConfigChange::SetWallpaper { source } => ChangeView::SetWallpaper(source@),
        ConfigChange::RemoveResolution => ChangeView::RemoveResolution,
        ConfigChange::WriteResolution { text } => ChangeView::WriteResolution(text@),
        ConfigChange::RemoveHomepage => ChangeView::RemoveHomepage,
        ConfigChange::WriteHomepage { text } => ChangeView::WriteHomepage(text@),
    }
}

/// The file name of a path: what follows its last `/` or `\`.
pub open spec fn file_name(path: Seq<char>) -> Seq<char> {
    let a = match last_index(path, '/') {
        Some(k) => k,
        None => -1,
    };
    let b = match last_index(path, '\\') {
        Some(k) => k,
        None => -1,
    };
    path.skip((if a > b {
        a
    } else {
        b
    }) + 1)
}

/// The extension of a path's file name (`Path::extension`): what follows
/// the last dot, unless that dot begins the name.
pub open spec fn extension(path: Seq<char>) -> Option<Seq<char>> {
    let name = file_name(path);
    match crate::api::extension_dot(name) {
        Some(k) => if name == seq!['.', '.'] {
            None
        } else {
            Some(name.skip(k + 1))
        },
        None => None,
    }
}

pub open spec fn jpg_extension(path: Seq<char>) -> bool {
    match extension(path) {
        Some(e) => eq_ignore_case(e, "jpg"@),
        None => false,
    }
}

/// One field of a custom resolution: the letter, then a positive `u16`.
pub open spec fn resolution_field(f: Seq<char>, letter: char) -> Option<nat> {
    if f.len() > 0 && f[0] == letter {
        match parse_unsigned(f.drop_first(), 65535) {
            Some(n) => if n > 0 {
                Some(n)
            } else {
                None
            },
            None => None,
        }
    } else {
        None
    }
}

/// `w<width> h<height> b<bit> f<fps>`, separated by whitespace.
pub open spec fn resolution_format(value: Seq<char>) -> Option<(nat, nat, nat, nat)> {
    let w = words(value);
    if w.len() == 4 && resolution_field(w[0], 'w') is Some && resolution_field(w[1], 'h') is Some
        && resolution_field(w[2], 'b') is Some && resolution_field(w[3], 'f') is Some {
        Some(
            (
                resolution_field(w[0], 'w')->0,
                resolution_field(w[1], 'h')->0,
                resolution_field(w[2], 'b')->0,
                resolution_field(w[3], 'f')->0,
            ),
        )
    } else {
        None
    }
}

/// The screen sizes that Edgeless can set.
pub open spec fn supported_size(width: nat, height: nat) -> bool {
    ||| (width == 1920 && height == 1080)
    ||| (width == 1680 && height == 1050)
    ||| (width == 1600 && height == 900)
    ||| (width == 1440 && height == 900)
    ||| (width == 1400 && height == 1050)
    ||| (width == 1366 && height == 768)
    ||| (width == 1360 && height == 768)
    ||| (width == 1280 && height == 1024)
    ||| (width == 1280 && height == 960)
    ||| (width == 1280 && height == 800)
    ||| (width == 1280 && height == 768)
    ||| (width == 1280 && height == 720)
    ||| (width == 1280 && height == 600)
    ||| (width == 1152 && height == 864)
    ||| (width == 1024 && height == 768)
    ||| (width == 800 && height == 600)
}

/// The sizes, width by height, that a custom resolution may name.
pub open spec fn listed_size(i: int) -> (nat, nat) {
    if i == 0 {
        (1920, 1080)
    } else if i == 1 {
        (1680, 1050)
    } else if i == 2 {
        (1600, 900)
    } else if i == 3 {
        (1440, 900)
    } else if i == 4 {
        (1400, 1050)
    } else if i == 5 {
        (1366, 768)
    } else if i == 6 {
        (1360, 768)
    } else if i == 7 {
        (1280, 1024)
    } else if i == 8 {
        (1280, 960)
    } else if i == 9 {
        (1280, 800)
    } else if i == 10 {
        (1280, 768)
    } else if i == 11 {
        (1280, 720)
    } else if i == 12 {
        (1280, 600)
    } else if i == 13 {
        (1152, 864)
    } else if i == 14 {
        (1024, 768)
    } else {
        (800, 600)
    }
}

/// A custom resolution is accepted exactly when it names one of the sixteen
/// listed sizes at 16 or 32 bits and 30 or 60 frames a second.
pub proof fn lemma_supported_sizes(width: nat, height: nat)
    ensures
        supported_size(width, height) <==> exists|i: int| 0 <= i < 16 && #[trigger] listed_size(i) == (width, height),
{
    if supported_size(width, height) {
        if width == 1920 && height == 1080 {
            assert(listed_size(0) == (width, height));
        } else if width == 1680 && height == 1050 {
            assert(listed_size(1) == (width, height));
        } else if width == 1600 && height == 900 {
            assert(listed_size(2) == (width, height));
        } else if width == 1440 && height == 900 {
            assert(listed_size(3) == (width, height));
        } else if width == 1400 && height == 1050 {
            assert(listed_size(4) == (width, height));
        } else if width == 1366 && height == 768 {
            assert(listed_size(5) == (width, height));
        } else if width == 1360 && height == 768 {
            assert(listed_size(6) == (width, height));
        } else if width == 1280 && height == 1024 {
            assert(listed_size(7) == (width, height));
        } else if width == 1280 && height == 960 {
            assert(listed_size(8) == (width, height));
        } else if width == 1280 && height == 800 {
            assert(listed_size(9) == (width, height));
        } else if width == 1280 && height == 768 {
            assert(listed_size(10) == (width, height));
        } else if width == 1280 && height == 720 {
            assert(listed_size(11) == (width, height));
        } else if width == 1280 && height == 600 {
            assert(listed_size(12) == (width, height));
        } else if width == 1152 && height == 864 {
            assert(listed_size(13) == (width, height));
        } else if width == 1024 && height == 768 {
            assert(listed_size(14) == (width, height));
        } else {
            assert(listed_size(15) == (width, height));
        }
    }
}

pub open spec fn resolution_ok(value: Seq<char>) -> bool {
    value == "DisableAutoSuit"@ || match resolution_format(value) {
        Some((w, h, b, f)) => supported_size(w, h) && (b == 16 || b == 32) && (f == 30 || f == 60),
        None => false,
    }
}

/// Every listed size is accepted at 16 or 32 bits and 30 or 60 frames a
/// second.
pub proof fn lemma_listed_resolution_accepted(value: Seq<char>, i: int, bits: nat, fps: nat)
    requires
        0 <= i < 16,
        resolution_format(value) == Some((listed_size(i).0, listed_size(i).1, bits, fps)),
        bits == 16 || bits == 32,
        fps == 30 || fps == 60,
    ensures
        resolution_ok(value),
{
    lemma_supported_sizes(listed_size(i).0, listed_size(i).1);
}

/// A custom resolution that is accepted names a listed size at 16 or 32
/// bits and 30 or 60 frames a second.
pub proof fn lemma_accepted_resolution_is_listed(value: Seq<char>)
    requires
        resolution_ok(value),
        value != "DisableAutoSuit"@,
    ensures
        resolution_format(value) matches Some((w, h, b, f)) && (exists|i: int|
            0 <= i < 16 && #[trigger] listed_size(i) == (w, h)) && (b == 16 || b == 32) && (f == 30
            || f == 60),
{
    if let Some((w, h, b, f)) = resolution_format(value) {
        lemma_supported_sizes(w, h);
    }
}

/// The address pattern that the home page setting must match.
pub const HOMEPAGE_PATTERN: &'static str = r#"^((https|http|ftp|rtsp|mms)?://)?(([0-9a-z_!~*'().&=+$%-]+: )?[0-9a-z_!~*'().&=+$%-]+@)?(([0-9]{1,3}\.){3}[0-9]{1,3}|([0-9a-z_!~*'()-]+\.)*([0-9a-z][0-9a-z-]{0,61})?[0-9a-z]\.[a-z]{2,6})(:[0-9]{1,4})?((/?)|(/[0-9a-z_!~*'().;?:@&=+$,%#-]+)+/?)$"#;

/// Whether `regex::Regex::new` accepts the pattern.
pub uninterp spec fn regex_compiles(pattern: Seq<char>) -> bool;

/// What `regex::Regex::is_match` answers for a compiled pattern.
pub uninterp spec fn regex_is_match(pattern: Seq<char>, haystack: Seq<char>) -> bool;

/// Compiles `pattern` with `regex::Regex::new` and, when it compiles,
/// tests `haystack` with `Regex::is_match`. Trusted: the answer is `None`
/// exactly when the pattern does not compile, and otherwise the match
/// result for the two texts; what the regex engine matches is not
/// restated here.
#[verifier::external_body]
fn regex_match(pattern: &str, haystack: &str) -> (r: Option<bool>)
    ensures
        r is Some <==> regex_compiles(pattern@),
        r matches Some(b) ==> b == regex_is_match(pattern@, haystack@),
{
    match regex::Regex::new(pattern) {
        Ok(re) => Some(re.is_match(haystack)),
        Err(_) => None,
    }
}

/// The address written for a home page value: as given when it starts
/// with `http`, else behind `http://`.
pub open spec fn homepage_candidate(value: Seq<char>) -> Seq<char> {
    if starts_with(value, "http"@) {
        value
    } else {
        "http://"@ + value
    }
}

pub open spec fn homepage_outcome(value: Seq<char>) -> Result<Seq<char>, ErrorKind> {
    if value == "Disable"@ {
        Ok(value)
    } else if !regex_compiles(HOMEPAGE_PATTERN@) {
        Err(ErrorKind::Other)
    } else if regex_is_match(HOMEPAGE_PATTERN@, homepage_candidate(value)) {
        Ok(homepage_candidate(value))
    } else {
        Err(ErrorKind::InvalidInput)
    }
}

/// What a `config set` request means for a boot disk whose version file
/// reads `version`.
pub open spec fn set_outcome(version: Seq<char>, key: Seq<char>, value: Seq<char>, skip: bool) -> Result<
    ChangeView,
    ErrorKind,
> {
    if skip && !eq_ignore_case(key, "resolution"@) {
        Err(ErrorKind::InvalidInput)
    } else {
        match config_index(key) {
            Some(i) => {
                let c = boolean_config_table()[i];
                match bootdisk_version(version) {
                    None => Err(ErrorKind::InvalidData),
                    Some(v) => if !config_available(c, v) {
                        Err(ErrorKind::Unsupported)
                    } else if value == "true"@ {
                        Ok(ChangeView::SetMarker(c.key@, true))
                    } else if value == "false"@ {
                        Ok(ChangeView::SetMarker(c.key@, false))
                    } else {
                        Err(ErrorKind::InvalidInput)
                    },
                }
            },
            None => if eq_ignore_case(key, "wallpaper"@) {
                if jpg_extension(value) {
                    Ok(ChangeView::SetWallpaper(value))
                } else {
                    Err(ErrorKind::InvalidInput)
                }
            } else if eq_ignore_case(key, "resolution"@) {
                if eq_ignore_case(value, "auto"@) {
                    Ok(ChangeView::RemoveResolution)
                } else if (if skip {
                    resolution_format(value) is Some
                } else {
                    resolution_ok(value)
                }) {
                    Ok(ChangeView::WriteResolution(value))
                } else {
                    Err(ErrorKind::InvalidInput)
                }
            } else if eq_ignore_case(key, "homepage"@) {
                if eq_ignore_case(value, "false"@) {
                    Ok(ChangeView::RemoveHomepage)
                } else {
                    match bootdisk_version(version) {
                        None => Err(ErrorKind::InvalidData),
                        Some(v) => if !version_less(homepage_higher_than(), v) {
                            Err(ErrorKind::Unsupported)
                        } else {
                            match homepage_outcome(value) {
                                Ok(t) => Ok(ChangeView::WriteHomepage(t)),
                                Err(k) => Err(k),
                            }
                        },
                    }
                }
            } else {
                Err(ErrorKind::InvalidInput)
            },
        }
    }
}

fn invalid_input(text: &str) -> (e: EliError)
    ensures
        e.kind == ErrorKind::InvalidInput,
        e.message@ == text@,
{
    EliError::new(ErrorKind::InvalidInput, text.to_owned())
}

/// The file name of a path.
pub fn file_name_of(path: &str) -> (r: Vec<char>)
    ensures
        r@ == file_name(path@),
{
    let p = chars_of(path);
    let a = last_index_of(&p, '/');
    let b = last_index_of(&p, '\\');
    proof {
        lemma_last_index_bounds(p@, '/');
        lemma_last_index_bounds(p@, '\\');
    }
    let start: usize = match (a, b) {
        (Some(x), Some(y)) => if x > y {
            x + 1
        } else {
            y + 1
        },
        (Some(x), None) => x + 1,
        (None, Some(y)) => y + 1,
        (None, None) => 0,
    };
    slice(&p, start, p.len())
}

/// The extension of a path's file name.
pub fn extension_of(path: &str) -> (r: Option<Vec<char>>)
    ensures
        match extension(path@) {
            Some(e) => r matches Some(v) && v@ == e,
            None => r is None,
        },
{
    let name = file_name_of(path);
    if eq(&name, &crate::api::literal_chars(&['.', '.'])) {
        return None;
    }
    match last_index_of(&name, '.') {
        Some(k) => {
            if k == 0 {
                return None;
            }
            proof {
                lemma_last_index_bounds(name@, '.');
            }
            let len = name.len();
            let ext = slice(&name, k + 1, len);
            assert(ext@ == name@.skip(k + 1));
            Some(ext)
        },
        None => None,
    }
}

/// Whether a path names a `.jpg` file, in any letter case.
pub fn has_jpg_extension(path: &str) -> (r: bool)
    ensures
        r == jpg_extension(path@),
{
    match extension_of(path) {
        Some(e) => eq_ignore_ascii_case(&e, &chars_of("jpg")),
        None => false,
    }
}

fn resolution_field_chars(f: &Vec<char>, letter: char) -> (r: Option<u16>)
    ensures
        match resolution_field(f@, letter) {
            Some(n) => r == Some(n as u16),
            None => r is None,
        },
{
    if f.len() == 0 || f[0] != letter {
        return None;
    }
    let rest = slice(f, 1, f.len());
    assert(rest@ == f@.drop_first());
    match parse_unsigned_chars(&rest, 65535) {
        Some(n) => if n > 0 {
            Some(n as u16)
        } else {
            None
        },
        None => None,
    }
}

pub open spec fn resolution_format_message() -> Seq<char> {
    "resolution must use the format `w<width> h<height> b<bit> f<fps>` with positive integer values"@
}

pub open spec fn resolution_support_message() -> Seq<char> {
    "resolution must be DisableAutoSuit or `w<width> h<height> b<16|32> f<30|60>` using a supported resolution"@
}

/// Why a resolution value is refused.
pub open spec fn resolution_message(value: Seq<char>) -> Seq<char> {
    if value != "DisableAutoSuit"@ && resolution_format(value) is Some {
        resolution_support_message()
    } else {
        resolution_format_message()
    }
}

fn resolution_error() -> (e: EliError)
    ensures
        e.kind == ErrorKind::InvalidInput,
        e.message@ == resolution_format_message(),
{
    invalid_input(
        "resolution must use the format `w<width> h<height> b<bit> f<fps>` with positive integer values",
    )
}

/// Reads `w<width> h<height> b<bit> f<fps>`, without limiting the values.
pub fn parse_resolution_format(value: &str) -> (r: Result<(u16, u16, u16, u16), EliError>)
    ensures
        match resolution_format(value@) {
            Some((w, h, b, f)) => r matches Ok(t) && t.0 == w && t.1 == h && t.2 == b && t.3 == f,
            None => r matches Err(e) && e.kind == ErrorKind::InvalidInput && e.message@
                == resolution_format_message(),
        },
{
    let fields = words_of(&chars_of(value));
    if fields.len() != 4 {
        return Err(resolution_error());
    }
    let w = resolution_field_chars(&fields[0], 'w');
    let h = resolution_field_chars(&fields[1], 'h');
    let b = resolution_field_chars(&fields[2], 'b');
    let f = resolution_field_chars(&fields[3], 'f');
    match (w, h, b, f) {
        (Some(w), Some(h), Some(b), Some(f)) => Ok((w, h, b, f)),
        _ => Err(resolution_error()),
    }
}

/// Checks only the format of a custom resolution.
pub fn validate_resolution_format(value: &str) -> (r: Result<(), EliError>)
    ensures
        outcome(r) == (if resolution_format(value@) is Some {
            Ok(())
        } else {
            Err(ErrorKind::InvalidInput)
        }),
        r matches Err(e) ==> e.message@ == resolution_format_message(),
{
    match parse_resolution_format(value) {
        Ok(_) => Ok(()),
        Err(e) => Err(e),
    }
}

fn is_supported_size(width: u16, height: u16) -> (r: bool)
    ensures
        r == supported_size(width as nat, height as nat),
{
    (width == 1920 && height == 1080) || (width == 1680 && height == 1050) || (width == 1600
        && height == 900) || (width == 1440 && height == 900) || (width == 1400 && height == 1050)
        || (width == 1366 && height == 768) || (width == 1360 && height == 768) || (width == 1280
        && height == 1024) || (width == 1280 && height == 960) || (width == 1280 && height == 800)
        || (width == 1280 && height == 768) || (width == 1280 && height == 720) || (width == 1280
        && height == 600) || (width == 1152 && height == 864) || (width == 1024 && height == 768)
        || (width == 800 && height == 600)
}

/// Accepts `DisableAutoSuit` or a supported size at 16 or 32 bits and 30
/// or 60 frames per second.
pub fn validate_resolution(value: &str) -> (r: Result<(), EliError>)
    ensures
        outcome(r) == (if resolution_ok(value@) {
            Ok(())
        } else {
            Err(ErrorKind::InvalidInput)
        }),
        r matches Err(e) ==> e.message@ == resolution_message(value@),
{
    proof {
        reveal_strlit("resolution must be DisableAutoSuit or `w<width> h<height> b<16|32> f<30|60>` using a supported resolution");
    }
    let chars = chars_of(value);
    if eq(&chars, &chars_of("DisableAutoSuit")) {
        return Ok(());
    }
    match parse_resolution_format(value) {
        Ok((w, h, b, f)) => {
            if is_supported_size(w, h) && (b == 16 || b == 32) && (f == 30 || f == 60) {
                Ok(())
            } else {
                Err(
                    invalid_input(
                        "resolution must be DisableAutoSuit or `w<width> h<height> b<16|32> f<30|60>` using a supported resolution",
                    ),
                )
            }
        },
        Err(e) => Err(e),
    }
}

pub open spec fn homepage_decision_spec(value: Seq<char>, matched: Option<bool>) -> Result<Seq<char>, ErrorKind> {
    if value == "Disable"@ {
        Ok(value)
    } else {
        match matched {
            None => Err(ErrorKind::Other),
            Some(true) => Ok(homepage_candidate(value)),
            Some(false) => Err(ErrorKind::InvalidInput),
        }
    }
}

/// The home page address to store, given what the address pattern said of
/// the address (`None`: the pattern did not compile): `Disable` as it is,
/// else the address behind `http://` unless it starts with `http`.
pub fn homepage_decision(value: &str, matched: Option<bool>) -> (r: Result<String, EliError>)
    ensures
        match r {
            Ok(s) => homepage_decision_spec(value@, matched) == Ok::<Seq<char>, ErrorKind>(s@),
            Err(e) => homepage_decision_spec(value@, matched) == Err::<Seq<char>, ErrorKind>(e.kind)
                && e.message@ == homepage_error_message(e.kind),
        },
{
    let chars = chars_of(value);
    if eq(&chars, &chars_of("Disable")) {
        return Ok(value.to_owned());
    }
    match matched {
        None => Err(
            EliError::new(
                ErrorKind::Other,
                "the home page address pattern does not compile".to_owned(),
            ),
        ),
        Some(true) => Ok(homepage_address(value)),
        Some(false) => Err(invalid_input("homepage must be Disable or a valid HTTP(S) URL")),
    }
}

fn homepage_address(value: &str) -> (r: String)
    ensures
        r@ == homepage_candidate(value@),
{
    let chars = chars_of(value);
    let candidate = if starts_with_chars(&chars, &chars_of("http")) {
        chars
    } else {
        concat(&chars_of("http://"), &chars)
    };
    string_of(&candidate)
}

/// What a refused home page is reported as.
pub open spec fn homepage_error_message(kind: ErrorKind) -> Seq<char> {
    if kind == ErrorKind::Other {
        "the home page address pattern does not compile"@
    } else {
        "homepage must be Disable or a valid HTTP(S) URL"@
    }
}

/// The home page address to store: `Disable`, or a checked web address.
pub fn normalize_homepage(value: &str) -> (r: Result<String, EliError>)
    ensures
        match r {
            Ok(s) => homepage_outcome(value@) == Ok::<Seq<char>, ErrorKind>(s@),
            Err(e) => homepage_outcome(value@) == Err::<Seq<char>, ErrorKind>(e.kind) && e.message@
                == homepage_error_message(e.kind),
        },
{
    if eq(&chars_of(value), &chars_of("Disable")) {
        return homepage_decision(value, None);
    }
    let address = homepage_address(value);
    homepage_decision(value, regex_match(HOMEPAGE_PATTERN, address.as_str()))
}

/// `config set` with the default options.
pub fn set(version: &str, key: &str, value: &str) -> (r: Result<ConfigChange, EliError>)
    ensures
        match r {
            Ok(c) => set_outcome(version@, key@, value@, false) == Ok::<ChangeView, ErrorKind>(
                change_view(c),
            ),
            Err(e) => set_outcome(version@, key@, value@, false) == Err::<ChangeView, ErrorKind>(
                e.kind,
            ) && e.message@ == set_message(version@, key@, value@, false),
        },
{
    set_with_options(version, key, value, SetOptions { skip_resolution_validation: false })
}

/// The change that `config set key value` makes on a boot disk whose
/// version file reads `version`.
/// What a refused `config set` request is reported as.
pub open spec fn set_message(version: Seq<char>, key: Seq<char>, value: Seq<char>, skip: bool) -> Seq<
    char,
> {
    if skip && !eq_ignore_case(key, "resolution"@) {
        "--skip-resolution-validation can only be used with config key resolution"@
    } else {
        match config_index(key) {
            Some(i) => {
                let c = boolean_config_table()[i];
                match bootdisk_version(version) {
                    None => version_message(version),
                    Some(v) => if !config_available(c, v) {
                        "config key "@ + c.key@ + " is unavailable on Edgeless "@ + version_text(v)
                            + "; supported versions are "@ + range_text(c)
                    } else {
                        "boolean config value must be true or false"@
                    },
                }
            },
            None => if eq_ignore_case(key, "wallpaper"@) {
                "wallpaper must be an existing .jpg file: "@ + value
            } else if eq_ignore_case(key, "resolution"@) {
                if skip {
                    resolution_format_message()
                } else {
                    resolution_message(value)
                }
            } else if eq_ignore_case(key, "homepage"@) {
                match bootdisk_version(version) {
                    None => version_message(version),
                    Some(v) => if !version_less(homepage_higher_than(), v) {
                        "config key homepage is unavailable on Edgeless "@ + version_text(v)
                            + "; supported versions are > 4.0.2"@
                    } else {
                        homepage_error_message(
                            match homepage_outcome(value) {
                                Err(k) => k,
                                Ok(_) => ErrorKind::InvalidInput,
                            },
                        )
                    },
                }
            } else {
                "unknown config key "@ + "\""@ + key + "\"; run `eli config list` to see supported keys"@
            },
        }
    }
}

pub fn set_with_options(version: &str, key: &str, value: &str, options: SetOptions) -> (r: Result<
    ConfigChange,
    EliError,
>)
    ensures
        match r {
            Ok(c) => set_outcome(
                version@,
                key@,
                value@,
                options.skip_resolution_validation,
            ) == Ok::<ChangeView, ErrorKind>(change_view(c)),
            Err(e) => set_outcome(
                version@,
                key@,
                value@,
                options.skip_resolution_validation,
            ) == Err::<ChangeView, ErrorKind>(e.kind) && e.message@ == set_message(
                version@,
                key@,
                value@,
                options.skip_resolution_validation,
            ),
        },
{
    let key_chars = chars_of(key);
    let value_chars = chars_of(value);
    let is_resolution = eq_ignore_ascii_case(&key_chars, &chars_of("resolution"));
    if options.skip_resolution_validation && !is_resolution {
        return Err(
            invalid_input(
                "--skip-resolution-validation can only be used with config key resolution",
            ),
        );
    }
    match boolean_config(key) {
        Some(config) => {
            let v = match parse_bootdisk_version(version) {
                Ok(v) => v,
                Err(e) => {
                    return Err(e);
                },
            };
            if !config.is_available_for(v) {
                let mut message = chars_of("config key ");
                message = concat(&message, &chars_of(config.key));
                message = concat(&message, &chars_of(" is unavailable on Edgeless "));
                message = concat(&message, &chars_of(v.to_string().as_str()));
                message = concat(&message, &chars_of("; supported versions are "));
                message = concat(&message, &chars_of(config.supported_version_range().as_str()));
                return Err(EliError::new(ErrorKind::Unsupported, string_of(&message)));
            }
            if eq(&value_chars, &chars_of("true")) {
                return Ok(ConfigChange::SetMarker { key: config.key.to_owned(), enabled: true });
            }
            if eq(&value_chars, &chars_of("false")) {
                return Ok(ConfigChange::SetMarker { key: config.key.to_owned(), enabled: false });
            }
            return Err(invalid_input("boolean config value must be true or false"));
        },
        None => {},
    }
    if eq_ignore_ascii_case(&key_chars, &chars_of("wallpaper")) {
        if has_jpg_extension(value) {
            return Ok(ConfigChange::SetWallpaper { source: value.to_owned() });
        }
        let message = concat(&chars_of("wallpaper must be an existing .jpg file: "), &value_chars);
        return Err(EliError::new(ErrorKind::InvalidInput, string_of(&message)));
    }
    if is_resolution {
        if eq_ignore_ascii_case(&value_chars, &chars_of("auto")) {
            return Ok(ConfigChange::RemoveResolution);
        }
        let checked = if options.skip_resolution_validation {
            validate_resolution_format(value)
        } else {
            validate_resolution(value)
        };
        return match checked {
            Ok(()) => Ok(ConfigChange::WriteResolution { text: value.to_owned() }),
            Err(e) => Err(e),
        };
    }
    if eq_ignore_ascii_case(&key_chars, &chars_of("homepage")) {
        if eq_ignore_ascii_case(&value_chars, &chars_of("false")) {
            return Ok(ConfigChange::RemoveHomepage);
        }
        let v = match parse_bootdisk_version(version) {
            Ok(v) => v,
            Err(e) => {
                return Err(e);
            },
        };
        if !crate::version::is_older(EdgelessVersion { major: 4, minor: 0, patch: 2 }, v) {
            let mut message = chars_of("config key homepage is unavailable on Edgeless ");
            message = concat(&message, &chars_of(v.to_string().as_str()));
            message = concat(&message, &chars_of("; supported versions are > 4.0.2"));
            return Err(EliError::new(ErrorKind::Unsupported, string_of(&message)));
        }
        return match normalize_homepage(value) {
            Ok(text) => Ok(ConfigChange::WriteHomepage { text }),
            Err(e) => Err(e),
        };
    }
    let mut message = concat(&chars_of("unknown config key "), &chars_of("\""));
    message = concat(&message, &key_chars);
    message = concat(&message, &chars_of("\"; run `eli config list` to see supported keys"));
    Err(EliError::new(ErrorKind::InvalidInput, string_of(&message)))
}

/// A JPEG starts with `FF D8 FF` and ends with `FF D9`; `head` is what
/// the first three bytes read gave, `tail` the last two.
pub open spec fn jpeg_markers(head: Seq<u8>, length: u64, tail: Seq<u8>) -> bool {
    head == seq![0xffu8, 0xd8u8, 0xffu8] && length >= 4 && tail == seq![0xffu8, 0xd9u8]
}

/// Checks the markers of a staged wallpaper before it is published.
pub fn validate_jpeg(path: &str, head: &[u8], length: u64, tail: &[u8]) -> (r: Result<(), EliError>)
    ensures
        outcome(r) == (if jpeg_markers(head@, length, tail@) {
            Ok(())
        } else {
            Err(ErrorKind::InvalidData)
        }),
        r matches Err(e) ==> e.message@ == "wallpaper is not a JPEG file: "@ + path@,
{
    let ok = head.len() == 3 && head[0] == 0xff && head[1] == 0xd8 && head[2] == 0xff && length
        >= 4 && tail.len() == 2 && tail[0] == 0xff && tail[1] == 0xd9;
    if ok {
        assert(head@ =~= seq![0xffu8, 0xd8u8, 0xffu8]);
        assert(tail@ =~= seq![0xffu8, 0xd9u8]);
        Ok(())
    } else {
        let message = concat(&chars_of("wallpaper is not a JPEG file: "), &chars_of(path));
        Err(EliError::new(ErrorKind::InvalidData, string_of(&message)))
    }
}

} // verus!
