//! LocalBoost repositories: which volume holds them, how the choice is
//! remembered, and which plugin names they accept.
//!
//! Inspecting volumes and copying plugins happens at the edge of the
//! program; the rules and the choice are here.
use crate::dependency::RuntimeEnvironment;
use crate::error::{EliError, ErrorKind};
use crate::text::{
    chars_of, concat, eq, eq_ignore_ascii_case, eq_ignore_case, is_ascii_alpha, string_of, trim,
    trim_by, trim_char, trim_ws, upper, upper_char,
};
use crate::hook::windows_reserved;
use crate::path::{char_codes, char_codes_of, key_eq, keyed_views, lex_less, sort_keyed};
use crate::plugin::path_views;
use vstd::prelude::*;

verus! {

broadcast use vstd::seq_lib::group_to_multiset_ensures;

/// A repository volume needs at least this much free space (2 GiB).
pub const MINIMUM_FREE_BYTES: u64 = 2147483648;

/// A volume that could hold the repository.
#[derive(Debug)]
pub struct RepositoryCandidate {
    pub mount_point: String,
    pub label: String,
    pub available_bytes: u64,
    pub selectable: bool,
    /// Why the volume cannot be used, when it cannot.
    pub reason: Option<String>,
    pub has_repository: bool,
}

/// The user has to choose the repository volume among these candidates.
#[derive(Debug)]
pub struct SelectionRequired {
    candidates: Vec<RepositoryCandidate>,
}

impl SelectionRequired {
    /// The volumes to choose from.
    pub closed spec fn choices(self) -> Seq<RepositoryCandidate> {
        self.candidates@
    }

    pub fn candidates(&self) -> (r: &Vec<RepositoryCandidate>)
        ensures
            r@ == self.choices(),
    {
        &self.candidates
    }
}

/// A failure of a LocalBoost operation: an ordinary error, or a choice the
/// user has to make.
#[derive(Debug)]
pub enum LocalBoostError {
    Failed(EliError),
    SelectionRequired(SelectionRequired),
}

/// The choice a failure asks for, if it asks for one.
pub fn selection_required(error: &LocalBoostError) -> (r: Option<&SelectionRequired>)
    ensures
        match error {
            LocalBoostError::SelectionRequired(s) => r == Some(s),
            LocalBoostError::Failed(_) => r is None,
        },
{
    match error {
        LocalBoostError::SelectionRequired(s) => Some(s),
        LocalBoostError::Failed(_) => None,
    }
}

/// `X:\` for a path that starts with a drive letter, else the path.
pub open spec fn drive_root(path: Seq<char>) -> Seq<char> {
    if path.len() >= 2 && is_ascii_alpha(path[0]) && path[1] == ':' {
        seq![upper(path[0]), ':', '\\']
    } else {
        path
    }
}

pub fn drive_root_of(path: &str) -> (r: String)
    ensures
        r@ == drive_root(path@),
{
    let p = chars_of(path);
    if p.len() >= 2 && (('a' <= p[0] && p[0] <= 'z') || ('A' <= p[0] && p[0] <= 'Z')) && p[1]
        == ':' {
        let mut out: Vec<char> = Vec::new();
        out.push(upper_char(p[0]));
        out.push(':');
        out.push('\\');
        assert(out@ =~= seq![upper(p@[0]), ':', '\\']);
        string_of(&out)
    } else {
        path.to_owned()
    }
}

/// Two paths on the same volume: their drive roots agree, ignoring case.
pub open spec fn same_volume(a: Seq<char>, b: Seq<char>) -> bool {
    eq_ignore_case(drive_root(a), drive_root(b))
}

pub fn is_same_volume(a: &str, b: &str) -> (r: bool)
    ensures
        r == same_volume(a@, b@),
{
    eq_ignore_ascii_case(&chars_of(drive_root_of(a).as_str()), &chars_of(drive_root_of(b).as_str()))
}

/// The repository directory on a volume: `Edgeless\BoostRepo`.
pub open spec fn repository_path(root: Seq<char>) -> Seq<char> {
    crate::path::join(crate::path::join(root, "Edgeless"@, true), "BoostRepo"@, true)
}

pub fn repository_path_of(root: &str) -> (r: String)
    ensures
        r@ == repository_path(root@),
{
    let e = crate::path::join_path(root, "Edgeless", true);
    crate::path::join_path(e.as_str(), "BoostRepo", true)
}

/// The repository that the remembered selection names: one drive letter,
/// optionally followed by `:`, with surrounding whitespace and quotes
/// ignored.
pub open spec fn selection_repository(selection: Seq<char>) -> Option<Seq<char>> {
    let s = trim_by(trim(selection), |c: char| c == '"');
    if s.len() >= 1 && is_ascii_alpha(s[0]) && (s.len() == 1 || (s.len() == 2 && s[1] == ':')) {
        Some(seq![upper(s[0])] + ":\\Edgeless\\BoostRepo"@)
    } else {
        None
    }
}

pub fn repository_from_selection(selection: &str) -> (r: Option<String>)
    ensures
        match selection_repository(selection@) {
            Some(p) => r matches Some(x) && x@ == p,
            None => r is None,
        },
{
    let s = trim_char(&trim_ws(&chars_of(selection)), '"');
    if s.len() >= 1 && (('a' <= s[0] && s[0] <= 'z') || ('A' <= s[0] && s[0] <= 'Z')) && (s.len()
        == 1 || (s.len() == 2 && s[1] == ':')) {
        let mut out: Vec<char> = Vec::new();
        out.push(upper_char(s[0]));
        out = concat(&out, &chars_of(":\\Edgeless\\BoostRepo"));
        Some(string_of(&out))
    } else {
        None
    }
}

/// The letter that is remembered for a repository volume.
pub fn selection_value(mount_point: &str) -> (r: Result<String, EliError>)
    ensures
        match r {
            Ok(v) => drive_root(mount_point@).len() > 0 && is_ascii_alpha(drive_root(mount_point@)[0])
                && v@ == seq![drive_root(mount_point@)[0]],
            Err(e) => !(drive_root(mount_point@).len() > 0 && is_ascii_alpha(
                drive_root(mount_point@)[0],
            )) && e.kind == ErrorKind::InvalidInput && e.message@ == "invalid repository volume"@,
        },
{
    let root = chars_of(drive_root_of(mount_point).as_str());
    if root.len() > 0 && (('a' <= root[0] && root[0] <= 'z') || ('A' <= root[0] && root[0] <= 'Z')) {
        let mut out: Vec<char> = Vec::new();
        out.push(root[0]);
        Ok(string_of(&out))
    } else {
        Err(EliError::new(ErrorKind::InvalidInput, "invalid repository volume".to_owned()))
    }
}

/// What was found out about a volume.
#[derive(Clone, Copy, Debug)]
pub struct VolumeFacts {
    /// A local volume that can be written (not a CD, a network share or
    /// an unknown drive).
    pub local_writable_type: bool,
    /// The Windows PE system volume.
    pub system_volume: bool,
    /// Holds `Edgeless\version.txt`.
    pub boot_disk: bool,
    /// Free bytes, when they could be read.
    pub available: Option<u64>,
    /// A test file could be written and removed.
    pub writable: bool,
}

/// Why a volume cannot hold the repository; the first reason found wins.
pub open spec fn volume_reason(f: VolumeFacts) -> Option<Seq<char>> {
    let type_reason: Option<Seq<char>> = if !f.local_writable_type {
        Some("不是可用的本地可写卷"@)
    } else {
        None
    };
    let r1 = if f.system_volume {
        Some("Windows PE 系统盘不能用作 LocalBoost 仓库"@)
    } else if f.boot_disk {
        Some("Edgeless 启动盘不能用作 LocalBoost 仓库"@)
    } else {
        type_reason
    };
    let available: u64 = match f.available {
        Some(a) => a,
        None => 0,
    };
    let r2 = if f.available is None && r1 is None {
        Some("无法读取卷的可用空间"@)
    } else if available < MINIMUM_FREE_BYTES && r1 is None {
        Some("可用空间不足 2 GiB"@)
    } else {
        r1
    };
    if r2 is None && !f.writable {
        Some("卷不可写"@)
    } else {
        r2
    }
}

pub fn volume_unusable_reason(f: VolumeFacts) -> (r: Option<String>)
    ensures
        match volume_reason(f) {
            Some(t) => r matches Some(x) && x@ == t,
            None => r is None,
        },
{
    let mut reason: Option<String> = if !f.local_writable_type {
        Some("不是可用的本地可写卷".to_owned())
    } else {
        None
    };
    if f.system_volume {
        reason = Some("Windows PE 系统盘不能用作 LocalBoost 仓库".to_owned());
    } else if f.boot_disk {
        reason = Some("Edgeless 启动盘不能用作 LocalBoost 仓库".to_owned());
    }
    let available: u64 = match f.available {
        Some(a) => a,
        None => 0,
    };
    if f.available.is_none() && reason.is_none() {
        reason = Some("无法读取卷的可用空间".to_owned());
    } else if available < MINIMUM_FREE_BYTES && reason.is_none() {
        reason = Some("可用空间不足 2 GiB".to_owned());
    }
    if reason.is_none() && !f.writable {
        reason = Some("卷不可写".to_owned());
    }
    reason
}

/// Whether a selection may create a repository or must use one that exists.
#[derive(Clone, Copy, Debug, PartialEq, Eq, Structural)]
pub enum SelectionMode {
    CreateIfMissing,
    ExistingOnly,
}

/// The outcome of choosing a repository.
#[derive(Debug)]
pub enum Selection {
    /// The remembered repository.
    Configured(String),
    /// The only existing repository; its volume is to be remembered.
    Single { mount_point: String, repository: String },
    /// No repository exists and none may be created.
    Nothing,
}

pub open spec fn usable_existing(c: RepositoryCandidate) -> bool {
    c.has_repository && c.selectable
}

pub open spec fn count_existing(cs: Seq<RepositoryCandidate>, n: int) -> nat
    decreases n,
{
    if n <= 0 {
        0
    } else {
        count_existing(cs, n - 1) + if usable_existing(cs[n - 1]) {
            1nat
        } else {
            0nat
        }
    }
}

/// The volumes a choice is offered among: every volume when a repository
/// may be created, only those holding one otherwise.
pub open spec fn offered(mode: SelectionMode) -> spec_fn(RepositoryCandidate) -> bool {
    |c: RepositoryCandidate| mode == SelectionMode::CreateIfMissing || c.has_repository
}

/// The volumes offered for a choice: every volume, in the order given,
/// when a repository may be created; otherwise every volume that holds a
/// repository, and only such volumes.
pub proof fn lemma_offered_volumes(mode: SelectionMode, volumes: Seq<RepositoryCandidate>, i: int)
    ensures
        mode == SelectionMode::CreateIfMissing ==> volumes.filter(offered(mode)) == volumes,
        0 <= i < volumes.len() && volumes[i].has_repository ==> volumes.filter(offered(mode)).contains(
            volumes[i],
        ),
        0 <= i < volumes.filter(offered(mode)).len() && mode == SelectionMode::ExistingOnly
            ==> volumes.filter(offered(mode))[i].has_repository,
    decreases volumes.len(),
{
    broadcast use vstd::seq_lib::group_filter_ensures;

    if volumes.len() > 0 {
        let rest = volumes.drop_last();
        lemma_offered_volumes(mode, rest, i);
        assert(rest.push(volumes.last()) =~= volumes);
        rest.lemma_filter_push(volumes.last(), offered(mode));
    }
    if 0 <= i < volumes.len() && volumes[i].has_repository {
        volumes.lemma_filter_contains(offered(mode), i);
    }
}

/// Chooses the repository: a usable remembered one first, then the only
/// existing one; otherwise the user must choose among the volumes
/// (only those holding a repository when none may be created).
pub fn select(
    configured: Option<String>,
    configured_is_dir: bool,
    mode: SelectionMode,
    candidates: Vec<RepositoryCandidate>,
) -> (r: Result<Selection, LocalBoostError>)
    ensures
        configured is Some && (mode == SelectionMode::CreateIfMissing || configured_is_dir) ==> (
        r matches Ok(Selection::Configured(p)) && Some(p@) == crate::api::opt_view(configured)),
        !(configured is Some && (mode == SelectionMode::CreateIfMissing || configured_is_dir)) ==> {
            let n = count_existing(candidates@, candidates@.len() as int);
            if n == 1 {
                r matches Ok(Selection::Single { mount_point, repository }) && exists|k: int|
                    0 <= k < candidates@.len() && usable_existing(#[trigger] candidates@[k])
                        && mount_point@ == candidates@[k].mount_point@ && repository@
                        == repository_path(candidates@[k].mount_point@)
            } else if mode == SelectionMode::ExistingOnly && n == 0 {
                r matches Ok(Selection::Nothing)
            } else {
                match r {
                    Ok(_) => false,
                    Err(LocalBoostError::Failed(e)) => e.kind == ErrorKind::NotFound && e.message@
                        == "no writable LocalBoost repository volume with at least 2 GiB free space was found"@
                        && forall|k: int|
                        0 <= k < candidates@.len() && (mode == SelectionMode::CreateIfMissing
                            || candidates@[k].has_repository) ==> !(#[trigger] candidates@[k]).selectable,
                    Err(LocalBoostError::SelectionRequired(s)) => s.choices() == candidates@.filter(
                        offered(mode),
                    ) && (exists|k: int|
                        0 <= k < s.choices().len() && (#[trigger] s.choices()[k]).selectable)
                        && forall|k: int|
                        0 <= k < s.choices().len() ==> (mode == SelectionMode::CreateIfMissing
                            || (#[trigger] s.choices()[k]).has_repository),
                }
            }
        },
{
    match &configured {
        Some(p) => {
            if mode == SelectionMode::CreateIfMissing || configured_is_dir {
                return Ok(Selection::Configured(string_of(&chars_of(p.as_str()))));
            }
        },
        None => {},
    }
    let mut count: usize = 0;
    let mut first: usize = 0;
    let mut i: usize = 0;
    while i < candidates.len()
        invariant
            i <= candidates@.len(),
            count == count_existing(candidates@, i as int),
            count <= i,
            count > 0 ==> first < i && usable_existing(candidates@[first as int]),
        decreases candidates.len() - i,
    {
        if candidates[i].has_repository && candidates[i].selectable {
            if count == 0 {
                first = i;
            }
            count = count + 1;
        }
        i = i + 1;
    }
    if count == 1 {
        let c = &candidates[first];
        return Ok(
            Selection::Single {
                mount_point: string_of(&chars_of(c.mount_point.as_str())),
                repository: repository_path_of(c.mount_point.as_str()),
            },
        );
    }
    if mode == SelectionMode::ExistingOnly && count == 0 {
        return Ok(Selection::Nothing);
    }
    let mut chosen: Vec<RepositoryCandidate> = Vec::new();
    let mut any_selectable = false;
    let mut rest = candidates;
    let ghost all = rest@;
    let n_all: usize = rest.len();
    let mut taken: usize = 0;
    while rest.len() > 0
        invariant
            taken + rest@.len() == all.len(),
            all.len() == n_all,
            rest@ == all.skip(taken as int),
            all == candidates@,
            chosen@ == all.take(taken as int).filter(offered(mode)),
            forall|k: int|
                0 <= k < chosen@.len() ==> (mode == SelectionMode::CreateIfMissing
                    || (#[trigger] chosen@[k]).has_repository),
            any_selectable == exists|k: int| 0 <= k < chosen@.len() && (#[trigger] chosen@[k]).selectable,
            any_selectable == exists|k: int|
                0 <= k < taken && (mode == SelectionMode::CreateIfMissing || all[k].has_repository)
                    && (#[trigger] all[k]).selectable,
        decreases rest.len(),
    {
        let ghost before = rest@;
        let c = rest.remove(0);
        assert(c == all[taken as int]) by {
            assert(before[0] == all.skip(taken as int)[0]);
        }
        assert(rest@ =~= all.skip(taken + 1));
        proof {
            assert(all.take(taken + 1) =~= all.take(taken as int).push(c));
            all.take(taken as int).lemma_filter_push(c, offered(mode));
        }
        if mode == SelectionMode::CreateIfMissing || c.has_repository {
            if c.selectable {
                any_selectable = true;
            }
            let ghost old_chosen = chosen@;
            chosen.push(c);
            proof {
                assert forall|k: int| 0 <= k < chosen@.len() implies (mode
                    == SelectionMode::CreateIfMissing || (#[trigger] chosen@[k]).has_repository) by {
                    if k < old_chosen.len() {
                        assert(chosen@[k] == old_chosen[k]);
                    }
                }
                if any_selectable {
                    if c.selectable {
                        assert(chosen@[chosen@.len() - 1].selectable);
                    } else {
                        let k = choose|k: int| 0 <= k < old_chosen.len() && old_chosen[k].selectable;
                        assert(chosen@[k] == old_chosen[k]);
                    }
                } else {
                    assert forall|k: int| 0 <= k < chosen@.len() implies !(#[trigger] chosen@[k]).selectable by {
                        if k < old_chosen.len() {
                            assert(chosen@[k] == old_chosen[k]);
                        }
                    }
                }
            }
        }
        taken = taken + 1;
    }
    assert(all.take(n_all as int) =~= all);
    if !any_selectable {
        return Err(
            LocalBoostError::Failed(
                EliError::new(
                    ErrorKind::NotFound,
                    "no writable LocalBoost repository volume with at least 2 GiB free space was found".to_owned(),
                ),
            ),
        );
    }
    Err(LocalBoostError::SelectionRequired(SelectionRequired { candidates: chosen }))
}

/// Confirms the volume the user chose: LocalBoost runs only in Windows
/// PE, and the volume must be usable; the answer is its repository.
pub fn confirm(environment: RuntimeEnvironment, candidate: &RepositoryCandidate) -> (r: Result<String, EliError>)
    ensures
        environment != RuntimeEnvironment::WindowsPE ==> (r matches Err(e) && e.kind
            == ErrorKind::Unsupported && e.message@ == "LocalBoost repositories are only supported in Windows PE"@),
        environment == RuntimeEnvironment::WindowsPE ==> match r {
            Ok(p) => candidate.selectable && p@ == repository_path(candidate.mount_point@),
            Err(e) => !candidate.selectable && e.kind == ErrorKind::InvalidInput && e.message@
                == match candidate.reason {
                Some(m) => m@,
                None => "LocalBoost repository volume is unavailable"@,
            },
        },
{
    if environment != RuntimeEnvironment::WindowsPE {
        return Err(
            EliError::new(
                ErrorKind::Unsupported,
                "LocalBoost repositories are only supported in Windows PE".to_owned(),
            ),
        );
    }
    if !candidate.selectable {
        let message = match &candidate.reason {
            Some(r) => r.clone(),
            None => "LocalBoost repository volume is unavailable".to_owned(),
        };
        return Err(EliError::new(ErrorKind::InvalidInput, message));
    }
    Ok(repository_path_of(candidate.mount_point.as_str()))
}

/// A plugin name that can be a directory in every repository: not empty,
/// not `.` or `..`, no trailing dot or space, no separators, colons or
/// control characters, and no reserved device name (with `CLOCK$`).
pub open spec fn safe_component(value: Seq<char>) -> bool {
    let device = crate::text::upper_seq(crate::text::split(value, '.')[0]);
    &&& value.len() > 0
    &&& value != seq!['.']
    &&& value != seq!['.', '.']
    &&& value.last() != '.'
    &&& value.last() != ' '
    &&& forall|i: int|
        0 <= i < value.len() ==> {
            let c = #[trigger] value[i];
            c != '/' && c != '\\' && c != ':' && c >= ' '
        }
    &&& device != "CON"@
    &&& device != "PRN"@
    &&& device != "AUX"@
    &&& device != "NUL"@
    &&& device != "CLOCK$"@
    &&& !(device.len() == 4 && (device.take(3) == "COM"@ || device.take(3) == "LPT"@) && '1'
        <= device[3] && device[3] <= '9')
}

pub fn is_safe_component(value: &str) -> (r: bool)
    ensures
        r == safe_component(value@),
{
    let v = chars_of(value);
    if v.len() == 0 {
        return false;
    }
    let dot = crate::api::literal_chars(&['.']);
    let dots = crate::api::literal_chars(&['.', '.']);
    assert(dot@ =~= seq!['.']);
    assert(dots@ =~= seq!['.', '.']);
    if eq(&v, &dot) || eq(&v, &dots) || v[v.len() - 1] == '.' || v[v.len() - 1] == ' ' {
        return false;
    }
    let mut i: usize = 0;
    while i < v.len()
        invariant
            i <= v.len(),
            v@ == value@,
            forall|k: int|
                0 <= k < i ==> {
                    let c = #[trigger] v@[k];
                    c != '/' && c != '\\' && c != ':' && c >= ' '
                },
        decreases v.len() - i,
    {
        let c = v[i];
        if c == '/' || c == '\\' || c == ':' || ' ' > c {
            assert(v@[i as int] == c);
            assert(!safe_component(value@));
            return false;
        }
        i = i + 1;
    }
    let pieces = crate::text::split_chars(&v, '.');
    proof {
        crate::text::lemma_split_len(v@, '.');
    }
    let device = crate::text::to_upper(&pieces[0]);
    proof {
        reveal_strlit("CON");
        reveal_strlit("PRN");
        reveal_strlit("AUX");
        reveal_strlit("NUL");
        reveal_strlit("CLOCK$");
        reveal_strlit("COM");
        reveal_strlit("LPT");
    }
    if eq(&device, &chars_of("CON")) || eq(&device, &chars_of("PRN")) || eq(&device, &chars_of("AUX"))
        || eq(&device, &chars_of("NUL")) || eq(&device, &chars_of("CLOCK$")) {
        return false;
    }
    if device.len() == 4 {
        let head = crate::text::slice(&device, 0, 3);
        assert(head@ == device@.take(3));
        if (eq(&head, &chars_of("COM")) || eq(&head, &chars_of("LPT"))) && '1' <= device[3]
            && device[3] <= '9' {
            return false;
        }
    }
    true
}

/// The marker file that records a loaded plugin: `<name>.loaded`.
pub fn loaded_marker_name(plugin_name: &str) -> (r: String)
    ensures
        r@ == plugin_name@ + ".loaded"@,
{
    string_of(&concat(&chars_of(plugin_name), &chars_of(".loaded")))
}

/// A mounted volume, as far as cleaning every repository goes.
#[derive(Debug)]
pub struct RepositoryVolume {
    pub mount_point: String,
    /// `Edgeless\BoostRepo` is a directory there.
    pub has_repository: bool,
    /// It is an Edgeless boot disk.
    pub boot_disk: bool,
}

/// The repositories a full clean visits: on volumes other than the system
/// drive and the boot disk.
pub open spec fn repository_pick(system_drive: Seq<char>) -> spec_fn(RepositoryVolume) -> Option<
    Seq<char>,
> {
    |v: RepositoryVolume|
        if v.has_repository && !same_volume(v.mount_point@, system_drive) && !v.boot_disk {
            Some(repository_path(v.mount_point@))
        } else {
            None
        }
}

/// Repositories are ordered, and told apart, ignoring ASCII case.
pub open spec fn repository_key(path: Seq<char>) -> Seq<u64> {
    char_codes(crate::text::lower_seq(path))
}

/// Every repository of the machine, once each ignoring ASCII case, in
/// order of their lower-case paths.
pub fn all_repositories(volumes: &Vec<RepositoryVolume>, system_drive: &str) -> (r: Vec<String>)
    ensures
        forall|a: int, b: int|
            0 <= a < b < r@.len() ==> lex_less(repository_key(r@[a]@), repository_key(r@[b]@)),
        forall|k: int|
            0 <= k < r@.len() ==> volumes@.filter_map(repository_pick(system_drive@)).contains(
                #[trigger] r@[k]@,
            ),
        forall|x: Seq<char>|
            #[trigger] volumes@.filter_map(repository_pick(system_drive@)).contains(x) ==> exists|
                k: int,
            | 0 <= k < r@.len() && repository_key(#[trigger] r@[k]@) == repository_key(x),
{
    let ghost f = repository_pick(system_drive@);
    let ghost picked = volumes@.filter_map(f);
    let mut pairs: Vec<(Vec<u64>, String)> = Vec::new();
    let mut i: usize = 0;
    assert(volumes@.take(0) =~= Seq::<RepositoryVolume>::empty());
    assert(keyed_views(pairs@).map_values(|p: (Seq<u64>, Seq<char>)| p.1) =~= volumes@.take(
        0,
    ).filter_map(f));
    while i < volumes.len()
        invariant
            i <= volumes@.len(),
            f == repository_pick(system_drive@),
            keyed_views(pairs@).map_values(|p: (Seq<u64>, Seq<char>)| p.1) == volumes@.take(
                i as int,
            ).filter_map(f),
            forall|k: int|
                0 <= k < pairs@.len() ==> (#[trigger] pairs@[k]).0@ == repository_key(
                    pairs@[k].1@,
                ),
        decreases volumes.len() - i,
    {
        proof {
            volumes@.lemma_filter_map_take_succ(f, i as int);
        }
        let ghost before = pairs@;
        let v = &volumes[i];
        if v.has_repository && !is_same_volume(v.mount_point.as_str(), system_drive) && !v.boot_disk {
            let path = repository_path_of(v.mount_point.as_str());
            let key = char_codes_of(&crate::text::to_lower(&chars_of(path.as_str())));
            pairs.push((key, path));
            assert(keyed_views(pairs@).map_values(|p: (Seq<u64>, Seq<char>)| p.1) =~= keyed_views(
                before,
            ).map_values(|p: (Seq<u64>, Seq<char>)| p.1) + seq![repository_path(v.mount_point@)]);
        } else {
            assert(keyed_views(pairs@).map_values(|p: (Seq<u64>, Seq<char>)| p.1) =~= keyed_views(
                before,
            ).map_values(|p: (Seq<u64>, Seq<char>)| p.1));
        }
        i = i + 1;
    }
    assert(volumes@.take(volumes@.len() as int) =~= volumes@);
    let ghost unsorted = pairs@;
    let sorted = sort_keyed(pairs);
    proof {
        assert forall|k: int| 0 <= k < sorted@.len() implies #[trigger] sorted@[k].0@
            == repository_key(sorted@[k].1@) && picked.contains(sorted@[k].1@) by {
            let v = keyed_views(sorted@)[k];
            assert(keyed_views(sorted@).contains(v));
            assert(keyed_views(sorted@).to_multiset().count(v) > 0);
            assert(keyed_views(unsorted).contains(v));
            let j = choose|j: int|
                0 <= j < keyed_views(unsorted).len() && keyed_views(unsorted)[j] == v;
            assert(unsorted[j].0@ == repository_key(unsorted[j].1@));
            assert(keyed_views(unsorted).map_values(|p: (Seq<u64>, Seq<char>)| p.1)[j] == v.1);
        }
    }
    let mut out: Vec<String> = Vec::new();
    let mut k: usize = 0;
    while k < sorted.len()
        invariant
            k <= sorted@.len(),
            forall|a: int| 0 <= a < sorted@.len() ==> #[trigger] sorted@[a].0@ == repository_key(
                sorted@[a].1@,
            ) && picked.contains(sorted@[a].1@),
            forall|a: int, b: int|
                0 <= a < b < sorted@.len() ==> !lex_less(sorted@[b].0@, sorted@[a].0@),
            forall|a: int, b: int|
                0 <= a < b < out@.len() ==> lex_less(
                    repository_key(out@[a]@),
                    repository_key(out@[b]@),
                ),
            forall|a: int| 0 <= a < out@.len() ==> picked.contains(#[trigger] out@[a]@),
            forall|j: int|
                #![trigger sorted@[j]]
                0 <= j < k ==> exists|a: int|
                    0 <= a < out@.len() && repository_key(#[trigger] out@[a]@) == sorted@[j].0@,
            k > 0 ==> out@.len() > 0 && repository_key(out@.last()@) == sorted@[k - 1].0@,
            k == 0 ==> out@.len() == 0,
        decreases sorted.len() - k,
    {
        let ghost before = out@;
        if k > 0 && key_eq(&sorted[k].0, &sorted[k - 1].0) {
            assert(repository_key(before[before.len() - 1]@) == sorted@[k as int].0@);
        } else {
            proof {
                if k > 0 {
                    crate::path::lemma_lex_total(sorted@[k - 1].0@, sorted@[k as int].0@);
                    let last = before.len() - 1;
                    assert forall|a: int| 0 <= a < before.len() implies lex_less(
                        repository_key(before[a]@),
                        sorted@[k as int].0@,
                    ) by {
                        if a < last {
                            crate::path::lemma_lex_transitive(
                                repository_key(before[a]@),
                                repository_key(before[last]@),
                                sorted@[k as int].0@,
                            );
                        }
                    }
                }
            }
            out.push(string_of(&chars_of(sorted[k].1.as_str())));
            proof {
                assert(out@[out@.len() - 1]@ == sorted@[k as int].1@);
                assert forall|a: int, b: int| 0 <= a < b < out@.len() implies lex_less(
                    repository_key(out@[a]@),
                    repository_key(out@[b]@),
                ) by {
                    if b < before.len() {
                        assert(out@[a] == before[a] && out@[b] == before[b]);
                    } else {
                        assert(out@[a] == before[a]);
                    }
                }
                assert forall|j: int| #![trigger sorted@[j]] 0 <= j < k implies exists|a: int|
                    0 <= a < out@.len() && repository_key(#[trigger] out@[a]@) == sorted@[j].0@ by {
                    let a = choose|a: int|
                        0 <= a < before.len() && repository_key(#[trigger] before[a]@)
                            == sorted@[j].0@;
                    assert(out@[a] == before[a]);
                }
            }
        }
        assert(exists|a: int|
            0 <= a < out@.len() && repository_key(#[trigger] out@[a]@) == sorted@[k as int].0@) by {
            assert(repository_key(out@[out@.len() - 1]@) == sorted@[k as int].0@);
        }
        k = k + 1;
    }
    proof {
        assert forall|x: Seq<char>| #[trigger] picked.contains(x) implies exists|a: int|
            0 <= a < out@.len() && repository_key(#[trigger] out@[a]@) == repository_key(x) by {
            let snd = |p: (Seq<u64>, Seq<char>)| p.1;
            crate::path::lemma_map_same_multiset(keyed_views(sorted@), keyed_views(unsorted), snd);
            assert(keyed_views(unsorted).map_values(snd) == picked);
            assert(picked.to_multiset().count(x) > 0);
            assert(keyed_views(sorted@).map_values(snd).contains(x));
            let j = choose|j: int|
                0 <= j < keyed_views(sorted@).map_values(snd).len() && keyed_views(
                    sorted@,
                ).map_values(snd)[j] == x;
            assert(sorted@[j].1@ == x);
        }
    }
    out
}

/// What loading a LocalBoost package did.
#[derive(Clone, Copy, Debug, PartialEq, Eq, Structural)]
pub enum LoadStatus {
    Loaded,
    LoadedWithCompatibilityWarning,
    AlreadyLoaded,
}

/// Checks a LocalBoost package before it is loaded: LocalBoost runs only
/// in Windows PE, the package must be a file, and its plugin name must
/// be safe as a directory name; the answer is that name.
pub fn load(environment: RuntimeEnvironment, source: &str, is_file: bool) -> (r: Result<String, EliError>)
    ensures
        environment != RuntimeEnvironment::WindowsPE ==> (r matches Err(e) && e.kind
            == ErrorKind::Unsupported && e.message@ == "LocalBoost loading is only implemented for Windows PE"@),
        environment == RuntimeEnvironment::WindowsPE && !is_file ==> (r matches Err(e) && e.kind
            == ErrorKind::NotFound && e.message@ == "LocalBoost package is not a file: "@ + source@),
        environment == RuntimeEnvironment::WindowsPE && is_file ==> match r {
            Ok(n) => crate::plugin_load::plugin_name_ok(source@) && n@ == crate::kernel::file_stem(
                source@,
            ) && safe_component(n@),
            Err(e) => e.kind == ErrorKind::InvalidInput && !(crate::plugin_load::plugin_name_ok(
                source@,
            ) && safe_component(crate::kernel::file_stem(source@))) && e.message@ == if crate::plugin_load::plugin_name_ok(
                source@,
            ) {
                "LocalBoost package has an unsafe plugin name: "@ + source@
            } else {
                "plugin package has an unsafe name: "@ + source@
            },
        },
{
    if environment != RuntimeEnvironment::WindowsPE {
        return Err(
            EliError::new(
                ErrorKind::Unsupported,
                "LocalBoost loading is only implemented for Windows PE".to_owned(),
            ),
        );
    }
    if !is_file {
        let m = concat(&chars_of("LocalBoost package is not a file: "), &chars_of(source));
        return Err(EliError::new(ErrorKind::NotFound, string_of(&m)));
    }
    let name = match crate::plugin_load::plugin_name(source) {
        Ok(n) => n,
        Err(e) => {
            return Err(e);
        },
    };
    if !is_safe_component(name.as_str()) {
        let m = concat(&chars_of("LocalBoost package has an unsafe plugin name: "), &chars_of(source));
        return Err(EliError::new(ErrorKind::InvalidInput, string_of(&m)));
    }
    Ok(name)
}

} // verus!
