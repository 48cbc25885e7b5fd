//! Restoring LocalBoost units at startup and cleaning them away: what each
//! run reports, which names are acceptable, and how the bookkeeping text
//! changes.
use crate::dependency::RuntimeEnvironment;
use crate::error::{EliError, ErrorKind};
use crate::localboost::{LoadStatus, is_safe_component, safe_component};
use crate::localboost_publish::{joined, newline_of, text_of, EntryKind, UnitEntry};
use crate::path::{char_codes, char_codes_of, keyed_views, lex_less, sort_keyed};
use crate::plugin_load::{to_lowercase, unicode_lowercase};
use crate::plugin::path_views;
use crate::text::{
    chars_of, concat, decimal, decimal_chars, eq_ignore_ascii_case, eq_ignore_case, find_sub, lines,
    lines_of, string_of, views,
};
use vstd::prelude::*;

verus! {

broadcast use vstd::seq_lib::group_to_multiset_ensures;

/// What restoring one unit at startup did.
#[derive(Debug)]
pub struct StartupResult {
    pub plugin: String,
    pub result: Result<LoadStatus, EliError>,
}

/// The units restored at startup, in the order they were restored.
#[derive(Debug)]
pub struct StartupSummary {
    pub results: Vec<StartupResult>,
}

pub open spec fn startup_loaded(r: StartupResult) -> bool {
    r.result matches Ok(s) && (s == LoadStatus::Loaded || s == LoadStatus::LoadedWithCompatibilityWarning)
}

pub open spec fn startup_already(r: StartupResult) -> bool {
    r.result matches Ok(s) && s == LoadStatus::AlreadyLoaded
}

/// How many of the first `n` results satisfy `p`.
pub open spec fn count_startup(rs: Seq<StartupResult>, n: int, p: spec_fn(StartupResult) -> bool) -> nat
    decreases n,
{
    if n <= 0 {
        0
    } else {
        count_startup(rs, n - 1, p) + if p(rs[n - 1]) {
            1nat
        } else {
            0nat
        }
    }
}

proof fn lemma_count_startup_bound(rs: Seq<StartupResult>, n: int, p: spec_fn(StartupResult) -> bool)
    requires
        0 <= n,
    ensures
        count_startup(rs, n, p) <= n,
    decreases n,
{
    if n > 0 {
        lemma_count_startup_bound(rs, n - 1, p);
    }
}

fn count_matching(rs: &Vec<StartupResult>, which: u8) -> (r: usize)
    requires
        which < 3,
    ensures
        r == count_startup(
            rs@,
            rs@.len() as int,
            if which == 0 {
                |x: StartupResult| startup_loaded(x)
            } else if which == 1 {
                |x: StartupResult| startup_already(x)
            } else {
                |x: StartupResult| x.result is Err
            },
        ),
{
    let ghost p = if which == 0 {
        |x: StartupResult| startup_loaded(x)
    } else if which == 1 {
        |x: StartupResult| startup_already(x)
    } else {
        |x: StartupResult| x.result is Err
    };
    let mut n: usize = 0;
    let mut i: usize = 0;
    while i < rs.len()
        invariant
            i <= rs@.len(),
            which < 3,
            p == (if which == 0 {
                |x: StartupResult| startup_loaded(x)
            } else if which == 1 {
                |x: StartupResult| startup_already(x)
            } else {
                |x: StartupResult| x.result is Err
            }),
            n == count_startup(rs@, i as int, p),
        decreases rs.len() - i,
    {
        proof {
            lemma_count_startup_bound(rs@, i as int, p);
        }
        let hit = match &rs[i].result {
            Ok(LoadStatus::Loaded) => which == 0,
            Ok(LoadStatus::LoadedWithCompatibilityWarning) => which == 0,
            Ok(LoadStatus::AlreadyLoaded) => which == 1,
            Err(_) => which == 2,
        };
        if hit {
            n = n + 1;
        }
        i = i + 1;
    }
    n
}

impl StartupSummary {
    /// No unit restored yet.
    pub fn new() -> (r: StartupSummary)
        ensures
            r.results@.len() == 0,
    {
        StartupSummary { results: Vec::new() }
    }

    /// Units loaded now, with or without a compatibility warning.
    pub fn loaded(&self) -> (r: usize)
        ensures
            r == count_startup(
                self.results@,
                self.results@.len() as int,
                |x: StartupResult| startup_loaded(x),
            ),
    {
        count_matching(&self.results, 0)
    }

    /// Units that were loaded already.
    pub fn already_loaded(&self) -> (r: usize)
        ensures
            r == count_startup(
                self.results@,
                self.results@.len() as int,
                |x: StartupResult| startup_already(x),
            ),
    {
        count_matching(&self.results, 1)
    }

    /// Units that failed.
    pub fn failed(&self) -> (r: usize)
        ensures
            r == count_startup(
                self.results@,
                self.results@.len() as int,
                |x: StartupResult| x.result is Err,
            ),
    {
        count_matching(&self.results, 2)
    }

    /// Whether no unit failed.
    pub fn is_success(&self) -> (r: bool)
        ensures
            r == (count_startup(
                self.results@,
                self.results@.len() as int,
                |x: StartupResult| x.result is Err,
            ) == 0),
    {
        self.failed() == 0
    }
}

impl Default for StartupSummary {
    fn default() -> (r: StartupSummary)
        ensures
            r.results@.len() == 0,
    {
        StartupSummary::new()
    }
}

/// Every restored unit is loaded now, was loaded already, or failed.
pub proof fn lemma_startup_partition(rs: Seq<StartupResult>, n: int)
    requires
        0 <= n <= rs.len(),
    ensures
        count_startup(rs, n, |x: StartupResult| startup_loaded(x)) + count_startup(
            rs,
            n,
            |x: StartupResult| startup_already(x),
        ) + count_startup(rs, n, |x: StartupResult| x.result is Err) == n,
    decreases n,
{
    if n > 0 {
        lemma_startup_partition(rs, n - 1);
    }
}

/// The units of a repository: directories with a safe name.
pub open spec fn unit_pick() -> spec_fn(UnitEntry) -> Option<Seq<char>> {
    |e: UnitEntry| if e.kind is Directory && safe_component(e.name@) {
        Some(e.name@)
    } else {
        None
    }
}

/// The order units are restored and cleaned in: by their names in lower
/// case.
pub open spec fn unit_key(name: Seq<char>) -> Seq<u64> {
    char_codes(unicode_lowercase(name))
}

/// The units of a repository, ordered by their names in lower case.
pub fn unit_order(entries: &Vec<UnitEntry>) -> (r: Vec<String>)
    ensures
        path_views(r@).to_multiset() == entries@.filter_map(unit_pick()).to_multiset(),
        forall|a: int, b: int| 0 <= a < b < r@.len() ==> !lex_less(unit_key(r@[b]@), unit_key(r@[a]@)),
{
    let ghost f = unit_pick();
    let mut pairs: Vec<(Vec<u64>, String)> = Vec::new();
    let mut i: usize = 0;
    assert(entries@.take(0) =~= Seq::<UnitEntry>::empty());
    assert(keyed_views(pairs@).map_values(|p: (Seq<u64>, Seq<char>)| p.1) =~= entries@.take(0).filter_map(f));
    while i < entries.len()
        invariant
            i <= entries@.len(),
            f == unit_pick(),
            keyed_views(pairs@).map_values(|p: (Seq<u64>, Seq<char>)| p.1) == entries@.take(i as int).filter_map(f),
            forall|k: int| 0 <= k < pairs@.len() ==> (#[trigger] pairs@[k]).0@ == unit_key(pairs@[k].1@),
        decreases entries.len() - i,
    {
        proof {
            entries@.lemma_filter_map_take_succ(f, i as int);
        }
        let ghost before = pairs@;
        let e = &entries[i];
        if e.kind == EntryKind::Directory && is_safe_component(e.name.as_str()) {
            let key = char_codes_of(&chars_of(to_lowercase(e.name.as_str()).as_str()));
            pairs.push((key, string_of(&chars_of(e.name.as_str()))));
            assert(keyed_views(pairs@).map_values(|p: (Seq<u64>, Seq<char>)| p.1) =~= keyed_views(before).map_values(|p: (Seq<u64>, Seq<char>)| p.1) + seq![e.name@]);
        } else {
            assert(keyed_views(pairs@).map_values(|p: (Seq<u64>, Seq<char>)| p.1) =~= keyed_views(before).map_values(|p: (Seq<u64>, Seq<char>)| p.1));
        }
        i = i + 1;
    }
    assert(entries@.take(entries@.len() as int) =~= entries@);
    let ghost unsorted = pairs@;
    let sorted = sort_keyed(pairs);
    let mut out: Vec<String> = Vec::new();
    let mut k: usize = 0;
    while k < sorted.len()
        invariant
            k <= sorted@.len(),
            out@.len() == k,
            forall|j: int| 0 <= j < k ==> (#[trigger] out@[j])@ == sorted@[j].1@,
        decreases sorted.len() - k,
    {
        out.push(string_of(&chars_of(sorted[k].1.as_str())));
        k = k + 1;
    }
    assert(path_views(out@) =~= keyed_views(sorted@).map_values(|p: (Seq<u64>, Seq<char>)| p.1));
    proof {
        let snd = |p: (Seq<u64>, Seq<char>)| p.1;
        crate::path::lemma_map_same_multiset(keyed_views(sorted@), keyed_views(unsorted), snd);
        assert forall|k: int| 0 <= k < sorted@.len() implies #[trigger] sorted@[k].0@ == unit_key(
            sorted@[k].1@,
        ) by {
            let v = keyed_views(sorted@)[k];
            assert(keyed_views(sorted@).contains(v));
            assert(keyed_views(sorted@).to_multiset().count(v) > 0);
            assert(keyed_views(unsorted).contains(v));
            let j = choose|j: int| 0 <= j < keyed_views(unsorted).len() && keyed_views(unsorted)[j] == v;
            assert(unsorted[j].0@ == unit_key(unsorted[j].1@));
        }
        assert forall|a: int, b: int| 0 <= a < b < out@.len() implies !lex_less(
            unit_key(out@[b]@),
            unit_key(out@[a]@),
        ) by {
            assert(out@[a]@ == sorted@[a].1@ && out@[b]@ == sorted@[b].1@);
            assert(sorted@[a].0@ == unit_key(sorted@[a].1@));
            assert(sorted@[b].0@ == unit_key(sorted@[b].1@));
        }
    }
    out
}

/// What a clean removes: one plugin's unit, or every repository.
#[derive(Debug)]
pub enum CleanTarget {
    Plugin(String),
    All,
}

/// What cleaning one unit, or one repository, did.
#[derive(Debug)]
pub struct CleanResult {
    pub repository: String,
    pub plugin: Option<String>,
    pub result: Result<(), EliError>,
    pub runtime_cleanup_incomplete: bool,
}

/// Everything a clean did.
#[derive(Debug)]
pub struct CleanSummary {
    pub results: Vec<CleanResult>,
}

pub open spec fn count_clean(rs: Seq<CleanResult>, n: int, ok: bool) -> nat
    decreases n,
{
    if n <= 0 {
        0
    } else {
        count_clean(rs, n - 1, ok) + if (rs[n - 1].result is Ok) == ok {
            1nat
        } else {
            0nat
        }
    }
}

proof fn lemma_count_clean_bound(rs: Seq<CleanResult>, n: int, ok: bool)
    requires
        0 <= n,
    ensures
        count_clean(rs, n, ok) <= n,
    decreases n,
{
    if n > 0 {
        lemma_count_clean_bound(rs, n - 1, ok);
    }
}

impl CleanSummary {
    pub fn new() -> (r: CleanSummary)
        ensures
            r.results@.len() == 0,
    {
        CleanSummary { results: Vec::new() }
    }

    fn count(&self, ok: bool) -> (r: usize)
        ensures
            r == count_clean(self.results@, self.results@.len() as int, ok),
    {
        let mut n: usize = 0;
        let mut i: usize = 0;
        while i < self.results.len()
            invariant
                i <= self.results@.len(),
                n == count_clean(self.results@, i as int, ok),
            decreases self.results.len() - i,
        {
            proof {
                lemma_count_clean_bound(self.results@, i as int, ok);
            }
            if self.results[i].result.is_ok() == ok {
                n = n + 1;
            }
            i = i + 1;
        }
        n
    }

    /// Results that succeeded.
    pub fn succeeded(&self) -> (r: usize)
        ensures
            r == count_clean(self.results@, self.results@.len() as int, true),
    {
        self.count(true)
    }

    /// Results that failed.
    pub fn failed(&self) -> (r: usize)
        ensures
            r == count_clean(self.results@, self.results@.len() as int, false),
    {
        self.count(false)
    }

    /// A restart is needed once anything was attempted.
    pub fn requires_restart(&self) -> (r: bool)
        ensures
            r == (self.results@.len() > 0),
    {
        self.results.len() > 0
    }

    /// Whether some unit left files of the running system behind.
    pub fn runtime_cleanup_incomplete(&self) -> (r: bool)
        ensures
            r == exists|k: int|
                0 <= k < self.results@.len() && (#[trigger] self.results@[k]).runtime_cleanup_incomplete,
    {
        let mut i: usize = 0;
        while i < self.results.len()
            invariant
                i <= self.results@.len(),
                forall|k: int| 0 <= k < i ==> !(#[trigger] self.results@[k]).runtime_cleanup_incomplete,
            decreases self.results.len() - i,
        {
            if self.results[i].runtime_cleanup_incomplete {
                return true;
            }
            i = i + 1;
        }
        false
    }

    /// Whether nothing failed.
    pub fn is_success(&self) -> (r: bool)
        ensures
            r == (count_clean(self.results@, self.results@.len() as int, false) == 0),
    {
        self.failed() == 0
    }
}

impl Default for CleanSummary {
    fn default() -> (r: CleanSummary)
        ensures
            r.results@.len() == 0,
    {
        CleanSummary::new()
    }
}

/// Every clean result either succeeded or failed.
pub proof fn lemma_clean_partition(rs: Seq<CleanResult>, n: int)
    requires
        0 <= n <= rs.len(),
    ensures
        count_clean(rs, n, true) + count_clean(rs, n, false) == n,
    decreases n,
{
    if n > 0 {
        lemma_clean_partition(rs, n - 1);
    }
}

/// A plugin to clean must be named by one safe directory name.
pub fn validate_plugin_name(plugin: &str) -> (r: Result<(), EliError>)
    ensures
        r is Ok <==> safe_component(plugin@),
        r matches Err(e) ==> e.kind == ErrorKind::InvalidInput && e.message@
            == "LocalBoost plugin must be a single safe directory name: "@ + plugin@,
{
    if is_safe_component(plugin) {
        return Ok(());
    }
    let m = concat(
        &chars_of("LocalBoost plugin must be a single safe directory name: "),
        &chars_of(plugin),
    );
    Err(EliError::new(ErrorKind::InvalidInput, string_of(&m)))
}

/// The kind of bookkeeping a manifest keeps.
#[derive(Clone, Copy, Debug, PartialEq, Eq, Structural)]
pub enum ManifestKind {
    File,
    Directory,
    Script,
}

pub open spec fn manifest_word(kind: ManifestKind) -> Seq<char> {
    match kind {
        ManifestKind::File => "file"@,
        ManifestKind::Directory => "directory"@,
        ManifestKind::Script => "script"@,
    }
}

/// A name read from a manifest may be removed from the running system only
/// when it is one safe directory name.
pub fn check_manifest_entry(kind: ManifestKind, name: &str) -> (r: Result<(), String>)
    ensures
        r is Ok <==> safe_component(name@),
        r matches Err(m) ==> m@ == "unsafe "@ + manifest_word(kind) + " manifest entry: "@ + name@,
{
    if is_safe_component(name) {
        return Ok(());
    }
    let word = match kind {
        ManifestKind::File => "file",
        ManifestKind::Directory => "directory",
        ManifestKind::Script => "script",
    };
    let mut m = concat(&chars_of("unsafe "), &chars_of(word));
    m = concat(&m, &chars_of(" manifest entry: "));
    m = concat(&m, &chars_of(name));
    Err(string_of(&m))
}

/// Where a unit is moved before it is deleted:
/// `.eli-delete-<plugin>-<process>-<sequence>`.
pub fn delete_name(plugin: &str, process: u32, sequence: u64) -> (r: String)
    ensures
        r@ == ".eli-delete-"@ + plugin@ + "-"@ + decimal(process as nat) + "-"@ + decimal(
            sequence as nat,
        ),
{
    let mut out = concat(&chars_of(".eli-delete-"), &chars_of(plugin));
    out = concat(&out, &chars_of("-"));
    out = concat(&out, &decimal_chars(process as u64));
    out = concat(&out, &chars_of("-"));
    out = concat(&out, &decimal_chars(sequence));
    string_of(&out)
}

/// A failed clean whose unit could not be moved back.
pub fn with_restore_failure(error: EliError, rollback: &EliError) -> (r: EliError)
    ensures
        r.kind == error.kind,
        r.message@ == error.message@ + "; failed to restore unit: "@ + rollback.message@,
{
    let mut m = concat(&chars_of(error.message.as_str()), &chars_of("; failed to restore unit: "));
    m = concat(&m, &chars_of(rollback.message.as_str()));
    EliError::new(error.kind, string_of(&m))
}

/// The lines of the LocalBoost plugin list other than `plugin`, ignoring
/// ASCII case.
pub open spec fn kept_entries(ls: Seq<Seq<char>>, plugin: Seq<char>) -> Seq<Seq<char>> {
    ls.filter(|l: Seq<char>| !eq_ignore_case(l, plugin))
}

/// The plugin list without `plugin`: `None` when nothing is left and the
/// file goes, otherwise the remaining lines with the file's line breaks.
pub fn list_without(contents: &str, plugin: &str) -> (r: Option<String>)
    ensures
        ({
            let kept = kept_entries(lines(contents@), plugin@);
            match r {
                None => kept.len() == 0,
                Some(t) => kept.len() > 0 && t@ == text_of(kept, newline_of(Some(contents@))),
            }
        }),
{
    let ls = lines_of(&chars_of(contents));
    let p = chars_of(plugin);
    let ghost pred = |l: Seq<char>| !eq_ignore_case(l, plugin@);
    let mut kept: Vec<Vec<char>> = Vec::new();
    let mut i: usize = 0;
    assert(views(ls@).take(0) =~= Seq::<Seq<char>>::empty());
    proof {
        reveal(Seq::filter);
    }
    while i < ls.len()
        invariant
            i <= ls@.len(),
            p@ == plugin@,
            pred == (|l: Seq<char>| !eq_ignore_case(l, plugin@)),
            views(kept@) == views(ls@).take(i as int).filter(pred),
        decreases ls.len() - i,
    {
        proof {
            assert(views(ls@).take(i + 1) =~= views(ls@).take(i as int).push(views(ls@)[i as int]));
            views(ls@).take(i as int).lemma_filter_push(views(ls@)[i as int], pred);
        }
        if !eq_ignore_ascii_case(&ls[i], &p) {
            kept.push(crate::text::copy_chars(&ls[i]));
            assert(views(kept@) =~= views(ls@).take(i as int).filter(pred).push(ls@[i as int]@));
        }
        i = i + 1;
    }
    assert(views(ls@).take(ls@.len() as int) =~= views(ls@));
    if kept.len() == 0 {
        return None;
    }
    proof {
        reveal_strlit("\r\n");
        reveal_strlit("\n");
    }
    let newline = if find_sub(&chars_of(contents), &chars_of("\r\n")).is_some() {
        "\r\n"
    } else {
        "\n"
    };
    let mut out: Vec<char> = Vec::new();
    let mut j: usize = 0;
    while j < kept.len()
        invariant
            j <= kept@.len(),
            out@ == text_of(views(kept@).take(j as int), newline@),
        decreases kept.len() - j,
    {
        assert(views(kept@).take(j + 1).drop_last() =~= views(kept@).take(j as int));
        out = concat(&out, &kept[j]);
        out = concat(&out, &chars_of(newline));
        j = j + 1;
    }
    assert(views(kept@).take(kept@.len() as int) =~= views(kept@));
    Some(string_of(&out))
}

/// Restoring the repository's units at startup runs only in Windows PE.
pub fn startup(environment: RuntimeEnvironment) -> (r: Result<(), EliError>)
    ensures
        match r {
            Ok(()) => environment == RuntimeEnvironment::WindowsPE,
            Err(e) => environment != RuntimeEnvironment::WindowsPE && e.kind == ErrorKind::Unsupported
                && e.message@ == "LocalBoost startup is only implemented for Windows PE"@,
        },
{
    if environment != RuntimeEnvironment::WindowsPE {
        return Err(
            EliError::new(
                ErrorKind::Unsupported,
                "LocalBoost startup is only implemented for Windows PE".to_owned(),
            ),
        );
    }
    Ok(())
}

/// Cleaning LocalBoost units runs only in Windows PE.
pub fn clean(environment: RuntimeEnvironment) -> (r: Result<(), EliError>)
    ensures
        match r {
            Ok(()) => environment == RuntimeEnvironment::WindowsPE,
            Err(e) => environment != RuntimeEnvironment::WindowsPE && e.kind == ErrorKind::Unsupported
                && e.message@ == "LocalBoost cleanup is only implemented for Windows PE"@,
        },
{
    if environment != RuntimeEnvironment::WindowsPE {
        return Err(
            EliError::new(
                ErrorKind::Unsupported,
                "LocalBoost cleanup is only implemented for Windows PE".to_owned(),
            ),
        );
    }
    Ok(())
}

} // verus!
