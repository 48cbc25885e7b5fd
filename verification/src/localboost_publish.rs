//! Publishing a LocalBoost unit into the running system: what the unit
//! holds, the names its scripts are exposed under, the order they run in,
//! where they are archived and how the LocalBoost plugin list grows.
use crate::config::{extension, file_name};
use crate::error::{EliError, ErrorKind};
use crate::kernel::{file_stem, file_stem_of};
use crate::path::{join, join_path, path_less, sort_paths};
use crate::plugin::path_views;
use crate::plugin_load::{add_line, merge_lines, merged, unique_nonempty_lines};
use crate::text::{
    chars_of, concat, decimal, decimal_chars, eq_ignore_case, find_from, find_sub, lines, string_of,
};
use vstd::prelude::*;

verus! {

broadcast use vstd::seq_lib::group_to_multiset_ensures;

/// What a directory entry of a unit is.
#[derive(Clone, Copy, Debug, PartialEq, Eq, Structural)]
pub enum EntryKind {
    Directory,
    File,
    /// A link or anything else a unit may not hold.
    Other,
}

/// An entry of a unit directory, by name.
#[derive(Debug)]
pub struct UnitEntry {
    pub name: String,
    pub kind: EntryKind,
}

/// What a unit holds, each list in path order: its CMD and WCS scripts
/// (as paths inside the unit), its other files and its directories (as
/// names).
#[derive(Debug)]
pub struct Inventory {
    pub cmd: Vec<String>,
    pub wcs: Vec<String>,
    pub files: Vec<String>,
    pub directories: Vec<String>,
}

/// The extension of `name` is `ext`, ignoring ASCII case.
pub open spec fn has_extension(name: Seq<char>, ext: Seq<char>) -> bool {
    match extension(name) {
        Some(e) => eq_ignore_case(e, ext),
        None => false,
    }
}

/// Which entries a list of the inventory takes, and what it keeps of them.
#[derive(Clone, Copy, Debug, PartialEq, Eq, Structural)]
pub enum Pick {
    Cmd,
    Wcs,
    Files,
    Directories,
    Others,
}

pub open spec fn picked(which: Pick, unit: Seq<char>, windows: bool) -> spec_fn(UnitEntry) -> Option<
    Seq<char>,
> {
    |e: UnitEntry|
        match which {
            Pick::Cmd => if e.kind is File && has_extension(e.name@, "cmd"@) {
                Some(join(unit, e.name@, windows))
            } else {
                None
            },
            Pick::Wcs => if e.kind is File && !has_extension(e.name@, "cmd"@) && has_extension(
                e.name@,
                "wcs"@,
            ) {
                Some(join(unit, e.name@, windows))
            } else {
                None
            },
            Pick::Files => if e.kind is File && !has_extension(e.name@, "cmd"@) && !has_extension(
                e.name@,
                "wcs"@,
            ) {
                Some(e.name@)
            } else {
                None
            },
            Pick::Directories => if e.kind is Directory {
                Some(e.name@)
            } else {
                None
            },
            Pick::Others => if e.kind is Other {
                Some(join(unit, e.name@, windows))
            } else {
                None
            },
        }
}

/// `v` holds the texts of `s`, each as often, in path order.
pub open spec fn sorted_from(v: Seq<String>, s: Seq<Seq<char>>) -> bool {
    &&& path_views(v).to_multiset() == s.to_multiset()
    &&& forall|a: int, b: int| 0 <= a < b < v.len() ==> !path_less(v[b]@, v[a]@)
}

fn has_extension_of(name: &str, ext: &str) -> (r: bool)
    ensures
        r == has_extension(name@, ext@),
{
    match crate::config::extension_of(name) {
        Some(e) => crate::text::eq_ignore_ascii_case(&e, &chars_of(ext)),
        None => false,
    }
}

fn pick_one(e: &UnitEntry, which: Pick, unit: &str, windows: bool) -> (r: Option<String>)
    ensures
        match (picked(which, unit@, windows))(*e) {
            Some(t) => r matches Some(x) && x@ == t,
            None => r is None,
        },
{
    proof {
        reveal_strlit("cmd");
        reveal_strlit("wcs");
    }
    let is_cmd = has_extension_of(e.name.as_str(), "cmd");
    let is_wcs = has_extension_of(e.name.as_str(), "wcs");
    match which {
        Pick::Cmd => if e.kind == EntryKind::File && is_cmd {
            Some(join_path(unit, e.name.as_str(), windows))
        } else {
            None
        },
        Pick::Wcs => if e.kind == EntryKind::File && !is_cmd && is_wcs {
            Some(join_path(unit, e.name.as_str(), windows))
        } else {
            None
        },
        Pick::Files => if e.kind == EntryKind::File && !is_cmd && !is_wcs {
            Some(string_of(&chars_of(e.name.as_str())))
        } else {
            None
        },
        Pick::Directories => if e.kind == EntryKind::Directory {
            Some(string_of(&chars_of(e.name.as_str())))
        } else {
            None
        },
        Pick::Others => if e.kind == EntryKind::Other {
            Some(join_path(unit, e.name.as_str(), windows))
        } else {
            None
        },
    }
}

fn pick_sorted(entries: &Vec<UnitEntry>, which: Pick, unit: &str, windows: bool) -> (r: Vec<String>)
    ensures
        sorted_from(r@, entries@.filter_map(picked(which, unit@, windows))),
{
    let ghost f = picked(which, unit@, windows);
    let mut out: Vec<String> = Vec::new();
    let mut i: usize = 0;
    assert(entries@.take(0) =~= Seq::<UnitEntry>::empty());
    assert(path_views(out@) =~= entries@.take(0).filter_map(f));
    while i < entries.len()
        invariant
            i <= entries@.len(),
            f == picked(which, unit@, windows),
            path_views(out@) == entries@.take(i as int).filter_map(f),
        decreases entries.len() - i,
    {
        proof {
            entries@.lemma_filter_map_take_succ(f, i as int);
        }
        let ghost before = path_views(out@);
        match pick_one(&entries[i], which, unit, windows) {
            Some(t) => {
                out.push(t);
                assert(path_views(out@) =~= before + seq![t@]);
            },
            None => {},
        }
        i = i + 1;
    }
    assert(entries@.take(entries@.len() as int) =~= entries@);
    sort_paths(out)
}

/// Sorts what an unpacked package (a LocalBoost unit, or a plugin being
/// loaded) holds; anything but files and directories is refused, naming the
/// first such entry in path order after `unsupported <label> entry: `.
pub fn inventory(entries: &Vec<UnitEntry>, unit: &str, windows: bool, label: &str) -> (r: Result<
    Inventory,
    EliError,
>)
    ensures
        ({
            let others = entries@.filter_map(picked(Pick::Others, unit@, windows));
            match r {
                Ok(inv) => {
                    &&& others.len() == 0
                    &&& sorted_from(inv.cmd@, entries@.filter_map(picked(Pick::Cmd, unit@, windows)))
                    &&& sorted_from(inv.wcs@, entries@.filter_map(picked(Pick::Wcs, unit@, windows)))
                    &&& sorted_from(
                        inv.files@,
                        entries@.filter_map(picked(Pick::Files, unit@, windows)),
                    )
                    &&& sorted_from(
                        inv.directories@,
                        entries@.filter_map(picked(Pick::Directories, unit@, windows)),
                    )
                },
                Err(e) => {
                    &&& others.len() > 0
                    &&& e.kind == ErrorKind::InvalidData
                    &&& exists|m: Seq<char>|
                        {
                            &&& #[trigger] others.contains(m)
                            &&& forall|k: int| 0 <= k < others.len() ==> !path_less(others[k], m)
                            &&& e.message@ == "unsupported "@ + label@ + " entry: "@ + m
                        }
                },
            }
        }),
{
    let others = pick_sorted(entries, Pick::Others, unit, windows);
    let ghost all = entries@.filter_map(picked(Pick::Others, unit@, windows));
    if others.len() > 0 {
        let first = &others[0];
        proof {
            assert(path_views(others@).contains(first@)) by {
                assert(path_views(others@)[0] == first@);
            }
            assert(all.to_multiset().count(first@) > 0);
            assert(all.contains(first@));
            assert forall|k: int| 0 <= k < all.len() implies !path_less(all[k], first@) by {
                assert(all.to_multiset().count(all[k]) > 0);
                assert(path_views(others@).to_multiset().count(all[k]) > 0);
                assert(path_views(others@).contains(all[k]));
                let j = choose|j: int| 0 <= j < others@.len() && path_views(others@)[j] == all[k];
                if j > 0 {
                    assert(!path_less(others@[j]@, others@[0]@));
                } else {
                    crate::path::lemma_lex_irreflexive(crate::path::path_key(first@));
                }
            }
        }
        let mut message = concat(&chars_of("unsupported "), &chars_of(label));
        message = concat(&message, &chars_of(" entry: "));
        message = concat(&message, &chars_of(first.as_str()));
        return Err(EliError::new(ErrorKind::InvalidData, string_of(&message)));
    }
    assert(all.len() == 0) by {
        if all.len() > 0 {
            assert(all.contains(all[0]));
            assert(all.to_multiset().count(all[0]) > 0);
            assert(path_views(others@).to_multiset().len() == 0);
        }
    }
    Ok(
        Inventory {
            cmd: pick_sorted(entries, Pick::Cmd, unit, windows),
            wcs: pick_sorted(entries, Pick::Wcs, unit, windows),
            files: pick_sorted(entries, Pick::Files, unit, windows),
            directories: pick_sorted(entries, Pick::Directories, unit, windows),
        },
    )
}

/// A script copied into the running system under a new name.
#[derive(Debug)]
pub struct ScriptCopy {
    pub source: String,
    pub destination: String,
}

/// `<stem>_localboost_<counter>.<extension>`.
pub open spec fn exposed_name(stem: Seq<char>, counter: u64, ext: Seq<char>) -> Seq<char> {
    stem + "_localboost_"@ + decimal(counter as nat) + "."@ + ext
}

/// Where a script of the unit is exposed, when it has a stem.
pub open spec fn exposure(script: Seq<char>, counter: u64, edgeless: Seq<char>, ext: Seq<char>, windows: bool) -> Option<Seq<char>> {
    let stem = file_stem(script);
    if stem.len() == 0 {
        None
    } else {
        Some(join(edgeless, exposed_name(stem, counter, ext), windows))
    }
}

pub open spec fn all_exposed(scripts: Seq<String>, copies: Seq<ScriptCopy>, counter: u64, edgeless: Seq<char>, ext: Seq<char>, windows: bool, offset: int) -> bool {
    forall|k: int|
        0 <= k < scripts.len() ==> {
            &&& (#[trigger] copies[offset + k]).source@ == scripts[k]@
            &&& exposure(scripts[k]@, counter, edgeless, ext, windows) == Some(
                copies[offset + k].destination@,
            )
        }
}

/// `scripts[k]` is the first script whose name has no stem.
pub open spec fn first_stemless(scripts: Seq<String>, k: int) -> bool {
    &&& 0 <= k < scripts.len()
    &&& file_stem(scripts[k]@).len() == 0
    &&& forall|j: int| 0 <= j < k ==> #[trigger] file_stem(scripts[j]@).len() > 0
}

fn expose_list(
    copies: &mut Vec<ScriptCopy>,
    scripts: &Vec<String>,
    counter: u64,
    edgeless: &str,
    ext: &str,
    windows: bool,
) -> (r: Result<(), EliError>)
    ensures
        r is Ok ==> {
            &&& final(copies)@.len() == old(copies)@.len() + scripts@.len()
            &&& final(copies)@.subrange(0, old(copies)@.len() as int) == old(copies)@
            &&& all_exposed(scripts@, final(copies)@, counter, edgeless@, ext@, windows, old(copies)@.len() as int)
        },
        r matches Err(e) ==> e.kind == ErrorKind::InvalidData && exists|k: int|
            first_stemless(scripts@, k) && e.message@ == "LocalBoost script has no stem: "@
                + (#[trigger] scripts@[k])@,
        r is Ok <==> forall|k: int| 0 <= k < scripts@.len() ==> #[trigger] file_stem(scripts@[k]@).len() > 0,
{
    let ghost start = copies@;
    let mut i: usize = 0;
    while i < scripts.len()
        invariant
            i <= scripts@.len(),
            copies@.len() == start.len() + i,
            copies@.subrange(0, start.len() as int) == start,
            forall|k: int| 0 <= k < i ==> #[trigger] file_stem(scripts@[k]@).len() > 0,
            all_exposed(scripts@.take(i as int), copies@, counter, edgeless@, ext@, windows, start.len() as int),
        decreases scripts.len() - i,
    {
        let stem = file_stem_of(scripts[i].as_str());
        if stem.len() == 0 {
            let m = concat(&chars_of("LocalBoost script has no stem: "), &chars_of(scripts[i].as_str()));
            assert(first_stemless(scripts@, i as int));
            return Err(EliError::new(ErrorKind::InvalidData, string_of(&m)));
        }
        let mut name = concat(&stem, &chars_of("_localboost_"));
        name = concat(&name, &decimal_chars(counter));
        name = concat(&name, &chars_of("."));
        name = concat(&name, &chars_of(ext));
        let destination = join_path(edgeless, string_of(&name).as_str(), windows);
        let ghost before = copies@;
        copies.push(ScriptCopy { source: string_of(&chars_of(scripts[i].as_str())), destination });
        proof {
            assert(copies@.subrange(0, start.len() as int) =~= before.subrange(0, start.len() as int));
            assert forall|k: int| 0 <= k < i + 1 implies {
                &&& (#[trigger] copies@[start.len() + k]).source@ == scripts@.take(i + 1)[k]@
                &&& exposure(scripts@.take(i + 1)[k]@, counter, edgeless@, ext@, windows) == Some(
                    copies@[start.len() + k].destination@,
                )
            } by {
                if k < i {
                    assert(scripts@.take(i as int)[k] == scripts@.take(i + 1)[k]);
                    assert(copies@[start.len() + k] == before[start.len() + k]);
                }
            }
        }
        i = i + 1;
    }
    assert(scripts@.take(scripts@.len() as int) =~= scripts@);
    Ok(())
}

/// The CMD scripts of a unit, then its WCS scripts, each under the name it
/// is exposed under in the running system.
pub fn expose_scripts(inventory: &Inventory, counter: u64, edgeless: &str, windows: bool) -> (r: Result<
    Vec<ScriptCopy>,
    EliError,
>)
    ensures
        match r {
            Ok(v) => {
                &&& v@.len() == inventory.cmd@.len() + inventory.wcs@.len()
                &&& all_exposed(inventory.cmd@, v@, counter, edgeless@, "cmd"@, windows, 0)
                &&& all_exposed(inventory.wcs@, v@, counter, edgeless@, "wcs"@, windows, inventory.cmd@.len() as int)
            },
            Err(e) => e.kind == ErrorKind::InvalidData && exists|k: int|
                first_stemless(inventory.cmd@ + inventory.wcs@, k) && e.message@
                    == "LocalBoost script has no stem: "@ + (#[trigger] (inventory.cmd@
                    + inventory.wcs@)[k])@,
        },
        r is Ok <==> forall|k: int|
            0 <= k < inventory.cmd@.len() + inventory.wcs@.len() ==> #[trigger] file_stem(
                (inventory.cmd@ + inventory.wcs@)[k]@,
            ).len() > 0,
{
    let ghost both = inventory.cmd@ + inventory.wcs@;
    let ghost c = inventory.cmd@.len();
    let mut copies: Vec<ScriptCopy> = Vec::new();
    match expose_list(&mut copies, &inventory.cmd, counter, edgeless, "cmd", windows) {
        Ok(()) => {},
        Err(e) => {
            proof {
                let k = choose|k: int| first_stemless(inventory.cmd@, k) && e.message@ == "LocalBoost script has no stem: "@ + (#[trigger] inventory.cmd@[k])@;
                assert(both[k] == inventory.cmd@[k]);
                assert forall|j: int| 0 <= j < k implies #[trigger] file_stem(both[j]@).len() > 0 by {
                    assert(both[j] == inventory.cmd@[j]);
                }
                assert(first_stemless(both, k));
            }
            return Err(e);
        },
    }
    let ghost after_cmd = copies@;
    match expose_list(&mut copies, &inventory.wcs, counter, edgeless, "wcs", windows) {
        Ok(()) => {},
        Err(e) => {
            proof {
                let k = choose|k: int| first_stemless(inventory.wcs@, k) && e.message@ == "LocalBoost script has no stem: "@ + (#[trigger] inventory.wcs@[k])@;
                assert(both[c + k] == inventory.wcs@[k]);
                assert forall|j: int| 0 <= j < c + k implies #[trigger] file_stem(both[j]@).len() > 0 by {
                    if j < c {
                        assert(both[j] == inventory.cmd@[j]);
                    } else {
                        assert(both[j] == inventory.wcs@[j - c]);
                    }
                }
                assert(first_stemless(both, c + k));
            }
            return Err(e);
        },
    }
    proof {
        assert forall|k: int| 0 <= k < inventory.cmd@.len() implies {
            &&& (#[trigger] copies@[0 + k]).source@ == inventory.cmd@[k]@
            &&& exposure(inventory.cmd@[k]@, counter, edgeless@, "cmd"@, windows) == Some(copies@[0 + k].destination@)
        } by {
            assert(copies@[k] == copies@.subrange(0, c as int)[k]);
            assert(after_cmd[0 + k] == copies@.subrange(0, c as int)[k]);
        }
        assert forall|k: int| 0 <= k < both.len() implies #[trigger] file_stem(both[k]@).len() > 0 by {
            if k < c {
                assert(both[k] == inventory.cmd@[k]);
            } else {
                assert(both[k] == inventory.wcs@[k - c]);
            }
        }
    }
    Ok(copies)
}

/// The program a script runs under.
#[derive(Clone, Copy, Debug, PartialEq, Eq, Structural)]
pub enum Runner {
    Cmd,
    Pecmd,
}

/// One script to run.
#[derive(Debug)]
pub struct ScriptRun {
    pub runner: Runner,
    pub script: String,
}

pub open spec fn run_view(r: ScriptRun) -> (Runner, Seq<char>) {
    (r.runner, r.script@)
}

pub open spec fn run_of(runner: Runner, ext: Seq<char>) -> spec_fn(String) -> Option<(Runner, Seq<char>)> {
    |s: String| if has_extension(s@, ext) {
        Some((runner, s@))
    } else {
        None
    }
}

/// The runs of a unit's exposed scripts: the CMD ones under `cmd`, then
/// the WCS ones under PECMD, each group in the given order.
pub open spec fn runs_of(scripts: Seq<String>) -> Seq<(Runner, Seq<char>)> {
    scripts.filter_map(run_of(Runner::Cmd, "cmd"@)) + scripts.filter_map(run_of(Runner::Pecmd, "wcs"@))
}

fn push_runs(runs: &mut Vec<ScriptRun>, scripts: &Vec<String>, runner: Runner, ext: &str)
    ensures
        final(runs)@.map_values(|r: ScriptRun| run_view(r)) == old(runs)@.map_values(
            |r: ScriptRun| run_view(r),
        ) + scripts@.filter_map(run_of(runner, ext@)),
{
    let ghost start = runs@.map_values(|r: ScriptRun| run_view(r));
    let ghost f = run_of(runner, ext@);
    let mut i: usize = 0;
    assert(scripts@.take(0) =~= Seq::<String>::empty());
    assert(runs@.map_values(|r: ScriptRun| run_view(r)) =~= start + scripts@.take(0).filter_map(f));
    while i < scripts.len()
        invariant
            i <= scripts@.len(),
            f == run_of(runner, ext@),
            runs@.map_values(|r: ScriptRun| run_view(r)) == start + scripts@.take(i as int).filter_map(f),
        decreases scripts.len() - i,
    {
        proof {
            scripts@.lemma_filter_map_take_succ(f, i as int);
        }
        let ghost before = runs@.map_values(|r: ScriptRun| run_view(r));
        if has_extension_of(scripts[i].as_str(), ext) {
            runs.push(ScriptRun { runner, script: string_of(&chars_of(scripts[i].as_str())) });
            assert(runs@.map_values(|r: ScriptRun| run_view(r)) =~= before + seq![(runner, scripts@[i as int]@)]);
        }
        i = i + 1;
    }
    assert(scripts@.take(scripts@.len() as int) =~= scripts@);
}

/// The order the exposed scripts of a unit run in.
pub fn script_runs(scripts: &Vec<String>) -> (r: Vec<ScriptRun>)
    ensures
        r@.map_values(|x: ScriptRun| run_view(x)) == runs_of(scripts@),
{
    let mut runs: Vec<ScriptRun> = Vec::new();
    push_runs(&mut runs, scripts, Runner::Cmd, "cmd");
    push_runs(&mut runs, scripts, Runner::Pecmd, "wcs");
    proof {
        reveal_strlit("cmd");
        reveal_strlit("wcs");
        assert(Seq::<ScriptRun>::empty().map_values(|r: ScriptRun| run_view(r)) =~= Seq::<(Runner, Seq<char>)>::empty());
    }
    runs
}

/// Where each exposed script is archived after it ran: under its file
/// name in `installers`; a script without one is a failure.
pub fn archive_plan(scripts: &Vec<String>, installers: &str, windows: bool) -> (r: Vec<Result<String, String>>)
    ensures
        r@.len() == scripts@.len(),
        forall|k: int|
            0 <= k < scripts@.len() ==> match #[trigger] r@[k] {
                Ok(d) => file_name(scripts@[k]@).len() > 0 && d@ == join(
                    installers@,
                    file_name(scripts@[k]@),
                    windows,
                ),
                Err(m) => file_name(scripts@[k]@).len() == 0 && m@
                    == "LocalBoost script has no file name: "@ + scripts@[k]@,
            },
{
    let mut out: Vec<Result<String, String>> = Vec::new();
    let mut i: usize = 0;
    while i < scripts.len()
        invariant
            i <= scripts@.len(),
            out@.len() == i,
            forall|k: int|
                0 <= k < i ==> match #[trigger] out@[k] {
                    Ok(d) => file_name(scripts@[k]@).len() > 0 && d@ == join(
                        installers@,
                        file_name(scripts@[k]@),
                        windows,
                    ),
                    Err(m) => file_name(scripts@[k]@).len() == 0 && m@
                        == "LocalBoost script has no file name: "@ + scripts@[k]@,
                },
        decreases scripts.len() - i,
    {
        let name = crate::config::file_name_of(scripts[i].as_str());
        if name.len() > 0 {
            out.push(Ok(join_path(installers, string_of(&name).as_str(), windows)));
        } else {
            let m = concat(&chars_of("LocalBoost script has no file name: "), &chars_of(scripts[i].as_str()));
            out.push(Err(string_of(&m)));
        }
        i = i + 1;
    }
    out
}

/// Texts joined with a separator between them.
pub open spec fn joined(parts: Seq<Seq<char>>, sep: Seq<char>) -> Seq<char>
    decreases parts.len(),
{
    if parts.len() == 0 {
        Seq::empty()
    } else if parts.len() == 1 {
        parts[0]
    } else {
        joined(parts.drop_last(), sep) + sep + parts.last()
    }
}

pub(crate) fn join_with(parts: &Vec<String>, sep: &str) -> (r: String)
    ensures
        r@ == joined(path_views(parts@), sep@),
{
    let mut out: Vec<char> = Vec::new();
    let mut i: usize = 0;
    while i < parts.len()
        invariant
            i <= parts@.len(),
            out@ == joined(path_views(parts@).take(i as int), sep@),
        decreases parts.len() - i,
    {
        let ghost before = out@;
        if i > 0 {
            out = concat(&out, &chars_of(sep));
        }
        out = concat(&out, &chars_of(parts[i].as_str()));
        proof {
            let t = path_views(parts@).take(i + 1);
            assert(t.drop_last() =~= path_views(parts@).take(i as int));
            if i == 0 {
                assert(out@ =~= t[0]);
            }
        }
        i = i + 1;
    }
    assert(path_views(parts@).take(parts@.len() as int) =~= path_views(parts@));
    string_of(&out)
}

/// The failures of running and archiving the scripts, as one error.
pub fn join_failures(failures: &Vec<String>) -> (r: Result<(), EliError>)
    ensures
        r is Ok <==> failures@.len() == 0,
        r matches Err(e) ==> e.kind == ErrorKind::Other && e.message@ == joined(
            path_views(failures@),
            "; "@,
        ),
{
    if failures.len() == 0 {
        return Ok(());
    }
    Err(EliError::new(ErrorKind::Other, join_with(failures, "; ")))
}

/// A failed publish, with the metadata files it could not restore.
pub fn with_restore_errors(error: EliError, restore_errors: &Vec<String>) -> (r: EliError)
    ensures
        r.kind == error.kind,
        r.message@ == if restore_errors@.len() == 0 {
            error.message@
        } else {
            error.message@ + "; failed to restore metadata: "@ + joined(
                path_views(restore_errors@),
                "; "@,
            )
        },
{
    if restore_errors.len() == 0 {
        return error;
    }
    let mut m = concat(&chars_of(error.message.as_str()), &chars_of("; failed to restore metadata: "));
    m = concat(&m, &chars_of(join_with(restore_errors, "; ").as_str()));
    EliError::new(error.kind, string_of(&m))
}

/// A failed publish whose copied files could not be put back either.
pub fn with_rollback_error(error: EliError, rollback_error: &EliError) -> (r: EliError)
    ensures
        r.kind == error.kind,
        r.message@ == error.message@ + "; LocalBoost rollback also failed: "@
            + rollback_error.message@,
{
    let mut m = concat(&chars_of(error.message.as_str()), &chars_of("; LocalBoost rollback also failed: "));
    m = concat(&m, &chars_of(rollback_error.message.as_str()));
    EliError::new(error.kind, string_of(&m))
}

/// The line break a text file already uses: CR LF when it holds one.
pub open spec fn newline_of(existing: Option<Seq<char>>) -> Seq<char> {
    match existing {
        Some(t) => if find_from(t, "\r\n"@, 0) is Some {
            "\r\n"@
        } else {
            "\n"@
        },
        None => "\n"@,
    }
}

/// Each line followed by the line break.
pub open spec fn text_of(ls: Seq<Seq<char>>, newline: Seq<char>) -> Seq<char>
    decreases ls.len(),
{
    if ls.len() == 0 {
        Seq::empty()
    } else {
        text_of(ls.drop_last(), newline) + ls.last() + newline
    }
}

/// The LocalBoost plugin list with `name` in it: the earlier non-empty
/// lines once each, then `name` unless it is there already, ignoring
/// ASCII case; the file keeps its line breaks.
pub fn plugin_list_contents(existing: Option<&str>, name: &str) -> (r: String)
    ensures
        r@ == text_of(
            add_line(
                match existing {
                    Some(t) => merged(Seq::empty(), lines(t@), lines(t@).len() as int, true),
                    None => Seq::empty(),
                },
                name@,
                false,
            ),
            newline_of(
                match existing {
                    Some(t) => Some(t@),
                    None => None,
                },
            ),
        ),
{
    let entries = match existing {
        Some(t) => unique_nonempty_lines(t),
        None => Vec::new(),
    };
    let ghost prev = path_views(entries@);
    let mut names: Vec<String> = Vec::new();
    names.push(string_of(&chars_of(name)));
    let entries = merge_lines(entries, &names);
    proof {
        assert(path_views(names@)[0] == name@);
        reveal_with_fuel(merged, 2);
        assert(merged(prev, path_views(names@), 1, false) == add_line(prev, name@, false));
        if existing is None {
            assert(prev =~= Seq::<Seq<char>>::empty());
        }
        reveal_strlit("\r\n");
        reveal_strlit("\n");
    }
    let newline = match existing {
        Some(t) => if find_sub(&chars_of(t), &chars_of("\r\n")).is_some() {
            "\r\n"
        } else {
            "\n"
        },
        None => "\n",
    };
    let mut out: Vec<char> = Vec::new();
    let mut i: usize = 0;
    while i < entries.len()
        invariant
            i <= entries@.len(),
            out@ == text_of(path_views(entries@).take(i as int), newline@),
        decreases entries.len() - i,
    {
        assert(path_views(entries@).take(i + 1).drop_last() =~= path_views(entries@).take(i as int));
        out = concat(&out, &chars_of(entries[i].as_str()));
        out = concat(&out, &chars_of(newline));
        i = i + 1;
    }
    assert(path_views(entries@).take(entries@.len() as int) =~= path_views(entries@));
    string_of(&out)
}

/// Whether a subdirectory of the unit holds a batch script (a file ending in
/// `.bat` or `.cmd`), which LocalBoost runs only in compatibility mode.
pub fn has_nested_batch_script(nested: &Vec<UnitEntry>) -> (r: bool)
    ensures
        r == exists|k: int|
            0 <= k < nested@.len() && (#[trigger] nested@[k]).kind == EntryKind::File && (
            has_extension(nested@[k].name@, "bat"@) || has_extension(nested@[k].name@, "cmd"@)),
{
    let mut i: usize = 0;
    while i < nested.len()
        invariant
            i <= nested@.len(),
            forall|k: int|
                0 <= k < i ==> !((#[trigger] nested@[k]).kind == EntryKind::File && (
                has_extension(nested@[k].name@, "bat"@) || has_extension(nested@[k].name@, "cmd"@))),
        decreases nested.len() - i,
    {
        if nested[i].kind == EntryKind::File && (has_extension_of(nested[i].name.as_str(), "bat")
            || has_extension_of(nested[i].name.as_str(), "cmd")) {
            return true;
        }
        i = i + 1;
    }
    false
}

/// How a unit that was published reports: with a warning when it needs
/// compatibility mode.
pub fn unit_status(compatibility_warning: bool) -> (r: crate::localboost::LoadStatus)
    ensures
        r == if compatibility_warning {
            crate::localboost::LoadStatus::LoadedWithCompatibilityWarning
        } else {
            crate::localboost::LoadStatus::Loaded
        },
{
    if compatibility_warning {
        crate::localboost::LoadStatus::LoadedWithCompatibilityWarning
    } else {
        crate::localboost::LoadStatus::Loaded
    }
}

/// The staging directory a package is unpacked into:
/// `.eli-<name>-<process>-<sequence>`.
pub fn unique_staging_name(plugin_name: &str, process: u32, sequence: u64) -> (r: String)
    ensures
        r@ == ".eli-"@ + plugin_name@ + "-"@ + decimal(process as nat) + "-"@ + decimal(
            sequence as nat,
        ),
{
    let mut out = concat(&chars_of(".eli-"), &chars_of(plugin_name));
    out = concat(&out, &chars_of("-"));
    out = concat(&out, &decimal_chars(process as u64));
    out = concat(&out, &chars_of("-"));
    out = concat(&out, &decimal_chars(sequence));
    string_of(&out)
}

} // verus!
