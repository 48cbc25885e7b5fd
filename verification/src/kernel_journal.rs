//! The undo journal of a kernel store: what a publish records before each
//! change, how an interrupted publish is read back, and the steps that
//! undo it, newest change first.
use crate::error::{EliError, ErrorKind};
use crate::path::{components, components_of, join, join_path};
use crate::text::{chars_of, concat, eq, string_of, views};
use vstd::prelude::*;

verus! {

/// One change of a publish, with paths relative to the boot disk (and, for
/// a backup, to the staging directory).
#[derive(Debug)]
pub enum JournalChange {
    Created { destination: String },
    Replaced { destination: String, backup: String },
    Disabled { source: String, destination: String },
}

/// A line of the journal.
#[derive(Debug)]
pub enum JournalRecord {
    Change(JournalChange),
    Committed,
}

pub open spec fn is_change(r: JournalRecord) -> bool {
    r is Change
}

/// The changes a journal records, in order.
pub open spec fn recorded_changes(records: Seq<JournalRecord>) -> Seq<JournalRecord> {
    records.filter(|r: JournalRecord| is_change(r))
}

/// Reads a journal back: its changes in order, and whether the publish was
/// committed.
pub fn read_journal(records: Vec<JournalRecord>) -> (r: (Vec<JournalChange>, bool))
    ensures
        r.0@.len() == recorded_changes(records@).len(),
        forall|k: int|
            0 <= k < r.0@.len() ==> recorded_changes(records@)[k] == JournalRecord::Change(
                #[trigger] r.0@[k],
            ),
        r.1 == exists|k: int| 0 <= k < records@.len() && #[trigger] records@[k] is Committed,
{
    let ghost all = records@;
    let total = records.len();
    let ghost pred = |r: JournalRecord| is_change(r);
    let mut changes: Vec<JournalChange> = Vec::new();
    let mut committed = false;
    let mut rest = records;
    let mut i: usize = 0;
    proof {
        reveal(Seq::filter);
        assert(all.take(0) =~= Seq::<JournalRecord>::empty());
        assert(rest@ =~= all.skip(0));
    }
    while rest.len() > 0
        invariant
            i + rest@.len() == all.len(),
            all.len() == total,
            rest@ == all.skip(i as int),
            pred == (|r: JournalRecord| is_change(r)),
            changes@.len() == all.take(i as int).filter(pred).len(),
            forall|k: int|
                0 <= k < changes@.len() ==> all.take(i as int).filter(pred)[k] == JournalRecord::Change(
                    #[trigger] changes@[k],
                ),
            committed == exists|k: int| 0 <= k < i && #[trigger] all[k] is Committed,
        decreases rest.len(),
    {
        let ghost before = rest@;
        let record = rest.remove(0);
        proof {
            assert(record == all[i as int]) by {
                assert(before[0] == all.skip(i as int)[0]);
            }
            assert(rest@ =~= all.skip(i + 1));
            assert(all.take(i + 1) =~= all.take(i as int).push(all[i as int]));
            all.take(i as int).lemma_filter_push(all[i as int], pred);
        }
        match record {
            JournalRecord::Change(change) => {
                changes.push(change);
            },
            JournalRecord::Committed => {
                committed = true;
            },
        }
        i = i + 1;
    }
    proof {
        assert(all.take(all.len() as int) =~= all);
        assert(recorded_changes(all) == all.filter(pred));
    }
    (changes, committed)
}

/// A journal path may name only ordinary components below its base.
pub open spec fn safe_relative(relative: Seq<char>) -> bool {
    let cs = components(relative);
    relative.len() > 0 && forall|k: int|
        0 <= k < cs.len() ==> (#[trigger] cs[k]).len() > 0 && cs[k] != "."@ && cs[k] != ".."@
}

/// The place a journal path names below `base`; a path that could leave it
/// is refused.
pub fn safe_journal_path(base: &str, relative: &str, windows: bool) -> (r: Result<String, EliError>)
    ensures
        match r {
            Ok(p) => safe_relative(relative@) && p@ == join(base@, relative@, windows),
            Err(e) => !safe_relative(relative@) && e.kind == ErrorKind::InvalidData && e.message@
                == "unsafe kernel-store transaction path: "@ + relative@,
        },
{
    let rel = chars_of(relative);
    let cs = components_of(&rel);
    let dot = vec!['.'];
    let dots = vec!['.', '.'];
    proof {
        reveal_strlit(".");
        reveal_strlit("..");
        assert(dot@ =~= "."@);
        assert(dots@ =~= ".."@);
    }
    let mut ok = rel.len() > 0;
    let mut k: usize = 0;
    while ok && k < cs.len()
        invariant
            k <= cs@.len(),
            views(cs@) == components(relative@),
            dot@ == "."@,
            dots@ == ".."@,
            ok ==> relative@.len() > 0 && forall|j: int|
                0 <= j < k ==> (#[trigger] views(cs@)[j]).len() > 0 && views(cs@)[j] != "."@
                    && views(cs@)[j] != ".."@,
            !ok ==> !safe_relative(relative@),
        decreases cs.len() - k + if ok {
            1int
        } else {
            0int
        },
    {
        assert(views(cs@)[k as int] == cs@[k as int]@);
        if cs[k].len() == 0 || eq(&cs[k], &dot) || eq(&cs[k], &dots) {
            ok = false;
        } else {
            k = k + 1;
        }
    }
    if !ok {
        let m = concat(&chars_of("unsafe kernel-store transaction path: "), &rel);
        return Err(EliError::new(ErrorKind::InvalidData, string_of(&m)));
    }
    Ok(join_path(base, relative, windows))
}

/// One step that undoes a change, newest change first.
#[derive(Debug)]
pub enum UndoStep {
    /// Remove a file the publish created.
    RemoveFile { path: String },
    /// Put a replaced file back from its backup, if the backup is a file.
    RestoreBackup { backup: String, destination: String },
    /// Move a disabled kernel back, if it is still there.
    Reenable { disabled: String, original: String },
}

/// The step that undoes a change, given its paths on disk.
pub open spec fn undo_of(
    change: JournalChange,
    root: Seq<char>,
    staging: Seq<char>,
    windows: bool,
) -> UndoStepView {
    match change {
        JournalChange::Created { destination } => UndoStepView::RemoveFile(
            join(root, destination@, windows),
        ),
        JournalChange::Replaced { destination, backup } => UndoStepView::RestoreBackup(
            join(staging, backup@, windows),
            join(root, destination@, windows),
        ),
        JournalChange::Disabled { source, destination } => UndoStepView::Reenable(
            join(root, destination@, windows),
            join(root, source@, windows),
        ),
    }
}

/// An undo step by the texts of its paths.
pub ghost enum UndoStepView {
    RemoveFile(Seq<char>),
    RestoreBackup(Seq<char>, Seq<char>),
    Reenable(Seq<char>, Seq<char>),
}

pub open spec fn step_view(s: UndoStep) -> UndoStepView {
    match s {
        UndoStep::RemoveFile { path } => UndoStepView::RemoveFile(path@),
        UndoStep::RestoreBackup { backup, destination } => UndoStepView::RestoreBackup(
            backup@,
            destination@,
        ),
        UndoStep::Reenable { disabled, original } => UndoStepView::Reenable(disabled@, original@),
    }
}

/// The paths a change names are all safe.
pub open spec fn change_safe(c: JournalChange) -> bool {
    match c {
        JournalChange::Created { destination } => safe_relative(destination@),
        JournalChange::Replaced { destination, backup } => safe_relative(destination@)
            && safe_relative(backup@),
        JournalChange::Disabled { source, destination } => safe_relative(source@) && safe_relative(
            destination@,
        ),
    }
}

/// The steps that undo an interrupted publish, newest change first. The
/// walk stops at the first change (in that order) with an unsafe path: the
/// steps before it are still taken, and the error is reported after them.
pub fn undo_plan(changes: &Vec<JournalChange>, root: &str, staging: &str, windows: bool) -> (r: (
    Vec<UndoStep>,
    Option<EliError>,
))
    ensures
        r.0@.len() <= changes@.len(),
        forall|k: int|
            0 <= k < r.0@.len() ==> change_safe(changes@[changes@.len() - 1 - k]) && step_view(
                #[trigger] r.0@[k],
            ) == undo_of(changes@[changes@.len() - 1 - k], root@, staging@, windows),
        r.1 is None <==> r.0@.len() == changes@.len(),
        r.1 matches Some(e) ==> e.kind == ErrorKind::InvalidData && !change_safe(
            changes@[changes@.len() - 1 - r.0@.len()],
        ),
{
    let n = changes.len();
    let mut steps: Vec<UndoStep> = Vec::new();
    let mut k: usize = 0;
    while k < n
        invariant
            n == changes@.len(),
            k <= n,
            steps@.len() == k,
            forall|j: int|
                0 <= j < k ==> change_safe(changes@[n - 1 - j]) && step_view(#[trigger] steps@[j])
                    == undo_of(changes@[n - 1 - j], root@, staging@, windows),
        decreases n - k,
    {
        let step = match &changes[n - 1 - k] {
            JournalChange::Created { destination } => {
                match safe_journal_path(root, destination.as_str(), windows) {
                    Ok(path) => UndoStep::RemoveFile { path },
                    Err(e) => {
                        return (steps, Some(e));
                    },
                }
            },
            JournalChange::Replaced { destination, backup } => {
                let d = match safe_journal_path(root, destination.as_str(), windows) {
                    Ok(p) => p,
                    Err(e) => {
                        return (steps, Some(e));
                    },
                };
                let b = match safe_journal_path(staging, backup.as_str(), windows) {
                    Ok(p) => p,
                    Err(e) => {
                        return (steps, Some(e));
                    },
                };
                UndoStep::RestoreBackup { backup: b, destination: d }
            },
            JournalChange::Disabled { source, destination } => {
                let s = match safe_journal_path(root, source.as_str(), windows) {
                    Ok(p) => p,
                    Err(e) => {
                        return (steps, Some(e));
                    },
                };
                let d = match safe_journal_path(root, destination.as_str(), windows) {
                    Ok(p) => p,
                    Err(e) => {
                        return (steps, Some(e));
                    },
                };
                UndoStep::Reenable { disabled: d, original: s }
            },
        };
        steps.push(step);
        k = k + 1;
    }
    (steps, None)
}

/// How a publish treats its destination.
#[derive(Clone, Copy, Debug, PartialEq, Eq, Structural)]
pub enum PublishKind {
    /// Nothing is there: the file is created.
    Create,
    /// A regular file is there: it is backed up and replaced.
    Replace,
}

/// A destination that is not a regular file is refused.
pub fn publish_kind(destination: &str, exists: bool, regular_file: bool) -> (r: Result<
    PublishKind,
    EliError,
>)
    ensures
        match r {
            Ok(k) => k == if exists {
                PublishKind::Replace
            } else {
                PublishKind::Create
            } && (exists ==> regular_file),
            Err(e) => exists && !regular_file && e.kind == ErrorKind::InvalidData && e.message@
                == "kernel destination is not a regular file: "@ + destination@,
        },
{
    if !exists {
        return Ok(PublishKind::Create);
    }
    if !regular_file {
        let m = concat(&chars_of("kernel destination is not a regular file: "), &chars_of(destination));
        return Err(EliError::new(ErrorKind::InvalidData, string_of(&m)));
    }
    Ok(PublishKind::Replace)
}

/// Where an older Beta kernel is moved to disable it: its path with `bak`
/// appended; refused when that is taken.
pub fn disabled_path(source: &str, taken: bool) -> (r: Result<String, EliError>)
    ensures
        match r {
            Ok(d) => !taken && d@ == source@ + "bak"@,
            Err(e) => taken && e.kind == ErrorKind::AlreadyExists && e.message@
                == "disabled Beta kernel already exists: "@ + source@ + "bak"@,
        },
{
    let d = concat(&chars_of(source), &chars_of("bak"));
    if taken {
        let m = concat(&chars_of("disabled Beta kernel already exists: "), &d);
        return Err(EliError::new(ErrorKind::AlreadyExists, string_of(&m)));
    }
    Ok(string_of(&d))
}

} // verus!
