//! The state behind the plugin loading window: one row per package, what
//! each row shows, and which packages a retry loads again.
use crate::error::EliError;
use crate::path::{path_eq, path_key, path_key_of, key_eq};
use crate::plugin::path_views;
use crate::plugin_load::{LoadResult, LoadStatus, LoadSummary, LocalBoostHandling};
use crate::cli::{file_label, label_text};
use crate::text::{chars_of, string_of};
use vstd::prelude::*;

verus! {

#[derive(Clone, Copy, Debug, PartialEq, Eq, Structural)]
pub enum RowState {
    Waiting,
    Loading,
    Succeeded,
    Failed,
}

#[derive(Debug)]
pub struct Row {
    pub path: String,
    pub state: RowState,
    pub detail: String,
}

pub open spec fn row_view(r: Row) -> (Seq<char>, RowState, Seq<char>) {
    (r.path@, r.state, r.detail@)
}

pub open spec fn row_views(rs: Seq<Row>) -> Seq<(Seq<char>, RowState, Seq<char>)> {
    rs.map_values(|r: Row| row_view(r))
}

/// What a load reports about one package while it runs.
#[derive(Debug)]
pub enum LoadProgress {
    Started { path: String },
    Finished { path: String, result: Result<(), String> },
}

#[derive(Debug)]
pub struct GuiState {
    pub rows: Vec<Row>,
    pub failed_paths: Vec<String>,
    pub retry_uses_localboost: bool,
}

/// Every input waits, with nothing to say yet.
pub open spec fn waiting_rows(rows: Seq<Row>, inputs: Seq<Seq<char>>) -> bool {
    rows.len() == inputs.len() && forall|k: int|
        0 <= k < rows.len() ==> (#[trigger] rows[k]).path@ == inputs[k] && rows[k].state
            == RowState::Waiting && rows[k].detail@ == Seq::<char>::empty()
}

fn waiting(inputs: Vec<String>) -> (r: Vec<Row>)
    ensures
        waiting_rows(r@, path_views(inputs@)),
{
    let mut rows: Vec<Row> = Vec::new();
    let mut i: usize = 0;
    while i < inputs.len()
        invariant
            i <= inputs@.len(),
            rows@.len() == i,
            forall|k: int|
                0 <= k < i ==> (#[trigger] rows@[k]).path@ == inputs@[k]@ && rows@[k].state
                    == RowState::Waiting && rows@[k].detail@ == Seq::<char>::empty(),
        decreases inputs.len() - i,
    {
        rows.push(
            Row {
                path: string_of(&chars_of(inputs[i].as_str())),
                state: RowState::Waiting,
                detail: String::new(),
            },
        );
        i = i + 1;
    }
    rows
}

/// Index of the first row showing `path`.
pub open spec fn row_of(rows: Seq<Row>, path: Seq<char>, i: int) -> Option<int>
    decreases rows.len() - i,
{
    if i < 0 || i >= rows.len() {
        None
    } else if path_eq(rows[i].path@, path) {
        Some(i)
    } else {
        row_of(rows, path, i + 1)
    }
}

/// The package a progress report is about, the state its row takes and the
/// detail it shows.
pub open spec fn progress_view(p: LoadProgress) -> (Seq<char>, RowState, Seq<char>) {
    match p {
        LoadProgress::Started { path } => (path@, RowState::Loading, Seq::empty()),
        LoadProgress::Finished { path, result } => match result {
            Ok(_) => (path@, RowState::Succeeded, Seq::empty()),
            Err(m) => (path@, RowState::Failed, m@),
        },
    }
}

/// Where the first row showing `path` stands.
fn position_of(rows: &Vec<Row>, path: &String) -> (r: Option<usize>)
    ensures
        match r {
            Some(i) => i < rows@.len() && row_of(rows@, path@, 0) == Some(i as int),
            None => row_of(rows@, path@, 0) == None::<int>,
        },
{
    let wanted = path_key_of(&chars_of(path.as_str()));
    let mut i: usize = 0;
    while i < rows.len()
        invariant
            i <= rows@.len(),
            wanted@ == path_key(path@),
            row_of(rows@, path@, 0) == row_of(rows@, path@, i as int),
        decreases rows.len() - i,
    {
        if key_eq(&path_key_of(&chars_of(rows[i].path.as_str())), &wanted) {
            return Some(i);
        }
        i = i + 1;
    }
    None
}

impl GuiState {
    pub fn new(inputs: Vec<String>) -> (r: GuiState)
        ensures
            waiting_rows(r.rows@, path_views(inputs@)),
            r.failed_paths@.len() == 0,
            !r.retry_uses_localboost,
    {
        GuiState { rows: waiting(inputs), failed_paths: Vec::new(), retry_uses_localboost: false }
    }

    /// Starts a load of `inputs`; a retry later uses LocalBoost when asked.
    pub fn begin(&mut self, inputs: Vec<String>, localboost: bool)
        ensures
            waiting_rows(final(self).rows@, path_views(inputs@)),
            final(self).failed_paths@.len() == 0,
            final(self).retry_uses_localboost == localboost,
    {
        self.rows = waiting(inputs);
        self.failed_paths = Vec::new();
        self.retry_uses_localboost = localboost;
    }

    /// Marks the row of the package that the progress is about; no other
    /// row changes.
    pub fn apply_progress(&mut self, progress: LoadProgress)
        ensures
            final(self).failed_paths@ == old(self).failed_paths@,
            final(self).retry_uses_localboost == old(self).retry_uses_localboost,
            final(self).rows@.len() == old(self).rows@.len(),
            match row_of(old(self).rows@, progress_view(progress).0, 0) {
                Some(i) => row_views(final(self).rows@) == row_views(old(self).rows@).update(
                    i,
                    (old(self).rows@[i].path@, progress_view(progress).1, progress_view(progress).2),
                ),
                None => row_views(final(self).rows@) == row_views(old(self).rows@),
            },
    {
        let ghost pv = progress_view(progress);
        let (path, state, detail) = match progress {
            LoadProgress::Started { path } => (path, RowState::Loading, String::new()),
            LoadProgress::Finished { path, result } => match result {
                Ok(_) => (path, RowState::Succeeded, String::new()),
                Err(m) => (path, RowState::Failed, m),
            },
        };
        assert(path@ == pv.0 && state == pv.1 && detail@ == pv.2);
        match position_of(&self.rows, &path) {
            Some(i) => {
                let ghost before = row_views(self.rows@);
                let keep = string_of(&chars_of(self.rows[i].path.as_str()));
                let row = Row { path: keep, state, detail };
                self.rows.set(i, row);
                assert(row_views(self.rows@) =~= before.update(
                    i as int,
                    (old(self).rows@[i as int].path@, state, row.detail@),
                ));
            },
            None => {},
        }
    }

    /// Shows the results of a finished load and remembers the failed
    /// packages for a retry; whether all succeeded.
    pub fn finish(&mut self, summary: LoadSummary) -> (r: bool)
        ensures
            final(self).retry_uses_localboost == old(self).retry_uses_localboost,
            final(self).rows@.len() == summary.results@.len(),
            forall|k: int|
                0 <= k < summary.results@.len() ==> {
                    &&& (#[trigger] final(self).rows@[k]).path@ == summary.results@[k].path@
                    &&& final(self).rows@[k].state == if summary.results@[k].result is Ok {
                        RowState::Succeeded
                    } else {
                        RowState::Failed
                    }
                },
            path_views(final(self).failed_paths@) == failed_paths_of(
                summary.results@,
                summary.results@.len() as int,
            ),
            r == (final(self).failed_paths@.len() == 0),
    {
        let ghost results = summary.results@;
        let mut rows: Vec<Row> = Vec::new();
        let mut failed: Vec<String> = Vec::new();
        let mut rest = summary.results;
        let n = rest.len();
        let mut i: usize = 0;
        assert(rest@ =~= results.skip(0));
        while rest.len() > 0
            invariant
                i + rest@.len() == n,
                n == results.len(),
                rest@ == results.skip(i as int),
                rows@.len() == i,
                forall|k: int|
                    0 <= k < i ==> {
                        &&& (#[trigger] rows@[k]).path@ == results[k].path@
                        &&& rows@[k].state == if results[k].result is Ok {
                            RowState::Succeeded
                        } else {
                            RowState::Failed
                        }
                    },
                path_views(failed@) == failed_paths_of(results, i as int),
            decreases rest.len(),
        {
            let ghost before = rest@;
            let r = rest.remove(0);
            assert(r == results[i as int]) by {
                assert(before[0] == results.skip(i as int)[0]);
            }
            assert(rest@ =~= results.skip(i + 1));
            let ghost old_failed = path_views(failed@);
            let row = match r.result {
                Ok(_) => Row { path: r.path, state: RowState::Succeeded, detail: String::new() },
                Err(e) => {
                    failed.push(string_of(&chars_of(r.path.as_str())));
                    Row { path: r.path, state: RowState::Failed, detail: e.to_string() }
                },
            };
            assert(path_views(failed@) =~= failed_paths_of(results, i + 1));
            rows.push(row);
            i = i + 1;
        }
        self.rows = rows;
        self.failed_paths = failed;
        self.failed_paths.len() == 0
    }

    /// A load that could not start fails every input with one message.
    pub fn fail_to_start(&mut self, inputs: Vec<String>, error: EliError)
        ensures
            final(self).retry_uses_localboost == old(self).retry_uses_localboost,
            path_views(final(self).failed_paths@) == path_views(inputs@),
            final(self).rows@.len() == inputs@.len(),
            forall|k: int|
                0 <= k < inputs@.len() ==> (#[trigger] final(self).rows@[k]).path@ == inputs@[k]@
                    && final(self).rows@[k].state == RowState::Failed
                    && final(self).rows@[k].detail@ == error.message@,
    {
        let mut rows: Vec<Row> = Vec::new();
        let mut i: usize = 0;
        while i < inputs.len()
            invariant
                i <= inputs@.len(),
                rows@.len() == i,
                forall|k: int|
                    0 <= k < i ==> (#[trigger] rows@[k]).path@ == inputs@[k]@ && rows@[k].state
                        == RowState::Failed && rows@[k].detail@ == error.message@,
            decreases inputs.len() - i,
        {
            rows.push(
                Row {
                    path: string_of(&chars_of(inputs[i].as_str())),
                    state: RowState::Failed,
                    detail: error.to_string(),
                },
            );
            i = i + 1;
        }
        self.rows = rows;
        self.failed_paths = inputs;
    }
}

/// A row as the window draws it.
#[derive(Debug)]
pub struct DisplayRow {
    pub label: String,
    pub icon_color: (u8, u8, u8),
    pub show_status: bool,
    pub loading: bool,
    pub detail: String,
}

/// The icon colour of a row, whether it shows its status, and whether it
/// spins.
pub open spec fn row_style(state: RowState) -> ((u8, u8, u8), bool, bool) {
    match state {
        RowState::Waiting => ((17u8, 24u8, 39u8), false, false),
        RowState::Loading => ((37u8, 99u8, 235u8), false, true),
        RowState::Succeeded => ((22u8, 163u8, 74u8), true, false),
        RowState::Failed => ((220u8, 38u8, 38u8), true, false),
    }
}

impl GuiState {
    /// The rows as the window draws them, in order.
    pub fn rows(&self) -> (r: Vec<DisplayRow>)
        ensures
            r@.len() == self.rows@.len(),
            forall|k: int|
                0 <= k < r@.len() ==> {
                    &&& (#[trigger] r@[k]).label@ == label_text(self.rows@[k].path@)
                    &&& (r@[k].icon_color, r@[k].show_status, r@[k].loading) == row_style(
                        self.rows@[k].state,
                    )
                    &&& r@[k].detail@ == self.rows@[k].detail@
                },
    {
        let mut out: Vec<DisplayRow> = Vec::new();
        let mut i: usize = 0;
        while i < self.rows.len()
            invariant
                i <= self.rows@.len(),
                out@.len() == i,
                forall|k: int|
                    0 <= k < i ==> {
                        &&& (#[trigger] out@[k]).label@ == label_text(self.rows@[k].path@)
                        &&& (out@[k].icon_color, out@[k].show_status, out@[k].loading)
                            == row_style(self.rows@[k].state)
                        &&& out@[k].detail@ == self.rows@[k].detail@
                    },
            decreases self.rows.len() - i,
        {
            let row = &self.rows[i];
            let (icon_color, show_status, loading) = match row.state {
                RowState::Waiting => ((17u8, 24u8, 39u8), false, false),
                RowState::Loading => ((37u8, 99u8, 235u8), false, true),
                RowState::Succeeded => ((22u8, 163u8, 74u8), true, false),
                RowState::Failed => ((220u8, 38u8, 38u8), true, false),
            };
            out.push(
                DisplayRow {
                    label: file_label(row.path.as_str()),
                    icon_color,
                    show_status,
                    loading,
                    detail: string_of(&chars_of(row.detail.as_str())),
                },
            );
            i = i + 1;
        }
        out
    }

    /// Starts a load from the window: a plain load after a failure retries
    /// only the failed packages, the way they were loaded; otherwise all
    /// `inputs` load. The packages and whether LocalBoost loads them.
    pub fn start_attempt(&mut self, inputs: Vec<String>, localboost: bool) -> (r: (Vec<String>, bool))
        ensures
            !localboost && old(self).failed_paths@.len() > 0 ==> path_views(r.0@) == path_views(
                old(self).failed_paths@,
            ) && r.1 == old(self).retry_uses_localboost,
            !(!localboost && old(self).failed_paths@.len() > 0) ==> path_views(r.0@) == path_views(
                inputs@,
            ) && r.1 == localboost,
            waiting_rows(final(self).rows@, path_views(r.0@)),
            final(self).failed_paths@.len() == 0,
            final(self).retry_uses_localboost == r.1,
    {
        let (attempt, with_localboost) = if !localboost && self.failed_paths.len() > 0 {
            (copy_paths(&self.failed_paths), self.retry_uses_localboost)
        } else {
            (copy_paths(&inputs), localboost)
        };
        self.begin(copy_paths(&attempt), with_localboost);
        (attempt, with_localboost)
    }
}

fn copy_paths(paths: &Vec<String>) -> (r: Vec<String>)
    ensures
        path_views(r@) == path_views(paths@),
{
    let mut out: Vec<String> = Vec::new();
    let mut i: usize = 0;
    while i < paths.len()
        invariant
            i <= paths@.len(),
            out@.len() == i,
            path_views(out@) == path_views(paths@).take(i as int),
        decreases paths.len() - i,
    {
        let ghost before = out@;
        out.push(string_of(&chars_of(paths[i].as_str())));
        assert(out@ == before.push(out@.last()));
        assert forall|k: int| 0 <= k < i + 1 implies path_views(out@)[k] == path_views(paths@).take(i + 1)[k] by {
            if k < i {
                assert(out@[k] == before[k]);
            }
        }
        assert(path_views(out@) =~= path_views(paths@).take(i + 1));
        i = i + 1;
    }
    assert(path_views(paths@).take(paths@.len() as int) =~= path_views(paths@));
    out
}

/// How an attempt treats LocalBoost packages: loads them when it is a
/// LocalBoost attempt, otherwise as configured.
pub fn attempt_handling(attempt_localboost: bool, configured: LocalBoostHandling) -> (r:
    LocalBoostHandling)
    ensures
        r == if attempt_localboost {
            LocalBoostHandling::Load
        } else {
            configured
        },
{
    if attempt_localboost {
        LocalBoostHandling::Load
    } else {
        configured
    }
}

/// What the window says after some packages failed.
pub fn retry_prompt() -> (r: &'static str)
    ensures
        r@ == "部分插件包加载失败，请重试"@,
{
    "部分插件包加载失败，请重试"
}

/// The paths of the failed results among the first `n`, in order.
pub open spec fn failed_paths_of(results: Seq<LoadResult>, n: int) -> Seq<Seq<char>>
    decreases n,
{
    if n <= 0 {
        Seq::empty()
    } else if results[n - 1].result is Err {
        failed_paths_of(results, n - 1).push(results[n - 1].path@)
    } else {
        failed_paths_of(results, n - 1)
    }
}

} // verus!
