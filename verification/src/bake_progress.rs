//! What the command line shows while a loadscreen bake runs: an overall
//! bar and a bar per running job on a terminal, plain lines otherwise.
//!
//! The board decides; the caller draws the bars and prints the lines.
use crate::cli::{duration_string, duration_text, job_label};
use crate::loadscreen::{BakeEvent, BakeJobPhase};
use crate::text::{chars_of, concat, decimal, decimal_chars, string_of};
use vstd::prelude::*;

verus! {

/// No more job bars than this are shown at once.
pub const MAX_VISIBLE_JOB_BARS: usize = 8;

/// One thing to do to the display.
#[derive(Debug)]
pub enum BarAction {
    /// Add the overall bar, `total` long, with a prefix.
    AddOverall { total: u64, prefix: String },
    /// Add a spinner for a job, with its file name and a first message.
    AddJob { progress_mark: u16, prefix: String, message: String },
    /// Change what a job's spinner says.
    SetJobMessage { progress_mark: u16, message: String },
    /// Take a finished job's spinner away.
    FinishJob { progress_mark: u16 },
    /// Leave a job's spinner behind with a message.
    AbandonJob { progress_mark: u16, message: String },
    /// Update the overall bar's message and position.
    SetOverall { message: String, position: u64 },
    /// Complete the overall bar.
    FinishOverall,
    /// Leave the overall bar behind with a message.
    AbandonOverall { message: String },
    /// Print a line on standard error.
    Print { line: String },
}

/// The bars on the display.
pub struct BakeProgressBoard {
    pub interactive: bool,
    /// Whether the overall bar is shown, and where it stands.
    pub overall: Option<u64>,
    /// The progress marks of the jobs with a spinner, oldest first.
    pub jobs: Vec<u16>,
}

pub open spec fn marks_distinct(jobs: Seq<u16>) -> bool {
    forall|i: int, j: int| 0 <= i < j < jobs.len() ==> jobs[i] != jobs[j]
}

/// At most `MAX_VISIBLE_JOB_BARS` spinners, none twice.
pub open spec fn board_ok(jobs: Seq<u16>) -> bool {
    jobs.len() <= MAX_VISIBLE_JOB_BARS && marks_distinct(jobs)
}

pub open spec fn phase_word(phase: BakeJobPhase) -> Seq<char> {
    match phase {
        BakeJobPhase::Blur => "模糊"@,
        BakeJobPhase::Encode => "编码"@,
        BakeJobPhase::Write => "写入"@,
    }
}

pub open spec fn started_line(total: nat, workers: nat) -> Seq<char> {
    "Baking "@ + decimal(total) + " loadscreen images with "@ + decimal(workers) + " "@ + (
    if workers == 1 {
        "job"@
    } else {
        "jobs"@
    })
}

pub open spec fn finished_line(
    completed: nat,
    total: nat,
    file_name: Seq<char>,
    secs: nat,
    nanos: nat,
) -> Seq<char> {
    "["@ + decimal(completed) + "/"@ + decimal(total) + "] "@ + file_name + " completed in "@
        + duration_text(secs, nanos)
}

pub open spec fn overall_prefix(workers: nat) -> Seq<char> {
    "总体 · "@ + decimal(workers) + " "@ + if workers == 1 {
        "job"@
    } else {
        "jobs"@
    }
}

/// The marks with `mark` taken out.
pub open spec fn without(jobs: Seq<u16>, mark: u16) -> Seq<u16>
    decreases jobs.len(),
{
    if jobs.len() == 0 {
        jobs
    } else if jobs[0] == mark {
        without(jobs.drop_first(), mark)
    } else {
        seq![jobs[0]] + without(jobs.drop_first(), mark)
    }
}

pub open spec fn print_of(a: BarAction, line: Seq<char>) -> bool {
    match a {
        BarAction::Print { line: l } => l@ == line,
        _ => false,
    }
}

pub open spec fn add_overall_of(a: BarAction, total: u64, prefix: Seq<char>) -> bool {
    match a {
        BarAction::AddOverall { total: t, prefix: p } => t == total && p@ == prefix,
        _ => false,
    }
}

pub open spec fn add_job_of(a: BarAction, mark: u16, prefix: Seq<char>, message: Seq<char>) -> bool {
    match a {
        BarAction::AddJob { progress_mark: m, prefix: p, message: t } => m == mark && p@ == prefix
            && t@ == message,
        _ => false,
    }
}

pub open spec fn job_message_of(a: BarAction, mark: u16, message: Seq<char>) -> bool {
    match a {
        BarAction::SetJobMessage { progress_mark: m, message: t } => m == mark && t@ == message,
        _ => false,
    }
}

pub open spec fn finish_job_of(a: BarAction, mark: u16) -> bool {
    match a {
        BarAction::FinishJob { progress_mark: m } => m == mark,
        _ => false,
    }
}

pub open spec fn abandon_job_of(a: BarAction, mark: u16, message: Seq<char>) -> bool {
    match a {
        BarAction::AbandonJob { progress_mark: m, message: t } => m == mark && t@ == message,
        _ => false,
    }
}

pub open spec fn set_overall_of(a: BarAction, message: Seq<char>, position: u64) -> bool {
    match a {
        BarAction::SetOverall { message: t, position: p } => t@ == message && p == position,
        _ => false,
    }
}

pub open spec fn abandon_overall_of(a: BarAction, message: Seq<char>) -> bool {
    match a {
        BarAction::AbandonOverall { message: t } => t@ == message,
        _ => false,
    }
}

/// What handling `event` does: the spinners and overall bar after it, and
/// the actions on the display, in order.
pub open spec fn handled(
    interactive: bool,
    jobs: Seq<u16>,
    overall: Option<u64>,
    event: BakeEvent,
    new_jobs: Seq<u16>,
    new_overall: Option<u64>,
    acts: Seq<BarAction>,
) -> bool {
    if !interactive {
        &&& new_jobs == jobs
        &&& new_overall == overall
        &&& match event {
            BakeEvent::Started { total, workers } => acts.len() == 1 && print_of(
                acts[0],
                started_line(total as nat, workers as nat),
            ),
            BakeEvent::JobFinished {
                file_name,
                completed,
                total,
                elapsed_secs,
                elapsed_nanos,
                ..
            } => acts.len() == 1 && print_of(
                acts[0],
                finished_line(
                    completed as nat,
                    total as nat,
                    file_name@,
                    elapsed_secs as nat,
                    elapsed_nanos as nat,
                ),
            ),
            BakeEvent::JobFailed { file_name, error, .. } => acts.len() == 1 && print_of(
                acts[0],
                file_name@ + " failed: "@ + error@,
            ),
            _ => acts.len() == 0,
        }
    } else {
        match event {
            BakeEvent::Started { total, workers } => {
                &&& new_overall == Some(0u64)
                &&& new_jobs == jobs
                &&& acts.len() == 1
                &&& add_overall_of(acts[0], total as u64, overall_prefix(workers as nat))
            },
            BakeEvent::JobStarted { progress_mark, file_name } => {
                &&& new_overall == overall
                &&& if jobs.len() >= MAX_VISIBLE_JOB_BARS {
                    new_jobs == jobs && acts.len() == 0
                } else {
                    &&& new_jobs == without(jobs, progress_mark).push(progress_mark)
                    &&& acts.len() == 1
                    &&& add_job_of(acts[0], progress_mark, file_name@, "等待"@)
                }
            },
            BakeEvent::JobPhase { progress_mark, phase } => {
                &&& new_overall == overall
                &&& new_jobs == jobs
                &&& if jobs.contains(progress_mark) {
                    acts.len() == 1 && job_message_of(acts[0], progress_mark, phase_word(phase))
                } else {
                    acts.len() == 0
                }
            },
            BakeEvent::JobFinished {
                progress_mark,
                file_name,
                completed,
                elapsed_secs,
                elapsed_nanos,
                ..
            } => {
                let n: int = if jobs.contains(progress_mark) {
                    1
                } else {
                    0
                };
                &&& new_jobs == without(jobs, progress_mark)
                &&& n == 1 ==> finish_job_of(acts[0], progress_mark)
                &&& match overall {
                    Some(p) => {
                        let np = if p >= completed as u64 {
                            p
                        } else {
                            completed as u64
                        };
                        &&& new_overall == Some(np)
                        &&& acts.len() == n + 1
                        &&& set_overall_of(
                            acts[n],
                            file_name@ + " 完成 · "@ + duration_text(
                                elapsed_secs as nat,
                                elapsed_nanos as nat,
                            ),
                            np,
                        )
                    },
                    None => new_overall is None && acts.len() == n,
                }
            },
            BakeEvent::JobFailed { progress_mark, error, .. } => {
                &&& new_overall == overall
                &&& new_jobs == without(jobs, progress_mark)
                &&& if jobs.contains(progress_mark) {
                    acts.len() == 1 && abandon_job_of(
                        acts[0],
                        progress_mark,
                        "失败 · "@ + error@,
                    )
                } else {
                    acts.len() == 0
                }
            },
            BakeEvent::Finished { .. } => {
                &&& new_overall is None
                &&& new_jobs == jobs
                &&& if overall is Some {
                    acts.len() == 1 && acts[0] is FinishOverall
                } else {
                    acts.len() == 0
                }
            },
            BakeEvent::Aborted => {
                &&& new_overall is None
                &&& new_jobs.len() == 0
                &&& acts.len() == jobs.len() + if overall is Some {
                    1int
                } else {
                    0int
                }
                &&& forall|k: int|
                    0 <= k < jobs.len() ==> abandon_job_of(#[trigger] acts[k], jobs[k], "取消"@)
                &&& overall is Some ==> abandon_overall_of(acts[jobs.len() as int], "烘焙失败"@)
            },
        }
    }
}

proof fn lemma_without_absent(jobs: Seq<u16>, mark: u16)
    requires
        !jobs.contains(mark),
    ensures
        without(jobs, mark) == jobs,
    decreases jobs.len(),
{
    if jobs.len() > 0 {
        assert(jobs[0] != mark);
        assert(!jobs.drop_first().contains(mark)) by {
            if jobs.drop_first().contains(mark) {
                let k = choose|k: int| 0 <= k < jobs.drop_first().len() && jobs.drop_first()[k] == mark;
                assert(jobs[k + 1] == mark);
            }
        }
        lemma_without_absent(jobs.drop_first(), mark);
        assert(jobs =~= seq![jobs[0]] + jobs.drop_first());
    }
}

proof fn lemma_without_at(jobs: Seq<u16>, mark: u16, i: int)
    requires
        marks_distinct(jobs),
        0 <= i < jobs.len(),
        jobs[i] == mark,
    ensures
        without(jobs, mark) == jobs.remove(i),
    decreases jobs.len(),
{
    let rest = jobs.drop_first();
    assert(marks_distinct(rest));
    if i == 0 {
        assert(!rest.contains(mark)) by {
            if rest.contains(mark) {
                let k = choose|k: int| 0 <= k < rest.len() && rest[k] == mark;
                assert(jobs[k + 1] == jobs[0]);
            }
        }
        lemma_without_absent(rest, mark);
        assert(jobs.remove(0) =~= rest);
    } else {
        assert(jobs[0] != mark);
        lemma_without_at(rest, mark, i - 1);
        assert(jobs.remove(i) =~= seq![jobs[0]] + rest.remove(i - 1));
    }
}

fn find_mark(jobs: &Vec<u16>, mark: u16) -> (r: Option<usize>)
    ensures
        match r {
            Some(i) => i < jobs@.len() && jobs@[i as int] == mark,
            None => !jobs@.contains(mark),
        },
{
    let mut i: usize = 0;
    while i < jobs.len()
        invariant
            i <= jobs@.len(),
            forall|k: int| 0 <= k < i ==> jobs@[k] != mark,
        decreases jobs.len() - i,
    {
        if jobs[i] == mark {
            return Some(i);
        }
        i = i + 1;
    }
    None
}

/// Takes `mark` out of the spinners, saying whether it was there.
fn take_mark(jobs: &mut Vec<u16>, mark: u16) -> (found: bool)
    requires
        board_ok(old(jobs)@),
    ensures
        found == old(jobs)@.contains(mark),
        final(jobs)@ == without(old(jobs)@, mark),
        board_ok(final(jobs)@),
        !final(jobs)@.contains(mark),
        final(jobs)@.len() == old(jobs)@.len() - if found {
            1int
        } else {
            0int
        },
{
    match find_mark(jobs, mark) {
        Some(i) => {
            proof {
                lemma_without_at(jobs@, mark, i as int);
            }
            let ghost before = jobs@;
            jobs.remove(i);
            assert(!jobs@.contains(mark)) by {
                if jobs@.contains(mark) {
                    let k = choose|k: int| 0 <= k < jobs@.len() && jobs@[k] == mark;
                    if k < i {
                        assert(before[k] == before[i as int]);
                    } else {
                        assert(before[k + 1] == before[i as int]);
                    }
                }
            }
            assert(marks_distinct(jobs@)) by {
                assert forall|a: int, b: int| 0 <= a < b < jobs@.len() implies jobs@[a]
                    != jobs@[b] by {
                    let a2 = if a < i {
                        a
                    } else {
                        a + 1
                    };
                    let b2 = if b < i {
                        b
                    } else {
                        b + 1
                    };
                    assert(jobs@[a] == before[a2] && jobs@[b] == before[b2]);
                }
            }
            true
        },
        None => {
            proof {
                lemma_without_absent(jobs@, mark);
            }
            false
        },
    }
}

fn text(parts: &Vec<Vec<char>>) -> (r: String)
    ensures
        r@ == parts@.fold_left(Seq::<char>::empty(), |acc: Seq<char>, p: Vec<char>| acc + p@),
{
    let mut out: Vec<char> = Vec::new();
    let mut i: usize = 0;
    while i < parts.len()
        invariant
            i <= parts@.len(),
            out@ == parts@.subrange(0, i as int).fold_left(
                Seq::<char>::empty(),
                |acc: Seq<char>, p: Vec<char>| acc + p@,
            ),
        decreases parts.len() - i,
    {
        proof {
            assert(parts@.subrange(0, i + 1).drop_last() =~= parts@.subrange(0, i as int));
        }
        out = concat(&out, &parts[i]);
        i = i + 1;
    }
    assert(parts@.subrange(0, parts@.len() as int) =~= parts@);
    string_of(&out)
}

impl BakeProgressBoard {
    pub fn new(interactive: bool) -> (r: BakeProgressBoard)
        ensures
            r.interactive == interactive,
            r.overall is None,
            r.jobs@.len() == 0,
            board_ok(r.jobs@),
    {
        BakeProgressBoard { interactive, overall: None, jobs: Vec::new() }
    }

    /// What the display does for one bake event; the spinners stay at most
    /// `MAX_VISIBLE_JOB_BARS`, none twice.
    pub fn handle(&mut self, event: BakeEvent) -> (actions: Vec<BarAction>)
        requires
            board_ok(old(self).jobs@),
            event matches BakeEvent::JobFinished { elapsed_nanos, .. } ==> elapsed_nanos
                < 1_000_000_000,
        ensures
            board_ok(final(self).jobs@),
            final(self).interactive == old(self).interactive,
            handled(
                old(self).interactive,
                old(self).jobs@,
                old(self).overall,
                event,
                final(self).jobs@,
                final(self).overall,
                actions@,
            ),
    {
        let ghost ev = event;
        let mut actions: Vec<BarAction> = Vec::new();
        if !self.interactive {
            match event {
                BakeEvent::Started { total, workers } => {
                    let mut parts: Vec<Vec<char>> = Vec::new();
                    parts.push(chars_of("Baking "));
                    parts.push(decimal_chars(total as u64));
                    parts.push(chars_of(" loadscreen images with "));
                    parts.push(decimal_chars(workers as u64));
                    parts.push(chars_of(" "));
                    parts.push(chars_of(job_label(workers)));
                    let line = text(&parts);
                    proof {
                        reveal_with_fuel(Seq::fold_left, 7);
                    }
                    actions.push(BarAction::Print { line });
                },
                BakeEvent::JobFinished {
                    file_name,
                    completed,
                    total,
                    elapsed_secs,
                    elapsed_nanos,
                    ..
                } => {
                    let mut parts: Vec<Vec<char>> = Vec::new();
                    parts.push(chars_of("["));
                    parts.push(decimal_chars(completed as u64));
                    parts.push(chars_of("/"));
                    parts.push(decimal_chars(total as u64));
                    parts.push(chars_of("] "));
                    parts.push(chars_of(file_name.as_str()));
                    parts.push(chars_of(" completed in "));
                    parts.push(chars_of(duration_string(elapsed_secs, elapsed_nanos).as_str()));
                    let line = text(&parts);
                    proof {
                        reveal_with_fuel(Seq::fold_left, 9);
                    }
                    actions.push(BarAction::Print { line });
                },
                BakeEvent::JobFailed { file_name, error, .. } => {
                    let mut parts: Vec<Vec<char>> = Vec::new();
                    parts.push(chars_of(file_name.as_str()));
                    parts.push(chars_of(" failed: "));
                    parts.push(chars_of(error.as_str()));
                    let line = text(&parts);
                    proof {
                        reveal_with_fuel(Seq::fold_left, 4);
                    }
                    actions.push(BarAction::Print { line });
                },
                _ => {},
            }
            return actions;
        }
        match event {
            BakeEvent::Started { total, workers } => {
                let mut prefix = concat(&chars_of("总体 · "), &decimal_chars(workers as u64));
                prefix = concat(&prefix, &chars_of(" "));
                prefix = concat(&prefix, &chars_of(job_label(workers)));
                actions.push(BarAction::AddOverall { total: total as u64, prefix: string_of(&prefix) });
                self.overall = Some(0);
            },
            BakeEvent::JobStarted { progress_mark, file_name } => {
                if self.jobs.len() >= MAX_VISIBLE_JOB_BARS {
                    return actions;
                }
                take_mark(&mut self.jobs, progress_mark);
                self.jobs.push(progress_mark);
                assert(marks_distinct(self.jobs@));
                actions.push(
                    BarAction::AddJob { progress_mark, prefix: file_name, message: "等待".to_owned() },
                );
            },
            BakeEvent::JobPhase { progress_mark, phase } => {
                if find_mark(&self.jobs, progress_mark).is_some() {
                    let word = match phase {
                        BakeJobPhase::Blur => "模糊",
                        BakeJobPhase::Encode => "编码",
                        BakeJobPhase::Write => "写入",
                    };
                    actions.push(
                        BarAction::SetJobMessage { progress_mark, message: word.to_owned() },
                    );
                }
            },
            BakeEvent::JobFinished {
                progress_mark,
                file_name,
                completed,
                elapsed_secs,
                elapsed_nanos,
                ..
            } => {
                if take_mark(&mut self.jobs, progress_mark) {
                    actions.push(BarAction::FinishJob { progress_mark });
                }
                match self.overall {
                    Some(p) => {
                        let c = completed as u64;
                        let np = if p >= c {
                            p
                        } else {
                            c
                        };
                        let message = crate::cli::completed_job_message(
                            file_name.as_str(),
                            elapsed_secs,
                            elapsed_nanos,
                        );
                        actions.push(BarAction::SetOverall { message, position: np });
                        self.overall = Some(np);
                    },
                    None => {},
                }
            },
            BakeEvent::JobFailed { progress_mark, error, .. } => {
                if take_mark(&mut self.jobs, progress_mark) {
                    let message = concat(&chars_of("失败 · "), &chars_of(error.as_str()));
                    actions.push(BarAction::AbandonJob { progress_mark, message: string_of(&message) });
                }
            },
            BakeEvent::Finished { .. } => {
                if self.overall.is_some() {
                    actions.push(BarAction::FinishOverall);
                }
                self.overall = None;
            },
            BakeEvent::Aborted => {
                let mut k: usize = 0;
                while k < self.jobs.len()
                    invariant
                        k <= self.jobs@.len(),
                        self.jobs@ == old(self).jobs@,
                        actions@.len() == k,
                        forall|j: int|
                            0 <= j < k ==> abandon_job_of(
                                #[trigger] actions@[j],
                                self.jobs@[j],
                                "取消"@,
                            ),
                    decreases self.jobs.len() - k,
                {
                    actions.push(
                        BarAction::AbandonJob { progress_mark: self.jobs[k], message: "取消".to_owned() },
                    );
                    k = k + 1;
                }
                if self.overall.is_some() {
                    actions.push(BarAction::AbandonOverall { message: "烘焙失败".to_owned() });
                }
                self.jobs = Vec::new();
                self.overall = None;
            },
        }
        actions
    }
}

} // verus!
