//! Boot load screens: how many frames a bake makes and what they are
//! called, how many workers bake them, and where the demo can play.
//!
//! Blurring frames, which takes floating point, happens at the edge of the
//! program.
pub use crate::dependency::RuntimeEnvironment;
use crate::error::{EliError, ErrorKind};
use crate::text::{chars_of, concat, decimal, decimal_chars, string_of};
use vstd::prelude::*;

verus! {

pub const DEFAULT_SLICES: u16 = 8;

pub const MAX_SLICES: u16 = 1000;

/// Accepts a slice count from 1 to `MAX_SLICES`.
pub fn validate_slices(slices: u16) -> (r: Result<(), EliError>)
    ensures
        match r {
            Ok(()) => 1 <= slices <= MAX_SLICES,
            Err(e) => !(1 <= slices <= MAX_SLICES) && e.kind == ErrorKind::InvalidInput && e.message@
                == "--slices must be between 1 and 1000"@,
        },
{
    if slices < 1 || slices > MAX_SLICES {
        return Err(
            EliError::new(
                ErrorKind::InvalidInput,
                "--slices must be between 1 and 1000".to_owned(),
            ),
        );
    }
    Ok(())
}

/// The progress, in thousandths, that frame `index` of `slices` shows,
/// rounded to the nearest.
pub open spec fn progress_mark(index: nat, slices: nat) -> nat {
    (index * 1000 + slices / 2) / slices
}

/// The mark of frame `index` of `slices`, kept to 16 bits; for a frame of
/// the bake (`index <= slices`) it is `progress_mark`.
pub fn rounded_progress_mark(index: u16, slices: u16) -> (r: u16)
    requires
        1 <= slices,
    ensures
        r == (((index as nat) * 1000 + (slices as nat) / 2) / (slices as nat)) as u16,
        index <= slices ==> r == progress_mark(index as nat, slices as nat),
{
    let i = index as u32;
    let s = slices as u32;
    assert(i * 1000 <= 65535 * 1000) by (nonlinear_arith)
        requires
            i <= 65535,
    ;
    let v = (i * 1000 + s / 2) / s;
    proof {
        let vi = v as int;
        let ii = i as int;
        let si = s as int;
        assert(vi == (ii * 1000 + si / 2) / si);
        if ii <= si {
            assert(vi <= 1000) by (nonlinear_arith)
                requires
                    vi == (ii * 1000 + si / 2) / si,
                    ii <= si,
                    si >= 1,
            {
                assert(ii * 1000 + si / 2 < (si * 1000 + si));
                assert((ii * 1000 + si / 2) / si <= (si * 1000 + si) / si);
                assert((si * 1000 + si) / si == 1001);
            }
        }
    }
    v as u16
}

/// Frame marks run from 0 to 1000 and strictly increase, so no two frames
/// of a bake share a file name.
pub proof fn lemma_progress_marks(slices: nat, index: nat)
    requires
        1 <= slices <= 1000,
        index < slices,
    ensures
        progress_mark(0, slices) == 0,
        progress_mark(slices, slices) == 1000,
        progress_mark(index, slices) < progress_mark(index + 1, slices),
{
    let h = slices / 2;
    assert(h < slices);
    assert(progress_mark(0, slices) == 0) by (nonlinear_arith)
        requires
            h == slices / 2,
            slices >= 1,
    {
        assert(h / slices == 0);
    }
    assert(progress_mark(slices, slices) == 1000) by (nonlinear_arith)
        requires
            h == slices / 2,
            slices >= 1,
    {
        assert((slices * 1000 + h) / slices == 1000);
    }
    let x = index * 1000 + h;
    assert(x / slices < (x + 1000) / slices) by (nonlinear_arith)
        requires
            1 <= slices <= 1000,
    {
        assert((x + slices) / slices == x / slices + 1);
        assert((x + slices) / slices <= (x + 1000) / slices);
    }
    assert(progress_mark(index + 1, slices) == (x + 1000) / slices);
}

/// Four digits, zero-padded.
pub open spec fn four_digits(n: nat) -> Seq<char> {
    let d = decimal(n);
    if d.len() >= 4 {
        d
    } else {
        Seq::new((4 - d.len()) as nat, |i: int| '0') + d
    }
}

/// The file name of the frame with a progress mark: `lsbp_0000.webp`.
pub open spec fn frame_file_name(mark: u16) -> Seq<char> {
    "lsbp_"@ + four_digits(mark as nat) + ".webp"@
}

pub fn frame_name(mark: u16) -> (r: String)
    ensures
        r@ == frame_file_name(mark),
{
    let d = decimal_chars(mark as u64);
    let mut padded: Vec<char> = Vec::new();
    let mut k: usize = d.len();
    while k < 4
        invariant
            d.len() <= k <= 4 || (k == d.len() && k > 4),
            padded@ == Seq::new((k - d.len()) as nat, |i: int| '0'),
        decreases 4 - k,
    {
        padded.push('0');
        k = k + 1;
        assert(padded@ =~= Seq::new((k - d.len()) as nat, |i: int| '0'));
    }
    let digits = concat(&padded, &d);
    proof {
        if d@.len() >= 4 {
            assert(padded@ =~= Seq::<char>::empty());
            assert(digits@ =~= d@);
        }
    }
    let mut out = concat(&chars_of("lsbp_"), &digits);
    out = concat(&out, &chars_of(".webp"));
    string_of(&out)
}

/// One frame of a bake: how far the load has come when it shows, and the
/// file it is written to. How strongly it is blurred is worked out beside
/// it, in floating point.
#[derive(Debug)]
pub struct Frame {
    pub progress_mark: u16,
    pub file_name: String,
}

/// The frames of a bake with `slices` intervals, from the most blurred
/// to the clear one.
pub fn frame_specs(slices: u16) -> (r: Vec<Frame>)
    requires
        1 <= slices,
    ensures
        r@.len() == slices + 1,
        forall|k: int|
            0 <= k <= slices ==> (#[trigger] r@[k]).progress_mark == progress_mark(
                k as nat,
                slices as nat,
            ) && r@[k].file_name@ == frame_file_name(r@[k].progress_mark),
{
    let mut frames: Vec<Frame> = Vec::new();
    let mut index: u16 = 0;
    loop
        invariant_except_break
            1 <= slices,
            index <= slices,
            frames@.len() == index,
            forall|k: int|
                0 <= k < index ==> (#[trigger] frames@[k]).progress_mark == progress_mark(
                    k as nat,
                    slices as nat,
                ) && frames@[k].file_name@ == frame_file_name(frames@[k].progress_mark),
        ensures
            frames@.len() == slices + 1,
            forall|k: int|
                0 <= k <= slices ==> (#[trigger] frames@[k]).progress_mark == progress_mark(
                    k as nat,
                    slices as nat,
                ) && frames@[k].file_name@ == frame_file_name(frames@[k].progress_mark),
        decreases slices - index,
    {
        let mark = rounded_progress_mark(index, slices);
        frames.push(Frame { progress_mark: mark, file_name: frame_name(mark) });
        if index == slices {
            break;
        }
        index = index + 1;
    }
    frames
}

pub const MAX_AUTOMATIC_WORKERS: usize = 4;

pub const WORKING_MEMORY_BUDGET: u64 = 536870912;

pub const ESTIMATED_BYTES_PER_WORKER_PIXEL: u64 = 16;

pub open spec fn sat_mul(a: nat, b: nat) -> nat {
    if a * b > u64::MAX {
        u64::MAX as nat
    } else {
        a * b
    }
}

pub open spec fn min(a: int, b: int) -> int {
    if a < b {
        a
    } else {
        b
    }
}

pub open spec fn max(a: int, b: int) -> int {
    if a > b {
        a
    } else {
        b
    }
}

/// Workers for a bake: no more than frames, than requested (by default the
/// available parallelism up to four), and than the memory budget allows;
/// at least one.
pub open spec fn workers(
    width: nat,
    height: nat,
    frames: nat,
    requested: Option<nat>,
    parallelism: nat,
) -> int {
    let per_worker = max(
        sat_mul(sat_mul(width, height), ESTIMATED_BYTES_PER_WORKER_PIXEL as nat) as int,
        1,
    );
    let memory = max(WORKING_MEMORY_BUDGET as int / per_worker, 1);
    let wanted = match requested {
        Some(j) => j as int,
        None => min(parallelism as int, MAX_AUTOMATIC_WORKERS as int),
    };
    max(min(min(frames as int, wanted), memory), 1)
}

pub fn worker_count(
    width: u32,
    height: u32,
    frame_count: usize,
    requested_jobs: Option<usize>,
    parallelism: usize,
) -> (r: usize)
    ensures
        r == workers(
            width as nat,
            height as nat,
            frame_count as nat,
            match requested_jobs {
                Some(j) => Some(j as nat),
                None => None,
            },
            parallelism as nat,
        ),
{
    let w = width as u64;
    let h = height as u64;
    let pixels = match w.checked_mul(h) {
        Some(p) => p,
        None => u64::MAX,
    };
    let bytes = match pixels.checked_mul(ESTIMATED_BYTES_PER_WORKER_PIXEL) {
        Some(b) => b,
        None => u64::MAX,
    };
    let per_worker = if bytes > 1 {
        bytes
    } else {
        1
    };
    let memory_u64 = WORKING_MEMORY_BUDGET / per_worker;
    let memory: usize = if memory_u64 > 1 {
        memory_u64 as usize
    } else {
        1
    };
    let wanted = match requested_jobs {
        Some(j) => j,
        None => if parallelism < MAX_AUTOMATIC_WORKERS {
            parallelism
        } else {
            MAX_AUTOMATIC_WORKERS
        },
    };
    let mut n = if frame_count < wanted {
        frame_count
    } else {
        wanted
    };
    if memory < n {
        n = memory;
    }
    if n < 1 {
        n = 1;
    }
    n
}

/// The demo plays on Windows only, over a background image file.
pub fn play_demo(environment: RuntimeEnvironment, background: &str, background_is_file: bool) -> (r:
    Result<(), EliError>)
    ensures
        environment == RuntimeEnvironment::Other ==> (r matches Err(e) && e.kind
            == ErrorKind::Unsupported && e.message@
            == "loadscreen play requires a Windows environment"@),
        environment != RuntimeEnvironment::Other ==> match r {
            Ok(()) => background_is_file,
            Err(e) => !background_is_file && e.kind == ErrorKind::InvalidInput && e.message@
                == "loadscreen demo background is not a file: "@ + background@,
        },
{
    if environment == RuntimeEnvironment::Other {
        return Err(
            EliError::new(
                ErrorKind::Unsupported,
                "loadscreen play requires a Windows environment".to_owned(),
            ),
        );
    }
    if !background_is_file {
        let message = concat(&chars_of("loadscreen demo background is not a file: "), &chars_of(background));
        return Err(EliError::new(ErrorKind::InvalidInput, string_of(&message)));
    }
    Ok(())
}

/// What one bake job is doing.
#[derive(Clone, Copy, Debug, PartialEq, Eq, Structural)]
pub enum BakeJobPhase {
    Blur,
    Encode,
    Write,
}

/// What a bake reports while it runs.
#[derive(Debug)]
pub enum BakeEvent {
    Started { total: usize, workers: usize },
    JobStarted { progress_mark: u16, file_name: String },
    JobPhase { progress_mark: u16, phase: BakeJobPhase },
    JobFinished {
        progress_mark: u16,
        file_name: String,
        completed: usize,
        total: usize,
        elapsed_secs: u64,
        elapsed_nanos: u32,
    },
    JobFailed { progress_mark: u16, file_name: String, error: String },
    Finished { elapsed_secs: u64, elapsed_nanos: u32 },
    Aborted,
}

} // verus!
