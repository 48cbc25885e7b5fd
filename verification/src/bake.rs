//! The parts of a loadscreen bake that decide: which input images are
//! accepted, whether a PNG is animated, how transparent pixels are blurred,
//! which frames are made, where they are staged and how a bake ends.
use crate::bootdisk::Platform;
use crate::error::{EliError, ErrorKind};
use crate::loadscreen::Frame;
use crate::path::{components, components_of, join, join_path};
use crate::text::{chars_of, concat, decimal, decimal_chars, eq, string_of, views};
use vstd::prelude::*;

verus! {

/// The eight bytes that open every PNG file.
pub open spec fn png_signature() -> Seq<u8> {
    seq![137u8, 80u8, 78u8, 71u8, 13u8, 10u8, 26u8, 10u8]
}

/// A big-endian 32-bit number stored at `at`.
pub open spec fn be_u32(b: Seq<u8>, at: int) -> nat {
    (b[at] as nat) * 16777216 + (b[at + 1] as nat) * 65536 + (b[at + 2] as nat) * 256 + (
    b[at + 3] as nat)
}

/// Whether the four bytes at `at` spell `name`.
pub open spec fn tag_at(b: Seq<u8>, at: int, name: Seq<u8>) -> bool {
    b.subrange(at, at + 4) == name
}

pub open spec fn actl() -> Seq<u8> {
    seq![97u8, 99u8, 84u8, 76u8]
}

pub open spec fn idat() -> Seq<u8> {
    seq![73u8, 68u8, 65u8, 84u8]
}

pub open spec fn iend() -> Seq<u8> {
    seq![73u8, 69u8, 78u8, 68u8]
}

/// How a walk over the chunks of a PNG ends.
pub enum ChunkWalk {
    /// An animation control chunk comes before the image data.
    Animated,
    /// The image data, the end, or the end of the bytes comes first.
    Still,
    /// A chunk's length runs past the end of the bytes.
    Truncated,
    /// A chunk's end cannot be counted in 64 bits.
    Invalid,
}

/// Walks the chunks from `pos`: each has a length, a tag, the data and a
/// checksum, twelve bytes more than its length.
pub open spec fn walk_chunks(b: Seq<u8>, pos: nat) -> ChunkWalk
    decreases b.len() - pos,
{
    if pos + 12 > b.len() {
        ChunkWalk::Still
    } else {
        let end = pos + 12 + be_u32(b, pos as int);
        if end > u64::MAX {
            ChunkWalk::Invalid
        } else if end > b.len() {
            ChunkWalk::Truncated
        } else if tag_at(b, pos + 4int, actl()) {
            ChunkWalk::Animated
        } else if tag_at(b, pos + 4int, idat()) || tag_at(b, pos + 4int, iend()) {
            ChunkWalk::Still
        } else {
            walk_chunks(b, end)
        }
    }
}

/// What the check of a PNG file's bytes finds: too short for a signature,
/// no PNG at all (not animated), or the end of the chunk walk.
pub open spec fn png_animation(b: Seq<u8>) -> Result<bool, ErrorKind> {
    if b.len() < 8 {
        Err(ErrorKind::UnexpectedEof)
    } else if b.subrange(0, 8) != png_signature() {
        Ok(false)
    } else {
        match walk_chunks(b, 8) {
            ChunkWalk::Animated => Ok(true),
            ChunkWalk::Still => Ok(false),
            ChunkWalk::Truncated => Err(ErrorKind::InvalidData),
            ChunkWalk::Invalid => Err(ErrorKind::InvalidData),
        }
    }
}

pub open spec fn outcome<T>(r: Result<T, EliError>) -> Result<T, ErrorKind> {
    match r {
        Ok(v) => Ok(v),
        Err(e) => Err(e.kind),
    }
}

fn tag_is(b: &Vec<u8>, at: usize, t0: u8, t1: u8, t2: u8, t3: u8) -> (r: bool)
    requires
        at + 4 <= b.len(),
    ensures
        r == (b@.subrange(at as int, at + 4) == seq![t0, t1, t2, t3]),
{
    let r = b[at] == t0 && b[at + 1] == t1 && b[at + 2] == t2 && b[at + 3] == t3;
    assert(r == (b@.subrange(at as int, at + 4) =~= seq![t0, t1, t2, t3]));
    r
}

fn with_source(prefix: &str, source: &str) -> (r: String)
    ensures
        r@ == prefix@ + source@,
{
    string_of(&concat(&chars_of(prefix), &chars_of(source)))
}

/// Whether the PNG file `source`, whose bytes are `bytes`, holds an
/// animation: an `acTL` chunk before the image data.
/// What a PNG file that cannot be checked is answered: too short for a
/// signature, a chunk running past the end, or a chunk whose end cannot
/// be counted.
pub open spec fn png_refusal(source: Seq<char>, b: Seq<u8>) -> Seq<char> {
    if b.len() < 8 {
        "failed to fill whole buffer"@
    } else if walk_chunks(b, 8) is Truncated {
        "truncated PNG image: "@ + source
    } else {
        "invalid PNG chunk"@
    }
}

pub fn png_is_animated(source: &str, bytes: &Vec<u8>) -> (r: Result<bool, EliError>)
    ensures
        outcome(r) == png_animation(bytes@),
        r matches Err(e) ==> e.message@ == png_refusal(source@, bytes@),
{
    let length = bytes.len();
    if length < 8 {
        return Err(EliError::new(ErrorKind::UnexpectedEof, "failed to fill whole buffer".to_owned()));
    }
    if !tag_is(bytes, 0, 137, 80, 78, 71) || !tag_is(bytes, 4, 13, 10, 26, 10) {
        assert(bytes@.subrange(0, 8) != png_signature()) by {
            if bytes@.subrange(0, 8) == png_signature() {
                assert forall|j: int| 0 <= j < 8 implies bytes@[j] == png_signature()[j] by {
                    assert(bytes@.subrange(0, 8)[j] == bytes@[j]);
                }
                assert(bytes@.subrange(0, 4) =~= seq![137u8, 80u8, 78u8, 71u8]);
                assert(bytes@.subrange(4, 8) =~= seq![13u8, 10u8, 26u8, 10u8]);
            }
        }
        return Ok(false);
    }
    assert(bytes@.subrange(0, 8) =~= png_signature()) by {
        assert(bytes@.subrange(0, 4)[0] == bytes@[0]);
    }
    let mut position: usize = 8;
    while position <= length && length - position >= 12
        invariant
            8 <= position,
            length == bytes@.len(),
            bytes@.subrange(0, 8) == png_signature(),
            walk_chunks(bytes@, 8) == walk_chunks(bytes@, position as nat),
        decreases length - position,
    {
        let size: u64 = (bytes[position] as u64) * 16777216 + (bytes[position + 1] as u64) * 65536
            + (bytes[position + 2] as u64) * 256 + (bytes[position + 3] as u64);
        assert(size == be_u32(bytes@, position as int));
        let start = position as u64;
        let end = match start.checked_add(12) {
            Some(v) => v.checked_add(size),
            None => None,
        };
        let end = match end {
            Some(e) => e,
            None => {
                return Err(EliError::new(ErrorKind::InvalidData, "invalid PNG chunk".to_owned()));
            },
        };
        if end > length as u64 {
            return Err(
                EliError::new(ErrorKind::InvalidData, with_source("truncated PNG image: ", source)),
            );
        }
        if tag_is(bytes, position + 4, 97, 99, 84, 76) {
            return Ok(true);
        }
        if tag_is(bytes, position + 4, 73, 68, 65, 84) || tag_is(bytes, position + 4, 73, 69, 78, 68) {
            return Ok(false);
        }
        position = end as usize;
    }
    Ok(false)
}

/// The alpha of the pixel that byte `i` of an RGBA buffer belongs to.
pub open spec fn alpha_of(p: Seq<u8>, i: int) -> u8 {
    p[i - i % 4 + 3]
}

/// A colour channel scaled by its alpha, rounded to the nearest.
pub open spec fn premultiply_channel(c: u8, a: u8) -> u8 {
    ((c as int * a as int + 127) / 255) as u8
}

/// A premultiplied channel scaled back, rounded to the nearest and capped;
/// a fully transparent pixel turns black.
pub open spec fn unpremultiply_channel(c: u8, a: u8) -> u8 {
    if a == 0 {
        0
    } else {
        let v = (c as int * 255 + a as int / 2) / a as int;
        if v > 255 {
            255u8
        } else {
            v as u8
        }
    }
}

pub open spec fn premultiplied_byte(p: Seq<u8>, i: int) -> u8 {
    if i % 4 == 3 {
        p[i]
    } else {
        premultiply_channel(p[i], alpha_of(p, i))
    }
}

pub open spec fn unpremultiplied_byte(p: Seq<u8>, i: int) -> u8 {
    if i % 4 == 3 {
        p[i]
    } else {
        unpremultiply_channel(p[i], alpha_of(p, i))
    }
}

/// Every pixel of an RGBA buffer is fully opaque.
pub open spec fn opaque(p: Seq<u8>) -> bool {
    forall|i: int| 0 <= i < p.len() && i % 4 == 3 ==> #[trigger] p[i] == 255
}

fn premultiply(c: u8, a: u8) -> (r: u8)
    ensures
        r == premultiply_channel(c, a),
{
    assert((c as u32) * (a as u32) <= 65025) by (nonlinear_arith)
        requires
            c <= 255,
            a <= 255,
    ;
    let x = (c as u32) * (a as u32);
    let v = (x + 127) / 255;
    assert(v <= 255) by (nonlinear_arith)
        requires
            v == (x + 127) / 255,
            x <= 65025,
    ;
    v as u8
}

fn unpremultiply_value(c: u8, a: u8) -> (r: u8)
    ensures
        r == unpremultiply_channel(c, a),
{
    if a == 0 {
        return 0;
    }
    let v = ((c as u32) * 255 + (a as u32) / 2) / (a as u32);
    if v > 255 {
        255
    } else {
        v as u8
    }
}

/// The RGBA pixels with their colour scaled by alpha, so that blurring
/// does not bleed the colour of transparent pixels; `None` when every
/// pixel is opaque and there is nothing to scale.
pub fn premultiplied_source(pixels: &Vec<u8>) -> (r: Option<Vec<u8>>)
    requires
        pixels@.len() % 4 == 0,
    ensures
        opaque(pixels@) <==> r is None,
        r matches Some(q) ==> q@.len() == pixels@.len() && forall|i: int|
            0 <= i < pixels@.len() ==> #[trigger] q@[i] == premultiplied_byte(pixels@, i),
{
    let n = pixels.len();
    let mut k: usize = 0;
    while k < n
        invariant
            k <= n == pixels@.len(),
            k % 4 == 0,
            n % 4 == 0,
            forall|i: int| 0 <= i < k && i % 4 == 3 ==> #[trigger] pixels@[i] == 255,
        ensures
            k <= n,
            k % 4 == 0,
            forall|i: int| 0 <= i < k && i % 4 == 3 ==> #[trigger] pixels@[i] == 255,
            k == n || pixels@[k + 3] != 255,
        decreases n - k,
    {
        if pixels[k + 3] != 255 {
            break;
        }
        k = k + 4;
    }
    if k == n {
        return None;
    }
    assert(pixels@[k + 3] != 255 && (k + 3) % 4 == 3);
    let mut out: Vec<u8> = Vec::new();
    let mut j: usize = 0;
    while j < n
        invariant
            j <= n == pixels@.len(),
            j % 4 == 0,
            n % 4 == 0,
            out@.len() == j,
            forall|i: int| 0 <= i < j ==> #[trigger] out@[i] == premultiplied_byte(pixels@, i),
        decreases n - j,
    {
        let a = pixels[j + 3];
        out.push(premultiply(pixels[j], a));
        out.push(premultiply(pixels[j + 1], a));
        out.push(premultiply(pixels[j + 2], a));
        out.push(a);
        assert forall|i: int| j <= i < j + 4 implies #[trigger] out@[i] == premultiplied_byte(
            pixels@,
            i,
        ) by {
            assert(i % 4 == i - j);
        }
        j = j + 4;
    }
    Some(out)
}

/// Scales the colour of blurred, premultiplied RGBA pixels back by alpha.
pub fn unpremultiply(pixels: &mut Vec<u8>)
    requires
        old(pixels)@.len() % 4 == 0,
    ensures
        final(pixels)@.len() == old(pixels)@.len(),
        forall|i: int|
            0 <= i < old(pixels)@.len() ==> #[trigger] final(pixels)@[i] == unpremultiplied_byte(
                old(pixels)@,
                i,
            ),
{
    let ghost before = pixels@;
    let n = pixels.len();
    let mut j: usize = 0;
    while j < n
        invariant
            j <= n == pixels@.len() == before.len(),
            j % 4 == 0,
            n % 4 == 0,
            forall|i: int| 0 <= i < j ==> #[trigger] pixels@[i] == unpremultiplied_byte(before, i),
            forall|i: int| j <= i < n ==> #[trigger] pixels@[i] == before[i],
        decreases n - j,
    {
        let a = pixels[j + 3];
        let r = unpremultiply_value(pixels[j], a);
        let g = unpremultiply_value(pixels[j + 1], a);
        let b = unpremultiply_value(pixels[j + 2], a);
        pixels.set(j, r);
        pixels.set(j + 1, g);
        pixels.set(j + 2, b);
        assert forall|i: int| j <= i < j + 4 implies #[trigger] pixels@[i] == unpremultiplied_byte(
            before,
            i,
        ) by {
            assert(i % 4 == i - j);
        }
        j = j + 4;
    }
}

/// The formats an input image may come in, as the decoder guessed them.
#[derive(Clone, Copy, Debug, PartialEq, Eq, Structural)]
pub enum InputFormat {
    Jpeg,
    Png,
    WebP,
    Bmp,
    Tiff,
    Ico,
    Tga,
    Gif,
    /// Any other format the decoder knows.
    Other,
}

pub open spec fn format_accepted(f: InputFormat) -> bool {
    !(f is Gif || f is Other)
}

/// Accepts the static formats a bake reads; GIF and anything else is
/// refused.
pub fn validate_format(source: &str, format: InputFormat) -> (r: Result<(), EliError>)
    ensures
        r is Ok <==> format_accepted(format),
        r matches Err(e) ==> e.kind == ErrorKind::InvalidInput && e.message@ == if format is Gif {
            "GIF images are not supported: "@ + source@
        } else {
            "unsupported input image format: "@ + source@
        },
{
    match format {
        InputFormat::Gif => Err(
            EliError::new(
                ErrorKind::InvalidInput,
                with_source("GIF images are not supported: ", source),
            ),
        ),
        InputFormat::Other => Err(
            EliError::new(
                ErrorKind::InvalidInput,
                with_source("unsupported input image format: ", source),
            ),
        ),
        _ => Ok(()),
    }
}

/// A decoded image must have pixels in both directions.
pub fn check_dimensions(source: &str, width: u32, height: u32) -> (r: Result<(), EliError>)
    ensures
        r is Ok <==> (width > 0 && height > 0),
        r matches Err(e) ==> e.kind == ErrorKind::InvalidData && e.message@
            == "input image has an empty dimension: "@ + source@,
{
    if width == 0 || height == 0 {
        return Err(
            EliError::new(
                ErrorKind::InvalidData,
                with_source("input image has an empty dimension: ", source),
            ),
        );
    }
    Ok(())
}

/// The input image must be a regular file.
pub fn check_regular_file(source: &str, is_file: bool) -> (r: Result<(), EliError>)
    ensures
        r is Ok <==> is_file,
        r matches Err(e) ==> e.kind == ErrorKind::InvalidInput && e.message@
            == "input image is not a regular file: "@ + source@,
{
    if !is_file {
        return Err(
            EliError::new(
                ErrorKind::InvalidInput,
                with_source("input image is not a regular file: ", source),
            ),
        );
    }
    Ok(())
}

/// An animated input image is refused.
pub fn reject_animation(source: &str, animated: bool) -> (r: Result<(), EliError>)
    ensures
        r is Ok <==> !animated,
        r matches Err(e) ==> e.kind == ErrorKind::InvalidInput && e.message@
            == "animated images are not supported: "@ + source@,
{
    if animated {
        return Err(
            EliError::new(
                ErrorKind::InvalidInput,
                with_source("animated images are not supported: ", source),
            ),
        );
    }
    Ok(())
}

/// The name a path ends in, when it ends in a name rather than a root,
/// `.` or `..`.
pub open spec fn final_name(p: Seq<char>) -> Option<Seq<char>> {
    let cs = components(p);
    if cs.len() == 0 {
        None
    } else {
        let last = cs.last();
        if last.len() == 0 || last == "."@ || last == ".."@ {
            None
        } else {
            Some(last)
        }
    }
}

/// The name of the directory a bake creates; a path that names none is
/// refused.
pub fn output_name(directory: &str) -> (r: Result<String, EliError>)
    ensures
        match r {
            Ok(n) => final_name(directory@) == Some(n@),
            Err(e) => final_name(directory@) is None && e.kind == ErrorKind::InvalidInput
                && e.message@ == "output directory must name a new directory: "@ + directory@,
        },
{
    let cs = components_of(&chars_of(directory));
    proof {
        reveal_strlit(".");
        reveal_strlit("..");
    }
    if cs.len() > 0 {
        let last = &cs[cs.len() - 1];
        assert(views(cs@).last() == last@);
        let dot = vec!['.'];
        let dots = vec!['.', '.'];
        assert(dot@ =~= "."@);
        assert(dots@ =~= ".."@);
        if last.len() > 0 && !eq(last, &dot) && !eq(last, &dots) {
            return Ok(string_of(last));
        }
    }
    Err(
        EliError::new(
            ErrorKind::InvalidInput,
            with_source("output directory must name a new directory: ", directory),
        ),
    )
}

/// The components of `inner` begin with all those of `outer`.
pub open spec fn within(inner: Seq<char>, outer: Seq<char>) -> bool {
    let i = components(inner);
    let o = components(outer);
    o.len() <= i.len() && i.subrange(0, o.len() as int) == o
}

fn starts_with_all(i: &Vec<Vec<char>>, o: &Vec<Vec<char>>) -> (r: bool)
    ensures
        r == (views(o@).len() <= views(i@).len() && views(i@).subrange(0, views(o@).len() as int)
            == views(o@)),
{
    if o.len() > i.len() {
        return false;
    }
    let mut k: usize = 0;
    while k < o.len()
        invariant
            k <= o@.len() <= i@.len(),
            forall|j: int| 0 <= j < k ==> views(i@)[j] == views(o@)[j],
        decreases o.len() - k,
    {
        if !eq(&i[k], &o[k]) {
            assert(views(i@).subrange(0, views(o@).len() as int)[k as int] != views(o@)[k as int]);
            return false;
        }
        k = k + 1;
    }
    assert(views(i@).subrange(0, views(o@).len() as int) =~= views(o@));
    true
}

/// An input image inside the directory that a bake creates is refused.
pub fn check_source_outside(source: &str, destination: &str) -> (r: Result<(), EliError>)
    ensures
        r is Ok <==> !within(source@, destination@),
        r matches Err(e) ==> e.kind == ErrorKind::InvalidInput && e.message@
            == "input image must not be inside the output directory"@,
{
    let i = components_of(&chars_of(source));
    let o = components_of(&chars_of(destination));
    let inside = starts_with_all(&i, &o);
    if inside {
        return Err(
            EliError::new(
                ErrorKind::InvalidInput,
                "input image must not be inside the output directory".to_owned(),
            ),
        );
    }
    Ok(())
}

/// The lock file beside the output directory `name`.
pub fn lock_file_name(name: &str) -> (r: String)
    ensures
        r@ == "."@ + name@ + ".eli-loadscreen-bake.lock"@,
{
    let out = concat(&concat(&chars_of("."), &chars_of(name)), &chars_of(".eli-loadscreen-bake.lock"));
    string_of(&out)
}

/// The staging directory beside the output directory `name`, told apart by
/// the process and a sequence number.
pub fn staging_name(name: &str, process: u32, sequence: u64) -> (r: String)
    ensures
        r@ == "."@ + name@ + ".eli-staging-"@ + decimal(process as nat) + "-"@ + decimal(
            sequence as nat,
        ),
{
    let mut out = concat(&chars_of("."), &chars_of(name));
    out = concat(&out, &chars_of(".eli-staging-"));
    out = concat(&out, &decimal_chars(process as u64));
    out = concat(&out, &chars_of("-"));
    out = concat(&out, &decimal_chars(sequence));
    string_of(&out)
}

/// What is found where the output directory goes.
#[derive(Clone, Copy, Debug)]
pub struct DestinationState {
    pub exists: bool,
    pub is_symlink: bool,
    pub is_dir: bool,
    pub is_empty: bool,
}

pub open spec fn destination_outcome(s: DestinationState) -> Result<bool, ErrorKind> {
    if !s.exists {
        Ok(false)
    } else if s.is_symlink || !s.is_dir {
        Err(ErrorKind::AlreadyExists)
    } else if !s.is_empty {
        Err(ErrorKind::AlreadyExists)
    } else {
        Ok(true)
    }
}

/// Whether a bake may publish into `reported`: nothing there, or an empty
/// real directory, which is removed first (`Ok(true)`).
pub fn check_destination(reported: &str, state: DestinationState) -> (r: Result<bool, EliError>)
    ensures
        outcome(r) == destination_outcome(state),
        r matches Err(e) ==> e.message@ == if state.is_symlink || !state.is_dir {
            "output path is not an empty directory: "@ + reported@
        } else {
            "output directory is not empty: "@ + reported@
        },
{
    if !state.exists {
        return Ok(false);
    }
    if state.is_symlink || !state.is_dir {
        return Err(
            EliError::new(
                ErrorKind::AlreadyExists,
                with_source("output path is not an empty directory: ", reported),
            ),
        );
    }
    if !state.is_empty {
        return Err(
            EliError::new(ErrorKind::AlreadyExists, with_source("output directory is not empty: ", reported)),
        );
    }
    Ok(true)
}

/// How a bake ends once its workers stopped: a panic, then the first
/// failure, then unfinished jobs are errors, in this order.
pub fn finish_bake(panicked: bool, failures: Vec<EliError>, finished: usize, total: usize) -> (r:
    Result<(), EliError>)
    ensures
        panicked ==> (r matches Err(e) && e.kind == ErrorKind::Other && e.message@
            == "a loadscreen bake worker panicked"@),
        !panicked && failures@.len() > 0 ==> (r matches Err(e) && e == failures@[0]),
        !panicked && failures@.len() == 0 && finished != total ==> (r matches Err(e) && e.kind
            == ErrorKind::Other && e.message@ == "loadscreen bake stopped after completing "@
            + decimal(finished as nat) + " of "@ + decimal(total as nat) + " jobs"@),
        !panicked && failures@.len() == 0 && finished == total ==> r is Ok,
{
    if panicked {
        return Err(EliError::new(ErrorKind::Other, "a loadscreen bake worker panicked".to_owned()));
    }
    let mut failures = failures;
    if failures.len() > 0 {
        return Err(failures.remove(0));
    }
    if finished != total {
        let mut m = chars_of("loadscreen bake stopped after completing ");
        m = concat(&m, &decimal_chars(finished as u64));
        m = concat(&m, &chars_of(" of "));
        m = concat(&m, &decimal_chars(total as u64));
        m = concat(&m, &chars_of(" jobs"));
        return Err(EliError::new(ErrorKind::Other, string_of(&m)));
    }
    Ok(())
}

/// What a finished bake made.
#[derive(Debug)]
pub struct BakeResult {
    pub directory: String,
    pub files: Vec<String>,
    pub width: u32,
    pub height: u32,
    pub workers: usize,
    pub elapsed_secs: u64,
    pub elapsed_nanos: u32,
}

/// The result of a bake into `directory`: one file per frame, in frame
/// order.
pub fn bake_result(
    platform: Platform,
    directory: &str,
    frames: &Vec<Frame>,
    width: u32,
    height: u32,
    workers: usize,
    elapsed_secs: u64,
    elapsed_nanos: u32,
) -> (r: BakeResult)
    ensures
        r.directory@ == directory@,
        r.files@.len() == frames@.len(),
        forall|k: int|
            0 <= k < frames@.len() ==> (#[trigger] r.files@[k])@ == join(
                directory@,
                frames@[k].file_name@,
                platform == Platform::Windows,
            ),
        r.width == width,
        r.height == height,
        r.workers == workers,
        r.elapsed_secs == elapsed_secs,
        r.elapsed_nanos == elapsed_nanos,
{
    let windows = platform == Platform::Windows;
    let mut files: Vec<String> = Vec::new();
    let mut k: usize = 0;
    while k < frames.len()
        invariant
            k <= frames@.len(),
            windows == (platform == Platform::Windows),
            files@.len() == k,
            forall|j: int|
                0 <= j < k ==> (#[trigger] files@[j])@ == join(
                    directory@,
                    frames@[j].file_name@,
                    windows,
                ),
        decreases frames.len() - k,
    {
        files.push(join_path(directory, frames[k].file_name.as_str(), windows));
        k = k + 1;
    }
    BakeResult {
        directory: string_of(&chars_of(directory)),
        files,
        width,
        height,
        workers,
        elapsed_secs,
        elapsed_nanos,
    }
}

} // verus!
