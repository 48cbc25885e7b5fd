//! What the command line shows and accepts, apart from the commands
//! themselves: release labels, token checks, progress messages.
use crate::api::token_accepted;
use crate::error::{EliError, ErrorKind};
use crate::text::{
    chars_of, concat, decimal, decimal_chars, string_of, trim_by, trim_char, trim_end_by,
    trim_end_newlines,
};
use crate::version::{
    parse_identifier, parse_identifier_chars, EdgelessVersionIdentifier, ReleaseChannel,
    ReleaseStage,
};
use vstd::prelude::*;

verus! {

/// The release column of `bootdisk list`: the stage, marked when official.
pub open spec fn release_label(id: EdgelessVersionIdentifier) -> Seq<char> {
    let stage = match id.stage {
        ReleaseStage::Alpha => "Alpha"@,
        ReleaseStage::Beta => "Beta"@,
    };
    match id.channel {
        Some(ReleaseChannel::Official) => stage + "(Official)"@,
        None => stage,
    }
}

pub fn format_release(identifier: EdgelessVersionIdentifier) -> (r: String)
    ensures
        r@ == release_label(identifier),
{
    let stage = match identifier.stage {
        ReleaseStage::Alpha => chars_of("Alpha"),
        ReleaseStage::Beta => chars_of("Beta"),
    };
    match identifier.channel {
        Some(ReleaseChannel::Official) => string_of(&concat(&stage, &chars_of("(Official)"))),
        None => string_of(&stage),
    }
}

/// Reads a boot disk's version file, which may end in a line break.
pub fn parse_version_identifier(version: &str) -> (r: Result<EdgelessVersionIdentifier, EliError>)
    ensures
        match parse_identifier(trim_end_by(version@, |c: char| c == '\r' || c == '\n')) {
            Some(v) => r matches Ok(x) && x == v,
            None => r matches Err(e) && e.kind == ErrorKind::InvalidData,
        },
{
    let value = trim_end_newlines(&chars_of(version));
    match parse_identifier_chars(&value) {
        Some(id) => Ok(id),
        None => {
            let message = concat(&chars_of("invalid Edgeless version identifier: "), &value);
            Err(EliError::new(ErrorKind::InvalidData, string_of(&message)))
        },
    }
}

/// Alpha online operations need a token of 4 to 10 UTF-16 units.
pub fn require_alpha_token(token: Option<&str>) -> (r: Result<String, EliError>)
    ensures
        match token {
            Some(t) => if token_accepted(t@) {
                r matches Ok(x) && x@ == t@
            } else {
                r is Err
            },
            None => r is Err,
        },
        r matches Err(e) ==> e.kind == ErrorKind::InvalidInput && e.message@
            == "--token <TOKEN> with 4 to 10 characters is required for Alpha online operations"@,
{
    let message = "--token <TOKEN> with 4 to 10 characters is required for Alpha online operations";
    match token {
        Some(t) => match crate::api::validate_alpha_token(t) {
            Ok(()) => Ok(t.to_owned()),
            Err(_) => Err(EliError::new(ErrorKind::InvalidInput, message.to_owned())),
        },
        None => Err(EliError::new(ErrorKind::InvalidInput, message.to_owned())),
    }
}

/// Paths as a shell hands them over, without the quotes some shells leave
/// around them.
pub fn normalize_load_paths(paths: Vec<String>) -> (r: Vec<String>)
    ensures
        r@.len() == paths@.len(),
        forall|k: int|
            0 <= k < paths@.len() ==> (#[trigger] r@[k])@ == trim_by(paths@[k]@, |c: char| c == '"'),
{
    let mut out: Vec<String> = Vec::new();
    let mut i: usize = 0;
    while i < paths.len()
        invariant
            i <= paths@.len(),
            out@.len() == i,
            forall|k: int|
                0 <= k < i ==> (#[trigger] out@[k])@ == trim_by(paths@[k]@, |c: char| c == '"'),
        decreases paths.len() - i,
    {
        out.push(string_of(&trim_char(&chars_of(paths[i].as_str()), '"')));
        i = i + 1;
    }
    out
}

/// `job` or `jobs`.
pub fn job_label(count: usize) -> (r: &'static str)
    ensures
        r@ == if count == 1 {
            "job"@
        } else {
            "jobs"@
        },
{
    if count == 1 {
        "job"
    } else {
        "jobs"
    }
}

pub open spec fn two_digits(h: nat) -> Seq<char> {
    seq![crate::text::digit_char(h / 10), crate::text::digit_char(h % 10)]
}

/// A duration as `Duration`'s debug form with two decimals prints it: in
/// seconds, milliseconds, microseconds or nanoseconds, whichever is the
/// largest unit reached, rounded half up.
pub open spec fn duration_text(secs: nat, nanos: nat) -> Seq<char> {
    let whole: nat = if secs > 0 {
        secs
    } else if nanos >= 1_000_000 {
        nanos / 1_000_000
    } else if nanos >= 1000 {
        nanos / 1000
    } else {
        nanos
    };
    let frac: nat = if secs > 0 {
        nanos
    } else if nanos >= 1_000_000 {
        nanos % 1_000_000
    } else if nanos >= 1000 {
        nanos % 1000
    } else {
        0
    };
    let step: nat = if secs > 0 {
        10_000_000
    } else if nanos >= 1_000_000 {
        10_000
    } else if nanos >= 1000 {
        10
    } else {
        1
    };
    let unit = if secs > 0 {
        "s"@
    } else if nanos >= 1_000_000 {
        "ms"@
    } else if nanos >= 1000 {
        "\u{b5}s"@
    } else {
        "ns"@
    };
    let h = frac / step + if frac % step * 2 >= step && frac % step > 0 {
        1nat
    } else {
        0nat
    };
    let (w, f) = if h >= 100 {
        (whole + 1, (h - 100) as nat)
    } else {
        (whole, h)
    };
    decimal(w) + seq!['.'] + two_digits(f) + unit
}

/// A duration written as `{:.2?}` writes it.
pub fn duration_string(secs: u64, nanos: u32) -> (r: String)
    requires
        nanos < 1_000_000_000,
    ensures
        r@ == duration_text(secs as nat, nanos as nat),
{
    let n = nanos as u64;
    let (whole, frac, step, unit) = if secs > 0 {
        (secs as u128, n, 10_000_000u64, "s")
    } else if n >= 1_000_000 {
        ((n / 1_000_000) as u128, n % 1_000_000, 10_000u64, "ms")
    } else if n >= 1000 {
        ((n / 1000) as u128, n % 1000, 10u64, "\u{b5}s")
    } else {
        (n as u128, 0u64, 1u64, "ns")
    };
    let rem = frac % step;
    let mut h: u64 = frac / step;
    if rem * 2 >= step && rem > 0 {
        h = h + 1;
    }
    let (w, f) = if h >= 100 {
        (whole + 1, h - 100)
    } else {
        (whole, h)
    };
    assert(f < 100);
    let mut text = crate::text::decimal_chars_wide(w);
    text.push('.');
    let tens: u8 = (f / 10) as u8;
    let ones: u8 = (f % 10) as u8;
    text.push((tens + 48) as char);
    text.push((ones + 48) as char);
    proof {
        crate::text::lemma_digit_char((f / 10) as nat);
        crate::text::lemma_digit_char((f % 10) as nat);
        assert(((tens + 48) as char) == crate::text::digit_char((f / 10) as nat));
        assert(((ones + 48) as char) == crate::text::digit_char((f % 10) as nat));
    }
    text = concat(&text, &chars_of(unit));
    string_of(&text)
}

/// The line shown when a bake job finishes.
pub fn completed_job_message(file_name: &str, secs: u64, nanos: u32) -> (r: String)
    requires
        nanos < 1_000_000_000,
    ensures
        r@ == file_name@ + " 完成 · "@ + duration_text(secs as nat, nanos as nat),
{
    let text = duration_string(secs, nanos);
    let mut out = concat(&chars_of(file_name), &chars_of(" 完成 · "));
    out = concat(&out, &chars_of(text.as_str()));
    string_of(&out)
}

/// The question the plugin window asks first.
pub fn input_prompt() -> (r: &'static str)
    ensures
        r@ == "是否确认加载如下插件？"@,
{
    "是否确认加载如下插件？"
}

/// The line shown while packages load.
pub fn loading_prompt(package_count: usize) -> (r: String)
    ensures
        r@ == "正在加载 "@ + decimal(package_count as nat) + " 个插件包..."@,
{
    let mut out = concat(&chars_of("正在加载 "), &decimal_chars(package_count as u64));
    out = concat(&out, &chars_of(" 个插件包..."));
    string_of(&out)
}

/// The label of a package row: its file name, or the whole path when
/// that is empty.
pub open spec fn label_text(path: Seq<char>) -> Seq<char> {
    if crate::config::file_name(path).len() > 0 {
        crate::config::file_name(path)
    } else {
        path
    }
}

pub fn file_label(path: &str) -> (r: String)
    ensures
        r@ == label_text(path@),
{
    let name = crate::config::file_name_of(path);
    if name.len() > 0 {
        string_of(&name)
    } else {
        path.to_owned()
    }
}

} // verus!
