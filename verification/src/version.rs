//! Edgeless version identifiers such as `Edgeless_Beta_Ofial_4.1.0_2`.
//!
//! An identifier is `Edgeless_`, a release stage (`Alpha`, its legacy
//! spelling `Alpa`, or `Beta`), an optional `_Ofial` channel marker, `_`,
//! a `major.minor.patch` version and an optional `_` revision number.
//! The canonical spelling written back is unique, so parsing what was
//! written gives the identifier back.
use crate::error::{EliError, ErrorKind};
use crate::text::{
    all_digits, chars_of, concat, decimal, decimal_chars, digits_value, eq, is_ascii_digit,
    lemma_decimal, lemma_split_front, lemma_split_single, parse_unsigned, parse_unsigned_chars,
    slice, split, split_chars, starts_with, starts_with_chars, string_of, views,
};
use vstd::prelude::*;

verus! {

#[derive(Clone, Copy, Debug, PartialEq, Eq, Structural)]
pub enum ReleaseStage {
    Alpha,
    Beta,
}

#[derive(Clone, Copy, Debug, PartialEq, Eq, Structural)]
pub enum ReleaseChannel {
    Official,
}

/// A `major.minor.patch` version, ordered component by component.
#[derive(Clone, Copy, Debug, PartialEq, Eq, Structural)]
pub struct EdgelessVersion {
    pub major: u32,
    pub minor: u32,
    pub patch: u32,
}

#[derive(Clone, Copy, Debug, PartialEq, Eq, Structural)]
pub struct EdgelessVersionIdentifier {
    pub stage: ReleaseStage,
    pub channel: Option<ReleaseChannel>,
    pub version: EdgelessVersion,
    pub revision: Option<u32>,
}

pub open spec fn edgeless_prefix() -> Seq<char> {
    seq!['E', 'd', 'g', 'e', 'l', 'e', 's', 's', '_']
}

pub open spec fn alpha_word() -> Seq<char> {
    seq!['A', 'l', 'p', 'h', 'a']
}

/// The legacy spelling of `Alpha` that older boot disks carry.
pub open spec fn alpa_word() -> Seq<char> {
    seq!['A', 'l', 'p', 'a']
}

pub open spec fn beta_word() -> Seq<char> {
    seq!['B', 'e', 't', 'a']
}

pub open spec fn ofial_word() -> Seq<char> {
    seq!['O', 'f', 'i', 'a', 'l']
}

/// Lexicographic order of versions.
pub open spec fn version_less(a: EdgelessVersion, b: EdgelessVersion) -> bool {
    ||| a.major < b.major
    ||| (a.major == b.major && a.minor < b.minor)
    ||| (a.major == b.major && a.minor == b.minor && a.patch < b.patch)
}

pub open spec fn stage_of(w: Seq<char>) -> Option<ReleaseStage> {
    if w == alpha_word() || w == alpa_word() {
        Some(ReleaseStage::Alpha)
    } else if w == beta_word() {
        Some(ReleaseStage::Beta)
    } else {
        None
    }
}

pub open spec fn stage_word(s: ReleaseStage) -> Seq<char> {
    match s {
        ReleaseStage::Alpha => alpha_word(),
        ReleaseStage::Beta => beta_word(),
    }
}

/// A number component, as `u32::from_str` reads it.
pub open spec fn parse_number(d: Seq<char>) -> Option<u32> {
    match parse_unsigned(d, u32::MAX as nat) {
        Some(v) => Some(v as u32),
        None => None,
    }
}

/// `major.minor.patch`.
pub open spec fn parse_version(s: Seq<char>) -> Option<EdgelessVersion> {
    let p = split(s, '.');
    if p.len() == 3 && parse_number(p[0]) is Some && parse_number(p[1]) is Some && parse_number(
        p[2],
    ) is Some {
        Some(
            EdgelessVersion {
                major: parse_number(p[0])->0,
                minor: parse_number(p[1])->0,
                patch: parse_number(p[2])->0,
            },
        )
    } else {
        None
    }
}

pub open spec fn version_text(v: EdgelessVersion) -> Seq<char> {
    decimal(v.major as nat) + seq!['.'] + decimal(v.minor as nat) + seq!['.'] + decimal(
        v.patch as nat,
    )
}

/// The identifier that `s` spells, if it spells one.
pub open spec fn parse_identifier(s: Seq<char>) -> Option<EdgelessVersionIdentifier> {
    let p = split(s.skip(9), '_');
    let official = p.len() >= 2 && p[1] == ofial_word();
    let first: int = if official {
        2
    } else {
        1
    };
    let stage = stage_of(p[0]);
    let version = if first < p.len() {
        parse_version(p[first])
    } else {
        None
    };
    let revision = if first + 1 < p.len() {
        parse_number(p[first + 1])
    } else {
        None
    };
    if starts_with(s, edgeless_prefix()) && stage is Some && version is Some && first + 1
        <= p.len() <= first + 2 && (p.len() == first + 2 ==> revision is Some) {
        Some(
            EdgelessVersionIdentifier {
                stage: stage->0,
                channel: if official {
                    Some(ReleaseChannel::Official)
                } else {
                    None
                },
                version: version->0,
                revision: if p.len() == first + 2 {
                    revision
                } else {
                    None
                },
            },
        )
    } else {
        None
    }
}

/// The canonical spelling of an identifier.
pub open spec fn identifier_text(id: EdgelessVersionIdentifier) -> Seq<char> {
    edgeless_prefix() + stage_word(id.stage) + (if id.channel is Some {
        seq!['_'] + ofial_word()
    } else {
        Seq::<char>::empty()
    }) + seq!['_'] + version_text(id.version) + (match id.revision {
        Some(r) => seq!['_'] + decimal(r as nat),
        None => Seq::<char>::empty(),
    })
}

proof fn lemma_parse_number_decimal(n: u32)
    ensures
        parse_number(decimal(n as nat)) == Some(n),
        !decimal(n as nat).contains('.'),
        !decimal(n as nat).contains('_'),
{
    lemma_decimal(n as nat);
    let d = decimal(n as nat);
    assert(is_ascii_digit(d[0]));
    assert(d[0] != '+');
    assert forall|c: char| d.contains(c) implies is_ascii_digit(c) by {
        let i = choose|i: int| 0 <= i < d.len() && d[i] == c;
        assert(is_ascii_digit(d[i]));
    }
}

proof fn lemma_version_text(v: EdgelessVersion)
    ensures
        parse_version(version_text(v)) == Some(v),
        !version_text(v).contains('_'),
{
    lemma_parse_number_decimal(v.major);
    lemma_parse_number_decimal(v.minor);
    lemma_parse_number_decimal(v.patch);
    let a = decimal(v.major as nat);
    let b = decimal(v.minor as nat);
    let c = decimal(v.patch as nat);
    assert(version_text(v) == a + seq!['.'] + (b + seq!['.'] + c));
    lemma_split_front(a, b + seq!['.'] + c, '.');
    lemma_split_front(b, c, '.');
    lemma_split_single(c, '.');
    let p = split(version_text(v), '.');
    assert(p =~= seq![a, b, c]);
    assert(!version_text(v).contains('_')) by {
        if version_text(v).contains('_') {
            let i = choose|i: int| 0 <= i < version_text(v).len() && version_text(v)[i] == '_';
            if i < a.len() {
                assert(a[i] == '_');
            } else if i == a.len() {
            } else if i < a.len() + 1 + b.len() {
                assert(b[i - a.len() - 1] == '_');
            } else if i == a.len() + 1 + b.len() {
            } else {
                assert(c[i - a.len() - 2 - b.len()] == '_');
            }
        }
    }
}

spec fn revision_tail(id: EdgelessVersionIdentifier) -> Seq<char> {
    match id.revision {
        Some(r) => seq!['_'] + decimal(r as nat),
        None => Seq::<char>::empty(),
    }
}

spec fn revision_pieces(id: EdgelessVersionIdentifier) -> Seq<Seq<char>> {
    match id.revision {
        Some(r) => seq![version_text(id.version), decimal(r as nat)],
        None => seq![version_text(id.version)],
    }
}

spec fn identifier_pieces(id: EdgelessVersionIdentifier) -> Seq<Seq<char>> {
    if id.channel is Some {
        seq![stage_word(id.stage), ofial_word()] + revision_pieces(id)
    } else {
        seq![stage_word(id.stage)] + revision_pieces(id)
    }
}

proof fn lemma_revision_pieces(id: EdgelessVersionIdentifier)
    ensures
        split(version_text(id.version) + revision_tail(id), '_') == revision_pieces(id),
{
    let vt = version_text(id.version);
    lemma_version_text(id.version);
    match id.revision {
        Some(r) => {
            lemma_parse_number_decimal(r);
            lemma_split_front(vt, decimal(r as nat), '_');
            lemma_split_single(decimal(r as nat), '_');
            assert(vt + revision_tail(id) =~= vt + seq!['_'] + decimal(r as nat));
            assert(seq![vt] + seq![decimal(r as nat)] =~= revision_pieces(id));
        },
        None => {
            assert(vt + revision_tail(id) =~= vt);
            lemma_split_single(vt, '_');
        },
    }
}

proof fn lemma_identifier_pieces(id: EdgelessVersionIdentifier)
    ensures
        identifier_text(id).take(9) == edgeless_prefix(),
        split(identifier_text(id).skip(9), '_') == identifier_pieces(id),
{
    let s = identifier_text(id);
    let w = stage_word(id.stage);
    let rest = version_text(id.version) + revision_tail(id);
    lemma_revision_pieces(id);
    assert(!w.contains('_')) by {
        if w.contains('_') {
            let i = choose|i: int| 0 <= i < w.len() && w[i] == '_';
        }
    }
    assert(!ofial_word().contains('_')) by {
        if ofial_word().contains('_') {
            let i = choose|i: int| 0 <= i < 5 && ofial_word()[i] == '_';
        }
    }
    assert(s.take(9) =~= edgeless_prefix());
    if id.channel is Some {
        assert(s.skip(9) =~= w + seq!['_'] + (ofial_word() + seq!['_'] + rest));
        lemma_split_front(w, ofial_word() + seq!['_'] + rest, '_');
        lemma_split_front(ofial_word(), rest, '_');
        assert(seq![w] + (seq![ofial_word()] + revision_pieces(id)) =~= identifier_pieces(id));
    } else {
        assert(s.skip(9) =~= w + seq!['_'] + rest);
        lemma_split_front(w, rest, '_');
    }
}

/// Parsing the canonical spelling gives the identifier back.
pub proof fn lemma_identifier_round_trip(id: EdgelessVersionIdentifier)
    ensures
        parse_identifier(identifier_text(id)) == Some(id),
{
    let s = identifier_text(id);
    let w = stage_word(id.stage);
    let vt = version_text(id.version);
    lemma_identifier_pieces(id);
    lemma_version_text(id.version);
    let p = identifier_pieces(id);
    assert(starts_with(s, edgeless_prefix()));
    assert(p[0] == w);
    assert(stage_of(w) == Some(id.stage)) by {
        assert(w != alpa_word()) by {
            assert(w.len() != 4 || w[1] != alpa_word()[1]);
        }
        assert(alpha_word() != beta_word()) by {
            assert(alpha_word().len() != beta_word().len());
        }
    }
    if id.channel is Some {
        assert(p[1] == ofial_word());
        assert(p[2] == vt);
    } else {
        assert(p[1] == vt);
        assert(vt != ofial_word()) by {
            lemma_decimal(id.version.major as nat);
            assert(is_ascii_digit(vt[0]));
        }
    }
    let first: int = if id.channel is Some {
        2
    } else {
        1
    };
    assert(parse_version(p[first]) == Some(id.version));
    match id.revision {
        Some(r) => {
            lemma_parse_number_decimal(r);
            assert(p.len() == first + 2);
            assert(p[first + 1] == decimal(r as nat));
        },
        None => {
            assert(p.len() == first + 1);
        },
    }
    assert(id.channel is Some ==> id.channel == Some(ReleaseChannel::Official));
}

pub fn edgeless_prefix_chars() -> (r: Vec<char>)
    ensures
        r@ == edgeless_prefix(),
{
    vec!['E', 'd', 'g', 'e', 'l', 'e', 's', 's', '_']
}

fn alpha_chars() -> (r: Vec<char>)
    ensures
        r@ == alpha_word(),
{
    vec!['A', 'l', 'p', 'h', 'a']
}

fn alpa_chars() -> (r: Vec<char>)
    ensures
        r@ == alpa_word(),
{
    vec!['A', 'l', 'p', 'a']
}

fn beta_chars() -> (r: Vec<char>)
    ensures
        r@ == beta_word(),
{
    vec!['B', 'e', 't', 'a']
}

fn ofial_chars() -> (r: Vec<char>)
    ensures
        r@ == ofial_word(),
{
    vec!['O', 'f', 'i', 'a', 'l']
}

/// Versions are ordered by major, then minor, then patch number: no version
/// is older than itself, of two different versions exactly one is the older,
/// the order is transitive, and a higher patch number with the same major and
/// minor numbers is newer.
pub proof fn lemma_version_order(a: EdgelessVersion, b: EdgelessVersion, c: EdgelessVersion)
    ensures
        !version_less(a, a),
        a != b ==> (version_less(a, b) <==> !version_less(b, a)),
        version_less(a, b) && version_less(b, c) ==> version_less(a, c),
        a.major < b.major ==> version_less(a, b),
        a.major == b.major && a.minor < b.minor ==> version_less(a, b),
        a.major == b.major && a.minor == b.minor && a.patch < b.patch ==> version_less(a, b),
{
}

/// Whether `a` is an older version than `b`.
pub fn is_older(a: EdgelessVersion, b: EdgelessVersion) -> (r: bool)
    ensures
        r == version_less(a, b),
{
    a.major < b.major || (a.major == b.major && a.minor < b.minor) || (a.major == b.major
        && a.minor == b.minor && a.patch < b.patch)
}

fn parse_number_chars(d: &Vec<char>) -> (r: Option<u32>)
    ensures
        r == parse_number(d@),
{
    match parse_unsigned_chars(d, 0xffff_ffff) {
        Some(v) => Some(v as u32),
        None => None,
    }
}

/// `major.minor.patch` from its characters.
pub fn parse_version_chars(s: &Vec<char>) -> (r: Option<EdgelessVersion>)
    ensures
        r == parse_version(s@),
{
    let p = split_chars(s, '.');
    if p.len() != 3 {
        return None;
    }
    let a = parse_number_chars(&p[0]);
    let b = parse_number_chars(&p[1]);
    let c = parse_number_chars(&p[2]);
    match (a, b, c) {
        (Some(major), Some(minor), Some(patch)) => Some(EdgelessVersion { major, minor, patch }),
        _ => None,
    }
}

fn stage_of_chars(w: &Vec<char>) -> (r: Option<ReleaseStage>)
    ensures
        r == stage_of(w@),
{
    if eq(w, &alpha_chars()) || eq(w, &alpa_chars()) {
        Some(ReleaseStage::Alpha)
    } else if eq(w, &beta_chars()) {
        Some(ReleaseStage::Beta)
    } else {
        None
    }
}

/// The identifier that the characters spell, if they spell one.
pub fn parse_identifier_chars(s: &Vec<char>) -> (r: Option<EdgelessVersionIdentifier>)
    ensures
        r == parse_identifier(s@),
{
    if !starts_with_chars(s, &edgeless_prefix_chars()) {
        return None;
    }
    let rest = slice(s, 9, s.len());
    assert(rest@ == s@.skip(9));
    let p = split_chars(&rest, '_');
    assert(p@.len() == split(s@.skip(9), '_').len());
    assert(p@.len() >= 1) by {
        crate::text::lemma_split_len(s@.skip(9), '_');
    }
    let official = p.len() >= 2 && eq(&p[1], &ofial_chars());
    let first: usize = if official {
        2
    } else {
        1
    };
    let stage = stage_of_chars(&p[0]);
    if first >= p.len() || p.len() > first + 2 {
        return None;
    }
    let version = parse_version_chars(&p[first]);
    let revision = if first + 1 < p.len() {
        match parse_number_chars(&p[first + 1]) {
            Some(r) => Some(r),
            None => {
                return None;
            },
        }
    } else {
        None
    };
    match (stage, version) {
        (Some(stage), Some(version)) => Some(
            EdgelessVersionIdentifier {
                stage,
                channel: if official {
                    Some(ReleaseChannel::Official)
                } else {
                    None
                },
                version,
                revision,
            },
        ),
        _ => None,
    }
}

fn push_all(out: &mut Vec<char>, t: &Vec<char>)
    ensures
        final(out)@ == old(out)@ + t@,
{
    let mut i: usize = 0;
    while i < t.len()
        invariant
            i <= t.len(),
            out@ == old(out)@ + t@.take(i as int),
        decreases t.len() - i,
    {
        out.push(t[i]);
        i = i + 1;
        assert(t@.take(i as int) == t@.take(i - 1).push(t@[i - 1]));
    }
    assert(t@.take(t.len() as int) == t@);
}

fn version_text_chars(v: EdgelessVersion) -> (r: Vec<char>)
    ensures
        r@ == version_text(v),
{
    let mut out = decimal_chars(v.major as u64);
    out.push('.');
    push_all(&mut out, &decimal_chars(v.minor as u64));
    out.push('.');
    push_all(&mut out, &decimal_chars(v.patch as u64));
    out
}

fn identifier_text_chars(id: &EdgelessVersionIdentifier) -> (r: Vec<char>)
    ensures
        r@ == identifier_text(*id),
{
    let mut out = edgeless_prefix_chars();
    match id.stage {
        ReleaseStage::Alpha => push_all(&mut out, &alpha_chars()),
        ReleaseStage::Beta => push_all(&mut out, &beta_chars()),
    }
    if id.channel.is_some() {
        out.push('_');
        push_all(&mut out, &ofial_chars());
    }
    out.push('_');
    push_all(&mut out, &version_text_chars(id.version));
    match id.revision {
        Some(r) => {
            out.push('_');
            push_all(&mut out, &decimal_chars(r as u64));
        },
        None => {},
    }
    proof {
        let tail = match id.revision {
            Some(r) => seq!['_'] + decimal(r as nat),
            None => Seq::<char>::empty(),
        };
        let mid = if id.channel is Some {
            seq!['_'] + ofial_word()
        } else {
            Seq::<char>::empty()
        };
        assert(out@ =~= edgeless_prefix() + stage_word(id.stage) + mid + seq!['_'] + version_text(
            id.version,
        ) + tail);
    }
    out
}

impl EdgelessVersion {
    /// `major.minor.patch`.
    pub fn to_string(&self) -> (s: String)
        ensures
            s@ == version_text(*self),
    {
        string_of(&version_text_chars(*self))
    }
}

impl EdgelessVersionIdentifier {
    /// Parses an identifier; a text that spells none is invalid data.
    pub fn parse(s: &str) -> (r: Result<EdgelessVersionIdentifier, EliError>)
        ensures
            match r {
                Ok(id) => parse_identifier(s@) == Some(id),
                Err(e) => parse_identifier(s@) is None && e.kind == ErrorKind::InvalidData,
            },
    {
        let chars = chars_of(s);
        match parse_identifier_chars(&chars) {
            Some(id) => Ok(id),
            None => {
                let mut message = chars_of("invalid Edgeless version identifier: ");
                push_all(&mut message, &chars);
                Err(EliError::new(ErrorKind::InvalidData, string_of(&message)))
            },
        }
    }

    /// The canonical spelling.
    pub fn to_string(&self) -> (s: String)
        ensures
            s@ == identifier_text(*self),
    {
        string_of(&identifier_text_chars(self))
    }
}

} // verus!
