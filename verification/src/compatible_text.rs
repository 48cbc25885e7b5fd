//! Text files that Windows tools wrote: which encoding a file is in (a
//! UTF-8 or UTF-16 byte order mark, plain UTF-8, or else the legacy code
//! page), the text it holds, and the same encoding on the way back.
//!
//! The legacy code page is the system's: only Windows converts it, at the
//! edge of the program.
use crate::error::{EliError, ErrorKind};
use crate::localboost_publish::newline_of;
use crate::text::{chars_of, find_sub};
use vstd::prelude::*;
use vstd::string::StringSliceAdditionalSpecFns;
use vstd::utf8::{
    char_is_scalar, char_u32_cast, decode_utf8, decode_utf8_encode_utf8, encode_scalar, encode_utf8,
    encode_utf8_decode_utf8, encode_utf8_valid_utf8, has_width_1_encoding, has_width_2_encoding,
    has_width_3_encoding, has_width_4_encoding, valid_utf8,
};

verus! {

/// How a text file is encoded.
#[derive(Clone, Copy, Debug, PartialEq, Eq, Structural)]
pub enum TextEncoding {
    Utf8,
    Utf8Bom,
    Utf16Le,
    Utf16Be,
    /// The legacy Simplified Chinese code page (936).
    Gbk,
}

/// The text of a file, and the encoding it is written back in.
#[derive(Debug)]
pub struct CompatibleText {
    pub contents: String,
    pub encoding: TextEncoding,
}

pub open spec fn utf8_bom() -> Seq<u8> {
    seq![0xefu8, 0xbbu8, 0xbfu8]
}

pub open spec fn utf16le_bom() -> Seq<u8> {
    seq![0xffu8, 0xfeu8]
}

pub open spec fn utf16be_bom() -> Seq<u8> {
    seq![0xfeu8, 0xffu8]
}

pub open spec fn opens_with(b: Seq<u8>, p: Seq<u8>) -> bool {
    p.len() <= b.len() && b.subrange(0, p.len() as int) == p
}

/// The UTF-16 code units of one character: the character itself below
/// U+10000, a surrogate pair above.
pub open spec fn utf16_units(c: char) -> Seq<u16> {
    let v = c as u32;
    if v < 0x10000 {
        seq![v as u16]
    } else {
        seq![(0xD800 + (v - 0x10000) / 1024) as u16, (0xDC00 + (v - 0x10000) % 1024) as u16]
    }
}

pub open spec fn encode_utf16(s: Seq<char>) -> Seq<u16>
    decreases s.len(),
{
    if s.len() == 0 {
        Seq::empty()
    } else {
        utf16_units(s[0]) + encode_utf16(s.drop_first())
    }
}

pub open spec fn is_high_surrogate(u: u16) -> bool {
    0xD800 <= u <= 0xDBFF
}

pub open spec fn is_low_surrogate(u: u16) -> bool {
    0xDC00 <= u <= 0xDFFF
}

/// The characters that UTF-16 code units stand for; `None` when a
/// surrogate is not half of a pair.
pub open spec fn decode_utf16(u: Seq<u16>) -> Option<Seq<char>>
    decreases u.len(),
{
    if u.len() == 0 {
        Some(Seq::empty())
    } else if !is_high_surrogate(u[0]) && !is_low_surrogate(u[0]) {
        match decode_utf16(u.drop_first()) {
            Some(rest) => Some(seq![(u[0] as u32) as char] + rest),
            None => None,
        }
    } else if is_high_surrogate(u[0]) && u.len() >= 2 && is_low_surrogate(u[1]) {
        match decode_utf16(u.subrange(2, u.len() as int)) {
            Some(rest) => Some(
                seq![((u[0] - 0xD800) * 1024 + (u[1] - 0xDC00) + 0x10000) as u32 as char] + rest,
            ),
            None => None,
        }
    } else {
        None
    }
}

/// Bytes read two at a time as code units, the low byte first or last.
pub open spec fn units_of(b: Seq<u8>, little_endian: bool) -> Seq<u16> {
    Seq::new(
        b.len() / 2,
        |i: int|
            if little_endian {
                (b[2 * i] + b[2 * i + 1] * 256) as u16
            } else {
                (b[2 * i] * 256 + b[2 * i + 1]) as u16
            },
    )
}

/// Code units written two bytes each, the low byte first or last.
pub open spec fn bytes_of(u: Seq<u16>, little_endian: bool) -> Seq<u8> {
    Seq::new(
        u.len() * 2,
        |i: int|
            if (i % 2 == 0) == little_endian {
                (u[i / 2] % 256) as u8
            } else {
                (u[i / 2] / 256) as u8
            },
    )
}

/// What the bytes after a UTF-16 byte order mark hold.
pub open spec fn utf16_decoding(rest: Seq<u8>, little_endian: bool) -> Option<
    Option<(Seq<char>, TextEncoding)>,
> {
    if rest.len() % 2 != 0 {
        None
    } else {
        match decode_utf16(units_of(rest, little_endian)) {
            Some(c) => Some(
                Some(
                    (
                        c,
                        if little_endian {
                            TextEncoding::Utf16Le
                        } else {
                            TextEncoding::Utf16Be
                        },
                    ),
                ),
            ),
            None => None,
        }
    }
}

/// What a file's bytes hold: `Some(Some(..))` its text and encoding,
/// `Some(None)` when they are in the legacy code page, `None` when a byte
/// order mark promises text that is not there.
pub open spec fn decoding(b: Seq<u8>) -> Option<Option<(Seq<char>, TextEncoding)>> {
    if opens_with(b, utf8_bom()) {
        let rest = b.subrange(3, b.len() as int);
        if valid_utf8(rest) {
            Some(Some((decode_utf8(rest), TextEncoding::Utf8Bom)))
        } else {
            None
        }
    } else if opens_with(b, utf16le_bom()) {
        utf16_decoding(b.subrange(2, b.len() as int), true)
    } else if opens_with(b, utf16be_bom()) {
        utf16_decoding(b.subrange(2, b.len() as int), false)
    } else if valid_utf8(b) {
        Some(Some((decode_utf8(b), TextEncoding::Utf8)))
    } else {
        Some(None)
    }
}

/// Whether the bytes open with a UTF-16 byte order mark and then hold an
/// odd number of bytes.
pub open spec fn odd_utf16(b: Seq<u8>) -> bool {
    !opens_with(b, utf8_bom()) && (opens_with(b, utf16le_bom()) || opens_with(b, utf16be_bom()))
        && (b.len() - 2) % 2 != 0
}

/// The bytes of `c` in `encoding`; the legacy code page is written by
/// Windows, and where it cannot hold the text, as UTF-8 with a byte order
/// mark, which is what this gives for it.
pub open spec fn encoded(encoding: TextEncoding, c: Seq<char>) -> Seq<u8> {
    match encoding {
        TextEncoding::Utf8 => encode_utf8(c),
        TextEncoding::Utf16Le => utf16le_bom() + bytes_of(encode_utf16(c), true),
        TextEncoding::Utf16Be => utf16be_bom() + bytes_of(encode_utf16(c), false),
        _ => utf8_bom() + encode_utf8(c),
    }
}

/// `String::from_utf8`: the text that `bytes` encode when they are valid
/// UTF-8. Otherwise the error's message, which is not stated here.
#[verifier::external_body]
fn utf8_string(bytes: Vec<u8>) -> (r: Result<String, String>)
    ensures
        r is Ok <==> valid_utf8(bytes@),
        r matches Ok(s) ==> s@ == decode_utf8(bytes@),
{
    match String::from_utf8(bytes) {
        Ok(s) => Ok(s),
        Err(error) => Err(error.to_string()),
    }
}

/// `String::from_utf16`: the text that the code units encode when every
/// surrogate is half of a pair. Otherwise the error's message, which is not
/// stated here.
#[verifier::external_body]
fn utf16_string(units: &Vec<u16>) -> (r: Result<String, String>)
    ensures
        r is Ok <==> decode_utf16(units@) is Some,
        r matches Ok(s) ==> decode_utf16(units@) == Some(s@),
{
    match String::from_utf16(units) {
        Ok(s) => Ok(s),
        Err(error) => Err(error.to_string()),
    }
}

/// Encoding two texts one after the other gives their units one after the
/// other.
proof fn lemma_encode_utf16_append(a: Seq<char>, b: Seq<char>)
    ensures
        encode_utf16(a + b) == encode_utf16(a) + encode_utf16(b),
    decreases a.len(),
{
    if a.len() == 0 {
        assert(a + b =~= b);
    } else {
        lemma_encode_utf16_append(a.drop_first(), b);
        assert((a + b).drop_first() =~= a.drop_first() + b);
        assert((a + b)[0] == a[0]);
    }
}

/// The UTF-16 code units of `s`.
fn utf16_of(s: &str) -> (r: Vec<u16>)
    ensures
        r@ == encode_utf16(s@),
{
    let chars = chars_of(s);
    let mut out: Vec<u16> = Vec::new();
    let mut i: usize = 0;
    while i < chars.len()
        invariant
            i <= chars@.len(),
            chars@ == s@,
            out@ == encode_utf16(chars@.take(i as int)),
        decreases chars.len() - i,
    {
        let c = chars[i];
        let v = c as u32;
        if v < 0x10000 {
            out.push(v as u16);
        } else {
            proof {
                char_is_scalar(c);
            }
            let w = v - 0x10000;
            out.push((0xD800 + w / 1024) as u16);
            out.push((0xDC00 + w % 1024) as u16);
        }
        proof {
            let t = chars@.take(i as int);
            assert(chars@.take(i + 1) =~= t + seq![c]);
            lemma_encode_utf16_append(t, seq![c]);
            assert(encode_utf16(seq![c]) =~= utf16_units(c)) by {
                let one = seq![c];
                assert(one.drop_first() =~= Seq::<char>::empty());
                assert(encode_utf16(one.drop_first()) == Seq::<u16>::empty());
                assert(encode_utf16(one) == utf16_units(one[0]) + encode_utf16(one.drop_first()));
            }
        }
        i = i + 1;
    }
    assert(chars@.take(chars@.len() as int) =~= chars@);
    out
}

fn tail(bytes: &Vec<u8>, from: usize) -> (r: Vec<u8>)
    requires
        from <= bytes.len(),
    ensures
        r@ == bytes@.subrange(from as int, bytes@.len() as int),
{
    let mut out: Vec<u8> = Vec::new();
    let mut i: usize = from;
    while i < bytes.len()
        invariant
            from <= i <= bytes@.len(),
            out@ == bytes@.subrange(from as int, i as int),
        decreases bytes.len() - i,
    {
        out.push(bytes[i]);
        i = i + 1;
        assert(out@ =~= bytes@.subrange(from as int, i as int));
    }
    out
}

fn utf16_text(bytes: &Vec<u8>, little_endian: bool) -> (r: Result<Option<CompatibleText>, EliError>)
    requires
        bytes@.len() >= 2,
    ensures
        match r {
            Ok(Some(t)) => utf16_decoding(bytes@.subrange(2, bytes@.len() as int), little_endian)
                == Some(Some((t.contents@, t.encoding))),
            Ok(None) => false,
            Err(e) => utf16_decoding(bytes@.subrange(2, bytes@.len() as int), little_endian) is None
                && e.kind == ErrorKind::InvalidData && ((bytes@.len() - 2) % 2 != 0
                ==> e.message@ == "UTF-16 text has an odd byte length"@),
        },
{
    let n = bytes.len();
    let ghost rest = bytes@.subrange(2, n as int);
    if (n - 2) % 2 != 0 {
        return Err(
            EliError::new(ErrorKind::InvalidData, "UTF-16 text has an odd byte length".to_owned()),
        );
    }
    let mut units: Vec<u16> = Vec::new();
    let mut i: usize = 2;
    while i < n
        invariant
            n == bytes@.len(),
            rest == bytes@.subrange(2, n as int),
            (n - 2) % 2 == 0,
            2 <= i <= n,
            (i - 2) % 2 == 0,
            units@.len() == (i - 2) / 2,
            forall|k: int| 0 <= k < units@.len() ==> units@[k] == units_of(rest, little_endian)[k],
        decreases n - i,
    {
        let a = bytes[i] as u16;
        let b = bytes[i + 1] as u16;
        let u = if little_endian {
            a + b * 256
        } else {
            a * 256 + b
        };
        proof {
            let k = units@.len() as int;
            assert(rest[2 * k] == bytes@[i as int]);
            assert(rest[2 * k + 1] == bytes@[i + 1]);
        }
        units.push(u);
        i = i + 2;
    }
    assert(units@ =~= units_of(rest, little_endian));
    match utf16_string(&units) {
        Ok(s) => Ok(
            Some(
                CompatibleText {
                    contents: s,
                    encoding: if little_endian {
                        TextEncoding::Utf16Le
                    } else {
                        TextEncoding::Utf16Be
                    },
                },
            ),
        ),
        Err(message) => Err(EliError::new(ErrorKind::InvalidData, message)),
    }
}

/// Reads a file's bytes: a UTF-8 byte order mark, a UTF-16 one (little
/// or big endian), or plain UTF-8; `Ok(None)` when the bytes are none of
/// these and so in the legacy code page.
pub fn decode(bytes: &Vec<u8>) -> (r: Result<Option<CompatibleText>, EliError>)
    ensures
        match r {
            Ok(Some(t)) => decoding(bytes@) == Some(Some((t.contents@, t.encoding))),
            Ok(None) => decoding(bytes@) == Some(None::<(Seq<char>, TextEncoding)>),
            Err(e) => decoding(bytes@) is None && e.kind == ErrorKind::InvalidData,
        },
        r matches Err(e) ==> (odd_utf16(bytes@) ==> e.message@
            == "UTF-16 text has an odd byte length"@),
{
    let n = bytes.len();
    if n >= 3 && bytes[0] == 0xef && bytes[1] == 0xbb && bytes[2] == 0xbf {
        assert(bytes@.subrange(0, 3) =~= utf8_bom());
        return match utf8_string(tail(bytes, 3)) {
            Ok(s) => Ok(Some(CompatibleText { contents: s, encoding: TextEncoding::Utf8Bom })),
            Err(message) => Err(EliError::new(ErrorKind::InvalidData, message)),
        };
    }
    assert(!opens_with(bytes@, utf8_bom()));
    if n >= 2 && bytes[0] == 0xff && bytes[1] == 0xfe {
        assert(bytes@.subrange(0, 2) =~= utf16le_bom());
        return utf16_text(bytes, true);
    }
    assert(!opens_with(bytes@, utf16le_bom()));
    if n >= 2 && bytes[0] == 0xfe && bytes[1] == 0xff {
        assert(bytes@.subrange(0, 2) =~= utf16be_bom());
        return utf16_text(bytes, false);
    }
    assert(!opens_with(bytes@, utf16be_bom()));
    let whole = tail(bytes, 0);
    assert(whole@ =~= bytes@);
    match utf8_string(whole) {
        Ok(s) => Ok(Some(CompatibleText { contents: s, encoding: TextEncoding::Utf8 })),
        Err(_) => Ok(None),
    }
}

fn push_units(out: &mut Vec<u8>, units: &Vec<u16>, little_endian: bool)
    ensures
        final(out)@ == old(out)@ + bytes_of(units@, little_endian),
{
    let ghost start = out@;
    let mut i: usize = 0;
    while i < units.len()
        invariant
            i <= units@.len(),
            out@.len() == start.len() + 2 * i,
            forall|k: int| 0 <= k < start.len() ==> out@[k] == start[k],
            forall|j: int|
                0 <= j < 2 * i ==> out@[start.len() + j] == bytes_of(units@, little_endian)[j],
        decreases units.len() - i,
    {
        let low = (units[i] % 256) as u8;
        let high = (units[i] / 256) as u8;
        if little_endian {
            out.push(low);
            out.push(high);
        } else {
            out.push(high);
            out.push(low);
        }
        proof {
            let b = bytes_of(units@, little_endian);
            assert((2 * i as int) / 2 == i && (2 * i as int) % 2 == 0);
            assert((2 * i as int + 1) / 2 == i && (2 * i as int + 1) % 2 == 1);
            assert(out@[start.len() + 2 * i] == b[2 * i as int]);
            assert(out@[start.len() + 2 * i + 1] == b[2 * i + 1]);
        }
        i = i + 1;
    }
    assert(out@ =~= start + bytes_of(units@, little_endian));
}

impl CompatibleText {
    /// The bytes of `contents` in this text's encoding; `None` for the
    /// legacy code page, which Windows writes.
    pub fn encode(&self, contents: &str) -> (r: Option<Vec<u8>>)
        ensures
            match r {
                Some(b) => self.encoding != TextEncoding::Gbk && b@ == encoded(
                    self.encoding,
                    contents@,
                ),
                None => self.encoding == TextEncoding::Gbk,
            },
    {
        match self.encoding {
            TextEncoding::Gbk => None,
            TextEncoding::Utf8 => Some(vstd::slice::slice_to_vec(contents.as_bytes())),
            TextEncoding::Utf8Bom => {
                let mut out: Vec<u8> = vec![0xef, 0xbb, 0xbf];
                let mut body = vstd::slice::slice_to_vec(contents.as_bytes());
                out.append(&mut body);
                assert(out@ =~= utf8_bom() + encode_utf8(contents@));
                Some(out)
            },
            TextEncoding::Utf16Le => {
                let mut out: Vec<u8> = vec![0xff, 0xfe];
                assert(out@ =~= utf16le_bom());
                push_units(&mut out, &utf16_of(contents), true);
                Some(out)
            },
            TextEncoding::Utf16Be => {
                let mut out: Vec<u8> = vec![0xfe, 0xff];
                assert(out@ =~= utf16be_bom());
                push_units(&mut out, &utf16_of(contents), false);
                Some(out)
            },
        }
    }

    /// The line break the text already uses: CR LF when it holds one.
    pub fn newline(&self) -> (r: &'static str)
        ensures
            r@ == newline_of(Some(self.contents@)),
    {
        proof {
            reveal_strlit("\r\n");
            reveal_strlit("\n");
        }
        if find_sub(&chars_of(self.contents.as_str()), &chars_of("\r\n")).is_some() {
            "\r\n"
        } else {
            "\n"
        }
    }
}

/// Writing code units as bytes and reading them back gives the units.
pub proof fn lemma_units_of_bytes(u: Seq<u16>, little_endian: bool)
    ensures
        units_of(bytes_of(u, little_endian), little_endian) == u,
{
    let b = bytes_of(u, little_endian);
    assert forall|i: int| 0 <= i < u.len() implies #[trigger] units_of(b, little_endian)[i]
        == u[i] by {
        assert((2 * i) / 2 == i && (2 * i) % 2 == 0);
        assert((2 * i + 1) / 2 == i && (2 * i + 1) % 2 == 1);
        let v = u[i];
        assert((v % 256) + (v / 256) * 256 == v);
    }
    assert(units_of(b, little_endian) =~= u);
}

/// UTF-16 decoding undoes UTF-16 encoding.
pub proof fn lemma_utf16_round_trip(s: Seq<char>)
    ensures
        decode_utf16(encode_utf16(s)) == Some(s),
    decreases s.len(),
{
    if s.len() > 0 {
        let c = s[0];
        let v = c as u32;
        char_is_scalar(c);
        char_u32_cast(c, v);
        let rest = encode_utf16(s.drop_first());
        lemma_utf16_round_trip(s.drop_first());
        let u = encode_utf16(s);
        assert(u == utf16_units(c) + rest);
        if v < 0x10000 {
            assert(u.drop_first() =~= rest);
            assert((u[0] as u32) == v);
        } else {
            let w = v - 0x10000;
            assert(u.subrange(2, u.len() as int) =~= rest);
            assert(((u[0] - 0xD800) * 1024 + (u[1] - 0xDC00) + 0x10000) == v) by {
                assert(w / 1024 * 1024 + w % 1024 == w);
            }
        }
        assert(seq![c] + s.drop_first() =~= s);
    }
}

/// The first byte of UTF-8 text is never one of a UTF-16 byte order mark,
/// and the text opens with a UTF-8 byte order mark only when its first
/// character is U+FEFF.
proof fn lemma_utf8_opening(c: Seq<char>)
    requires
        c.len() > 0,
    ensures
        encode_utf8(c)[0] != 0xffu8 && encode_utf8(c)[0] != 0xfeu8,
        c[0] != '\u{FEFF}' ==> !opens_with(encode_utf8(c), utf8_bom()),
{
    let s = c[0] as u32;
    char_is_scalar(c[0]);
    let e = encode_scalar(s);
    assert(encode_utf8(c) == e + encode_utf8(c.drop_first()));
    let b0 = e[0];
    if has_width_1_encoding(s) {
        assert(b0 < 0x80) by (bit_vector)
            requires
                b0 == (s & 0x7F) as u8,
        ;
    } else if has_width_2_encoding(s) {
        assert(0xC0 <= b0 <= 0xDF) by (bit_vector)
            requires
                b0 == 0xC0 | ((s >> 6) & 0x1F) as u8,
        ;
    } else if has_width_3_encoding(s) {
        let b1 = e[1];
        let b2 = e[2];
        assert(0xE0 <= b0 <= 0xEF) by (bit_vector)
            requires
                b0 == 0xE0 | ((s >> 12) & 0x0F) as u8,
        ;
        assert(b0 == 0xEF && b1 == 0xBB && b2 == 0xBF ==> s == 0xFEFF) by (bit_vector)
            requires
                0x800 <= s <= 0xFFFF,
                b0 == 0xE0 | ((s >> 12) & 0x0F) as u8,
                b1 == 0x80 | ((s >> 6) & 0x3F) as u8,
                b2 == 0x80 | (s & 0x3F) as u8,
        ;
        if c[0] != '\u{FEFF}' {
            char_u32_cast(c[0], s);
            assert(s != 0xFEFF);
            assert(encode_utf8(c).subrange(0, 3) != utf8_bom()) by {
                if encode_utf8(c).subrange(0, 3) == utf8_bom() {
                    assert(encode_utf8(c).subrange(0, 3)[1] == b1);
                    assert(encode_utf8(c).subrange(0, 3)[2] == b2);
                }
            }
        }
    } else {
        assert(has_width_4_encoding(s));
        assert(0xF0 <= b0 <= 0xF7) by (bit_vector)
            requires
                b0 == 0xF0 | ((s >> 18) & 0x7) as u8,
        ;
    }
}

/// Text written in one of the Unicode encodings reads back as the same text
/// in the same encoding. Plain UTF-8 text that opens with U+FEFF reads back
/// as text with a byte order mark, so it is left out; the legacy code page
/// is Windows' to read and write.
pub proof fn lemma_encoding_round_trip(contents: Seq<char>, encoding: TextEncoding)
    requires
        encoding != TextEncoding::Gbk,
        encoding == TextEncoding::Utf8 && contents.len() > 0 ==> contents[0] != '\u{FEFF}',
    ensures
        decoding(encoded(encoding, contents)) == Some(Some((contents, encoding))),
{
    let b = encoded(encoding, contents);
    let body = encode_utf8(contents);
    encode_utf8_valid_utf8(contents);
    encode_utf8_decode_utf8(contents);
    match encoding {
        TextEncoding::Utf8 => {
            if contents.len() > 0 {
                lemma_utf8_opening(contents);
            } else {
                assert(body =~= Seq::<u8>::empty());
            }
        },
        TextEncoding::Utf8Bom => {
            assert(b.subrange(0, 3) =~= utf8_bom());
            assert(b.subrange(3, b.len() as int) =~= body);
        },
        TextEncoding::Utf16Le => {
            let units = encode_utf16(contents);
            assert(b[0] == 0xffu8);
            assert(b.subrange(0, 2) =~= utf16le_bom());
            assert(b.subrange(2, b.len() as int) =~= bytes_of(units, true));
            lemma_units_of_bytes(units, true);
            lemma_utf16_round_trip(contents);
        },
        _ => {
            let units = encode_utf16(contents);
            assert(b[0] == 0xfeu8);
            assert(b.subrange(0, 2) =~= utf16be_bom());
            assert(b.subrange(2, b.len() as int) =~= bytes_of(units, false));
            lemma_units_of_bytes(units, false);
            lemma_utf16_round_trip(contents);
        },
    }
}

/// UTF-16 encoding undoes UTF-16 decoding: code units that decode encode
/// back to themselves.
pub proof fn lemma_utf16_units_round_trip(u: Seq<u16>)
    requires
        decode_utf16(u) is Some,
    ensures
        encode_utf16(decode_utf16(u)->0) == u,
    decreases u.len(),
{
    if u.len() > 0 {
        let c = decode_utf16(u)->0;
        if !is_high_surrogate(u[0]) && !is_low_surrogate(u[0]) {
            let rest = u.drop_first();
            lemma_utf16_units_round_trip(rest);
            let ch = (u[0] as u32) as char;
            assert(c == seq![ch] + decode_utf16(rest)->0);
            assert(c.drop_first() =~= decode_utf16(rest)->0);
            assert(ch as u32 == u[0] as u32);
            assert(utf16_units(ch) =~= seq![u[0]]);
            assert(encode_utf16(c) == utf16_units(c[0]) + encode_utf16(c.drop_first()));
            assert(seq![u[0]] + rest =~= u);
        } else {
            let rest = u.subrange(2, u.len() as int);
            lemma_utf16_units_round_trip(rest);
            let hi = u[0] - 0xD800;
            let lo = u[1] - 0xDC00;
            let v = (hi * 1024 + lo + 0x10000) as u32;
            let ch = v as char;
            assert(c == seq![ch] + decode_utf16(rest)->0);
            assert(c.drop_first() =~= decode_utf16(rest)->0);
            assert(0x10000 <= v <= 0x10FFFF);
            assert(ch as u32 == v);
            assert((v - 0x10000) / 1024 == hi && (v - 0x10000) % 1024 == lo) by (nonlinear_arith)
                requires
                    v - 0x10000 == hi * 1024 + lo,
                    0 <= lo < 1024,
                    0 <= hi,
            ;
            assert(utf16_units(ch) =~= seq![u[0], u[1]]);
            assert(encode_utf16(c) == utf16_units(c[0]) + encode_utf16(c.drop_first()));
            assert(seq![u[0], u[1]] + rest =~= u);
        }
    }
}

/// Reading bytes as code units and writing the units back gives the bytes,
/// when there is an even number of them.
pub proof fn lemma_bytes_of_units(b: Seq<u8>, little_endian: bool)
    requires
        b.len() % 2 == 0,
    ensures
        bytes_of(units_of(b, little_endian), little_endian) == b,
{
    let u = units_of(b, little_endian);
    assert forall|i: int| 0 <= i < b.len() implies #[trigger] bytes_of(u, little_endian)[i] == b[i] by {
        let k = i / 2;
        assert(0 <= k < u.len());
        let lo: u8 = if little_endian { b[2 * k] } else { b[2 * k + 1] };
        let hi: u8 = if little_endian { b[2 * k + 1] } else { b[2 * k] };
        assert(u[k] == lo + hi * 256);
        assert((lo + hi * 256) % 256 == lo && (lo + hi * 256) / 256 == hi) by (nonlinear_arith)
            requires
                0 <= lo < 256,
                0 <= hi < 256,
        ;
        assert(i == 2 * k || i == 2 * k + 1);
    }
    assert(bytes_of(u, little_endian) =~= b);
}

/// A file that reads as text in one of the Unicode encodings is given back
/// byte for byte when that text is written in that encoding. Files in the
/// legacy code page are read and written by Windows.
pub proof fn lemma_decoding_round_trip(bytes: Seq<u8>)
    requires
        decoding(bytes) matches Some(Some(_)),
    ensures
        decoding(bytes) matches Some(Some((c, e))) && encoded(e, c) == bytes,
{
    if opens_with(bytes, utf8_bom()) {
        let rest = bytes.subrange(3, bytes.len() as int);
        decode_utf8_encode_utf8(rest);
        assert(utf8_bom() + rest =~= bytes);
    } else if opens_with(bytes, utf16le_bom()) || opens_with(bytes, utf16be_bom()) {
        let le = opens_with(bytes, utf16le_bom());
        let rest = bytes.subrange(2, bytes.len() as int);
        lemma_utf16_units_round_trip(units_of(rest, le));
        lemma_bytes_of_units(rest, le);
        if le {
            assert(utf16le_bom() + rest =~= bytes);
        } else {
            assert(utf16be_bom() + rest =~= bytes);
        }
    } else {
        decode_utf8_encode_utf8(bytes);
    }
}

} // verus!
