//! Character-sequence helpers shared by the parsers of this crate.
//!
//! Text is handled as `Vec<char>` inside the library and specified over
//! `Seq<char>`, the view of both `String` and `Vec<char>`.
use vstd::prelude::*;

verus! {

/// ASCII lower-case mapping of one character; other characters are kept.
pub open spec fn lower(c: char) -> char {
    if 'A' <= c && c <= 'Z' {
        ((c as u32) + 32) as char
    } else {
        c
    }
}

/// ASCII upper-case mapping of one character; other characters are kept.
pub open spec fn upper(c: char) -> char {
    if 'a' <= c && c <= 'z' {
        ((c as u32) - 32) as char
    } else {
        c
    }
}

pub open spec fn lower_seq(s: Seq<char>) -> Seq<char> {
    s.map_values(|c: char| lower(c))
}

pub open spec fn upper_seq(s: Seq<char>) -> Seq<char> {
    s.map_values(|c: char| upper(c))
}

/// `str::eq_ignore_ascii_case`.
pub open spec fn eq_ignore_case(a: Seq<char>, b: Seq<char>) -> bool {
    lower_seq(a) == lower_seq(b)
}

/// Unicode `White_Space`, as `char::is_whitespace` defines it.
pub open spec fn is_ws(c: char) -> bool {
    ||| ('\u{9}' <= c && c <= '\u{d}')
    ||| c == ' '
    ||| c == '\u{85}'
    ||| c == '\u{a0}'
    ||| c == '\u{1680}'
    ||| ('\u{2000}' <= c && c <= '\u{200a}')
    ||| c == '\u{2028}'
    ||| c == '\u{2029}'
    ||| c == '\u{202f}'
    ||| c == '\u{205f}'
    ||| c == '\u{3000}'
}

/// `char::is_control`: the Unicode general category `Cc`.
pub open spec fn is_control(c: char) -> bool {
    c <= '\u{1f}' || ('\u{7f}' <= c && c <= '\u{9f}')
}

pub open spec fn is_ascii_digit(c: char) -> bool {
    '0' <= c && c <= '9'
}

pub open spec fn is_ascii_alpha(c: char) -> bool {
    ('a' <= c && c <= 'z') || ('A' <= c && c <= 'Z')
}

pub open spec fn starts_with(s: Seq<char>, p: Seq<char>) -> bool {
    p.len() <= s.len() && s.take(p.len() as int) == p
}

pub open spec fn ends_with(s: Seq<char>, p: Seq<char>) -> bool {
    p.len() <= s.len() && s.skip(s.len() - p.len()) == p
}

/// Number of leading characters of `s` that satisfy `pred`.
pub open spec fn leading(s: Seq<char>, pred: spec_fn(char) -> bool) -> nat
    decreases s.len(),
{
    if s.len() > 0 && pred(s[0]) {
        1 + leading(s.drop_first(), pred)
    } else {
        0
    }
}

/// Number of trailing characters of `s` that satisfy `pred`.
pub open spec fn trailing(s: Seq<char>, pred: spec_fn(char) -> bool) -> nat
    decreases s.len(),
{
    if s.len() > 0 && pred(s.last()) {
        1 + trailing(s.drop_last(), pred)
    } else {
        0
    }
}

/// Removes the leading and the trailing characters that satisfy `pred`
/// (`str::trim_matches` with a predicate).
pub open spec fn trim_by(s: Seq<char>, pred: spec_fn(char) -> bool) -> Seq<char> {
    let t = s.skip(leading(s, pred) as int);
    t.take(t.len() - trailing(t, pred))
}

/// `str::trim_end_matches` with a predicate.
pub open spec fn trim_end_by(s: Seq<char>, pred: spec_fn(char) -> bool) -> Seq<char> {
    s.take(s.len() - trailing(s, pred))
}

/// `str::trim_start_matches` with a predicate.
pub open spec fn trim_start_by(s: Seq<char>, pred: spec_fn(char) -> bool) -> Seq<char> {
    s.skip(leading(s, pred) as int)
}

/// `str::trim`.
pub open spec fn trim(s: Seq<char>) -> Seq<char> {
    trim_by(s, |c: char| is_ws(c))
}

pub proof fn lemma_leading_bound(s: Seq<char>, pred: spec_fn(char) -> bool)
    ensures
        leading(s, pred) <= s.len(),
        forall|i: int| 0 <= i < leading(s, pred) ==> pred(#[trigger] s[i]),
        leading(s, pred) < s.len() ==> !pred(s[leading(s, pred) as int]),
    decreases s.len(),
{
    if s.len() > 0 && pred(s[0]) {
        lemma_leading_bound(s.drop_first(), pred);
        assert forall|i: int| 0 <= i < leading(s, pred) implies pred(#[trigger] s[i]) by {
            if i > 0 {
                assert(s[i] == s.drop_first()[i - 1]);
            }
        }
    }
}

pub proof fn lemma_trailing_bound(s: Seq<char>, pred: spec_fn(char) -> bool)
    ensures
        trailing(s, pred) <= s.len(),
        forall|i: int| s.len() - trailing(s, pred) <= i < s.len() ==> pred(#[trigger] s[i]),
        trailing(s, pred) < s.len() ==> !pred(s[s.len() - trailing(s, pred) - 1]),
    decreases s.len(),
{
    if s.len() > 0 && pred(s.last()) {
        lemma_trailing_bound(s.drop_last(), pred);
        assert forall|i: int| s.len() - trailing(s, pred) <= i < s.len() implies pred(
            #[trigger] s[i],
        ) by {
            if i < s.len() - 1 {
                assert(s[i] == s.drop_last()[i]);
            }
        }
    }
}

/// `leading` is determined by the first index that fails `pred`.
pub proof fn lemma_leading_exact(s: Seq<char>, pred: spec_fn(char) -> bool, n: int)
    requires
        0 <= n <= s.len(),
        forall|i: int| 0 <= i < n ==> pred(#[trigger] s[i]),
        n < s.len() ==> !pred(s[n]),
    ensures
        leading(s, pred) == n,
    decreases s.len(),
{
    if n > 0 {
        assert(pred(s[0]));
        assert forall|i: int| 0 <= i < n - 1 implies pred(#[trigger] s.drop_first()[i]) by {
            assert(s.drop_first()[i] == s[i + 1]);
        }
        lemma_leading_exact(s.drop_first(), pred, n - 1);
    }
}

/// `trailing` is determined by the last index that fails `pred`.
pub proof fn lemma_trailing_exact(s: Seq<char>, pred: spec_fn(char) -> bool, n: int)
    requires
        0 <= n <= s.len(),
        forall|i: int| s.len() - n <= i < s.len() ==> pred(#[trigger] s[i]),
        n < s.len() ==> !pred(s[s.len() - n - 1]),
    ensures
        trailing(s, pred) == n,
    decreases s.len(),
{
    if n > 0 {
        assert(pred(s[s.len() - 1]));
        assert forall|i: int| s.drop_last().len() - (n - 1) <= i < s.drop_last().len() implies pred(
            #[trigger] s.drop_last()[i],
        ) by {
            assert(s.drop_last()[i] == s[i]);
        }
        lemma_trailing_exact(s.drop_last(), pred, n - 1);
    }
}

/// Copies a `&str` into a vector of its characters.
pub fn chars_of(s: &str) -> (r: Vec<char>)
    ensures
        r@ == s@,
{
    let mut out: Vec<char> = Vec::new();
    for c in it: s.chars()
        invariant
            out@ == it.seq().take(it.index() as int),
            it.seq() == s@,
    {
        out.push(c);
    }
    out
}

/// Builds a `String` holding exactly the given characters.
///
/// Trusted: the body is std's `FromIterator<&char> for String`, which
/// appends the characters in order.
#[verifier::external_body]
pub fn string_of(chars: &Vec<char>) -> (s: String)
    ensures
        s@ == chars@,
{
    chars.iter().collect()
}

/// Characters of `s`, followed by those of `t`.
pub fn concat(s: &Vec<char>, t: &Vec<char>) -> (r: Vec<char>)
    ensures
        r@ == s@ + t@,
{
    let mut out = s.clone();
    let mut i: usize = 0;
    while i < t.len()
        invariant
            i <= t.len(),
            out@ == s@ + t@.take(i as int),
        decreases t.len() - i,
    {
        out.push(t[i]);
        i = i + 1;
        assert(t@.take(i as int) == t@.take(i - 1).push(t@[i - 1]));
    }
    assert(t@.take(t.len() as int) == t@);
    out
}

/// The characters `s[from..to]`.
pub fn slice(s: &Vec<char>, from: usize, to: usize) -> (r: Vec<char>)
    requires
        from <= to <= s.len(),
    ensures
        r@ == s@.subrange(from as int, to as int),
{
    let mut out: Vec<char> = Vec::new();
    let mut i: usize = from;
    while i < to
        invariant
            from <= i <= to <= s.len(),
            out@ == s@.subrange(from as int, i as int),
        decreases to - i,
    {
        out.push(s[i]);
        i = i + 1;
    }
    out
}

/// A copy of `s`.
pub fn copy_chars(s: &Vec<char>) -> (r: Vec<char>)
    ensures
        r@ == s@,
{
    let r = slice(s, 0, s.len());
    assert(s@.subrange(0, s.len() as int) =~= s@);
    r
}

pub fn eq(a: &Vec<char>, b: &Vec<char>) -> (r: bool)
    ensures
        r == (a@ == b@),
{
    if a.len() != b.len() {
        return false;
    }
    let mut i: usize = 0;
    while i < a.len()
        invariant
            a.len() == b.len(),
            i <= a.len(),
            forall|j: int| 0 <= j < i ==> a@[j] == b@[j],
        decreases a.len() - i,
    {
        if a[i] != b[i] {
            return false;
        }
        i = i + 1;
    }
    assert(a@ =~= b@);
    true
}

pub fn lower_char(c: char) -> (r: char)
    ensures
        r == lower(c),
{
    if 'A' <= c && c <= 'Z' {
        let b: u8 = c as u8;
        assert(b == c as u32);
        ((b + 32) as u8) as char
    } else {
        c
    }
}

pub fn upper_char(c: char) -> (r: char)
    ensures
        r == upper(c),
{
    if 'a' <= c && c <= 'z' {
        let b: u8 = c as u8;
        assert(b == c as u32);
        ((b - 32) as u8) as char
    } else {
        c
    }
}

/// `str::to_ascii_lowercase`.
pub fn to_lower(s: &Vec<char>) -> (r: Vec<char>)
    ensures
        r@ == lower_seq(s@),
{
    let mut out: Vec<char> = Vec::new();
    let mut i: usize = 0;
    while i < s.len()
        invariant
            i <= s.len(),
            out@ == lower_seq(s@.take(i as int)),
        decreases s.len() - i,
    {
        out.push(lower_char(s[i]));
        i = i + 1;
        assert(lower_seq(s@.take(i as int)) =~= lower_seq(s@.take(i - 1)).push(lower(s@[i - 1])));
    }
    assert(s@.take(s.len() as int) == s@);
    out
}

/// `str::to_ascii_uppercase`.
pub fn to_upper(s: &Vec<char>) -> (r: Vec<char>)
    ensures
        r@ == upper_seq(s@),
{
    let mut out: Vec<char> = Vec::new();
    let mut i: usize = 0;
    while i < s.len()
        invariant
            i <= s.len(),
            out@ == upper_seq(s@.take(i as int)),
        decreases s.len() - i,
    {
        out.push(upper_char(s[i]));
        i = i + 1;
        assert(upper_seq(s@.take(i as int)) =~= upper_seq(s@.take(i - 1)).push(upper(s@[i - 1])));
    }
    assert(s@.take(s.len() as int) == s@);
    out
}

/// `str::eq_ignore_ascii_case`.
pub fn eq_ignore_ascii_case(a: &Vec<char>, b: &Vec<char>) -> (r: bool)
    ensures
        r == eq_ignore_case(a@, b@),
{
    let la = to_lower(a);
    let lb = to_lower(b);
    eq(&la, &lb)
}

pub fn starts_with_chars(s: &Vec<char>, p: &Vec<char>) -> (r: bool)
    ensures
        r == starts_with(s@, p@),
{
    if p.len() > s.len() {
        return false;
    }
    let head = slice(s, 0, p.len());
    eq(&head, p)
}

pub fn ends_with_chars(s: &Vec<char>, p: &Vec<char>) -> (r: bool)
    ensures
        r == ends_with(s@, p@),
{
    if p.len() > s.len() {
        return false;
    }
    let tail = slice(s, s.len() - p.len(), s.len());
    assert(tail@ == s@.skip(s.len() - p.len()));
    eq(&tail, p)
}

pub fn contains_char(s: &Vec<char>, c: char) -> (r: bool)
    ensures
        r == s@.contains(c),
{
    let mut i: usize = 0;
    while i < s.len()
        invariant
            i <= s.len(),
            forall|j: int| 0 <= j < i ==> s@[j] != c,
        decreases s.len() - i,
    {
        if s[i] == c {
            return true;
        }
        i = i + 1;
    }
    false
}

/// Position of the first `c` in `s`.
pub fn find(s: &Vec<char>, c: char) -> (r: Option<usize>)
    ensures
        match r {
            Some(i) => i < s.len() && s@[i as int] == c && forall|j: int| 0 <= j < i ==> s@[j] != c,
            None => !s@.contains(c),
        },
{
    let mut i: usize = 0;
    while i < s.len()
        invariant
            i <= s.len(),
            forall|j: int| 0 <= j < i ==> s@[j] != c,
        decreases s.len() - i,
    {
        if s[i] == c {
            return Some(i);
        }
        i = i + 1;
    }
    None
}

/// Position of the last `c` in `s`.
pub fn rfind(s: &Vec<char>, c: char) -> (r: Option<usize>)
    ensures
        match r {
            Some(i) => i < s.len() && s@[i as int] == c && forall|j: int|
                i < j < s.len() ==> s@[j] != c,
            None => !s@.contains(c),
        },
{
    let mut i: usize = s.len();
    while i > 0
        invariant
            i <= s.len(),
            forall|j: int| i <= j < s.len() ==> s@[j] != c,
        decreases i,
    {
        if s[i - 1] == c {
            return Some(i - 1);
        }
        i = i - 1;
    }
    None
}

pub fn is_ws_char(c: char) -> (r: bool)
    ensures
        r == is_ws(c),
{
    ('\u{9}' <= c && c <= '\u{d}') || c == ' ' || c == '\u{85}' || c == '\u{a0}' || c
        == '\u{1680}' || ('\u{2000}' <= c && c <= '\u{200a}') || c == '\u{2028}' || c
        == '\u{2029}' || c == '\u{202f}' || c == '\u{205f}' || c == '\u{3000}'
}

/// `str::trim`.
pub fn trim_ws(s: &Vec<char>) -> (r: Vec<char>)
    ensures
        r@ == trim(s@),
{
    let ghost pred = |c: char| is_ws(c);
    let mut start: usize = 0;
    while start < s.len() && is_ws_char(s[start])
        invariant
            start <= s.len(),
            forall|j: int| 0 <= j < start ==> is_ws(#[trigger] s@[j]),
        decreases s.len() - start,
    {
        start = start + 1;
    }
    proof {
        lemma_leading_exact(s@, pred, start as int);
    }
    let mut end: usize = s.len();
    while end > start && is_ws_char(s[end - 1])
        invariant
            start <= end <= s.len(),
            forall|j: int| end <= j < s.len() ==> is_ws(#[trigger] s@[j]),
        decreases end,
    {
        end = end - 1;
    }
    proof {
        let t = s@.skip(start as int);
        assert forall|j: int| t.len() - (s.len() - end) <= j < t.len() implies pred(#[trigger] t[j]) by {
            assert(t[j] == s@[start + j]);
        }
        lemma_trailing_exact(t, pred, s.len() - end);
        assert(t.take(t.len() - (s.len() - end)) =~= s@.subrange(start as int, end as int));
    }
    slice(s, start, end)
}

/// `str::trim_matches` with one character.
pub fn trim_char(s: &Vec<char>, c: char) -> (r: Vec<char>)
    ensures
        r@ == trim_by(s@, |x: char| x == c),
{
    let ghost pred = |x: char| x == c;
    let mut start: usize = 0;
    while start < s.len() && s[start] == c
        invariant
            start <= s.len(),
            forall|j: int| 0 <= j < start ==> #[trigger] s@[j] == c,
        decreases s.len() - start,
    {
        start = start + 1;
    }
    proof {
        lemma_leading_exact(s@, pred, start as int);
    }
    let mut end: usize = s.len();
    while end > start && s[end - 1] == c
        invariant
            start <= end <= s.len(),
            forall|j: int| end <= j < s.len() ==> #[trigger] s@[j] == c,
        decreases end,
    {
        end = end - 1;
    }
    proof {
        let t = s@.skip(start as int);
        assert forall|j: int| t.len() - (s.len() - end) <= j < t.len() implies pred(#[trigger] t[j]) by {
            assert(t[j] == s@[start + j]);
        }
        lemma_trailing_exact(t, pred, s.len() - end);
        assert(t.take(t.len() - (s.len() - end)) =~= s@.subrange(start as int, end as int));
    }
    slice(s, start, end)
}

/// `str::trim_end_matches(['\r', '\n'])`.
pub fn trim_end_newlines(s: &Vec<char>) -> (r: Vec<char>)
    ensures
        r@ == trim_end_by(s@, |x: char| x == '\r' || x == '\n'),
{
    let ghost pred = |x: char| x == '\r' || x == '\n';
    let mut end: usize = s.len();
    while end > 0 && (s[end - 1] == '\r' || s[end - 1] == '\n')
        invariant
            end <= s.len(),
            forall|j: int| end <= j < s.len() ==> #[trigger] s@[j] == '\r' || s@[j] == '\n',
        decreases end,
    {
        end = end - 1;
    }
    proof {
        lemma_trailing_exact(s@, pred, s.len() - end);
    }
    slice(s, 0, end)
}


/// The ASCII digit for `d < 10`.
pub open spec fn digit_char(d: nat) -> char {
    ((d + 48) as u32) as char
}

pub open spec fn digit_value(c: char) -> nat {
    ((c as u32) - 48) as nat
}

/// Decimal notation of `n`, without leading zeros.
pub open spec fn decimal(n: nat) -> Seq<char>
    decreases n,
{
    if n < 10 {
        seq![digit_char(n)]
    } else {
        decimal(n / 10).push(digit_char(n % 10))
    }
}

pub open spec fn all_digits(s: Seq<char>) -> bool {
    forall|i: int| 0 <= i < s.len() ==> is_ascii_digit(#[trigger] s[i])
}

/// Value of a string of decimal digits.
pub open spec fn digits_value(s: Seq<char>) -> nat
    decreases s.len(),
{
    if s.len() == 0 {
        0
    } else {
        digits_value(s.drop_last()) * 10 + digit_value(s.last())
    }
}

/// `str::parse` for an unsigned integer type whose largest value is `max`:
/// an optional `+`, then at least one decimal digit.
pub open spec fn parse_unsigned(s: Seq<char>, max: nat) -> Option<nat> {
    let d = if s.len() > 0 && s[0] == '+' {
        s.drop_first()
    } else {
        s
    };
    if d.len() > 0 && all_digits(d) && digits_value(d) <= max {
        Some(digits_value(d))
    } else {
        None
    }
}

pub proof fn lemma_digit_char(k: nat)
    requires
        k < 10,
    ensures
        is_ascii_digit(digit_char(k)),
        digit_value(digit_char(k)) == k,
        k > 0 ==> digit_char(k) != '0',
{
    assert(((k + 48) as u32) as char as u32 == k + 48);
}

pub proof fn lemma_decimal(n: nat)
    ensures
        decimal(n).len() > 0,
        all_digits(decimal(n)),
        digits_value(decimal(n)) == n,
        decimal(n).len() == 1 || decimal(n)[0] != '0',
        decimal(n).len() == 1 <==> n < 10,
    decreases n,
{
    if n < 10 {
        lemma_digit_char(n);
        assert(decimal(n).drop_last() =~= Seq::<char>::empty());
        assert(digits_value(Seq::<char>::empty()) == 0);
        assert(decimal(n).last() == digit_char(n));
    } else {
        lemma_decimal(n / 10);
        lemma_digit_char(n % 10);
        let d = decimal(n / 10);
        assert(decimal(n).drop_last() =~= d);
        assert(decimal(n)[0] == d[0]);
        if d.len() == 1 {
            lemma_digit_char(n / 10);
        }
        assert(decimal(n).last() == digit_char(n % 10));
        assert(digits_value(decimal(n)) == digits_value(d) * 10 + digit_value(digit_char(n % 10)));
        assert forall|i: int| 0 <= i < decimal(n).len() implies is_ascii_digit(
            #[trigger] decimal(n)[i],
        ) by {
            if i < d.len() {
                assert(decimal(n)[i] == d[i]);
            }
        }
    }
}

pub proof fn lemma_digits_value_prefix(s: Seq<char>, i: int)
    requires
        0 <= i <= s.len(),
        all_digits(s),
    ensures
        digits_value(s.take(i)) <= digits_value(s),
    decreases s.len() - i,
{
    if i < s.len() {
        lemma_digits_value_prefix(s, i + 1);
        assert(s.take(i + 1).drop_last() =~= s.take(i));
    } else {
        assert(s.take(i) =~= s);
    }
}

/// Decimal notation of `n`.
pub fn decimal_chars(n: u64) -> (r: Vec<char>)
    ensures
        r@ == decimal(n as nat),
    decreases n,
{
    if n < 10 {
        let c: char = ((n as u8) + 48) as char;
        let mut v: Vec<char> = Vec::new();
        v.push(c);
        v
    } else {
        let mut v = decimal_chars(n / 10);
        let d: u8 = (n % 10) as u8;
        v.push((d + 48) as char);
        v
    }
}

/// Decimal notation of a wide number.
pub fn decimal_chars_wide(n: u128) -> (r: Vec<char>)
    ensures
        r@ == decimal(n as nat),
    decreases n,
{
    if n < 10 {
        let c: char = ((n as u8) + 48) as char;
        let mut v: Vec<char> = Vec::new();
        v.push(c);
        v
    } else {
        let mut v = decimal_chars_wide(n / 10);
        let d: u8 = (n % 10) as u8;
        v.push((d + 48) as char);
        v
    }
}

/// Parses an unsigned integer no greater than `max`, as `str::parse` does
/// for the unsigned integer types.
pub fn parse_unsigned_chars(s: &Vec<char>, max: u64) -> (r: Option<u64>)
    requires
        max <= u32::MAX,
    ensures
        match parse_unsigned(s@, max as nat) {
            Some(v) => r == Some(v as u64),
            None => r is None,
        },
{
    let start: usize = if s.len() > 0 && s[0] == '+' {
        1
    } else {
        0
    };
    let ghost d = s@.skip(start as int);
    assert(d =~= (if s@.len() > 0 && s@[0] == '+' { s@.drop_first() } else { s@ }));
    if start == s.len() {
        return None;
    }
    let mut value: u64 = 0;
    let mut i: usize = start;
    while i < s.len()
        invariant
            start <= i <= s.len(),
            d == s@.skip(start as int),
            d == (if s@.len() > 0 && s@[0] == '+' { s@.drop_first() } else { s@ }),
            max <= u32::MAX,
            all_digits(d.take(i - start)),
            value == digits_value(d.take(i - start)),
            value <= max,
        decreases s.len() - i,
    {
        let c = s[i];
        if !('0' <= c && c <= '9') {
            proof {
                assert(d[i - start] == c);
                assert(!is_ascii_digit(d[i - start]));
                assert(!all_digits(d));
                assert(parse_unsigned(s@, max as nat) is None);
            }
            return None;
        }
        let digit: u64 = ((c as u32) - 48) as u64;
        let next: u64 = value * 10 + digit;
        proof {
            let t = d.take(i - start + 1);
            assert(t.drop_last() =~= d.take(i - start));
            assert(t.last() == c);
            assert(digit == digit_value(c));
            assert(digits_value(t) == next);
        }
        if next > max {
            proof {
                let t = d.take(i - start + 1);
                assert forall|j: int| 0 <= j < t.len() implies is_ascii_digit(#[trigger] t[j]) by {
                    if j < t.len() - 1 {
                        assert(t[j] == d.take(i - start)[j]);
                    }
                }
                if all_digits(d) {
                    lemma_digits_value_prefix(d, i - start + 1);
                    assert(d.take(i - start + 1) == t);
                    assert(digits_value(d) > max);
                }
                assert(parse_unsigned(s@, max as nat) is None);
            }
            return None;
        }
        value = next;
        i = i + 1;
        proof {
            let t = d.take(i - start);
            assert forall|j: int| 0 <= j < t.len() implies is_ascii_digit(#[trigger] t[j]) by {
                if j < t.len() - 1 {
                    assert(t[j] == d.take(i - start - 1)[j]);
                }
            }
        }
    }
    assert(d.take(s.len() - start) =~= d);
    Some(value)
}


/// The pieces of `s` between occurrences of `sep` (`str::split` with one
/// character): one more piece than there are separators.
pub open spec fn split(s: Seq<char>, sep: char) -> Seq<Seq<char>>
    decreases s.len(),
{
    if s.len() == 0 {
        seq![Seq::<char>::empty()]
    } else {
        let prev = split(s.drop_last(), sep);
        if s.last() == sep {
            prev.push(Seq::<char>::empty())
        } else {
            prev.update(prev.len() - 1, prev.last().push(s.last()))
        }
    }
}

pub open spec fn views(v: Seq<Vec<char>>) -> Seq<Seq<char>> {
    v.map_values(|x: Vec<char>| x@)
}

pub proof fn lemma_split_len(s: Seq<char>, sep: char)
    ensures
        split(s, sep).len() >= 1,
    decreases s.len(),
{
    if s.len() > 0 {
        lemma_split_len(s.drop_last(), sep);
    }
}

/// Without a separator, `s` is its only piece.
pub proof fn lemma_split_single(s: Seq<char>, sep: char)
    requires
        !s.contains(sep),
    ensures
        split(s, sep) == seq![s],
    decreases s.len(),
{
    if s.len() > 0 {
        assert(!s.drop_last().contains(sep)) by {
            if s.drop_last().contains(sep) {
                let i = choose|i: int| 0 <= i < s.drop_last().len() && s.drop_last()[i] == sep;
                assert(s[i] == sep);
            }
        }
        lemma_split_single(s.drop_last(), sep);
        assert(s.last() != sep) by {
            assert(s[s.len() - 1] == s.last());
        }
        assert(s.drop_last().push(s.last()) =~= s);
        assert(seq![s.drop_last()].update(0, s) =~= seq![s]);
    } else {
        assert(s =~= Seq::<char>::empty());
    }
}

/// A first piece without a separator splits off in front.
pub proof fn lemma_split_front(a: Seq<char>, b: Seq<char>, sep: char)
    requires
        !a.contains(sep),
    ensures
        split(a + seq![sep] + b, sep) == seq![a] + split(b, sep),
    decreases b.len(),
{
    let s = a + seq![sep] + b;
    if b.len() == 0 {
        assert(s.drop_last() =~= a);
        lemma_split_single(a, sep);
        assert(s.last() == sep);
        assert(split(b, sep) == seq![Seq::<char>::empty()]);
        assert(seq![a].push(Seq::<char>::empty()) =~= seq![a] + seq![Seq::<char>::empty()]);
    } else {
        assert(s.drop_last() =~= a + seq![sep] + b.drop_last());
        lemma_split_front(a, b.drop_last(), sep);
        lemma_split_len(b.drop_last(), sep);
        assert(s.last() == b.last());
        let q = split(b.drop_last(), sep);
        if b.last() == sep {
            assert((seq![a] + q).push(Seq::<char>::empty()) =~= seq![a] + q.push(
                Seq::<char>::empty(),
            ));
        } else {
            assert((seq![a] + q).update(q.len() as int, q.last().push(b.last())) =~= seq![a]
                + q.update(q.len() - 1, q.last().push(b.last())));
        }
    }
}

/// `str::split` with one character.
pub fn split_chars(s: &Vec<char>, sep: char) -> (r: Vec<Vec<char>>)
    ensures
        views(r@) == split(s@, sep),
{
    let mut parts: Vec<Vec<char>> = Vec::new();
    let mut cur: Vec<char> = Vec::new();
    let mut i: usize = 0;
    assert(s@.take(0) =~= Seq::<char>::empty());
    assert(views(parts@).push(cur@) =~= seq![Seq::<char>::empty()]);
    while i < s.len()
        invariant
            i <= s.len(),
            views(parts@).push(cur@) == split(s@.take(i as int), sep),
        decreases s.len() - i,
    {
        let c = s[i];
        let ghost prev = views(parts@).push(cur@);
        assert(s@.take(i + 1).drop_last() =~= s@.take(i as int));
        assert(s@.take(i + 1).last() == c);
        if c == sep {
            parts.push(cur);
            cur = Vec::new();
            assert(views(parts@).push(cur@) =~= prev.push(Seq::<char>::empty()));
        } else {
            cur.push(c);
            assert(views(parts@).push(cur@) =~= prev.update(prev.len() - 1, prev.last().push(c)));
        }
        i = i + 1;
    }
    parts.push(cur);
    assert(s@.take(s.len() as int) =~= s@);
    assert(views(parts@) =~= split(s@, sep));
    parts
}


/// Index of the last occurrence of `c` in `s` (`str::rfind`).
pub open spec fn last_index(s: Seq<char>, c: char) -> Option<int>
    decreases s.len(),
{
    if s.len() == 0 {
        None
    } else if s.last() == c {
        Some(s.len() - 1)
    } else {
        last_index(s.drop_last(), c)
    }
}

pub proof fn lemma_last_index_prefix(s: Seq<char>, c: char, i: int)
    requires
        0 <= i <= s.len(),
        forall|j: int| i <= j < s.len() ==> s[j] != c,
    ensures
        last_index(s, c) == last_index(s.take(i), c),
    decreases s.len() - i,
{
    if i < s.len() {
        lemma_last_index_prefix(s, c, i + 1);
        let t = s.take(i + 1);
        assert(t.last() == s[i]);
        assert(t.drop_last() =~= s.take(i));
    } else {
        assert(s.take(i) =~= s);
    }
}

pub proof fn lemma_last_index_bounds(s: Seq<char>, c: char)
    ensures
        match last_index(s, c) {
            Some(k) => 0 <= k < s.len() && s[k] == c,
            None => !s.contains(c),
        },
    decreases s.len(),
{
    if s.len() > 0 && s.last() != c {
        lemma_last_index_bounds(s.drop_last(), c);
        if s.contains(c) {
            let j = choose|j: int| 0 <= j < s.len() && s[j] == c;
            assert(s.drop_last()[j] == c);
        }
    }
}

/// `str::rfind` with one character.
pub fn last_index_of(s: &Vec<char>, c: char) -> (r: Option<usize>)
    ensures
        match r {
            Some(k) => last_index(s@, c) == Some(k as int),
            None => last_index(s@, c) is None,
        },
{
    let mut i: usize = s.len();
    while i > 0
        invariant
            i <= s.len(),
            forall|j: int| i <= j < s.len() ==> s@[j] != c,
        decreases i,
    {
        if s[i - 1] == c {
            proof {
                lemma_last_index_prefix(s@, c, i as int);
                assert(s@.take(i as int).last() == c);
            }
            return Some(i - 1);
        }
        i = i - 1;
    }
    proof {
        lemma_last_index_prefix(s@, c, 0);
    }
    None
}

/// Number of UTF-16 code units that encode `s` (`str::encode_utf16().count()`).
pub open spec fn utf16_len(s: Seq<char>) -> nat
    decreases s.len(),
{
    if s.len() == 0 {
        0
    } else {
        utf16_len(s.drop_last()) + (if s.last() as u32 >= 0x10000 {
            2nat
        } else {
            1nat
        })
    }
}

pub proof fn lemma_utf16_prefix(s: Seq<char>, i: int)
    requires
        0 <= i <= s.len(),
    ensures
        utf16_len(s.take(i)) <= utf16_len(s),
    decreases s.len() - i,
{
    if i < s.len() {
        lemma_utf16_prefix(s, i + 1);
        assert(s.take(i + 1).drop_last() =~= s.take(i));
    } else {
        assert(s.take(i) =~= s);
    }
}


/// The non-empty runs of non-whitespace characters (`str::split_whitespace`).
pub open spec fn words(s: Seq<char>) -> Seq<Seq<char>>
    decreases s.len(),
{
    if s.len() == 0 {
        Seq::<Seq<char>>::empty()
    } else {
        let w = words(s.drop_last());
        let c = s.last();
        if is_ws(c) {
            w
        } else if s.len() >= 2 && !is_ws(s[s.len() - 2]) {
            w.update(w.len() - 1, w.last().push(c))
        } else {
            w.push(seq![c])
        }
    }
}

/// `str::split_whitespace`.
pub fn words_of(s: &Vec<char>) -> (r: Vec<Vec<char>>)
    ensures
        views(r@) == words(s@),
{
    let mut out: Vec<Vec<char>> = Vec::new();
    let mut cur: Vec<char> = Vec::new();
    let mut in_word = false;
    let mut i: usize = 0;
    while i < s.len()
        invariant
            i <= s.len(),
            in_word == (i > 0 && !is_ws(s@[i - 1])),
            in_word ==> views(out@).push(cur@) == words(s@.take(i as int)),
            !in_word ==> views(out@) == words(s@.take(i as int)),
        decreases s.len() - i,
    {
        let c = s[i];
        let ghost before = s@.take(i as int);
        assert(s@.take(i + 1).drop_last() =~= before);
        assert(s@.take(i + 1).last() == c);
        if is_ws_char(c) {
            if in_word {
                out.push(cur);
                cur = Vec::new();
            }
            in_word = false;
        } else {
            if in_word {
                let ghost w = views(out@).push(cur@);
                assert(s@.take(i + 1)[i - 1] == s@[i - 1]);
                cur.push(c);
                assert(views(out@).push(cur@) =~= w.update(w.len() - 1, w.last().push(c)));
            } else {
                cur = Vec::new();
                cur.push(c);
                assert(i > 0 ==> s@.take(i + 1)[i - 1] == s@[i - 1]);
                assert(views(out@).push(cur@) =~= words(before).push(seq![c]));
            }
            in_word = true;
        }
        i = i + 1;
    }
    if in_word {
        out.push(cur);
    }
    assert(s@.take(s.len() as int) =~= s@);
    out
}


/// `str::replace`: every occurrence of `pat`, scanning from the left
/// without overlaps, becomes `rep`.
pub open spec fn replace(s: Seq<char>, pat: Seq<char>, rep: Seq<char>) -> Seq<char>
    decreases s.len(),
{
    if pat.len() == 0 || s.len() < pat.len() {
        s
    } else if s.take(pat.len() as int) == pat {
        rep + replace(s.skip(pat.len() as int), pat, rep)
    } else {
        seq![s[0]] + replace(s.drop_first(), pat, rep)
    }
}

/// `str::replace`.
pub fn replace_chars(s: &Vec<char>, pat: &Vec<char>, rep: &Vec<char>) -> (r: Vec<char>)
    requires
        pat.len() > 0,
    ensures
        r@ == replace(s@, pat@, rep@),
{
    let mut out: Vec<char> = Vec::new();
    let mut i: usize = 0;
    assert(s@.skip(0) =~= s@);
    while i < s.len()
        invariant
            i <= s.len(),
            pat.len() > 0,
            out@ + replace(s@.skip(i as int), pat@, rep@) == replace(s@, pat@, rep@),
        decreases s.len() - i,
    {
        let ghost t = s@.skip(i as int);
        if s.len() - i >= pat.len() {
            let head = slice(s, i, i + pat.len());
            assert(head@ == t.take(pat.len() as int));
            if eq(&head, pat) {
                let ghost before = out@;
                let mut j: usize = 0;
                while j < rep.len()
                    invariant
                        j <= rep.len(),
                        out@ == before + rep@.take(j as int),
                    decreases rep.len() - j,
                {
                    out.push(rep[j]);
                    j = j + 1;
                    assert(out@ =~= before + rep@.take(j as int));
                }
                assert(rep@.take(rep.len() as int) =~= rep@);
                assert(t.skip(pat.len() as int) =~= s@.skip(i + pat.len()));
                assert(out@ + replace(s@.skip(i + pat.len()), pat@, rep@) =~= before + (rep@
                    + replace(t.skip(pat.len() as int), pat@, rep@)));
                i = i + pat.len();
                continue;
            }
        }
        let ghost before = out@;
        out.push(s[i]);
        assert(t.drop_first() =~= s@.skip(i + 1));
        assert(t[0] == s@[i as int]);
        assert(out@ + replace(s@.skip(i + 1), pat@, rep@) =~= before + (seq![t[0]] + replace(
            t.drop_first(),
            pat@,
            rep@,
        )));
        i = i + 1;
    }
    assert(s@.skip(s.len() as int) =~= Seq::<char>::empty());
    assert(out@ + Seq::<char>::empty() =~= out@);
    out
}

/// Drops one trailing carriage return.
pub open spec fn strip_cr(l: Seq<char>) -> Seq<char> {
    if l.len() > 0 && l.last() == '\r' {
        l.drop_last()
    } else {
        l
    }
}

/// `str::lines`: pieces between line feeds, without a trailing carriage
/// return, and without the empty piece after a final line feed.
pub open spec fn lines(s: Seq<char>) -> Seq<Seq<char>> {
    let p = split(s, '\n');
    let q = if p.last().len() == 0 {
        p.drop_last()
    } else {
        p
    };
    q.map_values(|l: Seq<char>| strip_cr(l))
}

/// `str::lines`.
pub fn lines_of(s: &Vec<char>) -> (r: Vec<Vec<char>>)
    ensures
        views(r@) == lines(s@),
{
    let p = split_chars(s, '\n');
    proof {
        lemma_split_len(s@, '\n');
    }
    let n: usize = if p[p.len() - 1].len() == 0 {
        p.len() - 1
    } else {
        p.len()
    };
    let ghost q = if views(p@).last().len() == 0 {
        views(p@).drop_last()
    } else {
        views(p@)
    };
    assert(q.len() == n);
    let mut out: Vec<Vec<char>> = Vec::new();
    let mut i: usize = 0;
    while i < n
        invariant
            i <= n <= p.len(),
            q.len() == n,
            forall|k: int| 0 <= k < n ==> q[k] == p@[k]@,
            views(out@) == q.take(i as int).map_values(|l: Seq<char>| strip_cr(l)),
        decreases n - i,
    {
        let line = &p[i];
        let ghost before = views(out@);
        if line.len() > 0 && line[line.len() - 1] == '\r' {
            out.push(slice(line, 0, line.len() - 1));
        } else {
            out.push(copy_chars(line));
        }
        assert(views(out@) =~= before.push(strip_cr(q[i as int])));
        i = i + 1;
        assert(q.take(i as int).map_values(|l: Seq<char>| strip_cr(l)) =~= before.push(
            strip_cr(q[i - 1]),
        ));
    }
    assert(q.take(n as int) =~= q);
    out
}

/// Index of the first occurrence of `pat` in `s` at or after `from`.
pub open spec fn find_from(s: Seq<char>, pat: Seq<char>, from: int) -> Option<int>
    decreases s.len() + 1 - from,
{
    if from < 0 || from + pat.len() > s.len() {
        None
    } else if s.subrange(from, from + pat.len()) == pat {
        Some(from)
    } else {
        find_from(s, pat, from + 1)
    }
}

/// Index of the last occurrence of `pat` in `s` starting at or before `upto`.
pub open spec fn rfind_upto(s: Seq<char>, pat: Seq<char>, upto: int) -> Option<int>
    decreases upto + 1,
{
    if upto < 0 {
        None
    } else if upto + pat.len() <= s.len() && s.subrange(upto, upto + pat.len()) == pat {
        Some(upto)
    } else {
        rfind_upto(s, pat, upto - 1)
    }
}

pub proof fn lemma_find_from_bounds(s: Seq<char>, pat: Seq<char>, from: int)
    ensures
        find_from(s, pat, from) matches Some(k) ==> from <= k && k + pat.len() <= s.len(),
    decreases s.len() + 1 - from,
{
    if !(from < 0 || from + pat.len() > s.len()) && s.subrange(from, from + pat.len()) != pat {
        lemma_find_from_bounds(s, pat, from + 1);
    }
}

pub proof fn lemma_rfind_upto_bounds(s: Seq<char>, pat: Seq<char>, upto: int)
    ensures
        rfind_upto(s, pat, upto) matches Some(k) ==> 0 <= k <= upto && k + pat.len() <= s.len(),
    decreases upto + 1,
{
    if upto >= 0 && !(upto + pat.len() <= s.len() && s.subrange(upto, upto + pat.len()) == pat) {
        lemma_rfind_upto_bounds(s, pat, upto - 1);
    }
}

/// `str::find` with a string pattern.
pub fn find_sub(s: &Vec<char>, pat: &Vec<char>) -> (r: Option<usize>)
    ensures
        match r {
            Some(k) => find_from(s@, pat@, 0) == Some(k as int),
            None => find_from(s@, pat@, 0) is None,
        },
{
    if pat.len() > s.len() {
        return None;
    }
    if pat.len() == 0 {
        assert(s@.subrange(0, 0) =~= pat@);
        return Some(0);
    }
    let mut i: usize = 0;
    while i <= s.len() - pat.len()
        invariant
            0 < pat.len() <= s.len(),
            i <= s.len() - pat.len() + 1,
            find_from(s@, pat@, 0) == find_from(s@, pat@, i as int),
        decreases s.len() - pat.len() + 1 - i,
    {
        let piece = slice(s, i, i + pat.len());
        if eq(&piece, pat) {
            return Some(i);
        }
        i = i + 1;
    }
    None
}

/// `str::rfind` with a string pattern.
pub fn rfind_sub(s: &Vec<char>, pat: &Vec<char>) -> (r: Option<usize>)
    ensures
        match r {
            Some(k) => rfind_upto(s@, pat@, s.len() as int) == Some(k as int),
            None => rfind_upto(s@, pat@, s.len() as int) is None,
        },
{
    let mut i: usize = s.len();
    loop
        invariant
            i <= s.len(),
            rfind_upto(s@, pat@, s.len() as int) == rfind_upto(s@, pat@, i as int),
        decreases i,
    {
        if pat.len() <= s.len() - i {
            let piece = slice(s, i, i + pat.len());
            if eq(&piece, pat) {
                return Some(i);
            }
        }
        if i == 0 {
            assert(rfind_upto(s@, pat@, -1) is None);
            return None;
        }
        i = i - 1;
    }
}


/// `u64::from_str`: an optional `+`, then decimal digits, at most `u64::MAX`.
pub fn parse_u64_chars(s: &Vec<char>) -> (r: Option<u64>)
    ensures
        match parse_unsigned(s@, u64::MAX as nat) {
            Some(v) => r == Some(v as u64),
            None => r is None,
        },
{
    let start: usize = if s.len() > 0 && s[0] == '+' {
        1
    } else {
        0
    };
    let ghost d = s@.skip(start as int);
    assert(d =~= (if s@.len() > 0 && s@[0] == '+' { s@.drop_first() } else { s@ }));
    if start == s.len() {
        return None;
    }
    let mut value: u64 = 0;
    let mut i: usize = start;
    while i < s.len()
        invariant
            start <= i <= s.len(),
            d == s@.skip(start as int),
            d == (if s@.len() > 0 && s@[0] == '+' { s@.drop_first() } else { s@ }),
            all_digits(d.take(i - start)),
            value == digits_value(d.take(i - start)),
        decreases s.len() - i,
    {
        let c = s[i];
        if !('0' <= c && c <= '9') {
            proof {
                assert(d[i - start] == c);
                assert(!is_ascii_digit(d[i - start]));
                assert(!all_digits(d));
            }
            return None;
        }
        let digit: u64 = ((c as u32) - 48) as u64;
        proof {
            let t = d.take(i - start + 1);
            assert(t.drop_last() =~= d.take(i - start));
            assert(t.last() == c);
            assert(digit == digit_value(c));
            assert(digits_value(t) == value * 10 + digit);
            assert forall|j: int| 0 <= j < t.len() implies is_ascii_digit(#[trigger] t[j]) by {
                if j < t.len() - 1 {
                    assert(t[j] == d.take(i - start)[j]);
                }
            }
        }
        let next = match value.checked_mul(10) {
            Some(m) => m.checked_add(digit),
            None => None,
        };
        match next {
            Some(v) => {
                value = v;
            },
            None => {
                proof {
                    let t = d.take(i - start + 1);
                    if all_digits(d) {
                        lemma_digits_value_prefix(d, i - start + 1);
                        assert(d.take(i - start + 1) == t);
                    }
                }
                return None;
            },
        }
        i = i + 1;
    }
    assert(d.take(s.len() - start) =~= d);
    Some(value)
}

} // verus!
