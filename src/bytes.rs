//! Byte-level helpers shared by the request parser and the response writer.
use vstd::prelude::*;
use vstd::slice::*;
use vstd::string::*;
use vstd::utf8::*;

verus! {

/// The line terminator of the wire format.
pub open spec fn crlf() -> Seq<u8> {
    seq![13u8, 10u8]
}

/// The literal `"\r\n"` holds exactly the two terminator bytes.
pub proof fn lemma_crlf_literal()
    ensures
        "\r\n".spec_bytes() == crlf(),
{
    reveal_strlit("\r\n");
    assert(is_ascii_chars("\r\n"@));
    is_ascii_chars_encode_utf8("\r\n"@);
    assert("\r\n".spec_bytes() =~= crlf());
}

/// The decimal digits of `n`, most significant first, without leading zeros.
pub open spec fn decimal(n: nat) -> Seq<u8>
    decreases n,
{
    if n < 10 {
        seq![(48 + n) as u8]
    } else {
        decimal(n / 10).push((48 + n % 10) as u8)
    }
}

/// Appends every byte of `b` to `out`.
pub fn push_all(out: &mut Vec<u8>, b: &[u8])
    ensures
        final(out)@ == old(out)@ + b@,
{
    let mut i: usize = 0;
    while i < b.len()
        invariant
            i <= b@.len(),
            out@ == old(out)@ + b@.subrange(0, i as int),
        decreases b@.len() - i,
    {
        out.push(b[i]);
        i += 1;
        assert(b@.subrange(0, i as int) == b@.subrange(0, i - 1 as int).push(b@[i - 1]));
    }
    assert(b@.subrange(0, b@.len() as int) == b@);
}

/// Appends the decimal digits of `n` to `out`.
pub fn push_decimal(out: &mut Vec<u8>, n: usize)
    ensures
        final(out)@ == old(out)@ + decimal(n as nat),
    decreases n,
{
    if n < 10 {
        out.push(48u8 + n as u8);
        assert(decimal(n as nat) == seq![(48 + n) as u8]);
    } else {
        push_decimal(out, n / 10);
        out.push(48u8 + (n % 10) as u8);
    }
}

/// Whether `s` holds a line terminator at `i`.
pub open spec fn crlf_at(s: Seq<u8>, i: int) -> bool {
    0 <= i && i + 1 < s.len() && s[i] == 13 && s[i + 1 as int] == 10
}

/// The index of the first line terminator in `s` at or after `i`, or `s.len()`
/// where there is none.
pub open spec fn line_end_from(s: Seq<u8>, i: nat) -> nat
    decreases s.len() - i,
{
    if i + 1 >= s.len() {
        s.len()
    } else if s[i as int] == 13 && s[i + 1 as int] == 10 {
        i
    } else {
        line_end_from(s, i + 1)
    }
}

/// The length of the first line of `s`: the index of its first terminator,
/// or `s.len()` where there is none.
pub open spec fn line_end(s: Seq<u8>) -> nat {
    line_end_from(s, 0)
}

/// The index of the first `b` in `s` at or after `i`, or `s.len()`.
pub open spec fn find_from(s: Seq<u8>, b: u8, i: nat) -> nat
    decreases s.len() - i,
{
    if i >= s.len() {
        s.len()
    } else if s[i as int] == b {
        i
    } else {
        find_from(s, b, i + 1)
    }
}

pub proof fn lemma_line_end_from(s: Seq<u8>, i: nat)
    requires
        i <= s.len(),
    ensures
        i <= line_end_from(s, i) <= s.len(),
        line_end_from(s, i) < s.len() ==> crlf_at(s, line_end_from(s, i) as int),
        forall|j: int| i <= j < line_end_from(s, i) ==> !crlf_at(s, j),
    decreases s.len() - i,
{
    if i + 1 < s.len() && !(s[i as int] == 13 && s[i + 1 as int] == 10) {
        lemma_line_end_from(s, i + 1);
    }
}

pub proof fn lemma_find_from(s: Seq<u8>, b: u8, i: nat)
    requires
        i <= s.len(),
    ensures
        i <= find_from(s, b, i) <= s.len(),
        find_from(s, b, i) < s.len() ==> s[find_from(s, b, i) as int] == b,
        forall|j: int| i <= j < find_from(s, b, i) ==> s[j] != b,
    decreases s.len() - i,
{
    if i < s.len() && s[i as int] != b {
        lemma_find_from(s, b, i + 1);
    }
}

/// Finds the end of the first line of `s`.
pub fn find_line_end(s: &[u8]) -> (e: usize)
    ensures
        e == line_end(s@),
{
    let mut i: usize = 0;
    while s.len() - i > 1
        invariant
            i <= s@.len(),
            line_end(s@) == line_end_from(s@, i as nat),
        decreases s@.len() - i,
    {
        if s[i] == 13 && s[i + 1] == 10 {
            return i;
        }
        i += 1;
    }
    s.len()
}

/// Finds the first `b` in `s` at or after `from`.
pub fn find_byte(s: &[u8], b: u8, from: usize) -> (r: usize)
    requires
        from <= s@.len(),
    ensures
        r == find_from(s@, b, from as nat),
{
    let mut i: usize = from;
    while i < s.len()
        invariant
            from <= i <= s@.len(),
            find_from(s@, b, from as nat) == find_from(s@, b, i as nat),
        decreases s@.len() - i,
    {
        if s[i] == b {
            return i;
        }
        i += 1;
    }
    s.len()
}

/// Whether `b` is ASCII whitespace: space, tab, line feed, vertical tab,
/// form feed or carriage return.
pub open spec fn is_space(b: u8) -> bool {
    b == 32 || (9 <= b && b <= 13)
}

/// Whether the two bytes `b0 b1` encode a two-byte Unicode space:
/// U+0085 or U+00A0.
pub open spec fn is_space2(b0: u8, b1: u8) -> bool {
    b0 == 0xC2 && (b1 == 0x85 || b1 == 0xA0)
}

/// Whether the three bytes `b0 b1 b2` encode a three-byte Unicode space:
/// U+1680, U+2000 to U+200A, U+2028, U+2029, U+202F, U+205F or U+3000.
pub open spec fn is_space3(b0: u8, b1: u8, b2: u8) -> bool {
    (b0 == 0xE1 && b1 == 0x9A && b2 == 0x80) || (b0 == 0xE2 && b1 == 0x80 && ((0x80 <= b2
        && b2 <= 0x8A) || b2 == 0xA8 || b2 == 0xA9 || b2 == 0xAF)) || (b0 == 0xE2 && b1 == 0x81
        && b2 == 0x9F) || (b0 == 0xE3 && b1 == 0x80 && b2 == 0x80)
}

/// The number of bytes of the Unicode white-space character that `s` starts
/// with, or 0 where it starts with none.
pub open spec fn space_prefix_len(s: Seq<u8>) -> nat {
    if s.len() >= 1 && is_space(s[0]) {
        1
    } else if s.len() >= 2 && is_space2(s[0], s[1]) {
        2
    } else if s.len() >= 3 && is_space3(s[0], s[1], s[2]) {
        3
    } else {
        0
    }
}

/// The number of bytes of the Unicode white-space character that `s` ends
/// with, or 0 where it ends with none.
pub open spec fn space_suffix_len(s: Seq<u8>) -> nat {
    let n = s.len() as int;
    if n >= 1 && is_space(s[n - 1]) {
        1
    } else if n >= 2 && is_space2(s[n - 2], s[n - 1]) {
        2
    } else if n >= 3 && is_space3(s[n - 3], s[n - 2], s[n - 1]) {
        3
    } else {
        0
    }
}

/// `s` without its leading Unicode white space.
pub open spec fn trim_start(s: Seq<u8>) -> Seq<u8>
    decreases s.len(),
{
    if space_prefix_len(s) > 0 {
        trim_start(s.skip(space_prefix_len(s) as int))
    } else {
        s
    }
}

/// `s` without its trailing Unicode white space.
pub open spec fn trim_end(s: Seq<u8>) -> Seq<u8>
    decreases s.len(),
{
    if space_suffix_len(s) > 0 {
        trim_end(s.take(s.len() - space_suffix_len(s)))
    } else {
        s
    }
}

/// `s` without leading or trailing Unicode white space, where `s` is UTF-8
/// text.
pub open spec fn trim(s: Seq<u8>) -> Seq<u8> {
    trim_end(trim_start(s))
}

fn space_prefix(s: &[u8]) -> (k: usize)
    ensures
        k == space_prefix_len(s@),
{
    let n = s.len();
    if n >= 1 && (s[0] == 32 || (9 <= s[0] && s[0] <= 13)) {
        1
    } else if n >= 2 && s[0] == 0xC2 && (s[1] == 0x85 || s[1] == 0xA0) {
        2
    } else if n >= 3 && ((s[0] == 0xE1 && s[1] == 0x9A && s[2] == 0x80) || (s[0] == 0xE2 && s[1]
        == 0x80 && ((0x80 <= s[2] && s[2] <= 0x8A) || s[2] == 0xA8 || s[2] == 0xA9 || s[2]
        == 0xAF)) || (s[0] == 0xE2 && s[1] == 0x81 && s[2] == 0x9F) || (s[0] == 0xE3 && s[1]
        == 0x80 && s[2] == 0x80)) {
        3
    } else {
        0
    }
}

fn space_suffix(s: &[u8]) -> (k: usize)
    ensures
        k == space_suffix_len(s@),
{
    let n = s.len();
    if n >= 1 && (s[n - 1] == 32 || (9 <= s[n - 1] && s[n - 1] <= 13)) {
        1
    } else if n >= 2 && s[n - 2] == 0xC2 && (s[n - 1] == 0x85 || s[n - 1] == 0xA0) {
        2
    } else if n >= 3 && ((s[n - 3] == 0xE1 && s[n - 2] == 0x9A && s[n - 1] == 0x80) || (s[n - 3]
        == 0xE2 && s[n - 2] == 0x80 && ((0x80 <= s[n - 1] && s[n - 1] <= 0x8A) || s[n - 1] == 0xA8
        || s[n - 1] == 0xA9 || s[n - 1] == 0xAF)) || (s[n - 3] == 0xE2 && s[n - 2] == 0x81 && s[n
        - 1] == 0x9F) || (s[n - 3] == 0xE3 && s[n - 2] == 0x80 && s[n - 1] == 0x80)) {
        3
    } else {
        0
    }
}

/// Strips leading and trailing Unicode white space.
pub fn trim_bytes(s: &[u8]) -> (r: &[u8])
    ensures
        r@ == trim(s@),
{
    let mut cur = s;
    while space_prefix(cur) > 0
        invariant
            trim_start(s@) == trim_start(cur@),
        decreases cur@.len(),
    {
        let k = space_prefix(cur);
        let next = slice_subrange(cur, k, cur.len());
        assert(next@ =~= cur@.skip(k as int));
        cur = next;
    }
    assert(trim_start(s@) == cur@);
    let ghost mid = cur@;
    while space_suffix(cur) > 0
        invariant
            trim_end(mid) == trim_end(cur@),
        decreases cur@.len(),
    {
        let k = space_suffix(cur);
        let next = slice_subrange(cur, 0, cur.len() - k);
        assert(next@ =~= cur@.take(cur@.len() - k));
        cur = next;
    }
    cur
}

/// Whether every byte of `s` is an ASCII digit.
pub open spec fn all_digits(s: Seq<u8>) -> bool {
    forall|i: int| 0 <= i < s.len() ==> 48 <= #[trigger] s[i] <= 57
}

/// The number that the ASCII digits `s` write in base ten.
pub open spec fn digits_value(s: Seq<u8>) -> nat
    decreases s.len(),
{
    if s.len() == 0 {
        0
    } else {
        digits_value(s.drop_last()) * 10 + (s.last() - 48) as nat
    }
}

/// `s` without one leading `+`, where it has one.
pub open spec fn unsigned_digits(s: Seq<u8>) -> Seq<u8> {
    if s.len() > 0 && s[0] == 43 {
        s.drop_first()
    } else {
        s
    }
}

/// A non-negative decimal number that fits in `usize`, with an optional
/// leading `+`; `None` for anything else.
pub open spec fn parse_usize(s: Seq<u8>) -> Option<nat> {
    let d = unsigned_digits(s);
    if d.len() > 0 && all_digits(d) && digits_value(d) <= usize::MAX {
        Some(digits_value(d))
    } else {
        None
    }
}

/// Reads a decimal number as `parse_usize` describes.
pub fn parse_decimal(s: &[u8]) -> (r: Option<usize>)
    ensures
        r matches Some(v) ==> parse_usize(s@) == Some(v as nat),
        r is None ==> parse_usize(s@) is None,
{
    let d = if s.len() > 0 && s[0] == 43 {
        slice_subrange(s, 1, s.len())
    } else {
        s
    };
    assert(d@ =~= unsigned_digits(s@));
    if d.len() == 0 {
        return None;
    }
    let mut v: usize = 0;
    let mut i: usize = 0;
    while i < d.len()
        invariant
            i <= d@.len(),
            d@ == unsigned_digits(s@),
            all_digits(d@.subrange(0, i as int)),
            v as nat == digits_value(d@.subrange(0, i as int)),
        decreases d@.len() - i,
    {
        let c = d[i];
        let ghost pre = d@.subrange(0, i as int);
        let ghost next = d@.subrange(0, i + 1 as int);
        assert(next.drop_last() =~= pre);
        if c < 48 || c > 57 {
            assert(!all_digits(d@)) by {
                assert(d@[i as int] == c);
            }
            return None;
        }
        assert(all_digits(next));
        assert(digits_value(next) == v * 10 + (c - 48));
        let digit = (c - 48) as usize;
        let w = match v.checked_mul(10) {
            Some(t) => t.checked_add(digit),
            None => None,
        };
        match w {
            Some(t) => {
                v = t;
            },
            None => {
                proof {
                    lemma_digits_value_prefix(d@, i as nat + 1);
                }
                return None;
            },
        }
        i += 1;
    }
    assert(d@.subrange(0, d@.len() as int) =~= d@);
    Some(v)
}

/// A number written with more digits is at least the number of any prefix.
pub proof fn lemma_digits_value_prefix(d: Seq<u8>, n: nat)
    requires
        n <= d.len(),
    ensures
        all_digits(d) ==> digits_value(d.subrange(0, n as int)) <= digits_value(d),
    decreases d.len() - n,
{
    if n < d.len() {
        lemma_digits_value_prefix(d, n + 1);
        assert(d.subrange(0, n + 1 as int).drop_last() =~= d.subrange(0, n as int));
    } else {
        assert(d.subrange(0, n as int) =~= d);
    }
}

/// Whether two byte slices hold the same bytes.
pub fn bytes_eq(a: &[u8], b: &[u8]) -> (r: bool)
    ensures
        r == (a@ == b@),
{
    if a.len() != b.len() {
        return false;
    }
    let mut i: usize = 0;
    while i < a.len()
        invariant
            i <= a@.len(),
            a@.len() == b@.len(),
            forall|j: int| 0 <= j < i ==> a@[j] == b@[j],
        decreases a@.len() - i,
    {
        if a[i] != b[i] {
            return false;
        }
        i += 1;
    }
    assert(a@ =~= b@);
    true
}

/// Relies on `String::from_utf8`: it accepts exactly the byte sequences that
/// are valid UTF-8, and the string it returns holds the characters they encode.
#[verifier::external_body]
pub(crate) fn utf8_string(b: Vec<u8>) -> (r: Option<String>)
    ensures
        r is Some <==> valid_utf8(b@),
        r matches Some(s) ==> s@ == decode_utf8(b@),
{
    String::from_utf8(b).ok()
}

} // verus!
