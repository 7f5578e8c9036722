//! Byte-level scanning used by the response parser: lines, whitespace as
//! `char::is_whitespace` defines it, separators, case folding and decimal
//! numbers.
use vstd::prelude::*;

verus! {

/// A one-byte whitespace character as `char::is_whitespace` defines it:
/// tab, line feed, vertical tab, form feed, carriage return and space.
pub open spec fn is_ws(b: u8) -> bool {
    (9 <= b <= 13) || b == 32
}

/// The two-byte UTF-8 forms of whitespace: U+0085 and U+00A0.
pub open spec fn is_ws2(a: u8, b: u8) -> bool {
    a == 0xC2 && (b == 0x85 || b == 0xA0)
}

/// The three-byte UTF-8 forms of whitespace: U+1680, U+2000 to U+200A,
/// U+2028, U+2029, U+202F, U+205F and U+3000.
pub open spec fn is_ws3(a: u8, b: u8, c: u8) -> bool {
    ||| (a == 0xE1 && b == 0x9A && c == 0x80)
    ||| (a == 0xE2 && b == 0x80 && ((0x80 <= c <= 0x8A) || c == 0xA8 || c == 0xA9 || c == 0xAF))
    ||| (a == 0xE2 && b == 0x81 && c == 0x9F)
    ||| (a == 0xE3 && b == 0x80 && c == 0x80)
}

/// The length in bytes of the whitespace character that starts at `i` and
/// ends by `end`, or 0 when none does.
pub open spec fn ws_at(s: Seq<u8>, i: int, end: int) -> int {
    if i < end && is_ws(s[i]) {
        1
    } else if i + 2 <= end && is_ws2(s[i], s[i + 1]) {
        2
    } else if i + 3 <= end && is_ws3(s[i], s[i + 1], s[i + 2]) {
        3
    } else {
        0
    }
}

/// The length in bytes of the whitespace character that ends at `end` and
/// starts at or after `start`, or 0 when none does.
pub open spec fn ws_before(s: Seq<u8>, start: int, end: int) -> int {
    if start + 1 <= end && is_ws(s[end - 1]) {
        1
    } else if start + 2 <= end && is_ws2(s[end - 2], s[end - 1]) {
        2
    } else if start + 3 <= end && is_ws3(s[end - 3], s[end - 2], s[end - 1]) {
        3
    } else {
        0
    }
}

/// Index just past the first line feed at or after `i`, or the end of `s`
/// when no line feed follows.
pub open spec fn line_end(s: Seq<u8>, i: int) -> int
    decreases s.len() - i,
{
    if i >= s.len() {
        s.len() as int
    } else if s[i] == 10 {
        i + 1
    } else {
        line_end(s, i + 1)
    }
}

/// First index from `i` on, up to `end`, where no whitespace character
/// starts: leading whitespace skipped.
pub open spec fn skip_ws(s: Seq<u8>, i: int, end: int) -> int
    decreases end - i,
{
    if ws_at(s, i, end) > 0 {
        skip_ws(s, i + ws_at(s, i, end), end)
    } else {
        i
    }
}

/// First index in `[i, end)` where a whitespace character starts, or `end`.
pub open spec fn skip_word(s: Seq<u8>, i: int, end: int) -> int
    decreases end - i,
{
    if i < end && ws_at(s, i, end) == 0 {
        skip_word(s, i + 1, end)
    } else {
        i
    }
}

/// End of `[start, end)` once trailing whitespace is removed.
pub open spec fn trim_end(s: Seq<u8>, start: int, end: int) -> int
    decreases end - start,
{
    if ws_before(s, start, end) > 0 {
        trim_end(s, start, end - ws_before(s, start, end))
    } else {
        end
    }
}

/// First index in `[i, end)` holding `b`, or `end`.
pub open spec fn find_byte(s: Seq<u8>, b: u8, i: int, end: int) -> int
    decreases end - i,
{
    if i < end {
        if s[i] == b {
            i
        } else {
            find_byte(s, b, i + 1, end)
        }
    } else {
        end
    }
}

/// `u8::to_ascii_lowercase`.
pub open spec fn lower(b: u8) -> u8 {
    if 65 <= b <= 90 {
        (b + 32) as u8
    } else {
        b
    }
}

pub open spec fn lower_seq(s: Seq<u8>) -> Seq<u8> {
    s.map_values(|b: u8| lower(b))
}

pub open spec fn is_digit(b: u8) -> bool {
    48 <= b <= 57
}

/// Value of a string of decimal digits, most significant first.
pub open spec fn digits_value(s: Seq<u8>) -> nat
    decreases s.len(),
{
    if s.len() == 0 {
        0
    } else {
        digits_value(s.drop_last()) * 10 + (s.last() - 48) as nat
    }
}

/// A number as `str::parse` reads an unsigned integer no larger than `max`:
/// an optional `+`, then decimal digits.
pub open spec fn decimal(s: Seq<u8>, max: nat) -> Option<nat> {
    if s.len() > 0 && s[0] == 43 {
        digits(s.drop_first(), max)
    } else {
        digits(s, max)
    }
}

/// A non-empty string of decimal digits whose value is at most `max`.
pub open spec fn digits(s: Seq<u8>, max: nat) -> Option<nat> {
    if s.len() > 0 && (forall|k: int| 0 <= k < s.len() ==> is_digit(#[trigger] s[k]))
        && digits_value(s) <= max {
        Some(digits_value(s))
    } else {
        None
    }
}

fn is_ws_byte(b: u8) -> (r: bool)
    ensures
        r == is_ws(b),
{
    (9 <= b && b <= 13) || b == 32
}

fn is_ws2_bytes(a: u8, b: u8) -> (r: bool)
    ensures
        r == is_ws2(a, b),
{
    a == 0xC2 && (b == 0x85 || b == 0xA0)
}

fn is_ws3_bytes(a: u8, b: u8, c: u8) -> (r: bool)
    ensures
        r == is_ws3(a, b, c),
{
    (a == 0xE1 && b == 0x9A && c == 0x80) || (a == 0xE2 && b == 0x80 && ((0x80 <= c && c <= 0x8A)
        || c == 0xA8 || c == 0xA9 || c == 0xAF)) || (a == 0xE2 && b == 0x81 && c == 0x9F) || (a
        == 0xE3 && b == 0x80 && c == 0x80)
}

pub fn ws_len_at(s: &[u8], i: usize, end: usize) -> (r: usize)
    requires
        i <= end <= s@.len(),
    ensures
        r == ws_at(s@, i as int, end as int),
{
    if i < end && is_ws_byte(s[i]) {
        1
    } else if end - i >= 2 && is_ws2_bytes(s[i], s[i + 1]) {
        2
    } else if end - i >= 3 && is_ws3_bytes(s[i], s[i + 1], s[i + 2]) {
        3
    } else {
        0
    }
}

pub fn ws_len_before(s: &[u8], start: usize, end: usize) -> (r: usize)
    requires
        start <= end <= s@.len(),
    ensures
        r == ws_before(s@, start as int, end as int),
{
    if end - start >= 1 && is_ws_byte(s[end - 1]) {
        1
    } else if end - start >= 2 && is_ws2_bytes(s[end - 2], s[end - 1]) {
        2
    } else if end - start >= 3 && is_ws3_bytes(s[end - 3], s[end - 2], s[end - 1]) {
        3
    } else {
        0
    }
}

pub fn find_line_end(s: &[u8], i: usize) -> (r: usize)
    requires
        i <= s@.len(),
    ensures
        r == line_end(s@, i as int),
        i <= r <= s@.len(),
        i < s@.len() ==> i < r,
{
    let mut j = i;
    while j < s.len()
        invariant
            i <= j <= s@.len(),
            line_end(s@, i as int) == line_end(s@, j as int),
            forall|k: int| i <= k < j ==> s@[k] != 10,
        decreases s@.len() - j,
    {
        if s[j] == 10 {
            return j + 1;
        }
        j = j + 1;
    }
    j
}

pub fn skip_whitespace(s: &[u8], i: usize, end: usize) -> (r: usize)
    requires
        i <= end <= s@.len(),
    ensures
        r == skip_ws(s@, i as int, end as int),
        i <= r <= end,
{
    let mut j = i;
    loop
        invariant
            i <= j <= end <= s@.len(),
            skip_ws(s@, i as int, end as int) == skip_ws(s@, j as int, end as int),
        decreases end - j,
    {
        let k = ws_len_at(s, j, end);
        if k == 0 {
            return j;
        }
        j = j + k;
    }
}

pub fn skip_non_whitespace(s: &[u8], i: usize, end: usize) -> (r: usize)
    requires
        i <= end <= s@.len(),
    ensures
        r == skip_word(s@, i as int, end as int),
        i <= r <= end,
{
    let mut j = i;
    while j < end && ws_len_at(s, j, end) == 0
        invariant
            i <= j <= end <= s@.len(),
            skip_word(s@, i as int, end as int) == skip_word(s@, j as int, end as int),
        decreases end - j,
    {
        j = j + 1;
    }
    j
}

pub fn trim_trailing(s: &[u8], start: usize, end: usize) -> (r: usize)
    requires
        start <= end <= s@.len(),
    ensures
        r == trim_end(s@, start as int, end as int),
        start <= r <= end,
{
    let mut j = end;
    loop
        invariant
            start <= j <= end <= s@.len(),
            trim_end(s@, start as int, end as int) == trim_end(s@, start as int, j as int),
        decreases j - start,
    {
        let k = ws_len_before(s, start, j);
        if k == 0 {
            return j;
        }
        j = j - k;
    }
}

pub fn find(s: &[u8], b: u8, i: usize, end: usize) -> (r: usize)
    requires
        i <= end <= s@.len(),
    ensures
        r == find_byte(s@, b, i as int, end as int),
        i <= r <= end,
        r < end ==> s@[r as int] == b,
{
    let mut j = i;
    while j < end
        invariant
            i <= j <= end <= s@.len(),
            find_byte(s@, b, i as int, end as int) == find_byte(s@, b, j as int, end as int),
        decreases end - j,
    {
        if s[j] == b {
            return j;
        }
        j = j + 1;
    }
    j
}

pub fn lower_byte(b: u8) -> (r: u8)
    ensures
        r == lower(b),
{
    if 65 <= b && b <= 90 {
        b + 32
    } else {
        b
    }
}

/// The bytes of `s[from..to]`, ASCII upper case letters folded to lower case.
pub fn lowercase(s: &[u8], from: usize, to: usize) -> (r: Vec<u8>)
    requires
        from <= to <= s@.len(),
    ensures
        r@ == lower_seq(s@.subrange(from as int, to as int)),
{
    let mut out: Vec<u8> = Vec::new();
    let mut j = from;
    while j < to
        invariant
            from <= j <= to <= s@.len(),
            out@ == lower_seq(s@.subrange(from as int, j as int)),
        decreases to - j,
    {
        let b = s[j];
        out.push(lower_byte(b));
        assert(s@.subrange(from as int, j + 1) =~= s@.subrange(from as int, j as int).push(b));
        assert(lower_seq(s@.subrange(from as int, j + 1)) =~= out@);
        j = j + 1;
    }
    out
}

/// Reads `s[from..to]` as an unsigned number no larger than `max`, with an
/// optional leading `+`.
pub fn parse_decimal(s: &[u8], from: usize, to: usize, max: u64) -> (r: Option<u64>)
    requires
        from <= to <= s@.len(),
    ensures
        match decimal(s@.subrange(from as int, to as int), max as nat) {
            Some(v) => r == Some(v as u64),
            None => r is None,
        },
{
    if from < to && s[from] == 43 {
        assert(s@.subrange(from as int, to as int).drop_first() =~= s@.subrange(
            from + 1,
            to as int,
        ));
        parse_digits(s, from + 1, to, max)
    } else {
        parse_digits(s, from, to, max)
    }
}

/// Reads `s[from..to]` as a string of decimal digits whose value is at most `max`.
fn parse_digits(s: &[u8], from: usize, to: usize, max: u64) -> (r: Option<u64>)
    requires
        from <= to <= s@.len(),
    ensures
        match digits(s@.subrange(from as int, to as int), max as nat) {
            Some(v) => r == Some(v as u64),
            None => r is None,
        },
{
    let ghost d = s@.subrange(from as int, to as int);
    if from == to {
        return None;
    }
    let mut value: u64 = 0;
    let mut over = false;
    let mut j = from;
    while j < to
        invariant
            from <= j <= to <= s@.len(),
            d == s@.subrange(from as int, to as int),
            forall|k: int| from <= k < j ==> is_digit(#[trigger] s@[k]),
            over ==> digits_value(s@.subrange(from as int, j as int)) > max,
            !over ==> value == digits_value(s@.subrange(from as int, j as int)),
            value <= max,
        decreases to - j,
    {
        let b = s[j];
        if !(48 <= b && b <= 57) {
            assert(!is_digit(d[j - from]));
            return None;
        }
        let ghost prev = s@.subrange(from as int, j as int);
        let ghost next = s@.subrange(from as int, j + 1);
        assert(next.drop_last() =~= prev);
        assert(next.last() == b);
        let nv: u128 = (value as u128) * 10 + ((b - 48) as u128);
        if over || nv > max as u128 {
            over = true;
        } else {
            value = nv as u64;
        }
        j = j + 1;
    }
    assert(d =~= s@.subrange(from as int, j as int));
    assert forall|k: int| 0 <= k < d.len() implies is_digit(#[trigger] d[k]) by {
        assert(d[k] == s@[from + k]);
    }
    if over {
        None
    } else {
        Some(value)
    }
}

} // verus!
