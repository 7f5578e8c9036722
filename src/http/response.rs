//! Parsing of an HTTP/1.1 response: status line, header lines up to the
//! blank line, then exactly `Content-Length` bytes of body.
use vstd::prelude::*;
use vstd::utf8::{decode_utf8, encode_utf8, valid_utf8, decode_utf8_encode_utf8};
use crate::http::scan::{
    line_end, skip_ws, skip_word, trim_end, find_byte, lower, lower_seq, decimal, find_line_end,
    lower_byte,
    skip_whitespace, skip_non_whitespace, trim_trailing, find, lowercase, parse_decimal,
};

verus! {

/// Why a response could not be read.
#[derive(Debug, Clone, Copy, PartialEq, Eq, Structural)]
pub enum HttpError {
    /// The status line does not hold a version, a code and a message.
    MalformedStatusLine,
    /// A header line has no `:`, or the input ends before the blank line.
    MalformedHeaderLine,
    /// Fewer body bytes follow the headers than `Content-Length` declares.
    TruncatedBody,
    /// The status code or the `Content-Length` value is not a number in range.
    NonNumericField,
    /// A field or the body is not valid UTF-8.
    InvalidText,
    /// TLS was asked for and the domain is not a valid DNS name.
    InvalidDnsName,
}

/// A parsed response as byte strings, before decoding to text.
pub struct RawResponse {
    pub protocol_version: Seq<u8>,
    pub status_code: u16,
    pub status_message: Seq<u8>,
    pub headers: Seq<(Seq<u8>, Seq<u8>)>,
    pub body: Seq<u8>,
}

/// The value of a `Response`: every text field as its characters.
pub struct ResponseView {
    pub protocol_version: Seq<char>,
    pub status_code: u16,
    pub status_message: Seq<char>,
    pub headers: Seq<(Seq<char>, Seq<char>)>,
    pub body: Seq<char>,
}

/// The three fields of the status line of `s` (its first line): the first two
/// whitespace-separated words and the rest of the line, trimmed.
pub open spec fn status_spec(s: Seq<u8>) -> Result<(Seq<u8>, u16, Seq<u8>), HttpError> {
    let t = trim_end(s, 0, line_end(s, 0));
    let a0 = skip_ws(s, 0, t);
    let a1 = skip_word(s, a0, t);
    let b0 = skip_ws(s, a1, t);
    let b1 = skip_word(s, b0, t);
    let c0 = skip_ws(s, b1, t);
    if c0 >= t {
        Err(HttpError::MalformedStatusLine)
    } else {
        match decimal(s.subrange(b0, b1), 65535) {
            Some(code) => Ok((s.subrange(a0, a1), code as u16, s.subrange(c0, t))),
            None => Err(HttpError::NonNumericField),
        }
    }
}

/// The line `s[pos..e]` is the bare terminator `\r\n`.
pub open spec fn is_blank_line(s: Seq<u8>, pos: int, e: int) -> bool {
    e == pos + 2 && s[pos] == 13 && s[pos + 1] == 10
}

/// The header on line `s[pos..e]`: the name before the first `:`, and the
/// value after it with surrounding whitespace trimmed, both case-folded.
pub open spec fn header_spec(s: Seq<u8>, pos: int, e: int) -> Option<(Seq<u8>, Seq<u8>)> {
    let c = find_byte(s, 58, pos, e);
    if c >= e {
        None
    } else {
        let v0 = skip_ws(s, c + 1, e);
        let v1 = trim_end(s, v0, e);
        Some((lower_seq(s.subrange(pos, c)), lower_seq(s.subrange(v0, v1))))
    }
}

/// The headers from the line starting at `pos` up to the blank line, in
/// order, and the index just past the blank line.
pub open spec fn headers_spec(s: Seq<u8>, pos: int) -> Result<
    (Seq<(Seq<u8>, Seq<u8>)>, int),
    HttpError,
>
    decreases s.len() - pos,
{
    let e = line_end(s, pos);
    if pos < 0 || pos >= s.len() || e <= pos || e > s.len() {
        Err(HttpError::MalformedHeaderLine)
    } else if is_blank_line(s, pos, e) {
        Ok((Seq::empty(), e))
    } else {
        match header_spec(s, pos, e) {
            None => Err(HttpError::MalformedHeaderLine),
            Some(h) => match headers_spec(s, e) {
                Ok((rest, body_start)) => Ok((seq![h] + rest, body_start)),
                Err(err) => Err(err),
            },
        }
    }
}

pub open spec fn content_length_name() -> Seq<u8> {
    seq![99u8, 111, 110, 116, 101, 110, 116, 45, 108, 101, 110, 103, 116, 104]
}

/// The body length declared by the first header from index `i` on whose
/// name is `content-length` in any ASCII case; zero when there is none.
pub open spec fn content_length_from(hs: Seq<(Seq<u8>, Seq<u8>)>, i: int) -> Result<nat, HttpError>
    decreases hs.len() - i,
{
    if i < 0 || i >= hs.len() {
        Ok(0)
    } else if lower_seq(hs[i].0) == content_length_name() {
        match decimal(hs[i].1, u64::MAX as nat) {
            Some(v) => Ok(v),
            None => Err(HttpError::NonNumericField),
        }
    } else {
        content_length_from(hs, i + 1)
    }
}

pub open spec fn content_length_spec(hs: Seq<(Seq<u8>, Seq<u8>)>) -> Result<nat, HttpError> {
    content_length_from(hs, 0)
}

/// What the bytes `s` hold as a response, or the first error met reading them.
pub open spec fn raw_parse(s: Seq<u8>) -> Result<RawResponse, HttpError> {
    match status_spec(s) {
        Err(e) => Err(e),
        Ok((version, code, message)) => match headers_spec(s, line_end(s, 0)) {
            Err(e) => Err(e),
            Ok((hs, body_start)) => match content_length_spec(hs) {
                Err(e) => Err(e),
                Ok(len) => if body_start + len > s.len() {
                    Err(HttpError::TruncatedBody)
                } else {
                    Ok(
                        RawResponse {
                            protocol_version: version,
                            status_code: code,
                            status_message: message,
                            headers: hs,
                            body: s.subrange(body_start, body_start + len),
                        },
                    )
                },
            },
        },
    }
}

/// Every name and value in `hs` is valid UTF-8.
pub open spec fn headers_are_text(hs: Seq<(Seq<u8>, Seq<u8>)>) -> bool {
    forall|i: int| #![trigger hs[i]] 0 <= i < hs.len() ==> valid_utf8(hs[i].0) && valid_utf8(hs[i].1)
}

/// Every field of `r` is valid UTF-8.
pub open spec fn raw_is_text(r: RawResponse) -> bool {
    &&& valid_utf8(r.protocol_version)
    &&& valid_utf8(r.status_message)
    &&& headers_are_text(r.headers)
    &&& valid_utf8(r.body)
}

pub open spec fn decode_header(h: (Seq<u8>, Seq<u8>)) -> (Seq<char>, Seq<char>) {
    (decode_utf8(h.0), decode_utf8(h.1))
}

pub open spec fn decode_raw(r: RawResponse) -> ResponseView {
    ResponseView {
        protocol_version: decode_utf8(r.protocol_version),
        status_code: r.status_code,
        status_message: decode_utf8(r.status_message),
        headers: r.headers.map_values(|h: (Seq<u8>, Seq<u8>)| decode_header(h)),
        body: decode_utf8(r.body),
    }
}

/// The value of parsing the bytes `s`: the response they hold, the error
/// `raw_parse` meets, or `InvalidText` where a field is not UTF-8.
pub open spec fn parse_spec(s: Seq<u8>) -> Result<ResponseView, HttpError> {
    match raw_parse(s) {
        Err(e) => Err(e),
        Ok(r) => if raw_is_text(r) {
            Ok(decode_raw(r))
        } else {
            Err(HttpError::InvalidText)
        },
    }
}

pub open spec fn header_view(h: (String, String)) -> (Seq<char>, Seq<char>) {
    (h.0@, h.1@)
}

/// A response as read from the stream: text fields, headers in the order
/// they came with case-folded names and values, and the body.
#[derive(Debug)]
pub struct Response {
    pub protocol_version: String,
    pub status_code: u16,
    pub status_message: String,
    pub headers: Vec<(String, String)>,
    pub body: String,
}

impl View for Response {
    type V = ResponseView;

    open spec fn view(&self) -> ResponseView {
        ResponseView {
            protocol_version: self.protocol_version@,
            status_code: self.status_code,
            status_message: self.status_message@,
            headers: self.headers@.map_values(|h: (String, String)| header_view(h)),
            body: self.body@,
        }
    }
}

pub open spec fn result_view(r: Result<Response, HttpError>) -> Result<ResponseView, HttpError> {
    match r {
        Ok(resp) => Ok(resp@),
        Err(e) => Err(e),
    }
}

/// Relies on `String::from_utf8`: it succeeds exactly on valid UTF-8 and the
/// string then holds the characters the bytes encode.
#[verifier::external_body]
fn text_from_bytes(b: &[u8]) -> (r: Option<String>)
    ensures
        match r {
            Some(t) => valid_utf8(b@) && t@ == decode_utf8(b@),
            None => !valid_utf8(b@),
        },
{
    String::from_utf8(b.to_vec()).ok()
}

pub fn parse_status_line(s: &[u8]) -> (r: Result<(Vec<u8>, u16, Vec<u8>), HttpError>)
    ensures
        match r {
            Ok((v, c, m)) => status_spec(s@) == Ok::<_, HttpError>((v@, c, m@)),
            Err(e) => status_spec(s@) == Err::<(Seq<u8>, u16, Seq<u8>), _>(e),
        },
{
    let t = trim_trailing(s, 0, find_line_end(s, 0));
    let a0 = skip_whitespace(s, 0, t);
    let a1 = skip_non_whitespace(s, a0, t);
    let b0 = skip_whitespace(s, a1, t);
    let b1 = skip_non_whitespace(s, b0, t);
    let c0 = skip_whitespace(s, b1, t);
    if c0 >= t {
        return Err(HttpError::MalformedStatusLine);
    }
    match parse_decimal(s, b0, b1, 65535) {
        None => Err(HttpError::NonNumericField),
        Some(code) => {
            let version = slice_to_vec(s, a0, a1);
            let message = slice_to_vec(s, c0, t);
            Ok((version, code as u16, message))
        },
    }
}

/// A copy of `s[from..to]`.
fn slice_to_vec(s: &[u8], from: usize, to: usize) -> (r: Vec<u8>)
    requires
        from <= to <= s@.len(),
    ensures
        r@ == s@.subrange(from as int, to as int),
{
    let mut out: Vec<u8> = Vec::new();
    let mut j = from;
    while j < to
        invariant
            from <= j <= to <= s@.len(),
            out@ == s@.subrange(from as int, j as int),
        decreases to - j,
    {
        out.push(s[j]);
        assert(out@ =~= s@.subrange(from as int, j + 1));
        j = j + 1;
    }
    out
}

pub fn parse_header(s: &[u8], pos: usize, e: usize) -> (r: Result<(Vec<u8>, Vec<u8>), HttpError>)
    requires
        pos <= e <= s@.len(),
    ensures
        match r {
            Ok((k, v)) => header_spec(s@, pos as int, e as int) == Some((k@, v@)),
            Err(err) => header_spec(s@, pos as int, e as int) is None
                && err == HttpError::MalformedHeaderLine,
        },
{
    let c = find(s, 58, pos, e);
    if c >= e {
        return Err(HttpError::MalformedHeaderLine);
    }
    let v0 = skip_whitespace(s, c + 1, e);
    let v1 = trim_trailing(s, v0, e);
    Ok((lowercase(s, pos, c), lowercase(s, v0, v1)))
}

pub open spec fn raw_headers(hs: Seq<(Vec<u8>, Vec<u8>)>) -> Seq<(Seq<u8>, Seq<u8>)> {
    hs.map_values(|h: (Vec<u8>, Vec<u8>)| (h.0@, h.1@))
}

/// `acc` followed by the headers of `r`, when `r` holds headers.
pub open spec fn prepend(
    acc: Seq<(Seq<u8>, Seq<u8>)>,
    r: Result<(Seq<(Seq<u8>, Seq<u8>)>, int), HttpError>,
) -> Result<(Seq<(Seq<u8>, Seq<u8>)>, int), HttpError> {
    match r {
        Ok((rest, body_start)) => Ok((acc + rest, body_start)),
        Err(e) => Err(e),
    }
}

/// Whether `name` is `content-length` in any ASCII case.
fn is_content_length(name: &[u8]) -> (r: bool)
    ensures
        r == (lower_seq(name@) == content_length_name()),
{
    let expected: [u8; 14] = [99, 111, 110, 116, 101, 110, 116, 45, 108, 101, 110, 103, 116, 104];
    assert(expected@ == content_length_name());
    if name.len() != 14 {
        return false;
    }
    let mut k: usize = 0;
    while k < 14
        invariant
            name@.len() == 14,
            expected@ == content_length_name(),
            k <= 14,
            forall|j: int| 0 <= j < k ==> lower(name@[j]) == #[trigger] expected@[j],
        decreases 14 - k,
    {
        if lower_byte(name[k]) != expected[k] {
            assert(lower_seq(name@)[k as int] != content_length_name()[k as int]);
            return false;
        }
        k = k + 1;
    }
    assert(lower_seq(name@) =~= content_length_name());
    true
}

/// The declared body length: the value of the first `content-length`
/// header, or zero when there is none.
pub fn find_content_length(headers: &Vec<(Vec<u8>, Vec<u8>)>) -> (r: Result<u64, HttpError>)
    ensures
        match r {
            Ok(n) => content_length_spec(raw_headers(headers@)) == Ok::<nat, HttpError>(n as nat),
            Err(e) => content_length_spec(raw_headers(headers@)) == Err::<nat, HttpError>(e),
        },
{
    let ghost hs = raw_headers(headers@);
    let mut i: usize = 0;
    while i < headers.len()
        invariant
            i <= headers@.len(),
            hs == raw_headers(headers@),
            content_length_from(hs, 0) == content_length_from(hs, i as int),
        decreases headers@.len() - i,
    {
        let h = &headers[i];
        if is_content_length(h.0.as_slice()) {
            return match parse_decimal(h.1.as_slice(), 0, h.1.len(), u64::MAX) {
                Some(v) => {
                    assert(h.1@.subrange(0, h.1@.len() as int) =~= h.1@);
                    Ok(v)
                },
                None => {
                    assert(h.1@.subrange(0, h.1@.len() as int) =~= h.1@);
                    Err(HttpError::NonNumericField)
                },
            };
        }
        i = i + 1;
    }
    Ok(0)
}

/// Decodes every header name and value to text, in order.
fn decode_headers(hs: &Vec<(Vec<u8>, Vec<u8>)>) -> (r: Option<Vec<(String, String)>>)
    ensures
        match r {
            Some(d) => headers_are_text(raw_headers(hs@)) && d@.map_values(
                |h: (String, String)| header_view(h),
            ) == raw_headers(hs@).map_values(|h: (Seq<u8>, Seq<u8>)| decode_header(h)),
            None => !headers_are_text(raw_headers(hs@)),
        },
{
    let ghost raw = raw_headers(hs@);
    let mut out: Vec<(String, String)> = Vec::new();
    let mut i: usize = 0;
    while i < hs.len()
        invariant
            i <= hs@.len(),
            raw == raw_headers(hs@),
            raw.len() == hs@.len(),
            out@.len() == i,
            forall|k: int| #![trigger raw[k]] 0 <= k < i ==> valid_utf8(raw[k].0) && valid_utf8(raw[k].1),
            out@.map_values(|h: (String, String)| header_view(h)) =~= raw.subrange(
                0,
                i as int,
            ).map_values(|h: (Seq<u8>, Seq<u8>)| decode_header(h)),
        decreases hs@.len() - i,
    {
        proof {
            assert(raw[i as int] == (hs@[i as int].0@, hs@[i as int].1@));
        }
        let name = match text_from_bytes(hs[i].0.as_slice()) {
            Some(t) => t,
            None => {
                assert(!(valid_utf8(raw[i as int].0) && valid_utf8(raw[i as int].1)));
                return None;
            },
        };
        let value = match text_from_bytes(hs[i].1.as_slice()) {
            Some(t) => t,
            None => {
                assert(!(valid_utf8(raw[i as int].0) && valid_utf8(raw[i as int].1)));
                return None;
            },
        };
        let ghost prev = out@;
        out.push((name, value));
        proof {
            assert(out@ == prev.push((name, value)));
            assert(header_view(out@[i as int]) == decode_header(raw[i as int]));
            assert(raw.subrange(0, i + 1) =~= raw.subrange(0, i as int).push(raw[i as int]));
            assert(out@.map_values(|h: (String, String)| header_view(h)) =~= prev.map_values(
                |h: (String, String)| header_view(h),
            ).push(header_view(out@[i as int])));
            assert(raw.subrange(0, i + 1).map_values(|h: (Seq<u8>, Seq<u8>)| decode_header(h))
                =~= raw.subrange(0, i as int).map_values(
                |h: (Seq<u8>, Seq<u8>)| decode_header(h),
            ).push(decode_header(raw[i as int])));
        }
        i = i + 1;
        assert(out@.map_values(|h: (String, String)| header_view(h)) =~= raw.subrange(
            0,
            i as int,
        ).map_values(|h: (Seq<u8>, Seq<u8>)| decode_header(h)));
    }
    assert(raw.subrange(0, i as int) =~= raw);
    Some(out)
}

proof fn lemma_prepend_empty(r: Result<(Seq<(Seq<u8>, Seq<u8>)>, int), HttpError>)
    ensures
        prepend(Seq::empty(), r) == r,
{
    if let Ok((rest, b)) = r {
        assert(Seq::<(Seq<u8>, Seq<u8>)>::empty() + rest =~= rest);
    }
}

proof fn lemma_prepend_step(
    acc: Seq<(Seq<u8>, Seq<u8>)>,
    h: (Seq<u8>, Seq<u8>),
    r: Result<(Seq<(Seq<u8>, Seq<u8>)>, int), HttpError>,
)
    ensures
        prepend(acc, prepend(seq![h], r)) == prepend(acc.push(h), r),
{
    if let Ok((rest, b)) = r {
        assert(acc + (seq![h] + rest) =~= acc.push(h) + rest);
    }
}

proof fn lemma_headers_lowercase(s: Seq<u8>, pos: int)
    requires
        headers_spec(s, pos) is Ok,
    ensures
        forall|i: int, k: int|
            0 <= i < headers_spec(s, pos)->Ok_0.0.len() && 0 <= k < headers_spec(
                s,
                pos,
            )->Ok_0.0[i].0.len() ==> !(65 <= #[trigger] headers_spec(s, pos)->Ok_0.0[i].0[k]
                <= 90),
    decreases s.len() - pos,
{
    let e = line_end(s, pos);
    if !is_blank_line(s, pos, e) {
        let h = header_spec(s, pos, e)->Some_0;
        lemma_headers_lowercase(s, e);
        let rest = headers_spec(s, e)->Ok_0.0;
        let all = headers_spec(s, pos)->Ok_0.0;
        assert(all == seq![h] + rest);
        assert forall|i: int, k: int| 0 <= i < all.len() && 0 <= k < all[i].0.len() implies !(65
            <= #[trigger] all[i].0[k] <= 90) by {
            if i > 0 {
                assert(all[i] == rest[i - 1]);
            }
        }
    }
}

proof fn lemma_headers_end(s: Seq<u8>, pos: int)
    requires
        headers_spec(s, pos) is Ok,
    ensures
        pos < headers_spec(s, pos)->Ok_0.1 <= s.len(),
    decreases s.len() - pos,
{
    let e = line_end(s, pos);
    if !is_blank_line(s, pos, e) {
        lemma_headers_end(s, e);
    }
}

pub proof fn lemma_no_content_length(hs: Seq<(Seq<u8>, Seq<u8>)>, i: int)
    requires
        0 <= i,
        forall|j: int| 0 <= j < hs.len() ==> lower_seq(#[trigger] hs[j].0) != content_length_name(),
    ensures
        content_length_from(hs, i) == Ok::<nat, HttpError>(0),
    decreases hs.len() - i,
{
    if i < hs.len() {
        lemma_no_content_length(hs, i + 1);
    }
}

/// A parsed response holds exactly as many body bytes as its headers
/// declare, its header names carry no ASCII upper case letter, and its
/// text is the UTF-8 reading of those bytes.
pub proof fn parsed_body_has_declared_length(s: Seq<u8>)
    requires
        parse_spec(s) is Ok,
    ensures
        raw_parse(s) is Ok,
        content_length_spec(raw_parse(s)->Ok_0.headers) == Ok::<nat, HttpError>(
            raw_parse(s)->Ok_0.body.len(),
        ),
        encode_utf8(parse_spec(s)->Ok_0.body) == raw_parse(s)->Ok_0.body,
        parse_spec(s)->Ok_0.headers.len() == raw_parse(s)->Ok_0.headers.len(),
        forall|i: int, k: int|
            0 <= i < raw_parse(s)->Ok_0.headers.len() && 0 <= k < raw_parse(
                s,
            )->Ok_0.headers[i].0.len() ==> !(65 <= #[trigger] raw_parse(s)->Ok_0.headers[i].0[k]
                <= 90),
{
    let raw = raw_parse(s)->Ok_0;
    let (hs, body_start) = headers_spec(s, line_end(s, 0))->Ok_0;
    let len = content_length_spec(hs)->Ok_0;
    lemma_headers_end(s, line_end(s, 0));
    assert(raw.body == s.subrange(body_start, body_start + len));
    assert(raw.body.len() == len);
    lemma_headers_lowercase(s, line_end(s, 0));
    decode_utf8_encode_utf8(raw.body);
}

/// Parsing depends on the bytes alone: two parses of the same bytes give
/// the same error, or responses equal field for field.
pub proof fn parse_is_deterministic(
    s: Seq<u8>,
    first: Result<Response, HttpError>,
    second: Result<Response, HttpError>,
)
    requires
        result_view(first) == parse_spec(s),
        result_view(second) == parse_spec(s),
    ensures
        first is Ok <==> second is Ok,
        first is Ok ==> first->Ok_0@ == second->Ok_0@,
        first is Err ==> first == second,
{
}

/// The body length that the head of `s` declares, or the first error met
/// reading the status line and the headers.
pub open spec fn declared_length(s: Seq<u8>) -> Result<nat, HttpError> {
    match status_spec(s) {
        Err(e) => Err(e),
        Ok(_) => match headers_spec(s, line_end(s, 0)) {
            Err(e) => Err(e),
            Ok((hs, _)) => content_length_spec(hs),
        },
    }
}

/// Reads the status line and the headers: their fields, the index where the
/// body starts and the declared body length.
fn parse_head(input: &[u8]) -> (r: Result<
    (Vec<u8>, u16, Vec<u8>, Vec<(Vec<u8>, Vec<u8>)>, usize, u64),
    HttpError,
>)
    ensures
        match r {
            Ok((version, code, message, headers, body_start, len)) => {
                &&& status_spec(input@) == Ok::<_, HttpError>((version@, code, message@))
                &&& headers_spec(input@, line_end(input@, 0)) == Ok::<_, HttpError>(
                    (raw_headers(headers@), body_start as int),
                )
                &&& body_start <= input@.len()
                &&& content_length_spec(raw_headers(headers@)) == Ok::<nat, HttpError>(len as nat)
            },
            Err(e) => declared_length(input@) == Err::<nat, _>(e),
        },
{
    let ghost s = input@;
    let (version, code, message) = match parse_status_line(input) {
        Ok(fields) => fields,
        Err(e) => return Err(e),
    };
    let ghost start = line_end(s, 0);
    let mut pos = find_line_end(input, 0);
    let mut headers: Vec<(Vec<u8>, Vec<u8>)> = Vec::new();
    let mut body_start: usize = 0;
    proof {
        lemma_prepend_empty(headers_spec(s, start));
        assert(raw_headers(headers@) =~= Seq::empty());
    }
    loop
        invariant_except_break
            pos <= s.len(),
            headers_spec(s, start) == prepend(raw_headers(headers@), headers_spec(s, pos as int)),
        invariant
            s == input@,
            start == line_end(s, 0),
            status_spec(s) == Ok::<_, HttpError>((version@, code, message@)),
        ensures
            body_start <= s.len(),
            headers_spec(s, start) == Ok::<_, HttpError>((raw_headers(headers@), body_start as int)),
        decreases s.len() - pos,
    {
        if pos >= input.len() {
            return Err(HttpError::MalformedHeaderLine);
        }
        let e = find_line_end(input, pos);
        if e - pos == 2 && input[pos] == 13 && input[pos + 1] == 10 {
            body_start = e;
            assert(raw_headers(headers@) + Seq::empty() =~= raw_headers(headers@));
            break;
        }
        match parse_header(input, pos, e) {
            Err(err) => return Err(err),
            Ok(h) => {
                proof {
                    lemma_prepend_step(raw_headers(headers@), (h.0@, h.1@), headers_spec(s, e as int));
                    assert(raw_headers(headers@.push(h)) =~= raw_headers(headers@).push((h.0@, h.1@)));
                }
                headers.push(h);
            },
        }
        pos = e;
    }
    let len = match find_content_length(&headers) {
        Ok(n) => n,
        Err(e) => return Err(e),
    };
    Ok((version, code, message, headers, body_start, len))
}

impl Response {
    /// Reads a response from the bytes of the stream it arrived on: the
    /// status line, the headers up to the blank line, then exactly as many
    /// body bytes as `Content-Length` declares (none without it). Bytes
    /// after the body are left unread. The status line and header lines may
    /// end in `\n` alone; the blank line that ends the headers is `\r\n`.
    pub fn parse(input: &[u8]) -> (r: Result<Response, HttpError>)
        ensures
            result_view(r) == parse_spec(input@),
    {
        let ghost s = input@;
        let (version, code, message, headers, body_start, len) = match parse_head(input) {
            Ok(head) => head,
            Err(e) => return Err(e),
        };
        let ghost hs = raw_headers(headers@);
        if len > (input.len() - body_start) as u64 {
            return Err(HttpError::TruncatedBody);
        }
        let body_end = body_start + len as usize;
        let ghost raw = RawResponse {
            protocol_version: version@,
            status_code: code,
            status_message: message@,
            headers: hs,
            body: s.subrange(body_start as int, body_end as int),
        };
        assert(raw_parse(s) == Ok::<_, HttpError>(raw));
        let protocol_version = match text_from_bytes(version.as_slice()) {
            Some(t) => t,
            None => return Err(HttpError::InvalidText),
        };
        let status_message = match text_from_bytes(message.as_slice()) {
            Some(t) => t,
            None => return Err(HttpError::InvalidText),
        };
        let decoded = match decode_headers(&headers) {
            Some(d) => d,
            None => return Err(HttpError::InvalidText),
        };
        let body_bytes = slice_to_vec(input, body_start, body_end);
        let body = match text_from_bytes(body_bytes.as_slice()) {
            Some(t) => t,
            None => return Err(HttpError::InvalidText),
        };
        let resp = Response {
            protocol_version,
            status_code: code,
            status_message,
            headers: decoded,
            body,
        };
        assert(resp@ == decode_raw(raw));
        Ok(resp)
    }

    /// The body length that the head of `input` declares: what a reader of
    /// a stream must take after the blank line ending the headers.
    pub fn body_length(input: &[u8]) -> (r: Result<u64, HttpError>)
        ensures
            match r {
                Ok(n) => declared_length(input@) == Ok::<nat, HttpError>(n as nat),
                Err(e) => declared_length(input@) == Err::<nat, _>(e),
            },
    {
        match parse_head(input) {
            Ok((_, _, _, _, _, len)) => Ok(len),
            Err(e) => Err(e),
        }
    }
}

} // verus!
