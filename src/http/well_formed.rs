//! What parsing gives on responses written out line by line: a status line,
//! header lines, the blank line, a body and whatever follows.
use vstd::prelude::*;
use crate::http::scan::{line_end, find_byte, lower_seq, skip_ws, trim_end, ws_at, ws_before};
use crate::http::response::{
    HttpError, status_spec, headers_spec, header_spec, is_blank_line, raw_parse, parse_spec,
    content_length_name, declared_length, lemma_no_content_length,
    content_length_spec, RawResponse,
};
use vstd::utf8::decode_utf8;

verus! {

pub open spec fn crlf() -> Seq<u8> {
    seq![13u8, 10]
}

/// A header line without its terminator: it holds a `:` and no line feed.
pub open spec fn is_header_line(line: Seq<u8>) -> bool {
    &&& forall|k: int| 0 <= k < line.len() ==> #[trigger] line[k] != 10
    &&& exists|k: int| 0 <= k < line.len() && #[trigger] line[k] == 58
}

/// The name a header line gives: what stands before its first `:`.
pub open spec fn line_name(line: Seq<u8>) -> Seq<u8> {
    line.subrange(0, find_byte(line, 58, 0, line.len() as int))
}

/// The value a header line gives: what follows its first `:`, with the
/// line's terminator, leading and trailing whitespace removed.
pub open spec fn line_value(line: Seq<u8>) -> Seq<u8> {
    let v = line.subrange(find_byte(line, 58, 0, line.len() as int) + 1, line.len() as int)
        + crlf();
    let v0 = skip_ws(v, 0, v.len() as int);
    v.subrange(v0, trim_end(v, v0, v.len() as int))
}

proof fn lemma_skip_ws_frame(s: Seq<u8>, t: Seq<u8>, o: int, i: int)
    requires
        0 <= o,
        0 <= i <= t.len(),
        o + t.len() <= s.len(),
        s.subrange(o, o + t.len()) == t,
    ensures
        skip_ws(s, o + i, o + t.len()) == o + skip_ws(t, i, t.len() as int),
        i <= skip_ws(t, i, t.len() as int) <= t.len(),
    decreases t.len() - i,
{
    let n = t.len() as int;
    assert(forall|k: int| i <= k < n ==> s[o + k] == #[trigger] t[k]) by {
        assert forall|k: int| i <= k < n implies s[o + k] == #[trigger] t[k] by {
            assert(s.subrange(o, o + n)[k] == s[o + k]);
        }
    }
    assert(ws_at(s, o + i, o + n) == ws_at(t, i, n));
    if ws_at(t, i, n) > 0 {
        lemma_skip_ws_frame(s, t, o, i + ws_at(t, i, n));
    }
}

proof fn lemma_trim_end_frame(s: Seq<u8>, t: Seq<u8>, o: int, i: int, j: int)
    requires
        0 <= o,
        0 <= i <= j <= t.len(),
        o + t.len() <= s.len(),
        s.subrange(o, o + t.len()) == t,
    ensures
        trim_end(s, o + i, o + j) == o + trim_end(t, i, j),
        i <= trim_end(t, i, j) <= j,
    decreases j - i,
{
    assert(forall|k: int| i <= k < j ==> s[o + k] == #[trigger] t[k]) by {
        assert forall|k: int| i <= k < j implies s[o + k] == #[trigger] t[k] by {
            assert(s.subrange(o, o + t.len())[k] == s[o + k]);
        }
    }
    assert(ws_before(s, o + i, o + j) == ws_before(t, i, j));
    if ws_before(t, i, j) > 0 {
        lemma_trim_end_frame(s, t, o, i, j - ws_before(t, i, j));
    }
}

/// The lines, each followed by `\r\n`.
pub open spec fn header_block(lines: Seq<Seq<u8>>) -> Seq<u8>
    decreases lines.len(),
{
    if lines.len() == 0 {
        Seq::empty()
    } else {
        lines[0] + crlf() + header_block(lines.drop_first())
    }
}

proof fn lemma_line_end(s: Seq<u8>, i: int, j: int)
    requires
        0 <= i < j <= s.len(),
        forall|k: int| i <= k < j - 1 ==> s[k] != 10,
        s[j - 1] == 10,
    ensures
        line_end(s, i) == j,
    decreases j - i,
{
    if i < j - 1 {
        lemma_line_end(s, i + 1, j);
    }
}

proof fn lemma_find_colon(s: Seq<u8>, line: Seq<u8>, p: int, i: int, e: int)
    requires
        0 <= p <= i <= p + line.len() <= e <= s.len(),
        s.subrange(p, p + line.len()) == line,
        exists|k: int| i - p <= k < line.len() && #[trigger] line[k] == 58,
    ensures
        find_byte(s, 58, i, e) == p + find_byte(line, 58, i - p, line.len() as int),
        i - p <= find_byte(line, 58, i - p, line.len() as int) < line.len(),
    decreases p + line.len() - i,
{
    assert(s[i] == line[i - p]);
    if line[i - p] != 58 {
        let k = choose|k: int| i - p <= k < line.len() && #[trigger] line[k] == 58;
        assert(k != i - p);
        lemma_find_colon(s, line, p, i + 1, e);
    }
}

/// Header lines from index `pre.len()` on: each gives one header, its name
/// and trimmed value folded to lower case, and reading goes on after them as
/// it would without them.
proof fn lemma_header_block(pre: Seq<u8>, lines: Seq<Seq<u8>>, post: Seq<u8>)
    requires
        forall|i: int| 0 <= i < lines.len() ==> is_header_line(#[trigger] lines[i]),
    ensures
        ({
            let s = pre + header_block(lines) + post;
            let p = pre.len() as int;
            let q = p + header_block(lines).len();
            &&& headers_spec(s, q) is Err ==> headers_spec(s, p) == headers_spec(s, q)
            &&& headers_spec(s, q) is Ok ==> {
                &&& headers_spec(s, p) is Ok
                &&& headers_spec(s, p)->Ok_0.1 == headers_spec(s, q)->Ok_0.1
                &&& headers_spec(s, p)->Ok_0.0.len() == lines.len() + headers_spec(s, q)->Ok_0.0.len()
                &&& forall|i: int| 0 <= i < lines.len() ==> #[trigger] headers_spec(s, p)->Ok_0.0[i]
                    == (lower_seq(line_name(lines[i])), lower_seq(line_value(lines[i])))
            }
        }),
    decreases lines.len(),
{
    let s = pre + header_block(lines) + post;
    let p = pre.len() as int;
    if lines.len() == 0 {
        assert(s =~= pre + Seq::<u8>::empty() + post);
    } else {
        let l0 = lines[0];
        let tail = lines.drop_first();
        let pre2 = pre + l0 + crlf();
        assert(s =~= pre2 + header_block(tail) + post);
        assert forall|i: int| 0 <= i < tail.len() implies is_header_line(#[trigger] tail[i]) by {
            assert(tail[i] == lines[i + 1]);
        }
        lemma_header_block(pre2, tail, post);
        let e = pre2.len() as int;
        assert(is_header_line(lines[0]));
        assert forall|k: int| p <= k < e - 1 implies s[k] != 10 by {
            if k < p + l0.len() {
                assert(s[k] == l0[k - p]);
            } else {
                assert(s[k] == 13);
            }
        }
        assert(s[e - 1] == 10);
        lemma_line_end(s, p, e);
        let k0 = choose|k: int| 0 <= k < l0.len() && #[trigger] l0[k] == 58;
        assert(s.subrange(p, p + l0.len()) =~= l0);
        lemma_find_colon(s, l0, p, p, e);
        let c = find_byte(s, 58, p, e);
        let fb = find_byte(l0, 58, 0, l0.len() as int);
        assert(c == p + fb && 0 <= fb < l0.len());
        assert forall|k: int| 0 <= k < fb implies s.subrange(p, c)[k] == l0.subrange(0, fb)[k] by {
            assert(s[p + k] == l0[k]);
        }
        assert(s.subrange(p, c) =~= line_name(l0));
        let v = l0.subrange(fb + 1, l0.len() as int) + crlf();
        assert(s.subrange(c + 1, e) =~= v) by {
            assert forall|k: int| 0 <= k < v.len() implies s.subrange(c + 1, e)[k] == v[k] by {
                if k < l0.len() - fb - 1 {
                    assert(s[c + 1 + k] == l0[fb + 1 + k]);
                }
            }
        }
        lemma_skip_ws_frame(s, v, c + 1, 0);
        let w0 = skip_ws(v, 0, v.len() as int);
        lemma_trim_end_frame(s, v, c + 1, w0, v.len() as int);
        let w1 = trim_end(v, w0, v.len() as int);
        assert(s.subrange(c + 1 + w0, c + 1 + w1) =~= v.subrange(w0, w1)) by {
            assert forall|k: int| 0 <= k < w1 - w0 implies s.subrange(c + 1 + w0, c + 1 + w1)[k]
                == v.subrange(w0, w1)[k] by {
                assert(s.subrange(c + 1, e)[w0 + k] == v[w0 + k]);
            }
        }
        assert(header_spec(s, p, e) == Some((lower_seq(line_name(l0)), lower_seq(line_value(l0)))));
        assert(!is_blank_line(s, p, e));
        assert(header_spec(s, p, e) is Some);
        let q = p + header_block(lines).len();
        if headers_spec(s, q) is Ok {
            let all = headers_spec(s, p)->Ok_0.0;
            let rest = headers_spec(s, e)->Ok_0.0;
            assert(all == seq![header_spec(s, p, e)->Some_0] + rest);
            assert forall|i: int| 0 <= i < lines.len() implies #[trigger] all[i] == (lower_seq(
                line_name(lines[i]),
            ), lower_seq(line_value(lines[i]))) by {
                if i > 0 {
                    assert(all[i] == rest[i - 1]);
                    assert(lines[i] == tail[i - 1]);
                }
            }
        }
    }
}

proof fn lemma_no_colon(s: Seq<u8>, i: int, e: int)
    requires
        0 <= i <= e <= s.len(),
        forall|k: int| i <= k < e ==> #[trigger] s[k] != 58,
    ensures
        find_byte(s, 58, i, e) == e,
    decreases e - i,
{
    if i < e {
        lemma_no_colon(s, i + 1, e);
    }
}

/// The head `sl`, `\r\n`, the header lines, `\r\n`, then `post`: its
/// headers, one per line in order with lower-cased names and values, end
/// where `post` starts.
proof fn lemma_head(sl: Seq<u8>, lines: Seq<Seq<u8>>, post: Seq<u8>)
    requires
        forall|k: int| 0 <= k < sl.len() ==> #[trigger] sl[k] != 10,
        forall|i: int| 0 <= i < lines.len() ==> is_header_line(#[trigger] lines[i]),
    ensures
        ({
            let s = sl + crlf() + header_block(lines) + crlf() + post;
            let hs = headers_spec(s, line_end(s, 0));
            &&& line_end(s, 0) == sl.len() + 2
            &&& hs is Ok
            &&& hs->Ok_0.1 == sl.len() + 2 + header_block(lines).len() + 2
            &&& hs->Ok_0.0.len() == lines.len()
            &&& forall|i: int| 0 <= i < lines.len() ==> #[trigger] hs->Ok_0.0[i] == (lower_seq(
                line_name(lines[i]),
            ), lower_seq(line_value(lines[i])))
        }),
{
    let s = sl + crlf() + header_block(lines) + crlf() + post;
    let pre = sl + crlf();
    assert(s =~= pre + header_block(lines) + (crlf() + post));
    assert forall|k: int| 0 <= k < sl.len() + 1int implies s[k] != 10 by {
        if k < sl.len() {
            assert(s[k] == sl[k]);
        }
    }
    lemma_line_end(s, 0, sl.len() + 2int);
    lemma_header_block(pre, lines, crlf() + post);
    let q = (pre.len() + header_block(lines).len()) as int;
    assert(s[q] == 13 && s[q + 1] == 10);
    lemma_line_end(s, q, q + 2int);
    assert(headers_spec(s, q) == Ok::<_, HttpError>((Seq::<(Seq<u8>, Seq<u8>)>::empty(), q + 2int)));
}

/// A status line followed at once by the blank line gives no headers and
/// an empty body, whatever follows.
pub proof fn status_line_then_blank_line(sl: Seq<u8>, rest: Seq<u8>)
    requires
        forall|k: int| 0 <= k < sl.len() ==> #[trigger] sl[k] != 10,
        status_spec(sl + crlf() + crlf() + rest) is Ok,
    ensures
        ({
            let s = sl + crlf() + crlf() + rest;
            &&& raw_parse(s) is Ok
            &&& raw_parse(s)->Ok_0.headers.len() == 0
            &&& raw_parse(s)->Ok_0.body.len() == 0
            &&& parse_spec(s) is Ok ==> parse_spec(s)->Ok_0.headers.len() == 0
                && parse_spec(s)->Ok_0.body.len() == 0
        }),
{
    let s = sl + crlf() + crlf() + rest;
    assert(header_block(Seq::<Seq<u8>>::empty()) =~= Seq::<u8>::empty());
    assert(s =~= sl + crlf() + header_block(Seq::<Seq<u8>>::empty()) + crlf() + rest);
    lemma_head(sl, Seq::empty(), rest);
    let (hs, b) = headers_spec(s, line_end(s, 0))->Ok_0;
    assert(content_length_spec(hs) == Ok::<nat, HttpError>(0));
    assert(raw_parse(s)->Ok_0.body =~= Seq::<u8>::empty());
}

/// With no header named `content-length` in any case, the body is empty,
/// not an error, and each header line gives one header.
pub proof fn no_content_length_header_means_empty_body(
    sl: Seq<u8>,
    lines: Seq<Seq<u8>>,
    rest: Seq<u8>,
)
    requires
        forall|k: int| 0 <= k < sl.len() ==> #[trigger] sl[k] != 10,
        forall|i: int| 0 <= i < lines.len() ==> is_header_line(#[trigger] lines[i]),
        forall|i: int|
            0 <= i < lines.len() ==> lower_seq(line_name(#[trigger] lines[i]))
                != content_length_name(),
        status_spec(sl + crlf() + header_block(lines) + crlf() + rest) is Ok,
    ensures
        ({
            let s = sl + crlf() + header_block(lines) + crlf() + rest;
            &&& raw_parse(s) is Ok
            &&& raw_parse(s)->Ok_0.headers.len() == lines.len()
            &&& raw_parse(s)->Ok_0.body.len() == 0
            &&& parse_spec(s) is Ok ==> parse_spec(s)->Ok_0.body.len() == 0
        }),
{
    let s = sl + crlf() + header_block(lines) + crlf() + rest;
    lemma_head(sl, lines, rest);
    let (hs, b) = headers_spec(s, line_end(s, 0))->Ok_0;
    assert forall|j: int| 0 <= j < hs.len() implies lower_seq(#[trigger] hs[j].0)
        != content_length_name() by {
        let n = lower_seq(line_name(lines[j]));
        assert(hs[j].0 == n);
        assert(lower_seq(n) =~= n);
    }
    lemma_no_content_length(hs, 0);
    assert(raw_parse(s)->Ok_0.body =~= Seq::<u8>::empty());
}

/// A response written out as a status line, header lines, the blank line
/// and a body of the declared length gives that body exactly, whatever
/// follows it, and one header per line in order: the line's name and its
/// trimmed value, both in lower case.
pub proof fn body_is_the_declared_bytes(
    sl: Seq<u8>,
    lines: Seq<Seq<u8>>,
    body: Seq<u8>,
    rest: Seq<u8>,
)
    requires
        forall|k: int| 0 <= k < sl.len() ==> #[trigger] sl[k] != 10,
        forall|i: int| 0 <= i < lines.len() ==> is_header_line(#[trigger] lines[i]),
        declared_length(sl + crlf() + header_block(lines) + crlf() + body + rest)
            == Ok::<nat, HttpError>(body.len()),
    ensures
        ({
            let s = sl + crlf() + header_block(lines) + crlf() + body + rest;
            &&& raw_parse(s) is Ok
            &&& raw_parse(s)->Ok_0.body == body
            &&& raw_parse(s)->Ok_0.headers.len() == lines.len()
            &&& forall|i: int| 0 <= i < lines.len() ==> #[trigger] raw_parse(s)->Ok_0.headers[i]
                == (lower_seq(line_name(lines[i])), lower_seq(line_value(lines[i])))
            &&& parse_spec(s) is Ok ==> parse_spec(s)->Ok_0.body == decode_utf8(body)
        }),
{
    let s = sl + crlf() + header_block(lines) + crlf() + body + rest;
    assert(s =~= sl + crlf() + header_block(lines) + crlf() + (body + rest));
    lemma_head(sl, lines, body + rest);
    let (hs, b) = headers_spec(s, line_end(s, 0))->Ok_0;
    assert(b == sl.len() + 2int + header_block(lines).len() + 2int);
    assert(s.subrange(b, b + body.len() as int) =~= body);
}

/// A line without `:` among the header lines, before the blank line, is
/// refused as a malformed header line: no response comes of it.
pub proof fn line_without_colon_is_malformed(
    sl: Seq<u8>,
    lines: Seq<Seq<u8>>,
    bad: Seq<u8>,
    tail: Seq<u8>,
)
    requires
        forall|k: int| 0 <= k < sl.len() ==> #[trigger] sl[k] != 10,
        forall|i: int| 0 <= i < lines.len() ==> is_header_line(#[trigger] lines[i]),
        bad.len() > 0,
        forall|k: int| 0 <= k < bad.len() ==> #[trigger] bad[k] != 10 && bad[k] != 58,
        status_spec(sl + crlf() + header_block(lines) + bad + crlf() + tail) is Ok,
    ensures
        raw_parse(sl + crlf() + header_block(lines) + bad + crlf() + tail) == Err::<
            RawResponse,
            HttpError,
        >(HttpError::MalformedHeaderLine),
        parse_spec(sl + crlf() + header_block(lines) + bad + crlf() + tail) is Err,
{
    let s = sl + crlf() + header_block(lines) + bad + crlf() + tail;
    let pre = sl + crlf();
    assert(s =~= pre + header_block(lines) + (bad + crlf() + tail));
    lemma_header_block(pre, lines, bad + crlf() + tail);
    assert forall|k: int| 0 <= k < sl.len() + 1int implies s[k] != 10 by {
        if k < sl.len() {
            assert(s[k] == sl[k]);
        }
    }
    lemma_line_end(s, 0, sl.len() + 2int);
    let q = (pre.len() + header_block(lines).len()) as int;
    let e = q + bad.len() + 2int;
    assert forall|k: int| q <= k < e - 1 implies s[k] != 10 by {
        if k < q + bad.len() {
            assert(s[k] == bad[k - q]);
        }
    }
    lemma_line_end(s, q, e);
    assert forall|k: int| q <= k < e implies #[trigger] s[k] != 58 by {
        if k < q + bad.len() {
            assert(s[k] == bad[k - q]);
        }
    }
    lemma_no_colon(s, q, e);
    assert(header_spec(s, q, e) is None);
    assert(headers_spec(s, q) == Err::<(Seq<(Seq<u8>, Seq<u8>)>, int), _>(
        HttpError::MalformedHeaderLine,
    ));
}

} // verus!
