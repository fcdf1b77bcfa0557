//! The request parser: raw bytes from the socket become a structured
//! request, or a `MalformedRequest` error. The input splits on the first
//! blank line into a header block and a body; the header block splits into
//! lines; the first line holds method, path and (ignored) protocol version;
//! every other line holds one `name: value` header, both sides trimmed,
//! later occurrences of a name overwriting earlier ones. The body is the
//! remainder with trailing null padding (from fixed-size read buffers)
//! stripped.
use vstd::prelude::*;
use vstd::string::StringSliceAdditionalSpecFns;
use crate::ascii::{find_spec, split_spec, tokens_spec, trim_spec};
use crate::headers::{hdr_insert, hdr_wf};

verus! {

#[derive(Clone, Copy, PartialEq, Eq, Structural, Debug)]
pub enum HttpError {
    MalformedRequest,
}

/// The mathematical model of a parsed request.
pub struct ReqModel {
    pub method: Seq<u8>,
    pub path: Seq<u8>,
    pub headers: Seq<(Seq<u8>, Seq<u8>)>,
    pub body: Seq<u8>,
}

#[derive(Debug)]
pub struct HttpRequest {
    pub method: Vec<u8>,
    pub path: Vec<u8>,
    pub headers: Vec<(Vec<u8>, Vec<u8>)>,
    pub body: Vec<u8>,
}

impl HttpRequest {
    pub open spec fn model(self) -> ReqModel {
        ReqModel {
            method: self.method@,
            path: self.path@,
            headers: self.headers.deep_view(),
            body: self.body@,
        }
    }

    /// Header names are pairwise distinct (duplicates collapsed, last wins).
    pub open spec fn wf(self) -> bool {
        hdr_wf(self.headers.deep_view())
    }
}

/// The sequence with its trailing null bytes removed.
pub open spec fn strip_nuls(s: Seq<u8>) -> Seq<u8>
    decreases s.len(),
{
    if s.len() > 0 && s[s.len() - 1] == 0 {
        strip_nuls(s.drop_last())
    } else {
        s
    }
}

proof fn lemma_strip_nuls_skip(s: Seq<u8>, e: int)
    requires
        0 <= e <= s.len(),
        forall|k: int| e <= k < s.len() ==> s[k] == 0,
    ensures
        strip_nuls(s) == strip_nuls(s.subrange(0, e)),
    decreases s.len() - e,
{
    if e == s.len() {
        assert(s.subrange(0, s.len() as int) =~= s);
    } else {
        assert(s[s.len() - 1] == 0);
        assert(s.drop_last() =~= s.subrange(0, s.len() - 1));
        lemma_strip_nuls_skip(s.drop_last(), e);
        assert(s.drop_last().subrange(0, e) =~= s.subrange(0, e));
    }
}

/// One header line split on its first colon, both sides trimmed; a line
/// without a colon is malformed.
pub open spec fn header_line_spec(line: Seq<u8>) -> Option<(Seq<u8>, Seq<u8>)> {
    match find_spec(line, ":".spec_bytes()) {
        None => None,
        Some(i) => Some(
            (
                trim_spec(line.subrange(0, i)),
                trim_spec(line.subrange(i + ":".spec_bytes().len(), line.len() as int)),
            ),
        ),
    }
}

/// The header mapping accumulated over the header lines in order, last
/// write winning; `None` when any line is malformed.
pub open spec fn headers_of(lines: Seq<Seq<u8>>) -> Option<Seq<(Seq<u8>, Seq<u8>)>>
    decreases lines.len(),
{
    if lines.len() == 0 {
        Some(Seq::empty())
    } else {
        match headers_of(lines.drop_last()) {
            None => None,
            Some(hs) => match header_line_spec(lines.last()) {
                None => None,
                Some(kv) => Some(hdr_insert(hs, kv.0, kv.1)),
            },
        }
    }
}

proof fn lemma_headers_of_extend_none(lines: Seq<Seq<u8>>, m: int)
    requires
        0 <= m <= lines.len(),
        headers_of(lines.subrange(0, m)) is None,
    ensures
        headers_of(lines) is None,
    decreases lines.len() - m,
{
    if m == lines.len() {
        assert(lines.subrange(0, lines.len() as int) =~= lines);
    } else {
        assert(lines.subrange(0, m + 1).drop_last() =~= lines.subrange(0, m));
        assert(headers_of(lines.subrange(0, m + 1)) is None);
        lemma_headers_of_extend_none(lines, m + 1);
    }
}

/// A parsed request: the input up to the first blank line is the header
/// block, the rest (trailing nulls stripped) the body; the first line of
/// the block must hold at least two whitespace-separated tokens (method
/// and path), and every further line a colon.
pub open spec fn parse_spec(input: Seq<u8>) -> Option<ReqModel> {
    match find_spec(input, "\r\n\r\n".spec_bytes()) {
        None => None,
        Some(i) => {
            let head = input.subrange(0, i);
            let body = strip_nuls(
                input.subrange(i + "\r\n\r\n".spec_bytes().len(), input.len() as int),
            );
            let lines = split_spec(head, "\r\n".spec_bytes());
            let toks = tokens_spec(lines[0]);
            if toks.len() < 2 {
                None
            } else {
                match headers_of(lines.drop_first()) {
                    None => None,
                    Some(hs) => Some(
                        ReqModel { method: toks[0], path: toks[1], headers: hs, body },
                    ),
                }
            }
        },
    }
}

/// Turns raw request bytes into a structured request; fails with
/// `MalformedRequest` exactly when the input lacks the blank-line
/// separator, lacks a request line of at least method and path, or holds a
/// header line without a colon.
#[verifier::loop_isolation(false)]
pub fn parse_request(input: &[u8]) -> (r: Result<HttpRequest, HttpError>)
    ensures
        r is Ok <==> parse_spec(input@) is Some,
        r matches Ok(req) ==> Some(req.model()) == parse_spec(input@) && req.wf(),
        r matches Err(e) ==> e == HttpError::MalformedRequest,
{
    proof {
        reveal_strlit("\r\n\r\n");
        reveal_strlit("\r\n");
        reveal_strlit(":");
        assert(vstd::utf8::is_ascii_chars("\r\n\r\n"@));
        assert(vstd::utf8::is_ascii_chars("\r\n"@));
        assert(vstd::utf8::is_ascii_chars(":"@));
        crate::ascii::lemma_ascii_bytes("\r\n\r\n");
        crate::ascii::lemma_ascii_bytes("\r\n");
        crate::ascii::lemma_ascii_bytes(":");
    }
    let sep = crate::ascii::find(input, "\r\n\r\n".as_bytes());
    let i = match sep {
        None => {
            return Err(HttpError::MalformedRequest);
        },
        Some(i) => i,
    };
    proof {
        crate::ascii::lemma_find_from_some(input@, "\r\n\r\n".spec_bytes(), 0);
        assert(i + 4 <= input@.len());
    }
    let n = input.len();
    let head = vstd::slice::slice_subrange(input, 0, i);
    let tail = vstd::slice::slice_subrange(input, i + 4, n);
    proof {
        assert(tail@ == input@.subrange(i + "\r\n\r\n".spec_bytes().len(), input@.len() as int));
    }
    let mut end: usize = tail.len();
    while end > 0 && tail[end - 1] == 0
        invariant
            0 <= end <= tail@.len(),
            forall|k: int| end <= k < tail@.len() ==> tail@[k] == 0,
        decreases end,
    {
        end = end - 1;
    }
    let body = vstd::slice::slice_to_vec(vstd::slice::slice_subrange(tail, 0, end));
    proof {
        lemma_strip_nuls_skip(tail@, end as int);
        assert(strip_nuls(tail@.subrange(0, end as int)) == tail@.subrange(0, end as int));
        assert(body@ == strip_nuls(tail@));
    }
    let lines = crate::ascii::split(head, "\r\n".as_bytes());
    let ghost lv = lines.deep_view();
    proof {
        assert(lv.len() >= 1);
        assert(lv[0] =~= lines@[0]@);
    }
    let toks = crate::ascii::split_ws(lines[0].as_slice());
    if toks.len() < 2 {
        return Err(HttpError::MalformedRequest);
    }
    let mut headers: Vec<(Vec<u8>, Vec<u8>)> = Vec::new();
    let mut j: usize = 1;
    proof {
        assert(lv.subrange(1, 1) =~= Seq::<Seq<u8>>::empty());
        assert(headers_of(lv.subrange(1, 1)) == Some(headers.deep_view()));
    }
    while j < lines.len()
        invariant
            1 <= j <= lines@.len(),
            lv == lines.deep_view(),
            lv.len() == lines@.len(),
            headers_of(lv.subrange(1, j as int)) == Some(headers.deep_view()),
            hdr_wf(headers.deep_view()),
        decreases lines@.len() - j,
    {
        let ghost hs = headers.deep_view();
        proof {
            assert(lv[j as int] =~= lines@[j as int]@);
        }
        let line = &lines[j];
        match crate::ascii::find(line.as_slice(), ":".as_bytes()) {
            None => {
                proof {
                    assert(header_line_spec(lv[j as int]) is None);
                    assert(lv.subrange(1, j + 1).drop_last() =~= lv.subrange(1, j as int));
                    assert(lv.subrange(1, j + 1).last() == lv[j as int]);
                    assert(headers_of(lv.subrange(1, j + 1)) is None);
                    let m = lv.subrange(1, lv.len() as int);
                    assert(m.subrange(0, j + 1 - 1) =~= lv.subrange(1, j + 1));
                    lemma_headers_of_extend_none(m, j + 1 - 1);
                    assert(headers_of(lv.drop_first()) is None) by {
                        assert(lv.drop_first() =~= m);
                    }
                }
                return Err(HttpError::MalformedRequest);
            },
            Some(k) => {
                proof {
                    crate::ascii::lemma_find_from_some(lv[j as int], ":".spec_bytes(), 0);
                    assert(k + 1 <= line@.len());
                }
                let name = crate::ascii::trim(vstd::slice::slice_subrange(line.as_slice(), 0, k));
                let value = crate::ascii::trim(
                    vstd::slice::slice_subrange(line.as_slice(), k + 1, line.len()),
                );
                proof {
                    crate::headers::lemma_hdr_insert_wf(hs, name@, value@);
                }
                crate::headers::hdr_set(&mut headers, name, value);
                proof {
                    assert(header_line_spec(lv[j as int]) matches Some(kv) && headers.deep_view()
                        == hdr_insert(hs, kv.0, kv.1));
                    assert(lv.subrange(1, j + 1).drop_last() =~= lv.subrange(1, j as int));
                    assert(lv.subrange(1, j + 1).last() == lv[j as int]);
                    assert(headers_of(lv.subrange(1, j + 1)) == Some(headers.deep_view()));
                }
                j = j + 1;
            },
        }
    }
    proof {
        assert(lv.subrange(1, lv.len() as int) =~= lv.drop_first());
        assert(headers_of(lv.drop_first()) == Some(headers.deep_view()));
    }
    let mut toks = toks;
    let method = toks.remove(0);
    let path = toks.remove(0);
    proof {
        assert(method@ == tokens_spec(lv[0])[0]);
        assert(path@ == tokens_spec(lv[0])[1]);
    }
    let req = HttpRequest { method, path, headers, body };
    proof {
        assert(parse_spec(input@) matches Some(m) && m == req.model()) by {
            assert(head@ == input@.subrange(0, i as int));
        }
    }
    Ok(req)
}

} // verus!
