//! The response builder: status, headers, body, compression negotiation,
//! gzip execution and serialization to wire bytes.
use vstd::prelude::*;
use vstd::string::StrSliceExecFns;
use vstd::string::StringSliceAdditionalSpecFns;
use crate::ascii::{dec_spec, split_spec, trim_spec};
use crate::headers::{hdr_insert, hdr_wf};
use crate::compressor::gunzip;

verus! {

#[derive(Clone, Copy, PartialEq, Eq, Structural, Debug)]
pub enum HttpStatus {
    Okay,
    NotFound,
    NotImplemented,
    Created,
    InternalServerError,
}

impl HttpStatus {
    /// The status line text for this status.
    pub open spec fn text_spec(self) -> Seq<char> {
        match self {
            HttpStatus::Okay => "200 OK"@,
            HttpStatus::NotFound => "404 Not Found"@,
            HttpStatus::NotImplemented => "501 Not Implemented"@,
            HttpStatus::Created => "201 Created"@,
            HttpStatus::InternalServerError => "500 Internal Server Error"@,
        }
    }

    /// The status line text, as wire bytes.
    pub open spec fn text_bytes(self) -> Seq<u8> {
        match self {
            HttpStatus::Okay => "200 OK".spec_bytes(),
            HttpStatus::NotFound => "404 Not Found".spec_bytes(),
            HttpStatus::NotImplemented => "501 Not Implemented".spec_bytes(),
            HttpStatus::Created => "201 Created".spec_bytes(),
            HttpStatus::InternalServerError => "500 Internal Server Error".spec_bytes(),
        }
    }

    /// The textual form of the status for the response's status line.
    pub fn status_text(&self) -> (r: &'static str)
        ensures
            r@ == self.text_spec(),
            r.spec_bytes() == self.text_bytes(),
    {
        match self {
            HttpStatus::Okay => "200 OK",
            HttpStatus::NotFound => "404 Not Found",
            HttpStatus::NotImplemented => "501 Not Implemented",
            HttpStatus::Created => "201 Created",
            HttpStatus::InternalServerError => "500 Internal Server Error",
        }
    }
}

/// One serialized header line: `<key>: <value>\r\n`.
pub open spec fn hdr_line(h: (Seq<u8>, Seq<u8>)) -> Seq<u8> {
    h.0 + ": ".spec_bytes() + h.1 + "\r\n".spec_bytes()
}

/// The serialized header block, one line per entry, in entry order.
pub open spec fn headers_bytes(hs: Seq<(Seq<u8>, Seq<u8>)>) -> Seq<u8>
    decreases hs.len(),
{
    if hs.len() == 0 {
        Seq::empty()
    } else {
        hdr_line(hs[0]) + headers_bytes(hs.drop_first())
    }
}

proof fn lemma_headers_bytes_snoc(hs: Seq<(Seq<u8>, Seq<u8>)>, h: (Seq<u8>, Seq<u8>))
    ensures
        headers_bytes(hs.push(h)) == headers_bytes(hs) + hdr_line(h),
    decreases hs.len(),
{
    if hs.len() == 0 {
        assert(hs.push(h)[0] == h);
        assert(hs.push(h).drop_first() =~= Seq::<(Seq<u8>, Seq<u8>)>::empty());
        assert(headers_bytes(hs.push(h)) == hdr_line(h) + headers_bytes(
            hs.push(h).drop_first(),
        ));
        assert(headers_bytes(hs.push(h).drop_first()) == Seq::<u8>::empty());
        assert(headers_bytes(hs) == Seq::<u8>::empty());
        assert(hdr_line(h) + Seq::<u8>::empty() =~= Seq::<u8>::empty() + hdr_line(h));
    } else {
        assert(hs.push(h)[0] == hs[0]);
        assert(hs.push(h).drop_first() =~= hs.drop_first().push(h));
        lemma_headers_bytes_snoc(hs.drop_first(), h);
        assert(hdr_line(hs[0]) + (headers_bytes(hs.drop_first()) + hdr_line(h)) =~= (hdr_line(
            hs[0],
        ) + headers_bytes(hs.drop_first())) + hdr_line(h));
    }
}

/// The whole response on the wire:
/// `HTTP/1.1 <status-text>\r\n<header-lines>\r\n<body>`.
pub open spec fn serialize_spec(b: HttpResponseBuilder) -> Seq<u8> {
    "HTTP/1.1 ".spec_bytes() + b.status_line.text_bytes() + "\r\n".spec_bytes() + headers_bytes(
        b.headers.deep_view(),
    ) + "\r\n".spec_bytes() + b.body@
}

/// The comma-separated tokens of an `Accept-Encoding` value, each trimmed
/// of surrounding spaces and tabs.
pub open spec fn comma_tokens(s: Seq<u8>) -> Seq<Seq<u8>> {
    split_spec(s, ",".spec_bytes()).map_values(|t: Seq<u8>| trim_spec(t))
}

/// The first token that names a supported scheme, when there is one.
pub open spec fn first_supported(ts: Seq<Seq<u8>>, sup: Seq<Seq<u8>>) -> Option<Seq<u8>>
    decreases ts.len(),
{
    if ts.len() == 0 {
        None
    } else if sup.contains(ts[0]) {
        Some(ts[0])
    } else {
        first_supported(ts.drop_first(), sup)
    }
}

/// The compression scheme negotiated from an `Accept-Encoding` value:
/// the first listed token that the server supports.
pub open spec fn negotiated(accept: Seq<u8>, sup: Seq<Seq<u8>>) -> Option<Seq<u8>> {
    first_supported(comma_tokens(accept), sup)
}

/// How a builder changes when compression negotiation selects scheme `t`:
/// the selection is recorded, a `Content-Encoding` header is set to `t`,
/// and nothing else changes.
pub open spec fn compression_selected(
    pre: HttpResponseBuilder,
    post: HttpResponseBuilder,
    t: Seq<u8>,
) -> bool {
    &&& post.compression_detail.0 == true
    &&& post.compression_detail.1@ == t
    &&& post.headers.deep_view() == hdr_insert(
        pre.headers.deep_view(),
        "Content-Encoding".spec_bytes(),
        t,
    )
    &&& post.status_line == pre.status_line
    &&& post.body == pre.body
    &&& post.supported_compression == pre.supported_compression
    &&& post.compressed == pre.compressed
}

pub struct HttpResponseBuilder {
    pub status_line: HttpStatus,
    pub headers: Vec<(Vec<u8>, Vec<u8>)>,
    pub body: Vec<u8>,
    /// Whether compression was negotiated, and the negotiated scheme.
    pub compression_detail: (bool, Vec<u8>),
    pub supported_compression: Vec<Vec<u8>>,
    /// Whether the body already went through the compression step, so that
    /// serializing again cannot compress twice.
    pub compressed: bool,
}

impl HttpResponseBuilder {
    /// Header keys are distinct, and exactly the gzip scheme is supported.
    pub open spec fn wf(self) -> bool {
        hdr_wf(self.headers.deep_view()) && self.supported_compression.deep_view() =~= seq![
            "gzip".spec_bytes(),
        ]
    }

    /// An empty OK response with no headers, no body and no compression.
    pub fn new() -> (r: Self)
        ensures
            r.status_line == HttpStatus::Okay,
            r.headers.deep_view() == Seq::<(Seq<u8>, Seq<u8>)>::empty(),
            r.body@ == Seq::<u8>::empty(),
            r.compression_detail.0 == false,
            r.compression_detail.1@ == Seq::<u8>::empty(),
            r.supported_compression.deep_view() == seq!["gzip".spec_bytes()],
            r.compressed == false,
            r.wf(),
    {
        let mut supported: Vec<Vec<u8>> = Vec::new();
        supported.push("gzip".as_bytes_vec());
        proof {
            assert(supported.deep_view() =~= seq!["gzip".spec_bytes()]) by {
                assert(supported.deep_view()[0] =~= supported@[0]@);
            }
        }
        let r = Self {
            status_line: HttpStatus::Okay,
            headers: Vec::new(),
            body: Vec::new(),
            compression_detail: (false, Vec::new()),
            supported_compression: supported,
            compressed: false,
        };
        proof {
            assert(r.headers.deep_view() =~= Seq::<(Seq<u8>, Seq<u8>)>::empty());
        }
        r
    }

    /// Sets the response status.
    pub fn add_status(&mut self, status: HttpStatus)
        ensures
            final (self).status_line == status,
            final (self).headers == old(self).headers,
            final (self).body == old(self).body,
            final (self).compression_detail == old(self).compression_detail,
            final (self).supported_compression == old(self).supported_compression,
            final (self).compressed == old(self).compressed,
            old(self).wf() ==> final (self).wf(),
    {
        self.status_line = status;
    }

    /// Inserts a header, replacing the value of an existing one.
    pub fn add_header_bytes(&mut self, key: Vec<u8>, value: Vec<u8>)
        ensures
            final (self).headers.deep_view() == hdr_insert(
                old(self).headers.deep_view(),
                key@,
                value@,
            ),
            final (self).status_line == old(self).status_line,
            final (self).body == old(self).body,
            final (self).compression_detail == old(self).compression_detail,
            final (self).supported_compression == old(self).supported_compression,
            final (self).compressed == old(self).compressed,
            old(self).wf() ==> final (self).wf(),
    {
        proof {
            if old(self).wf() {
                crate::headers::lemma_hdr_insert_wf(old(self).headers.deep_view(), key@, value@);
            }
        }
        crate::headers::hdr_set(&mut self.headers, key, value);
    }

    /// Inserts a header, replacing the value of an existing one.
    pub fn add_header(&mut self, key: &str, value: &str)
        ensures
            final (self).headers.deep_view() == hdr_insert(
                old(self).headers.deep_view(),
                key.spec_bytes(),
                value.spec_bytes(),
            ),
            final (self).status_line == old(self).status_line,
            final (self).body == old(self).body,
            final (self).compression_detail == old(self).compression_detail,
            final (self).supported_compression == old(self).supported_compression,
            final (self).compressed == old(self).compressed,
            old(self).wf() ==> final (self).wf(),
    {
        self.add_header_bytes(key.as_bytes_vec(), value.as_bytes_vec());
    }

    /// Sets the body and records its media type and byte length in the
    /// `Content-Type` and `Content-Length` headers.
    pub fn add_body_bytes(&mut self, body: Vec<u8>, media_type: Vec<u8>)
        ensures
            final (self).body@ == body@,
            final (self).headers.deep_view() == hdr_insert(
                hdr_insert(old(self).headers.deep_view(), "Content-Type".spec_bytes(), media_type@),
                "Content-Length".spec_bytes(),
                dec_spec(body@.len() as nat),
            ),
            final (self).status_line == old(self).status_line,
            final (self).compression_detail == old(self).compression_detail,
            final (self).supported_compression == old(self).supported_compression,
            final (self).compressed == old(self).compressed,
            old(self).wf() ==> final (self).wf(),
    {
        let n = body.len();
        self.body = body;
        self.add_header_bytes("Content-Type".as_bytes_vec(), media_type);
        self.add_header_bytes("Content-Length".as_bytes_vec(), crate::ascii::dec(n));
    }

    /// Sets the body and records its media type and byte length in the
    /// `Content-Type` and `Content-Length` headers.
    pub fn add_body_with_req_headers(&mut self, body: &str, media_type: &str)
        ensures
            final (self).body@ == body.spec_bytes(),
            final (self).headers.deep_view() == hdr_insert(
                hdr_insert(
                    old(self).headers.deep_view(),
                    "Content-Type".spec_bytes(),
                    media_type.spec_bytes(),
                ),
                "Content-Length".spec_bytes(),
                dec_spec(body.spec_bytes().len() as nat),
            ),
            final (self).status_line == old(self).status_line,
            final (self).compression_detail == old(self).compression_detail,
            final (self).supported_compression == old(self).supported_compression,
            final (self).compressed == old(self).compressed,
            old(self).wf() ==> final (self).wf(),
    {
        self.add_body_bytes(body.as_bytes_vec(), media_type.as_bytes_vec());
    }

    /// Negotiates compression from an `Accept-Encoding` value: the first
    /// comma-separated token naming a supported scheme is selected and
    /// recorded in a `Content-Encoding` header; with no such token nothing
    /// changes, and no `Content-Encoding` header appears.
    pub fn enable_compression_bytes(&mut self, compression_scheme: &[u8])
        ensures
            match negotiated(compression_scheme@, old(self).supported_compression.deep_view()) {
                None => *final (self) == *old(self),
                Some(t) => compression_selected(*old(self), *final (self), t),
            },
            old(self).wf() ==> final (self).wf(),
    {
        proof {
            reveal_strlit(",");
            assert(vstd::utf8::is_ascii_chars(","@));
            crate::ascii::lemma_ascii_bytes(",");
        }
        let parts = crate::ascii::split(compression_scheme, ",".as_bytes());
        let ghost toks = comma_tokens(compression_scheme@);
        let ghost sup = old(self).supported_compression.deep_view();
        let mut i: usize = 0;
        proof {
            assert(toks.subrange(0, toks.len() as int) =~= toks);
        }
        while i < parts.len()
            invariant
                *self == *old(self),
                toks == comma_tokens(compression_scheme@),
                toks.len() == parts@.len(),
                parts.deep_view().map_values(|t: Seq<u8>| trim_spec(t)) == toks,
                sup == old(self).supported_compression.deep_view(),
                0 <= i <= parts@.len(),
                first_supported(toks, sup) == first_supported(
                    toks.subrange(i as int, toks.len() as int),
                    sup,
                ),
            decreases parts@.len() - i,
        {
            let t = crate::ascii::trim(parts[i].as_slice());
            proof {
                assert(parts.deep_view()[i as int] =~= parts@[i as int]@);
                assert(toks[i as int] == trim_spec(parts.deep_view()[i as int]));
                assert(t@ == toks[i as int]);
                assert(toks.subrange(i as int, toks.len() as int)[0] == toks[i as int]);
            }
            if crate::ascii::contains_bytes(&self.supported_compression, t.as_slice()) {
                let scheme = vstd::slice::slice_to_vec(t.as_slice());
                self.compression_detail = (true, scheme);
                self.add_header_bytes("Content-Encoding".as_bytes_vec(), t);
                proof {
                    assert(first_supported(toks.subrange(i as int, toks.len() as int), sup)
                        == Some(toks[i as int]));
                }
                return ;
            }
            proof {
                assert(!sup.contains(toks[i as int]));
                assert(toks.subrange(i as int, toks.len() as int).drop_first() =~= toks.subrange(
                    i + 1,
                    toks.len() as int,
                ));
            }
            i = i + 1;
        }
        proof {
            assert(toks.subrange(i as int, toks.len() as int) =~= Seq::<Seq<u8>>::empty());
        }
    }

    /// Negotiates compression from an `Accept-Encoding` value.
    pub fn enable_compression(&mut self, compression_scheme: &str)
        ensures
            match negotiated(
                compression_scheme.spec_bytes(),
                old(self).supported_compression.deep_view(),
            ) {
                None => *final (self) == *old(self),
                Some(t) => compression_selected(*old(self), *final (self), t),
            },
            old(self).wf() ==> final (self).wf(),
    {
        self.enable_compression_bytes(compression_scheme.as_bytes());
    }

    /// The serialized header block of this response.
    pub fn res_headers(&self) -> (r: Vec<u8>)
        ensures
            r@ == headers_bytes(self.headers.deep_view()),
    {
        let ghost hs = self.headers.deep_view();
        let mut out: Vec<u8> = Vec::new();
        let mut i: usize = 0;
        proof {
            assert(hs.subrange(0, 0) =~= Seq::<(Seq<u8>, Seq<u8>)>::empty());
            assert(out@ =~= headers_bytes(hs.subrange(0, 0)));
        }
        while i < self.headers.len()
            invariant
                hs == self.headers.deep_view(),
                0 <= i <= self.headers@.len(),
                hs.len() == self.headers@.len(),
                out@ == headers_bytes(hs.subrange(0, i as int)),
            decreases self.headers@.len() - i,
        {
            proof {
                assert(hs[i as int] == self.headers@[i as int].deep_view());
                assert(hs[i as int].0 =~= self.headers@[i as int].0@);
                assert(hs[i as int].1 =~= self.headers@[i as int].1@);
            }
            crate::ascii::push_all(&mut out, self.headers[i].0.as_slice());
            crate::ascii::push_all(&mut out, ": ".as_bytes());
            crate::ascii::push_all(&mut out, self.headers[i].1.as_slice());
            crate::ascii::push_all(&mut out, "\r\n".as_bytes());
            proof {
                lemma_headers_bytes_snoc(hs.subrange(0, i as int), hs[i as int]);
                assert(hs.subrange(0, i + 1) =~= hs.subrange(0, i as int).push(hs[i as int]));
                assert(out@ =~= headers_bytes(hs.subrange(0, i as int)) + hdr_line(hs[i as int]));
            }
            i = i + 1;
        }
        proof {
            assert(hs.subrange(0, hs.len() as int) =~= hs);
        }
        out
    }

    /// The compression step: when the negotiated scheme is gzip, replaces
    /// the body with its gzip encoding; always recomputes `Content-Length`
    /// from the current body and marks the body compressed.
    pub fn compress(&mut self)
        ensures
            old(self).compression_detail.1@ == "gzip".spec_bytes() ==> gunzip(final (self).body@)
                == Some(old(self).body@),
            old(self).compression_detail.1@ != "gzip".spec_bytes()
                ==> final (self).body == old(self).body,
            final (self).headers.deep_view() == hdr_insert(
                old(self).headers.deep_view(),
                "Content-Length".spec_bytes(),
                dec_spec(final (self).body@.len() as nat),
            ),
            final (self).status_line == old(self).status_line,
            final (self).compression_detail == old(self).compression_detail,
            final (self).supported_compression == old(self).supported_compression,
            final (self).compressed == true,
            old(self).wf() ==> final (self).wf(),
    {
        if crate::ascii::bytes_eq(self.compression_detail.1.as_slice(), "gzip".as_bytes()) {
            let packed = crate::compressor::gzip_compress(self.body.as_slice());
            self.body = packed;
        }
        let n = self.body.len();
        self.add_header_bytes("Content-Length".as_bytes_vec(), crate::ascii::dec(n));
        self.compressed = true;
    }

    /// Serializes the response. When compression was negotiated and the
    /// body is not compressed yet, the body first goes through the
    /// compression step, so the recorded `Content-Length` is the compressed
    /// length; a body already compressed is never compressed twice.
    pub fn build(&mut self) -> (r: Vec<u8>)
        ensures
            r@ == serialize_spec(*final (self)),
            !(old(self).compression_detail.0 && !old(self).compressed)
                ==> *final (self) == *old(self),
            (old(self).compression_detail.0 && !old(self).compressed) ==> {
                &&& old(self).compression_detail.1@ == "gzip".spec_bytes() ==> gunzip(
                    final (self).body@,
                ) == Some(old(self).body@)
                &&& old(self).compression_detail.1@ != "gzip".spec_bytes() ==> final (self).body
                    == old(self).body
                &&& final (self).headers.deep_view() == hdr_insert(
                    old(self).headers.deep_view(),
                    "Content-Length".spec_bytes(),
                    dec_spec(final (self).body@.len() as nat),
                )
                &&& final (self).status_line == old(self).status_line
                &&& final (self).compression_detail == old(self).compression_detail
                &&& final (self).supported_compression == old(self).supported_compression
                &&& final (self).compressed == true
            },
            old(self).wf() ==> final (self).wf(),
    {
        if self.compression_detail.0 && !self.compressed {
            self.compress();
        }
        let mut out: Vec<u8> = Vec::new();
        crate::ascii::push_all(&mut out, "HTTP/1.1 ".as_bytes());
        crate::ascii::push_all(&mut out, self.status_line.status_text().as_bytes());
        crate::ascii::push_all(&mut out, "\r\n".as_bytes());
        let block = self.res_headers();
        crate::ascii::push_all(&mut out, block.as_slice());
        crate::ascii::push_all(&mut out, "\r\n".as_bytes());
        crate::ascii::push_all(&mut out, self.body.as_slice());
        proof {
            assert(out@ =~= serialize_spec(*self));
        }
        out
    }
}

/// Serializing a built response twice without mutation in between yields
/// byte-identical output: the first call settles the builder's state and
/// the serialized bytes are a function of that state alone.
pub fn build_is_repeatable(b: &mut HttpResponseBuilder) -> (r: (Vec<u8>, Vec<u8>))
    ensures
        r.0@ == r.1@,
{
    let first = b.build();
    let second = b.build();
    (first, second)
}

} // verus!
