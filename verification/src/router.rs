//! The router: method, path and headers select exactly one handler, and
//! the handler's effect on the response builder is stated exactly. File
//! contents are not read or written here: the caller first asks which file
//! operation a request needs, performs it, and hands the outcome back.
use vstd::prelude::*;
use vstd::string::StrSliceExecFns;
use vstd::string::StringSliceAdditionalSpecFns;
use crate::ascii::{dec_spec, starts_with_spec};
use crate::headers::{hdr_insert, hdr_lookup};
use crate::http::{negotiated, HttpResponseBuilder, HttpStatus};
use crate::request::{HttpRequest, ReqModel};

verus! {

/// The file operation a request needs from the storage directory.
pub enum FileOp {
    /// Read the named file's full contents.
    Read(Vec<u8>),
    /// Write the given bytes to the named file (create or truncate).
    Write(Vec<u8>, Vec<u8>),
}

/// The model of a file operation.
pub enum FileOpModel {
    Read(Seq<u8>),
    Write(Seq<u8>, Seq<u8>),
}

/// What came of the file operation: nothing was asked, a read succeeded
/// with the file's contents, the file was missing, a write succeeded, or a
/// write failed.
pub enum FileOutcome {
    NoFile,
    ReadOk(Vec<u8>),
    ReadMissing,
    WriteDone,
    WriteFailed,
}

/// The request's media type: its `Content-Type` header, `text/plain` when
/// absent.
pub open spec fn content_type_of(m: ReqModel) -> Seq<u8> {
    match hdr_lookup(m.headers, "Content-Type".spec_bytes()) {
        Some(v) => v,
        None => "text/plain".spec_bytes(),
    }
}

pub open spec fn echo_path(p: Seq<u8>) -> bool {
    starts_with_spec(p, "/echo/".spec_bytes())
}

pub open spec fn files_path(p: Seq<u8>) -> bool {
    starts_with_spec(p, "/files/".spec_bytes())
}

/// The path with the matched route prefix removed.
pub open spec fn path_suffix(p: Seq<u8>, prefix: Seq<u8>) -> Seq<u8> {
    p.subrange(prefix.len() as int, p.len() as int)
}

/// The file operation a request needs: a read for `GET /files/<name>`, a
/// write of the request body for `POST /files/<name>` with media type
/// `application/octet-stream`, nothing otherwise.
pub open spec fn file_op_spec(m: ReqModel) -> Option<FileOpModel> {
    if m.method == "GET".spec_bytes() && files_path(m.path) {
        Some(FileOpModel::Read(path_suffix(m.path, "/files/".spec_bytes())))
    } else if m.method == "POST".spec_bytes() && files_path(m.path) && content_type_of(m)
        == "application/octet-stream".spec_bytes() {
        Some(FileOpModel::Write(path_suffix(m.path, "/files/".spec_bytes()), m.body))
    } else {
        None
    }
}

/// The outcome a caller may hand back for a request: exactly the outcomes
/// of the operation that `file_op_spec` asks for.
pub open spec fn outcome_fits(m: ReqModel, o: FileOutcome) -> bool {
    match file_op_spec(m) {
        None => o is NoFile,
        Some(FileOpModel::Read(name)) => o is ReadOk || o is ReadMissing,
        Some(FileOpModel::Write(name, contents)) => o is WriteDone || o is WriteFailed,
    }
}

/// The response status of the routing table, given the file outcome.
pub open spec fn route_status(m: ReqModel, o: FileOutcome) -> HttpStatus {
    if m.method == "GET".spec_bytes() {
        if m.path == "/".spec_bytes() {
            HttpStatus::Okay
        } else if m.path == "/user-agent".spec_bytes() {
            HttpStatus::Okay
        } else if echo_path(m.path) {
            HttpStatus::Okay
        } else if files_path(m.path) {
            if o is ReadOk {
                HttpStatus::Okay
            } else {
                HttpStatus::NotFound
            }
        } else {
            HttpStatus::NotFound
        }
    } else if m.method == "POST".spec_bytes() {
        if files_path(m.path) {
            if content_type_of(m) == "application/octet-stream".spec_bytes() {
                if o is WriteDone {
                    HttpStatus::Created
                } else {
                    HttpStatus::InternalServerError
                }
            } else {
                HttpStatus::InternalServerError
            }
        } else {
            HttpStatus::NotFound
        }
    } else {
        HttpStatus::NotImplemented
    }
}

/// The response body and its media type, for the routes that carry one:
/// the `User-Agent` header (empty when absent) as text/plain, the echo
/// path suffix under the request's media type, or a read file's contents
/// as application/octet-stream.
pub open spec fn route_payload(m: ReqModel, o: FileOutcome) -> Option<(Seq<u8>, Seq<u8>)> {
    if m.method == "GET".spec_bytes() {
        if m.path == "/".spec_bytes() {
            None
        } else if m.path == "/user-agent".spec_bytes() {
            let ua = match hdr_lookup(m.headers, "User-Agent".spec_bytes()) {
                Some(v) => v,
                None => Seq::empty(),
            };
            Some((ua, "text/plain".spec_bytes()))
        } else if echo_path(m.path) {
            Some((path_suffix(m.path, "/echo/".spec_bytes()), content_type_of(m)))
        } else if files_path(m.path) {
            match o {
                FileOutcome::ReadOk(contents) => Some(
                    (contents@, "application/octet-stream".spec_bytes()),
                ),
                _ => None,
            }
        } else {
            None
        }
    } else {
        None
    }
}

/// The compression scheme the response negotiates: from the request's
/// `Accept-Encoding` header, when present.
pub open spec fn accept_encoding_choice(m: ReqModel) -> Option<Seq<u8>> {
    match hdr_lookup(m.headers, "Accept-Encoding".spec_bytes()) {
        Some(v) => negotiated(v, seq!["gzip".spec_bytes()]),
        None => None,
    }
}

/// The headers negotiation alone puts on every response: a
/// `Content-Encoding` header exactly when a scheme was negotiated.
pub open spec fn base_headers(m: ReqModel) -> Seq<(Seq<u8>, Seq<u8>)> {
    match accept_encoding_choice(m) {
        Some(t) => hdr_insert(Seq::empty(), "Content-Encoding".spec_bytes(), t),
        None => Seq::empty(),
    }
}

/// The headers of the routed response before serialization: the base
/// headers, and for a route with a body its `Content-Type` and
/// `Content-Length`.
pub open spec fn response_headers(m: ReqModel, o: FileOutcome) -> Seq<(Seq<u8>, Seq<u8>)> {
    match route_payload(m, o) {
        None => base_headers(m),
        Some(p) => hdr_insert(
            hdr_insert(base_headers(m), "Content-Type".spec_bytes(), p.1),
            "Content-Length".spec_bytes(),
            dec_spec(p.0.len() as nat),
        ),
    }
}

/// The byte strings the routing table compares against differ pairwise
/// where the table needs them to.
proof fn lemma_route_literals()
    ensures
        "GET".spec_bytes() != "POST".spec_bytes(),
        "text/plain".spec_bytes() != "application/octet-stream".spec_bytes(),
{
    reveal_strlit("GET");
    reveal_strlit("POST");
    reveal_strlit("text/plain");
    reveal_strlit("application/octet-stream");
    assert(vstd::utf8::is_ascii_chars("GET"@));
    assert(vstd::utf8::is_ascii_chars("POST"@));
    assert(vstd::utf8::is_ascii_chars("text/plain"@));
    assert(vstd::utf8::is_ascii_chars("application/octet-stream"@));
    crate::ascii::lemma_ascii_bytes("GET");
    crate::ascii::lemma_ascii_bytes("POST");
    crate::ascii::lemma_ascii_bytes("text/plain");
    crate::ascii::lemma_ascii_bytes("application/octet-stream");
    assert("GET".spec_bytes().len() == 3);
    assert("POST".spec_bytes().len() == 4);
    assert("text/plain".spec_bytes().len() == 10);
    assert("application/octet-stream".spec_bytes().len() == 24);
}

/// Asks which file operation the request needs from the storage
/// directory, so the caller can perform it and hand back the outcome.
pub fn file_op(req: &HttpRequest) -> (r: Option<FileOp>)
    ensures
        match r {
            None => file_op_spec(req.model()) is None,
            Some(op) => match op {
                FileOp::Read(name) => file_op_spec(req.model()) == Some(FileOpModel::Read(name@)),
                FileOp::Write(name, contents) => file_op_spec(req.model()) == Some(
                    FileOpModel::Write(name@, contents@),
                ),
            },
        },
{
    proof {
        lemma_route_literals();
    }
    let is_files = crate::ascii::starts_with(req.path.as_slice(), "/files/".as_bytes());
    if crate::ascii::bytes_eq(req.method.as_slice(), "GET".as_bytes()) && is_files {
        let name = vstd::slice::slice_to_vec(
            vstd::slice::slice_subrange(req.path.as_slice(), "/files/".as_bytes().len(), req.path.len()),
        );
        Some(FileOp::Read(name))
    } else if crate::ascii::bytes_eq(req.method.as_slice(), "POST".as_bytes()) && is_files {
        let octet = match crate::headers::hdr_get(&req.headers, "Content-Type".as_bytes()) {
            Some(v) => crate::ascii::bytes_eq(v.as_slice(), "application/octet-stream".as_bytes()),
            None => false,
        };
        if octet {
            let name = vstd::slice::slice_to_vec(
                vstd::slice::slice_subrange(
                    req.path.as_slice(),
                    "/files/".as_bytes().len(),
                    req.path.len(),
                ),
            );
            let contents = vstd::slice::slice_to_vec(req.body.as_slice());
            Some(FileOp::Write(name, contents))
        } else {
            None
        }
    } else {
        None
    }
}

/// Routes the request: selects the one handler of the routing table and
/// builds the response it prescribes, from the request and the outcome of
/// its file operation. Compression is negotiated first from the request's
/// `Accept-Encoding` header, whatever the route.
pub fn respond(req: &HttpRequest, outcome: FileOutcome) -> (r: HttpResponseBuilder)
    requires
        outcome_fits(req.model(), outcome),
    ensures
        r.wf(),
        r.status_line == route_status(req.model(), outcome),
        r.body@ == match route_payload(req.model(), outcome) {
            Some(p) => p.0,
            None => Seq::<u8>::empty(),
        },
        r.headers.deep_view() == response_headers(req.model(), outcome),
        r.compression_detail.0 == (accept_encoding_choice(req.model()) is Some),
        accept_encoding_choice(req.model()) matches Some(t) ==> r.compression_detail.1@ == t,
        r.compressed == false,
{
    proof {
        lemma_route_literals();
    }
    let mut b = HttpResponseBuilder::new();
    match crate::headers::hdr_get(&req.headers, "Accept-Encoding".as_bytes()) {
        Some(v) => b.enable_compression_bytes(v.as_slice()),
        None => {},
    }
    if crate::ascii::bytes_eq(req.method.as_slice(), "GET".as_bytes()) {
        if crate::ascii::bytes_eq(req.path.as_slice(), "/".as_bytes()) {
            b.add_status(HttpStatus::Okay);
        } else if crate::ascii::bytes_eq(req.path.as_slice(), "/user-agent".as_bytes()) {
            let ua = match crate::headers::hdr_get(&req.headers, "User-Agent".as_bytes()) {
                Some(v) => v,
                None => Vec::new(),
            };
            b.add_body_bytes(ua, "text/plain".as_bytes_vec());
            b.add_status(HttpStatus::Okay);
        } else if crate::ascii::starts_with(req.path.as_slice(), "/echo/".as_bytes()) {
            let value = vstd::slice::slice_to_vec(
                vstd::slice::slice_subrange(
                    req.path.as_slice(),
                    "/echo/".as_bytes().len(),
                    req.path.len(),
                ),
            );
            let media = match crate::headers::hdr_get(&req.headers, "Content-Type".as_bytes()) {
                Some(v) => v,
                None => "text/plain".as_bytes_vec(),
            };
            b.add_body_bytes(value, media);
            b.add_status(HttpStatus::Okay);
        } else if crate::ascii::starts_with(req.path.as_slice(), "/files/".as_bytes()) {
            match outcome {
                FileOutcome::ReadOk(contents) => {
                    b.add_body_bytes(contents, "application/octet-stream".as_bytes_vec());
                    b.add_status(HttpStatus::Okay);
                },
                _ => {
                    b.add_status(HttpStatus::NotFound);
                },
            }
        } else {
            b.add_status(HttpStatus::NotFound);
        }
    } else if crate::ascii::bytes_eq(req.method.as_slice(), "POST".as_bytes()) {
        if crate::ascii::starts_with(req.path.as_slice(), "/files/".as_bytes()) {
            let octet = match crate::headers::hdr_get(&req.headers, "Content-Type".as_bytes()) {
                Some(v) => crate::ascii::bytes_eq(
                    v.as_slice(),
                    "application/octet-stream".as_bytes(),
                ),
                None => false,
            };
            if octet {
                match outcome {
                    FileOutcome::WriteDone => b.add_status(HttpStatus::Created),
                    _ => b.add_status(HttpStatus::InternalServerError),
                }
            } else {
                b.add_status(HttpStatus::InternalServerError);
            }
        } else {
            b.add_status(HttpStatus::NotFound);
        }
    } else {
        b.add_status(HttpStatus::NotImplemented);
    }
    b
}

} // verus!


