//! A minimal HTTP/1.1 request/response library: it parses one raw request
//! into method, path, headers and body, routes it to one of a handful of
//! handlers, builds a response (status, headers, body, optional gzip
//! compression of the body) and serializes the response to wire bytes.
//! The transport and the filesystem are left to the caller, which hands
//! this crate plain byte values and takes plain byte values back.
pub mod ascii;
pub mod compressor;
pub mod headers;
pub mod http;
pub mod request;
pub mod router;
