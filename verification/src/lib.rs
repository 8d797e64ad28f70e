//! A minimal HTTP/1.1 server framework: a request parser, a route table with
//! dynamic path templates and positional captures, a response builder, and the
//! pure decision logic of the per-connection dispatcher. Listening, reading and
//! writing sockets are left to the embedding application; everything here works
//! on plain values and carries a verified contract.
use vstd::prelude::*;

pub mod app;
pub mod request;
pub mod response;
pub mod routes;
pub mod text;

verus! {

/// The two request methods the framework recognizes.
#[derive(PartialEq, Eq, Structural, Clone, Copy, Debug)]
pub enum HttpMethod {
    Get,
    Post,
}

/// The status codes a response can carry.
#[derive(PartialEq, Eq, Structural, Clone, Copy, Debug)]
pub enum HttpCode {
    Ok200,
    Ok201,
    Err404,
    Err500,
}

/// The content-type tags a response can carry; a response without a content
/// descriptor carries none at all.
#[derive(PartialEq, Eq, Structural, Clone, Copy, Debug)]
pub enum ContentType {
    TextPlain,
    OctetStream,
}

impl HttpCode {
    /// The status line text for this code, as it appears on the wire.
    pub open spec fn spec_reason(self) -> Seq<char> {
        match self {
            HttpCode::Ok200 => "200 Ok"@,
            HttpCode::Ok201 => "201 Created"@,
            HttpCode::Err404 => "404 Not Found"@,
            HttpCode::Err500 => "500 Internal Server Error"@,
        }
    }

    /// The status line text for this code.
    pub fn reason(&self) -> (r: &'static str)
        ensures
            r@ == self.spec_reason(),
    {
        match self {
            HttpCode::Ok200 => "200 Ok",
            HttpCode::Ok201 => "201 Created",
            HttpCode::Err404 => "404 Not Found",
            HttpCode::Err500 => "500 Internal Server Error",
        }
    }
}

impl ContentType {
    /// The tag text for this content type, as it appears after `Content-Type: `.
    pub open spec fn spec_tag(self) -> Seq<char> {
        match self {
            ContentType::TextPlain => "text/plain"@,
            ContentType::OctetStream => "application/octet-stream"@,
        }
    }

    /// The tag text for this content type.
    pub fn tag(&self) -> (r: &'static str)
        ensures
            r@ == self.spec_tag(),
    {
        match self {
            ContentType::TextPlain => "text/plain",
            ContentType::OctetStream => "application/octet-stream",
        }
    }
}

} // verus!
