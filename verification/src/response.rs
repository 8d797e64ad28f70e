//! The response model and its builder. A response carries a status code, an
//! optional content descriptor (a content-type tag and a byte length, set
//! together or not at all) and a body. Serialization writes the status line,
//! then — only where content was set — the two content headers, a blank line
//! and the body, and in every case one trailing line terminator.
use vstd::prelude::*;

use crate::text::dec_digits;
use crate::text::usize_to_string;
use crate::ContentType;
use crate::HttpCode;

verus! {

/// The abstract value of a response.
#[verifier::ext_equal]
pub struct ResponseView {
    pub code: HttpCode,
    pub content_type: Option<ContentType>,
    pub content_length: Option<usize>,
    pub body: Seq<char>,
}

impl ResponseView {
    /// The content descriptor is set or absent as a whole: a content type is
    /// recorded exactly when a content length is.
    pub open spec fn wf(self) -> bool {
        self.content_type is Some <==> self.content_length is Some
    }
}

/// The exact wire text of a response with these parts.
pub open spec fn spec_serialize(v: ResponseView) -> Seq<char> {
    "HTTP/1.1 "@ + v.code.spec_reason() + "\r\n"@ + (match v.content_type {
        Some(ct) => "Content-Type: "@ + ct.spec_tag() + "\r\n"@ + "Content-Length: "@
            + dec_digits(v.content_length->0 as nat) + "\r\n\r\n"@ + v.body,
        None => Seq::<char>::empty(),
    }) + "\r\n"@
}

/// A finished response, ready to be serialized onto the wire.
pub struct Response {
    http_code: HttpCode,
    content_type: Option<ContentType>,
    content_length: Option<usize>,
    body: String,
}

impl View for Response {
    type V = ResponseView;

    closed spec fn view(&self) -> ResponseView {
        ResponseView {
            code: self.http_code,
            content_type: self.content_type,
            content_length: self.content_length,
            body: self.body@,
        }
    }
}

impl Response {
    /// The status code of this response.
    pub fn code(&self) -> (r: HttpCode)
        ensures
            r == self@.code,
    {
        self.http_code
    }

    /// The wire text of this response: the status line, the content headers,
    /// the blank line and the body where content was set, and the trailing
    /// line terminator.
    pub fn serialize(&self) -> (r: String)
        requires
            self@.wf(),
        ensures
            r@ == spec_serialize(self@),
    {
        let mut response: String = "HTTP/1.1 ".to_owned();
        response.append(self.http_code.reason());
        response.append("\r\n");
        match self.content_type {
            Some(ct) => {
                response.append("Content-Type: ");
                response.append(ct.tag());
                response.append("\r\n");
                response.append("Content-Length: ");
                let length = match self.content_length {
                    Some(n) => n,
                    None => 0,
                };
                let digits = usize_to_string(length);
                response.append(digits.as_str());
                response.append("\r\n\r\n");
                response.append(self.body.as_str());
            },
            None => {},
        }
        response.append("\r\n");
        proof {
            assert(response@ =~= spec_serialize(self@));
        }
        response
    }

    /// The response sent for a request that matches no route when no fallback
    /// was installed: status 404, no content, empty body.
    pub fn default_not_found() -> (r: Response)
        ensures
            r@.code == HttpCode::Err404,
            r@.content_type is None,
            r@.content_length is None,
            r@.body == Seq::<char>::empty(),
            r@.wf(),
    {
        Response {
            http_code: HttpCode::Err404,
            content_type: None,
            content_length: None,
            body: String::new(),
        }
    }
}

/// The response actually sent for a handler's result: the handler's own
/// response where it succeeded, a bare 500 where it failed. A failing handler
/// therefore never leaves a connection without a well-formed answer.
pub fn response_for_handler_result<E>(result: Result<Response, E>) -> (r: Response)
    ensures
        match result {
            Ok(response) => r == response,
            Err(_) => {
                &&& r@.code == HttpCode::Err500
                &&& r@.content_type is None
                &&& r@.content_length is None
                &&& r@.body == Seq::<char>::empty()
                &&& r@.wf()
            },
        },
{
    match result {
        Ok(response) => response,
        Err(_) => ResponseBuilder::new().code(HttpCode::Err500).build(),
    }
}

/// The abstract value of a response under construction.
#[verifier::ext_equal]
pub struct ResponseBuilderView {
    pub code: Option<HttpCode>,
    pub content_type: Option<ContentType>,
    pub content_length: Option<usize>,
    pub body: Option<Seq<char>>,
}

impl ResponseBuilderView {
    /// Content type, content length and body are recorded together or not at
    /// all.
    pub open spec fn wf(self) -> bool {
        &&& self.content_type is Some <==> self.content_length is Some
        &&& self.content_type is Some <==> self.body is Some
    }
}

/// Accumulates a status code and an optional content descriptor, then turns
/// into a `Response`; absent parts get their defaults (status 200, no
/// content, empty body).
pub struct ResponseBuilder {
    http_code: Option<HttpCode>,
    content_type: Option<ContentType>,
    content_length: Option<usize>,
    body: Option<String>,
}

impl View for ResponseBuilder {
    type V = ResponseBuilderView;

    closed spec fn view(&self) -> ResponseBuilderView {
        ResponseBuilderView {
            code: self.http_code,
            content_type: self.content_type,
            content_length: self.content_length,
            body: match self.body {
                Some(ref b) => Some(b@),
                None => None,
            },
        }
    }
}

impl ResponseBuilder {
    /// A builder with no status code and no content.
    pub fn new() -> (r: ResponseBuilder)
        ensures
            r@.code is None,
            r@.content_type is None,
            r@.content_length is None,
            r@.body is None,
            r@.wf(),
    {
        ResponseBuilder { http_code: None, content_type: None, content_length: None, body: None }
    }

    /// Set the status code.
    pub fn code(self, code: HttpCode) -> (r: ResponseBuilder)
        ensures
            r@ == (ResponseBuilderView { code: Some(code), ..self@ }),
    {
        ResponseBuilder { http_code: Some(code), ..self }
    }

    /// Set the content descriptor and the body together: the recorded length
    /// is the byte length of the content.
    pub fn content(self, content: String, content_type: ContentType) -> (r: ResponseBuilder)
        ensures
            r@.code == self@.code,
            r@.content_type == Some(content_type),
            r@.content_length == Some(vstd::utf8::encode_utf8(content@).len() as usize),
            r@.body == Some(content@),
            r@.wf(),
    {
        let length = content.as_str().len();
        ResponseBuilder {
            content_type: Some(content_type),
            content_length: Some(length),
            body: Some(content),
            ..self
        }
    }

    /// Finish the response, substituting defaults for what was never set:
    /// status 200, empty body, no content descriptor.
    pub fn build(self) -> (r: Response)
        ensures
            r@.code == (match self@.code {
                Some(c) => c,
                None => HttpCode::Ok200,
            }),
            r@.content_type == self@.content_type,
            r@.content_length == self@.content_length,
            r@.body == (match self@.body {
                Some(b) => b,
                None => Seq::<char>::empty(),
            }),
            r@.wf() == (self@.content_type is Some <==> self@.content_length is Some),
    {
        let http_code = match self.http_code {
            Some(c) => c,
            None => HttpCode::Ok200,
        };
        let body = match self.body {
            Some(b) => b,
            None => String::new(),
        };
        Response {
            http_code,
            content_type: self.content_type,
            content_length: self.content_length,
            body,
        }
    }
}

} // verus!
