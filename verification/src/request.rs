//! The request model and its parser. A raw text buffer read from a connection
//! is split into a header section and a body on the first blank line; the
//! first header line starting with a known method token yields the method and
//! the path, and the first line starting with `User-Agent` yields the
//! user-agent value. Missing fields are substituted with defaults rather than
//! rejected: method `GET`, path `/`, empty user-agent, empty body.
use vstd::prelude::*;

use crate::HttpMethod;
use crate::text::find;
use crate::text::find_sub;
use crate::text::has_prefix;
use crate::text::split;
use crate::text::split_on;
use crate::text::starts_with;

verus! {

/// The blank-line delimiter between the header section and the body.
pub open spec fn header_body_delim() -> Seq<char> {
    seq!['\r', '\n', '\r', '\n']
}

/// The line terminator between header lines.
pub open spec fn line_sep() -> Seq<char> {
    seq!['\r', '\n']
}

/// The token that marks a `GET` request line.
pub open spec fn get_token() -> Seq<char> {
    seq!['G', 'E', 'T']
}

/// The token that marks a `POST` request line.
pub open spec fn post_token() -> Seq<char> {
    seq!['P', 'O', 'S', 'T']
}

/// The prefix that marks a user-agent header line.
pub open spec fn user_agent_token() -> Seq<char> {
    seq!['U', 's', 'e', 'r', '-', 'A', 'g', 'e', 'n', 't']
}

/// The separator between a header name and its value.
pub open spec fn header_value_sep() -> Seq<char> {
    seq![':', ' ']
}

/// The header section of a raw request: everything before the first blank
/// line, or the whole text when there is none.
pub open spec fn header_section(s: Seq<char>) -> Seq<char> {
    match find_sub(s, header_body_delim()) {
        Some(i) => s.subrange(0, i),
        None => s,
    }
}

/// The body of a raw request: everything after the first blank line, verbatim,
/// or empty when there is none.
pub open spec fn body_section(s: Seq<char>) -> Seq<char> {
    match find_sub(s, header_body_delim()) {
        Some(i) => s.skip(i + 4),
        None => Seq::<char>::empty(),
    }
}

/// The header lines of a raw request.
pub open spec fn header_lines(s: Seq<char>) -> Seq<Seq<char>> {
    split_on(header_section(s), line_sep())
}

/// Whether a header line carries the method and the path.
pub open spec fn is_method_line(line: Seq<char>) -> bool {
    has_prefix(line, get_token()) || has_prefix(line, post_token())
}

/// Whether a header line carries the user-agent value.
pub open spec fn is_user_agent_line(line: Seq<char>) -> bool {
    has_prefix(line, user_agent_token())
}

/// The first method line among the header lines, if any.
pub open spec fn first_method_line(lines: Seq<Seq<char>>) -> Option<Seq<char>>
    decreases lines.len(),
{
    if lines.len() == 0 {
        None::<Seq<char>>
    } else if is_method_line(lines[0]) {
        Some(lines[0])
    } else {
        first_method_line(lines.drop_first())
    }
}

/// The first user-agent line among the header lines, if any.
pub open spec fn first_user_agent_line(lines: Seq<Seq<char>>) -> Option<Seq<char>>
    decreases lines.len(),
{
    if lines.len() == 0 {
        None::<Seq<char>>
    } else if is_user_agent_line(lines[0]) {
        Some(lines[0])
    } else {
        first_user_agent_line(lines.drop_first())
    }
}

/// The method of a raw request: taken from the first method line, `GET` when
/// there is none or its first token is not `POST`.
pub open spec fn parsed_method(s: Seq<char>) -> HttpMethod {
    match first_method_line(header_lines(s)) {
        Some(line) => {
            let tokens = split_on(line, seq![' ']);
            if tokens[0] == post_token() {
                HttpMethod::Post
            } else {
                HttpMethod::Get
            }
        },
        None => HttpMethod::Get,
    }
}

/// The path of a raw request: the second space-delimited token of the first
/// method line, or `/` when there is no method line or no second token.
pub open spec fn parsed_path(s: Seq<char>) -> Seq<char> {
    match first_method_line(header_lines(s)) {
        Some(line) => {
            let tokens = split_on(line, seq![' ']);
            if tokens.len() >= 2 {
                tokens[1]
            } else {
                seq!['/']
            }
        },
        None => seq!['/'],
    }
}

/// The user-agent of a raw request: the text after the first `: ` of the
/// first user-agent line, or empty when there is no such line or no `: `.
pub open spec fn parsed_user_agent(s: Seq<char>) -> Seq<char> {
    match first_user_agent_line(header_lines(s)) {
        Some(line) => match find_sub(line, header_value_sep()) {
            Some(i) => line.skip(i + 2),
            None => Seq::<char>::empty(),
        },
        None => Seq::<char>::empty(),
    }
}

/// The abstract value of a request.
#[verifier::ext_equal]
pub struct RequestView {
    pub user_agent: Seq<char>,
    pub method: HttpMethod,
    pub path: Seq<char>,
    pub body: Seq<char>,
    pub params: Seq<Seq<char>>,
}

/// A request: immutable after construction, except that route resolution
/// writes the matched captures into `params`.
pub struct Request {
    user_agent: String,
    method: HttpMethod,
    path: String,
    body: String,
    param: Vec<String>,
}

impl View for Request {
    type V = RequestView;

    closed spec fn view(&self) -> RequestView {
        RequestView {
            user_agent: self.user_agent@,
            method: self.method,
            path: self.path@,
            body: self.body@,
            params: self.param.deep_view(),
        }
    }
}

impl Request {
    /// The user-agent value, empty if the request carried none.
    pub fn user_agent(&self) -> (r: &str)
        ensures
            r@ == self@.user_agent,
    {
        self.user_agent.as_str()
    }

    /// The request method.
    pub fn method(&self) -> (r: &HttpMethod)
        ensures
            *r == self@.method,
    {
        &self.method
    }

    /// The request path.
    pub fn path(&self) -> (r: &str)
        ensures
            r@ == self@.path,
    {
        self.path.as_str()
    }

    /// The request body, empty if the request carried none.
    pub fn body(&self) -> (r: &str)
        ensures
            r@ == self@.body,
    {
        self.body.as_str()
    }

    /// The captures recorded by route resolution, in left-to-right order.
    pub fn param(&self) -> (r: &Vec<String>)
        ensures
            r.deep_view() == self@.params,
    {
        &self.param
    }

    /// Record the captures of a successful resolution; every other field
    /// stays as it was.
    pub fn set_param(&mut self, param: Vec<String>)
        ensures
            final(self)@ == (RequestView { params: param.deep_view(), ..old(self)@ }),
    {
        self.param = param;
    }
}

/// The abstract value of a request under construction: fields not yet seen
/// are still absent.
#[verifier::ext_equal]
pub struct RequestBuilderView {
    pub user_agent: Option<Seq<char>>,
    pub method: Option<HttpMethod>,
    pub path: Option<Seq<char>>,
    pub body: Option<Seq<char>>,
}

/// Accumulates the fields of a request as the parser walks the header lines;
/// `build` substitutes the documented default for every absent field.
pub struct RequestBuilder {
    user_agent: Option<String>,
    method: Option<HttpMethod>,
    path: Option<String>,
    body: Option<String>,
}

impl View for RequestBuilder {
    type V = RequestBuilderView;

    closed spec fn view(&self) -> RequestBuilderView {
        RequestBuilderView {
            user_agent: match self.user_agent {
                Some(ref s) => Some(s@),
                None => None,
            },
            method: self.method,
            path: match self.path {
                Some(ref s) => Some(s@),
                None => None,
            },
            body: match self.body {
                Some(ref s) => Some(s@),
                None => None,
            },
        }
    }
}

impl RequestBuilder {
    /// A builder with every field absent.
    pub fn new() -> (r: RequestBuilder)
        ensures
            r@.user_agent is None,
            r@.method is None,
            r@.path is None,
            r@.body is None,
    {
        RequestBuilder { user_agent: None, method: None, path: None, body: None }
    }

    /// Set the method.
    pub fn method(&mut self, method: HttpMethod)
        ensures
            final(self)@ == (RequestBuilderView { method: Some(method), ..old(self)@ }),
    {
        self.method = Some(method);
    }

    /// Set the path.
    pub fn path(&mut self, path: String)
        ensures
            final(self)@ == (RequestBuilderView { path: Some(path@), ..old(self)@ }),
    {
        self.path = Some(path);
    }

    /// Set the body.
    pub fn body(&mut self, body: String)
        ensures
            final(self)@ == (RequestBuilderView { body: Some(body@), ..old(self)@ }),
    {
        self.body = Some(body);
    }

    /// Set the user-agent value.
    pub fn user_agent(&mut self, user_agent: String)
        ensures
            final(self)@ == (RequestBuilderView { user_agent: Some(user_agent@), ..old(self)@ }),
    {
        self.user_agent = Some(user_agent);
    }

    /// Finish the request, substituting the default for every absent field:
    /// method `GET`, path `/`, empty user-agent, empty body, no captures.
    pub fn build(self) -> (r: Request)
        ensures
            r@.method == (match self@.method {
                Some(m) => m,
                None => HttpMethod::Get,
            }),
            r@.path == (match self@.path {
                Some(p) => p,
                None => seq!['/'],
            }),
            r@.user_agent == (match self@.user_agent {
                Some(u) => u,
                None => Seq::<char>::empty(),
            }),
            r@.body == (match self@.body {
                Some(b) => b,
                None => Seq::<char>::empty(),
            }),
            r@.params == Seq::<Seq<char>>::empty(),
    {
        let user_agent = match self.user_agent {
            Some(val) => val,
            None => String::new(),
        };
        let method = match self.method {
            Some(val) => val,
            None => HttpMethod::Get,
        };
        let path = match self.path {
            Some(val) => val,
            None => {
                let p = "/".to_owned();
                proof {
                    reveal_strlit("/");
                    assert(p@ =~= seq!['/']);
                }
                p
            },
        };
        let body = match self.body {
            Some(val) => val,
            None => String::new(),
        };
        let r = Request { user_agent, method, path, body, param: Vec::new() };
        proof {
            assert(r@.params =~= Seq::<Seq<char>>::empty());
        }
        r
    }
}

impl Request {
    /// Parse a raw text buffer into a request, substituting defaults for
    /// whatever is missing; parsing never fails.
    #[verifier::loop_isolation(false)]
    pub fn parse(raw: &str) -> (r: Request)
        ensures
            r@.method == parsed_method(raw@),
            r@.path == parsed_path(raw@),
            r@.user_agent == parsed_user_agent(raw@),
            r@.body == body_section(raw@),
            r@.params == Seq::<Seq<char>>::empty(),
    {
        proof {
            reveal_strlit("\r\n\r\n");
            reveal_strlit("\r\n");
            reveal_strlit("GET");
            reveal_strlit("POST");
            reveal_strlit("User-Agent");
            reveal_strlit(": ");
            reveal_strlit(" ");
            assert("\r\n\r\n"@ =~= header_body_delim());
            assert("\r\n"@ =~= line_sep());
            assert("GET"@ =~= get_token());
            assert("POST"@ =~= post_token());
            assert("User-Agent"@ =~= user_agent_token());
            assert(": "@ =~= header_value_sep());
            assert(" "@ =~= seq![' ']);
        }
        let mut builder = RequestBuilder::new();
        let raw_len = raw.unicode_len();
        let header: &str = match find(raw, "\r\n\r\n") {
            Some(i) => {
                let h = raw.substring_char(0, i);
                let b = raw.substring_char(i + 4, raw_len);
                builder.body(b.to_owned());
                proof {
                    assert(h@ == header_section(raw@));
                    assert(raw@.subrange(i + 4, raw_len as int) =~= raw@.skip(i + 4));
                    assert(builder@.body == Some(body_section(raw@)));
                }
                h
            },
            None => raw,
        };
        let lines: Vec<String> = split(header, "\r\n");
        let ghost lv = lines.deep_view();
        proof {
            assert(lv == header_lines(raw@));
            assert(lv.skip(0) =~= lv);
        }
        let mut found_method = false;
        let mut found_ua = false;
        let mut i: usize = 0;
        while i < lines.len()
            invariant
                lv == lines.deep_view(),
                lv == header_lines(raw@),
                0 <= i <= lines.len(),
                builder@.body == (match find_sub(raw@, header_body_delim()) {
                    Some(_) => Some(body_section(raw@)),
                    None => None::<Seq<char>>,
                }),
                !found_method ==> {
                    &&& first_method_line(lv) == first_method_line(lv.skip(i as int))
                    &&& builder@.method is None
                    &&& builder@.path is None
                },
                found_method ==> (match first_method_line(lv) {
                    Some(line) => {
                        let tokens = split_on(line, seq![' ']);
                        &&& builder@.method == Some(
                            if tokens[0] == post_token() {
                                HttpMethod::Post
                            } else {
                                HttpMethod::Get
                            },
                        )
                        &&& builder@.path == (if tokens.len() >= 2 {
                            Some(tokens[1])
                        } else {
                            None::<Seq<char>>
                        })
                    },
                    None => false,
                }),
                !found_ua ==> {
                    &&& first_user_agent_line(lv) == first_user_agent_line(lv.skip(i as int))
                    &&& builder@.user_agent is None
                },
                found_ua ==> (match first_user_agent_line(lv) {
                    Some(line) => builder@.user_agent == Some(
                        match find_sub(line, header_value_sep()) {
                            Some(p) => line.skip(p + 2),
                            None => Seq::<char>::empty(),
                        },
                    ),
                    None => false,
                }),
            decreases lines.len() - i,
        {
            proof {
                assert(lv.skip(i as int)[0] == lv[i as int]);
                assert(lv.skip(i as int).drop_first() =~= lv.skip(i as int + 1));
            }
            let line: &String = &lines[i];
            proof {
                assert(line@ == lv[i as int]);
            }
            let is_method = starts_with(line.as_str(), "GET") || starts_with(
                line.as_str(),
                "POST",
            );
            if !found_method && is_method {
                proof {
                    assert(is_method_line(lv[i as int]));
                    assert(first_method_line(lv.skip(i as int)) == Some(lv[i as int]));
                }
                let tokens: Vec<String> = split(line.as_str(), " ");
                let post = "POST".to_owned();
                let method = if tokens[0] == post {
                    HttpMethod::Post
                } else {
                    HttpMethod::Get
                };
                builder.method(method);
                if tokens.len() >= 2 {
                    let p = tokens[1].clone();
                    builder.path(p);
                }
                found_method = true;
            }
            if !found_ua && starts_with(line.as_str(), "User-Agent") {
                proof {
                    assert(is_user_agent_line(lv[i as int]));
                    assert(first_user_agent_line(lv.skip(i as int)) == Some(lv[i as int]));
                }
                let line_len = line.as_str().unicode_len();
                let value: String = match find(line.as_str(), ": ") {
                    Some(p) => {
                        let v = line.as_str().substring_char(p + 2, line_len);
                        proof {
                            assert(v@ =~= line@.skip(p + 2));
                        }
                        v.to_owned()
                    },
                    None => String::new(),
                };
                builder.user_agent(value);
                found_ua = true;
            } else {
                proof {
                    if !found_ua {
                        assert(!is_user_agent_line(lv[i as int]));
                        assert(first_user_agent_line(lv.skip(i as int)) == first_user_agent_line(
                            lv.skip(i as int + 1),
                        ));
                    }
                }
            }
            proof {
                if !found_method {
                    assert(!is_method_line(lv[i as int]));
                    assert(first_method_line(lv.skip(i as int)) == first_method_line(
                        lv.skip(i as int + 1),
                    ));
                }
            }
            i += 1;
        }
        proof {
            assert(lv.skip(i as int) =~= Seq::<Seq<char>>::empty());
            if !found_method {
                assert(first_method_line(lv) == None::<Seq<char>>);
            }
            if !found_ua {
                assert(first_user_agent_line(lv) == None::<Seq<char>>);
            }
        }
        builder.build()
    }
}

} // verus!
