//! The state of one request while it passes through the pipeline: the raw
//! message, the parsed request, the user, and the response once one is chosen.

use vstd::prelude::*;
use vstd::string::*;
use vstd::hash_map::StringHashMap;
use vstd::utf8::encode_utf8;
use crate::authentication::ServerUser;
use crate::text::{decimal, signed_decimal, push_decimal, push_signed_decimal};

verus! {

/// The text values of a map from names to `String`s.
pub open spec fn text_map(m: Map<Seq<char>, String>) -> Map<Seq<char>, Seq<char>> {
    m.map_values(|v: String| v@)
}

/// The state of one request.
pub struct ServerContext {
    /// The message as read from the connection.
    pub raw_message: String,
    /// The request, once parsed.
    pub request: ServerHttpRequest,
    /// The response, once a middleware has chosen one.
    pub response: Option<ServerHttpResponse>,
    /// The user, once authenticated.
    pub user: ServerUser,
}

/// A parsed HTTP request.
pub struct ServerHttpRequest {
    pub method: String,
    pub path: String,
    /// Header names mapped to their values.
    pub headers: StringHashMap<String>,
}

/// An HTTP response.
pub struct ServerHttpResponse {
    pub code: u16,
    pub content: ServerHttpResponseContent,
    /// The value sent as `Content-Length`.
    pub content_length: i32,
    pub content_type: String,
    /// Extra headers to go with the response.
    pub headers: StringHashMap<String>,
}

/// The body of a response.
pub enum ServerHttpResponseContent {
    Text(String),
    Binary(Vec<u8>),
    Empty,
}

/// The reason phrase sent with a status code, for the codes that have one.
pub open spec fn reason_phrase(code: u16) -> Option<Seq<char>> {
    if code == 200 {
        Some("OK"@)
    } else if code == 404 {
        Some("Not Found"@)
    } else if code == 500 {
        Some("Internal Server Error"@)
    } else {
        None
    }
}

/// The bytes of a response body.
pub open spec fn body_bytes(content: ServerHttpResponseContent) -> Seq<u8> {
    match content {
        ServerHttpResponseContent::Text(text) => encode_utf8(text@),
        ServerHttpResponseContent::Binary(data) => data@,
        ServerHttpResponseContent::Empty => Seq::empty(),
    }
}

impl ServerHttpResponse {
    /// A `text/plain` response with status `code`, no body and no extra headers.
    pub open spec fn is_bodyless(self, code: u16) -> bool {
        &&& self.code == code
        &&& self.content is Empty
        &&& self.content_length == 0
        &&& self.content_type@ == "text/plain"@
        &&& self.headers@ == Map::<Seq<char>, String>::empty()
    }

    /// The status line and headers of the response as sent, up to and including the empty line.
    pub open spec fn head_text(self) -> Seq<char> {
        "HTTP/1.1 "@ + decimal(self.code as nat) + " "@ + reason_phrase(self.code).unwrap()
            + "\nServer: chatty\nContent-Length: "@ + signed_decimal(self.content_length as int)
            + "\nContent-Type: "@ + self.content_type@ + "\nConnection: Closed\n\n"@
    }

    /// The response as bytes on the wire: its head, then its body.
    pub open spec fn raw_http(self) -> Seq<u8> {
        encode_utf8(self.head_text()) + body_bytes(self.content)
    }

    /// The response as text for a log line.
    pub open spec fn display(self) -> Seq<char> {
        "HTTP "@ + decimal(self.code as nat) + " "@ + reason_phrase(self.code).unwrap()
    }

    /// The server's answer to a request it could not handle.
    pub fn internal_error() -> (r: Self)
        ensures
            r.is_bodyless(500),
    {
        ServerHttpResponse::from_code(500)
    }

    /// The answer to a request for which nothing was found.
    pub fn not_found() -> (r: Self)
        ensures
            r.is_bodyless(404),
    {
        ServerHttpResponse::from_code(404)
    }

    /// A `text/plain` response with status `code` and no body.
    pub fn from_code(code: u16) -> (r: Self)
        ensures
            r.is_bodyless(code),
    {
        ServerHttpResponse {
            code,
            content: ServerHttpResponseContent::Empty,
            content_length: 0,
            content_type: "text/plain".to_owned(),
            headers: StringHashMap::new(),
        }
    }

    /// Whether `code` has a reason phrase, so that a response with it can be
    /// written out or logged.
    pub fn has_reason_phrase(code: u16) -> (r: bool)
        ensures
            r == reason_phrase(code) is Some,
    {
        code == 200 || code == 404 || code == 500
    }

    /// The reason phrase for `code`; only the codes this server knows have one.
    pub fn code_to_reason_phrase(code: u16) -> (r: &'static str)
        requires
            reason_phrase(code) is Some,
        ensures
            r@ == reason_phrase(code).unwrap(),
    {
        if code == 200 {
            "OK"
        } else if code == 404 {
            "Not Found"
        } else {
            "Internal Server Error"
        }
    }

    /// The response as bytes on the wire: status line, fixed headers, an empty line, the body.
    /// The extra `headers` are not sent.
    pub fn into_raw_http(self) -> (data: Vec<u8>)
        requires
            reason_phrase(self.code) is Some,
        ensures
            data@ == encode_utf8(self.head_text()) + body_bytes(self.content),
            data@ == self.raw_http(),
            self.content matches ServerHttpResponseContent::Binary(d)
                ==> data@ == encode_utf8(self.head_text()) + d@,
            self.content matches ServerHttpResponseContent::Text(t)
                ==> data@ == encode_utf8(self.head_text()) + encode_utf8(t@),
            self.content is Empty ==> data@ == encode_utf8(self.head_text()),
    {
        let ghost head_spec = self.head_text();
        let ghost body_spec = body_bytes(self.content);
        let mut head = "HTTP/1.1 ".to_owned();
        push_decimal(&mut head, self.code as u64);
        head.append(" ");
        head.append(ServerHttpResponse::code_to_reason_phrase(self.code));
        head.append("\nServer: chatty\nContent-Length: ");
        push_signed_decimal(&mut head, self.content_length);
        head.append("\nContent-Type: ");
        head.append(self.content_type.as_str());
        head.append("\nConnection: Closed\n\n");
        assert(head@ =~= head_spec);
        let mut content = match self.content {
            ServerHttpResponseContent::Text(text) => text.as_str().as_bytes_vec(),
            ServerHttpResponseContent::Binary(data) => data,
            ServerHttpResponseContent::Empty => Vec::new(),
        };
        let mut data = head.as_str().as_bytes_vec();
        data.append(&mut content);
        proof {
            if self.content is Empty {
                assert(data@ =~= encode_utf8(self.head_text()));
            }
        }
        data
    }

    /// The response as text for a log line: `HTTP <code> <reason>`.
    pub fn display_text(&self) -> (r: String)
        requires
            reason_phrase(self.code) is Some,
        ensures
            r@ == self.display(),
    {
        let mut out = "HTTP ".to_owned();
        push_decimal(&mut out, self.code as u64);
        out.append(" ");
        out.append(ServerHttpResponse::code_to_reason_phrase(self.code));
        out
    }
}

/// Written out, a response is its head followed by its whole body: every byte
/// of a binary body, the UTF-8 encoding of a text body, nothing for an empty one.
pub proof fn law_raw_http_is_head_then_whole_body(r: ServerHttpResponse)
    ensures
        r.raw_http().len() >= encode_utf8(r.head_text()).len(),
        r.raw_http().take(encode_utf8(r.head_text()).len() as int) == encode_utf8(r.head_text()),
        r.content matches ServerHttpResponseContent::Binary(d) ==> {
            &&& r.raw_http().len() == encode_utf8(r.head_text()).len() + d@.len()
            &&& r.raw_http().skip(encode_utf8(r.head_text()).len() as int) == d@
        },
        r.content matches ServerHttpResponseContent::Text(t) ==> {
            &&& r.raw_http().len() == encode_utf8(r.head_text()).len() + encode_utf8(t@).len()
            &&& r.raw_http().skip(encode_utf8(r.head_text()).len() as int) == encode_utf8(t@)
        },
        r.content is Empty ==> r.raw_http() == encode_utf8(r.head_text()),
{
    let head = encode_utf8(r.head_text());
    let raw = r.raw_http();
    assert(raw.take(head.len() as int) =~= head);
    match r.content {
        ServerHttpResponseContent::Binary(d) => {
            assert(raw.skip(head.len() as int) =~= d@);
        },
        ServerHttpResponseContent::Text(t) => {
            assert(raw.skip(head.len() as int) =~= encode_utf8(t@));
        },
        ServerHttpResponseContent::Empty => {
            assert(raw =~= head);
        },
    }
}

/// A request is logged as its method, one space, and its path: the text
/// starts with the whole method, and all that follows the space is the path.
pub proof fn law_request_display_is_method_space_path(req: ServerHttpRequest)
    ensures
        req.display().len() == req.method@.len() + 1 + req.path@.len(),
        req.display().take(req.method@.len() as int) == req.method@,
        req.display()[req.method@.len() as int] == ' ',
        req.display().skip(req.method@.len() as int + 1) == req.path@,
{
    reveal_strlit(" ");
    let d = req.display();
    let m = req.method@.len() as int;
    assert(d.take(m) =~= req.method@);
    assert(d.skip(m + 1) =~= req.path@);
}

/// A request is logged as `Request: `, the request's method, a space and its
/// path, then `, Response: ` and the response, or `Empty` while there is none.
pub proof fn law_context_display_names_request_and_response(c: ServerContext)
    ensures
        c.display().take(9) == "Request: "@,
        c.display().subrange(9, 9 + c.request.method@.len() as int) == c.request.method@,
        c.display()[9 + c.request.method@.len() as int] == ' ',
        c.response is None ==> c.display() == "Request: "@ + c.request.method@ + " "@
            + c.request.path@ + ", Response: Empty"@,
        c.response matches Some(resp) ==> c.display() == "Request: "@ + c.request.method@ + " "@
            + c.request.path@ + ", Response: "@ + resp.display(),
{
    reveal_strlit("Request: ");
    reveal_strlit(" ");
    reveal_strlit(", Response: ");
    reveal_strlit("Empty");
    reveal_strlit(", Response: Empty");
    let d = c.display();
    let m = c.request.method@.len() as int;
    assert(d.take(9) =~= "Request: "@);
    assert(d.subrange(9, 9 + m) =~= c.request.method@);
    assert(", Response: "@ + "Empty"@ =~= ", Response: Empty"@);
    if c.response is None {
        assert(d =~= "Request: "@ + c.request.method@ + " "@ + c.request.path@ + ", Response: Empty"@);
    } else {
        assert(d =~= "Request: "@ + c.request.method@ + " "@ + c.request.path@ + ", Response: "@
            + c.response.unwrap().display());
    }
}

impl ServerHttpRequest {
    /// The request as text for a log line.
    pub open spec fn display(self) -> Seq<char> {
        self.method@ + " "@ + self.path@
    }

    /// A request with no method, no path and no headers.
    pub fn empty() -> (r: Self)
        ensures
            r.method@ == Seq::<char>::empty(),
            r.path@ == Seq::<char>::empty(),
            r.headers@ == Map::<Seq<char>, String>::empty(),
    {
        ServerHttpRequest { method: String::new(), path: String::new(), headers: StringHashMap::new() }
    }

    /// The request as text for a log line: `<method> <path>`.
    pub fn display_text(&self) -> (r: String)
        ensures
            r@ == self.display(),
    {
        let mut out = self.method.clone();
        out.append(" ");
        out.append(self.path.as_str());
        out
    }
}

impl ServerContext {
    /// Whether the response, if any, can be written out.
    pub open spec fn response_is_sendable(self) -> bool {
        match self.response {
            Some(r) => reason_phrase(r.code) is Some,
            None => true,
        }
    }

    /// The state as text for a log line.
    pub open spec fn display(self) -> Seq<char> {
        "Request: "@ + self.request.display() + ", Response: "@ + match self.response {
            Some(r) => r.display(),
            None => "Empty"@,
        }
    }

    /// Answers the request with `content` as a `200` `text/plain` response.
    pub fn set_response(&mut self, content: &'static str)
        ensures
            final(self).raw_message == old(self).raw_message,
            final(self).request == old(self).request,
            final(self).user == old(self).user,
            final(self).response matches Some(r) && {
                &&& r.code == 200
                &&& r.content matches ServerHttpResponseContent::Text(t) && t@ == content@
                &&& r.content_length == (content.spec_bytes().len() as usize) as i32
                &&& r.content_type@ == "text/plain"@
                &&& r.headers@ == Map::<Seq<char>, String>::empty()
            },
    {
        self.response = Some(
            ServerHttpResponse {
                code: 200,
                content_length: content.len() as i32,
                content: ServerHttpResponseContent::Text(content.to_owned()),
                content_type: "text/plain".to_owned(),
                headers: StringHashMap::new(),
            },
        );
    }

    /// The state as text for a log line:
    /// `Request: <method> <path>, Response: <response or Empty>`.
    pub fn display_text(&self) -> (r: String)
        requires
            self.response_is_sendable(),
        ensures
            r@ == self.display(),
    {
        let mut out = "Request: ".to_owned();
        out.append(self.request.display_text().as_str());
        out.append(", Response: ");
        match &self.response {
            Some(response) => {
                out.append(response.display_text().as_str());
            },
            None => {
                out.append("Empty");
            },
        }
        out
    }
}

} // verus!
