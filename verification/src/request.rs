//! Requests and responses as handlers see them.

use vstd::prelude::*;
use vstd::utf8::encode_utf8;
use crate::fields::{law_upsert_distinct, names_distinct, upsert, FieldMap, Fields};
use crate::json::{json_member, json_member_text, json_string, json_string_text};
use crate::text::{
    after_first,
    after_last,
    before_first,
    from_first,
    from_last,
    has_char,
    same_text,
    split,
    split_at_char,
    to_chars,
    to_text,
    until_first,
};

verus! {

/// HTTP request method.
#[derive(Debug, Clone, Copy, PartialEq, Eq, Structural)]
pub enum ReqMethod {
    Get,
    Patch,
    Post,
    Put,
    Delete,
    Options,
    Head,
    Trace,
    Connect,
}

/// The method that the upper-case name `name` stands for.
pub open spec fn method_named(name: Seq<char>) -> Option<ReqMethod> {
    if name == "GET"@ {
        Some(ReqMethod::Get)
    } else if name == "PATCH"@ {
        Some(ReqMethod::Patch)
    } else if name == "POST"@ {
        Some(ReqMethod::Post)
    } else if name == "PUT"@ {
        Some(ReqMethod::Put)
    } else if name == "DELETE"@ {
        Some(ReqMethod::Delete)
    } else if name == "OPTIONS"@ {
        Some(ReqMethod::Options)
    } else if name == "HEAD"@ {
        Some(ReqMethod::Head)
    } else if name == "TRACE"@ {
        Some(ReqMethod::Trace)
    } else if name == "CONNECT"@ {
        Some(ReqMethod::Connect)
    } else {
        None
    }
}

/// The upper-case name of `method`.
pub open spec fn name_of(method: ReqMethod) -> Seq<char> {
    match method {
        ReqMethod::Get => "GET"@,
        ReqMethod::Patch => "PATCH"@,
        ReqMethod::Post => "POST"@,
        ReqMethod::Put => "PUT"@,
        ReqMethod::Delete => "DELETE"@,
        ReqMethod::Options => "OPTIONS"@,
        ReqMethod::Head => "HEAD"@,
        ReqMethod::Trace => "TRACE"@,
        ReqMethod::Connect => "CONNECT"@,
    }
}

impl ReqMethod {
    /// The method named `string`, where it names one.
    pub fn parse(string: &str) -> (out: Option<ReqMethod>)
        ensures
            out == method_named(string@),
    {
        if same_text(string, "GET") {
            Some(ReqMethod::Get)
        } else if same_text(string, "PATCH") {
            Some(ReqMethod::Patch)
        } else if same_text(string, "POST") {
            Some(ReqMethod::Post)
        } else if same_text(string, "PUT") {
            Some(ReqMethod::Put)
        } else if same_text(string, "DELETE") {
            Some(ReqMethod::Delete)
        } else if same_text(string, "OPTIONS") {
            Some(ReqMethod::Options)
        } else if same_text(string, "HEAD") {
            Some(ReqMethod::Head)
        } else if same_text(string, "TRACE") {
            Some(ReqMethod::Trace)
        } else if same_text(string, "CONNECT") {
            Some(ReqMethod::Connect)
        } else {
            None
        }
    }

    /// The method named `string`, which must name one.
    pub fn from(string: &str) -> (out: ReqMethod)
        requires
            method_named(string@) is Some,
        ensures
            method_named(string@) == Some(out),
    {
        match ReqMethod::parse(string) {
            Some(method) => method,
            None => vstd::pervasive::unreached(),
        }
    }

    /// The upper-case name of the method.
    pub fn as_str(&self) -> (out: &'static str)
        ensures
            out@ == name_of(*self),
    {
        match self {
            ReqMethod::Get => "GET",
            ReqMethod::Patch => "PATCH",
            ReqMethod::Post => "POST",
            ReqMethod::Put => "PUT",
            ReqMethod::Delete => "DELETE",
            ReqMethod::Options => "OPTIONS",
            ReqMethod::Head => "HEAD",
            ReqMethod::Trace => "TRACE",
            ReqMethod::Connect => "CONNECT",
        }
    }
}

/// Whether `method` is one of `allowed`.
pub fn check_method(allowed: &Vec<ReqMethod>, method: ReqMethod) -> (accepted: bool)
    ensures
        accepted == allowed@.contains(method),
{
    let mut i: usize = 0;
    while i < allowed.len()
        invariant
            i <= allowed.len(),
            forall|j: int| 0 <= j < i ==> allowed@[j] != method,
        decreases allowed.len() - i,
    {
        if allowed[i] == method {
            return true;
        }
        i += 1;
    }
    false
}

/// An HTTP response.
#[derive(Debug, Clone, PartialEq, Eq)]
pub struct Response {
    pub code: u16,
    pub headers: Option<Vec<u8>>,
    pub body: Option<Vec<u8>>,
}

/// The mathematical value of a [`Response`].
pub struct ResponseView {
    pub code: u16,
    pub headers: Option<Seq<u8>>,
    pub body: Option<Seq<u8>>,
}

impl View for Response {
    type V = ResponseView;

    open spec fn view(&self) -> ResponseView {
        ResponseView {
            code: self.code,
            headers: match self.headers {
                Some(h) => Some(h@),
                None => None,
            },
            body: match self.body {
                Some(b) => Some(b@),
                None => None,
            },
        }
    }
}

/// The bytes of an optional text.
pub open spec fn bytes_of(text: Option<Seq<char>>) -> Option<Seq<u8>> {
    match text {
        Some(t) => Some(encode_utf8(t)),
        None => None,
    }
}

/// A response with a JSON body of the text `text`.
pub open spec fn json_response(code: u16, text: Seq<char>) -> ResponseView {
    ResponseView {
        code,
        headers: Some(encode_utf8("Content-Type=application/json"@)),
        body: Some(encode_utf8(text)),
    }
}

/// The response to a path that no route accepts.
pub open spec fn not_found_response() -> ResponseView {
    json_response(404, json_member_text("message"@, "Not found"@))
}

/// The response to a method that a handler does not allow.
pub open spec fn rejected_response() -> ResponseView {
    json_response(400, json_member_text("message"@, "Method not allowed"@))
}

/// The response to an `OPTIONS` request that a handler does not list.
pub open spec fn preflight_response() -> ResponseView {
    json_response(200, json_string_text(""@))
}

impl Response {
    /// A response with the given code, headers and body.
    pub fn from_string(code: u16, headers: Option<&str>, body: Option<&str>) -> (out: Response)
        ensures
            out@ == (ResponseView {
                code,
                headers: bytes_of(
                    match headers {
                        Some(h) => Some(h@),
                        None => None,
                    },
                ),
                body: bytes_of(
                    match body {
                        Some(b) => Some(b@),
                        None => None,
                    },
                ),
            }),
    {
        Response {
            code,
            headers: match headers {
                Some(h) => Some(h.as_bytes_vec()),
                None => None,
            },
            body: match body {
                Some(b) => Some(b.as_bytes_vec()),
                None => None,
            },
        }
    }

    /// A response whose body is the JSON text `text`.
    pub fn json(code: u16, text: &str) -> (out: Response)
        ensures
            out@ == json_response(code, text@),
    {
        Response::from_string(code, Some("Content-Type=application/json"), Some(text))
    }

    /// The response to a path that no route accepts.
    pub fn not_found() -> (out: Response)
        ensures
            out@ == not_found_response(),
    {
        let text = json_member("message", "Not found");
        Response::json(404, text.as_str())
    }
}

/// The name of the query parameter `param`: what stands before its first `=`.
pub open spec fn param_key(param: Seq<char>) -> Seq<char> {
    before_first(param, '=')
}

/// The value of the query parameter `param`: what stands between its first
/// `=` and the next one.
pub open spec fn param_value(param: Seq<char>) -> Seq<char> {
    before_first(after_first(param, '='), '=')
}

/// The fields that the parameters `params` bind, a later one replacing an
/// earlier one of the same name; a parameter without `=` binds nothing.
pub open spec fn params_of(params: Seq<Seq<char>>) -> Fields
    decreases params.len(),
{
    if params.len() == 0 {
        Seq::empty()
    } else {
        let before = params_of(params.drop_last());
        let param = params.last();
        if param.contains('=') {
            upsert(before, param_key(param), param_value(param))
        } else {
            before
        }
    }
}

/// The query parameters of the request path `path`: those of the text after
/// its last `?`, cut at every `&`; `None` where the path has no `?`.
pub open spec fn query_fields(path: Seq<char>) -> Option<Fields> {
    if path.contains('?') {
        Some(params_of(split(after_last(path, '?'), '&')))
    } else {
        None
    }
}

/// The query parameters bind no name twice.
pub proof fn law_params_distinct(params: Seq<Seq<char>>)
    ensures
        names_distinct(params_of(params)),
    decreases params.len(),
{
    if params.len() > 0 {
        law_params_distinct(params.drop_last());
        law_upsert_distinct(
            params_of(params.drop_last()),
            param_key(params.last()),
            param_value(params.last()),
        );
    }
}

/// An HTTP request.
#[derive(Debug, Clone, PartialEq, Eq)]
pub struct Request {
    pub method: ReqMethod,
    pub path: String,
    pub body: Option<String>,
    pub headers: Vec<String>,
    /// The values of the captures, where the path was matched by a pattern
    /// that has captures.
    pub dyn_fields: Option<FieldMap>,
}

impl Request {
    /// The query parameters of the request path, each name once.
    pub fn query_params(&self) -> (out: Option<FieldMap>)
        ensures
            match out {
                Some(fields) => query_fields(self.path@) == Some(fields@) && names_distinct(
                    fields@,
                ),
                None => query_fields(self.path@) is None,
            },
    {
        let path = to_chars(self.path.as_str());
        if !has_char(path.as_slice(), '?') {
            return None;
        }
        let query = from_last(path.as_slice(), '?');
        let params = split_at_char(query.as_slice(), '&');
        let ghost all = params@.map_values(|p: Vec<char>| p@);
        let mut fields = FieldMap::new();
        let mut i: usize = 0;
        while i < params.len()
            invariant
                i <= params.len(),
                all == params@.map_values(|p: Vec<char>| p@),
                fields@ == params_of(all.take(i as int)),
            decreases params.len() - i,
        {
            assert(all.take(i + 1).drop_last() =~= all.take(i as int));
            assert(all.take(i + 1).last() == params@[i as int]@);
            let param = params[i].as_slice();
            if has_char(param, '=') {
                let key = until_first(param, '=');
                let rest = from_first(param, '=');
                let value = until_first(rest.as_slice(), '=');
                fields.insert(to_text(key.as_slice()), to_text(value.as_slice()));
            }
            i += 1;
        }
        assert(all.take(params.len() as int) =~= all);
        proof {
            law_params_distinct(all);
        }
        Some(fields)
    }

    /// Accepts the request where its method is one of `methods`. Otherwise the
    /// error is the response to send: an empty success for `OPTIONS`, a
    /// rejection for any other method.
    pub fn allow_methods(&self, methods: Vec<ReqMethod>) -> (out: Result<(), Response>)
        ensures
            match out {
                Ok(_) => methods@.contains(self.method),
                Err(response) => !methods@.contains(self.method) && response@ == (if self.method
                    == ReqMethod::Options {
                    preflight_response()
                } else {
                    rejected_response()
                }),
            },
    {
        if check_method(&methods, self.method) {
            return Ok(());
        }
        if self.method == ReqMethod::Options {
            let text = json_string("");
            return Err(Response::json(200, text.as_str()));
        }
        let text = json_member("message", "Method not allowed");
        Err(Response::json(400, text.as_str()))
    }
}

/// The handler of the sample routes: it answers with the path it was asked for.
pub fn handler(req: Request) -> (out: Response)
    ensures
        out@ == (ResponseView {
            code: 200,
            headers: None,
            body: Some(encode_utf8("Hi from "@ + req.path@)),
        }),
{
    let text = String::from_str("Hi from ").concat(req.path.as_str());
    Response::from_string(200, None, Some(text.as_str()))
}

} // verus!
