//! What to do with a request: the step between dispatch and the code that
//! runs a handler or writes a response.

use vstd::prelude::*;
use vstd::utf8::encode_utf8;
use crate::dispatch::{dispatched, Outcome, OutcomeView, RouteTable};
use crate::fields::Fields;
use crate::request::{not_found_response, ReqMethod, Request, Response, ResponseView};
use crate::table::{RouteEntryView, Target, TargetView};
use crate::text::{
    after_first,
    before_first,
    from_first,
    has_char,
    matches_at,
    occurs_at,
    split,
    split_at_char,
    to_chars,
    to_text,
    until_first,
};
use crate::validity::has_capture;

verus! {

/// The mathematical value of a [`Request`].
pub struct RequestView {
    pub method: ReqMethod,
    pub path: Seq<char>,
    pub body: Option<Seq<char>>,
    pub headers: Seq<Seq<char>>,
    pub dyn_fields: Option<Fields>,
}

impl View for Request {
    type V = RequestView;

    open spec fn view(&self) -> RequestView {
        RequestView {
            method: self.method,
            path: self.path@,
            body: match self.body {
                Some(b) => Some(b@),
                None => None,
            },
            headers: self.headers@.map_values(|h: String| h@),
            dyn_fields: match self.dyn_fields {
                Some(f) => Some(f@),
                None => None,
            },
        }
    }
}

/// What the serving layer is to do with a request.
#[derive(Debug, Clone, PartialEq, Eq)]
pub enum Action {
    /// Run the handler of the module `module` on `request`.
    Invoke { module: String, request: Request },
    /// Send `response` without running any handler.
    Respond(Response),
}

/// The mathematical value of an [`Action`].
pub enum ActionView {
    Invoke { module: Seq<char>, request: RequestView },
    Respond(ResponseView),
}

impl View for Action {
    type V = ActionView;

    open spec fn view(&self) -> ActionView {
        match self {
            Action::Invoke { module, request } => ActionView::Invoke {
                module: module@,
                request: request@,
            },
            Action::Respond(response) => ActionView::Respond(response@),
        }
    }
}

/// The header line of a static asset: its content type where it has one.
pub open spec fn asset_headers(content_type: Option<Seq<char>>) -> Seq<u8> {
    match content_type {
        Some(t) => encode_utf8("Content-Type="@ + t),
        None => Seq::empty(),
    }
}

/// The fixed response of a static asset.
pub open spec fn asset_response(content_type: Option<Seq<char>>, body: Seq<u8>) -> ResponseView {
    ResponseView { code: 200, headers: Some(asset_headers(content_type)), body: Some(body) }
}

/// What is done with `request` under the table `es`: a path that no entry
/// accepts gets the not-found response, a static asset its fixed response,
/// and a handler is run on the request, which carries the captured fields
/// where the selected pattern has captures.
pub open spec fn planned(es: Seq<RouteEntryView>, request: RequestView) -> ActionView {
    match dispatched(es, request.path) {
        OutcomeView::NotFound => ActionView::Respond(not_found_response()),
        OutcomeView::Found { index, fields } => match es[index].target {
            TargetView::Handler { module } => ActionView::Invoke {
                module,
                request: RequestView {
                    dyn_fields: if has_capture(es[index].pattern) {
                        Some(fields)
                    } else {
                        request.dyn_fields
                    },
                    ..request
                },
            },
            TargetView::Asset { content_type, body } => ActionView::Respond(
                asset_response(content_type, body),
            ),
        },
    }
}

/// The fixed response of a static asset.
pub fn respond_with_asset(content_type: &Option<String>, body: &Vec<u8>) -> (out: Response)
    ensures
        out@ == asset_response(
            match content_type {
                Some(t) => Some(t@),
                None => None,
            },
            body@,
        ),
{
    let headers = match content_type {
        Some(t) => {
            let line = String::from_str("Content-Type=").concat(t.as_str());
            line.as_str().as_bytes_vec()
        },
        None => Vec::new(),
    };
    Response { code: 200, headers: Some(headers), body: Some(body.clone()) }
}

/// Decides what is done with `req`.
pub fn handle(table: &RouteTable, req: Request) -> (out: Action)
    ensures
        out@ == planned(table@, req@),
{
    let entries = table.entries();
    match table.dispatch(req.path.as_str()) {
        Outcome::NotFound => Action::Respond(Response::not_found()),
        Outcome::Found { index, fields } => {
            assert(table@[index as int] == entries@[index as int]@);
            let entry = &entries[index];
            match &entry.target {
                Target::Handler { module } => {
                    let mut request = req;
                    if entry.pattern.is_dynamic() {
                        request.dyn_fields = Some(fields);
                    }
                    Action::Invoke { module: module.clone(), request }
                },
                Target::Asset { content_type, body } => Action::Respond(
                    respond_with_asset(content_type, body),
                ),
            }
        },
    }
}

/// The header pairs that the header lines `lines` hold: one for each line
/// that has a `=`, which parts the name from the value.
pub open spec fn pairs_of(lines: Seq<Seq<char>>) -> Seq<(Seq<char>, Seq<char>)>
    decreases lines.len(),
{
    if lines.len() == 0 {
        Seq::empty()
    } else {
        let line = lines.last();
        if line.contains('=') {
            pairs_of(lines.drop_last()).push((before_first(line, '='), after_first(line, '=')))
        } else {
            pairs_of(lines.drop_last())
        }
    }
}

/// The header pairs of the header text `text`, one line for each header.
pub open spec fn header_pairs_of(text: Seq<char>) -> Seq<(Seq<char>, Seq<char>)> {
    pairs_of(split(text, '\n'))
}

/// Reads the headers of a response from its header text: each line of the
/// form `name=value` gives one header, any other line gives none.
pub fn header_pairs(text: &str) -> (out: Vec<(String, String)>)
    ensures
        out@.map_values(|p: (String, String)| (p.0@, p.1@)) == header_pairs_of(text@),
{
    let chars = to_chars(text);
    let lines = split_at_char(chars.as_slice(), '\n');
    let ghost all = lines@.map_values(|l: Vec<char>| l@);
    let mut out: Vec<(String, String)> = Vec::new();
    let mut i: usize = 0;
    assert(out@.map_values(|p: (String, String)| (p.0@, p.1@)) =~= pairs_of(all.take(0)));
    while i < lines.len()
        invariant
            i <= lines.len(),
            all == lines@.map_values(|l: Vec<char>| l@),
            out@.map_values(|p: (String, String)| (p.0@, p.1@)) == pairs_of(all.take(i as int)),
        decreases lines.len() - i,
    {
        assert(all.take(i + 1).drop_last() =~= all.take(i as int));
        assert(all.take(i + 1).last() == lines@[i as int]@);
        let line = lines[i].as_slice();
        if has_char(line, '=') {
            let name = to_text(until_first(line, '=').as_slice());
            let value = to_text(from_first(line, '=').as_slice());
            let ghost before = out@.map_values(|p: (String, String)| (p.0@, p.1@));
            out.push((name, value));
            assert(out@.map_values(|p: (String, String)| (p.0@, p.1@)) =~= before.push(
                (name@, value@),
            ));
        }
        i += 1;
    }
    assert(all.take(lines.len() as int) =~= all);
    out
}

/// The request path `path` belongs to the real-time service: it begins with
/// `/socket.io` or with `/ws`.
pub open spec fn realtime_path(path: Seq<char>) -> bool {
    occurs_at(path, "/socket.io"@, 0) || occurs_at(path, "/ws"@, 0)
}

/// Whether the request path `path` belongs to the real-time service.
pub fn is_realtime_path(path: &str) -> (yes: bool)
    ensures
        yes == realtime_path(path@),
{
    let chars = to_chars(path);
    matches_at(chars.as_slice(), to_chars("/socket.io").as_slice(), 0) || matches_at(
        chars.as_slice(),
        to_chars("/ws").as_slice(),
        0,
    )
}

} // verus!
