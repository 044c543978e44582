//! Answering one request on a resolved route. The server runs the waits
//! and the file access; the decisions between them are made here.
use crate::request::copy_pairs;
use crate::router::{BodySource, Handler, INTERNAL_ERROR};
use vstd::prelude::*;

verus! {

/// What has happened so far to a request being answered.
#[derive(Debug, Clone, Copy, PartialEq, Eq)]
pub enum Event {
    /// The request has just been matched to its route.
    Arrived,
    /// The configured delay has passed.
    Slept,
    /// The body file was opened and can be streamed.
    FileOpened,
    /// The body file could not be opened.
    FileMissing,
}

/// The body of a reply.
#[derive(Debug, PartialEq, Eq)]
pub enum ReplyBody {
    Text(String),
    /// The bytes of the body file, streamed in chunks.
    FileStream,
    Empty,
}

/// What the server does next for the request.
#[derive(Debug, PartialEq, Eq)]
pub enum Action {
    /// Suspend this request, and no other, for this many milliseconds.
    Wait(u64),
    /// Open the file at this path for streaming.
    OpenFile(String),
    /// Send this reply; the request is then done.
    Reply { status: u16, headers: Vec<(String, String)>, body: ReplyBody },
}

/// The reply that carries the route's own status and headers.
pub open spec fn is_route_reply(h: Handler, a: Action, body: ReplyBody) -> bool {
    a matches Action::Reply { status, headers, body: b } && status == h.status && headers@
        == h.headers@ && b == body
}

/// The step that follows `e` for a request on the route of `h`: first the
/// delay, if any; then the text, or the opening of the file; then the file's
/// stream, or a server error without the route's headers when it could not
/// be opened.
pub open spec fn next_step(h: Handler, e: Event, a: Action) -> bool {
    match e {
        Event::Arrived if h.sleep > 0 => a == Action::Wait(h.sleep),
        Event::Arrived | Event::Slept => match h.body {
            BodySource::Raw(text) => is_route_reply(h, a, ReplyBody::Text(text)),
            BodySource::File(path) => a == Action::OpenFile(path),
        },
        Event::FileOpened => is_route_reply(h, a, ReplyBody::FileStream),
        Event::FileMissing => a matches Action::Reply { status, headers, body } && status
            == INTERNAL_ERROR && headers@.len() == 0 && body == ReplyBody::Empty,
    }
}

/// The next step for a request on the route of `h`, once `e` has happened.
pub fn next_action(h: &Handler, e: Event) -> (r: Action)
    ensures
        next_step(*h, e, r),
{
    match e {
        Event::Arrived if h.sleep > 0 => Action::Wait(h.sleep),
        Event::Arrived | Event::Slept => match &h.body {
            BodySource::Raw(text) => Action::Reply {
                status: h.status,
                headers: copy_pairs(&h.headers),
                body: ReplyBody::Text(text.clone()),
            },
            BodySource::File(path) => Action::OpenFile(path.clone()),
        },
        Event::FileOpened => Action::Reply {
            status: h.status,
            headers: copy_pairs(&h.headers),
            body: ReplyBody::FileStream,
        },
        Event::FileMissing => Action::Reply {
            status: INTERNAL_ERROR,
            headers: Vec::new(),
            body: ReplyBody::Empty,
        },
    }
}

} // verus!
