//! Handling of browser requests.
use vstd::prelude::*;

use crate::message::{ErrorKind, Request, Response};
use crate::topics::{get_text_topics, strings_view, text_topics};

verus! {

/// Milliseconds to wait before answering a request, from a clock reading in
/// nanoseconds: between 500 and 1775, in steps of 5.
pub fn sleep_millis(nanos: u128) -> (millis: u64)
    ensures
        millis == (nanos % 256) * 5 + 500,
        500 <= millis <= 1775,
        millis % 5 == 0,
{
    let number = (nanos % 256) as u64;
    number * 5 + 500
}

/// Process a [`Request`] and transform it into a [`Response`].
///
/// Returns `Err(Response::Error { .. })` for any error case, including invalid user
/// input.
pub fn process_request(request: Request) -> (result: Result<Response, Response>)
    ensures
        match request {
            Request::Ping { req_id } => result == Ok::<Response, Response>(Response::Pong { req_id }),
            Request::GetTextTopics { req_id, url, text } => if url@.len() == 0 {
                result == Err::<Response, Response>(
                    Response::Error { req_id: Some(req_id), error: ErrorKind::ClientProcess },
                )
            } else {
                result matches Ok(Response::ReturnTextTopics { req_id: id, topics }) && id == req_id
                    && strings_view(topics@) == text_topics(url@, text@)
            },
        },
{
    match request {
        Request::Ping { req_id } => Ok(Response::Pong { req_id }),
        Request::GetTextTopics { req_id, url, text } => {
            match get_text_topics(url.as_str(), text.as_str()) {
                Ok(topics) => Ok(Response::ReturnTextTopics { req_id, topics }),
                Err(error) => Err(Response::Error { req_id: Some(req_id), error }),
            }
        },
    }
}

/// The response sent for a request: the processed response, or the error response
/// when processing failed. It always answers the request's ID.
pub fn answer_request(request: Request) -> (response: Response)
    ensures
        response.spec_req_id() == Some(request.spec_req_id()),
        match request {
            Request::Ping { req_id } => response == Response::Pong { req_id },
            Request::GetTextTopics { req_id, url, text } => if url@.len() == 0 {
                response == Response::Error { req_id: Some(req_id), error: ErrorKind::ClientProcess }
            } else {
                response matches Response::ReturnTextTopics { req_id: id, topics } && id == req_id
                    && strings_view(topics@) == text_topics(url@, text@)
            },
        },
{
    match process_request(request) {
        Ok(response) => response,
        Err(response) => response,
    }
}

} // verus!
