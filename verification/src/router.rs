//! The router: from a parsed request to its response, and the whole way from
//! the bytes of a request to the response.

use crate::request::{bytes_to_str, header_map, parse_req, parse_request, Request, RequestView};
use crate::response::{
    bare, lemma_bare_length, lemma_plain_text_length, length_announced, plain_text, Response,
    ResponseView, Status,
};
use crate::text::{join_all, str_eq};
use vstd::prelude::*;
use vstd::utf8::{decode_utf8, encode_utf8, valid_utf8};

verus! {

/// The response to a request, chosen by the route key.
///
/// - `/` is answered with an empty plain-text `200 OK`.
/// - `echo` is answered with the parameters, joined with nothing in between.
/// - `user-agent` is answered with the value of the header field named
///   exactly `User-Agent`, or with `404 Not Found` where there is none.
/// - Every other route key is answered with `404 Not Found`.
pub open spec fn respond(request: RequestView) -> ResponseView {
    let key = request.path.path;
    if key == "/"@ {
        plain_text(Seq::empty())
    } else if key == "echo"@ {
        plain_text(encode_utf8(request.path.params.flatten()))
    } else if key == "user-agent"@ {
        let fields = header_map(request.header);
        if fields.contains_key("User-Agent"@) {
            plain_text(encode_utf8(fields["User-Agent"@]))
        } else {
            bare(Status::NotFound)
        }
    } else {
        bare(Status::NotFound)
    }
}

/// What the bytes of a request are answered with: nothing where they are not
/// valid UTF-8 or hold no request, else the response of the router.
pub open spec fn process(bytes: Seq<u8>) -> Option<ResponseView> {
    if valid_utf8(bytes) {
        match parse_request(decode_utf8(bytes)) {
            Some(request) => Some(respond(request)),
            None => None,
        }
    } else {
        None
    }
}

/// Whatever the request, the response of the router announces no other
/// length than that of its body in bytes.
pub proof fn lemma_respond_announces_length(request: RequestView)
    ensures
        length_announced(respond(request)),
{
    lemma_bare_length(Status::NotFound);
    lemma_plain_text_length(respond(request).body);
}

/// Answers a parsed request.
pub fn route(request: &Request) -> (response: Response)
    ensures
        response@ == respond(request@),
        length_announced(response@),
{
    proof {
        lemma_respond_announces_length(request@);
    }
    let key = request.path.path.as_str();
    if str_eq(key, "/") {
        Response::text(Vec::new())
    } else if str_eq(key, "echo") {
        let body = join_all(request.path.params.as_slice());
        Response::text(body.as_str().as_bytes_vec())
    } else if str_eq(key, "user-agent") {
        let fields = request.headers();
        match fields.get("User-Agent") {
            Some(value) => Response::text(value.as_str().as_bytes_vec()),
            None => Response::empty(Status::NotFound),
        }
    } else {
        Response::empty(Status::NotFound)
    }
}

/// Answers the bytes of a request, if they hold one.
pub fn process_req(bytes: Vec<u8>) -> (response: Option<Response>)
    ensures
        match response {
            Some(r) => process(bytes@) == Some(r@),
            None => process(bytes@) is None,
        },
{
    let text = bytes_to_str(bytes).ok();
    match parse_req(text) {
        Some(request) => Some(route(&request)),
        None => None,
    }
}

} // verus!
