//! Responses and their wire format.

use crate::text::{decimal, to_decimal};
use vstd::prelude::*;
use vstd::utf8::encode_utf8;

verus! {

/// The status codes that the server answers with.
#[derive(Debug, Clone, Copy, PartialEq, Eq, Structural)]
pub enum Status {
    Success,
    NotFound,
}

/// A header field of a response.
#[derive(Debug, PartialEq, Eq)]
pub struct Header {
    pub name: String,
    pub value: String,
}

/// A response: status, header fields in the order they are sent, and body.
#[derive(Debug, PartialEq, Eq)]
pub struct Response {
    pub status: Status,
    pub headers: Vec<Header>,
    pub body: Vec<u8>,
}

/// The mathematical value of a [`Header`].
pub struct HeaderView {
    pub name: Seq<char>,
    pub value: Seq<char>,
}

/// The mathematical value of a [`Response`].
pub struct ResponseView {
    pub status: Status,
    pub headers: Seq<HeaderView>,
    pub body: Seq<u8>,
}

impl View for Header {
    type V = HeaderView;

    open spec fn view(&self) -> HeaderView {
        HeaderView { name: self.name@, value: self.value@ }
    }
}

impl View for Response {
    type V = ResponseView;

    open spec fn view(&self) -> ResponseView {
        ResponseView {
            status: self.status,
            headers: self.headers@.map_values(|h: Header| h@),
            body: self.body@,
        }
    }
}

/// The status line of a status, without its line terminator.
pub open spec fn status_line(status: Status) -> Seq<char> {
    match status {
        Status::Success => "HTTP/1.1 200 OK"@,
        Status::NotFound => "HTTP/1.1 404 Not Found"@,
    }
}

/// A header field as it is written on a line of its own.
pub open spec fn header_line(header: HeaderView) -> Seq<char> {
    header.name + ": "@ + header.value
}

/// The lines of the header fields, each with its line terminator.
pub open spec fn header_lines(headers: Seq<HeaderView>) -> Seq<char> {
    headers.map_values(|h: HeaderView| header_line(h) + "\r\n"@).flatten()
}

/// The text before the body: the status line, the header lines and a blank
/// line.
pub open spec fn head(response: ResponseView) -> Seq<char> {
    status_line(response.status) + "\r\n"@ + header_lines(response.headers) + "\r\n"@
}

/// The bytes of a response as they are sent: the head in UTF-8, then the
/// body as it is.
pub open spec fn wire(response: ResponseView) -> Seq<u8> {
    encode_utf8(head(response)) + response.body
}

/// A response without header fields and with an empty body.
pub open spec fn bare(status: Status) -> ResponseView {
    ResponseView { status, headers: Seq::empty(), body: Seq::empty() }
}

/// The `200 OK` response that carries `body` as plain text: its type and its
/// length in bytes are announced, in that order.
pub open spec fn plain_text(body: Seq<u8>) -> ResponseView {
    ResponseView {
        status: Status::Success,
        headers: seq![
            HeaderView { name: "Content-Type"@, value: "text/plain"@ },
            HeaderView { name: "Content-Length"@, value: decimal(body.len()) },
        ],
        body,
    }
}

/// Whether every `Content-Length` field of the response gives the length of
/// its body in bytes.
pub open spec fn length_announced(response: ResponseView) -> bool {
    forall|i: int|
        0 <= i < response.headers.len() && (#[trigger] response.headers[i]).name
            == "Content-Length"@ ==> response.headers[i].value == decimal(response.body.len())
}

/// A plain-text response announces the length of its body.
pub proof fn lemma_plain_text_length(body: Seq<u8>)
    ensures
        length_announced(plain_text(body)),
{
    reveal_strlit("Content-Type");
    reveal_strlit("Content-Length");
    assert("Content-Type"@.len() != "Content-Length"@.len());
}

/// A response without header fields has no length to announce.
pub proof fn lemma_bare_length(status: Status)
    ensures
        length_announced(bare(status)),
{
}

impl Status {
    /// The status line, without its line terminator.
    pub fn line(&self) -> (line: &'static str)
        ensures
            line@ == status_line(*self),
    {
        match self {
            Status::Success => "HTTP/1.1 200 OK",
            Status::NotFound => "HTTP/1.1 404 Not Found",
        }
    }
}

impl Response {
    /// A response without header fields and with an empty body.
    pub fn empty(status: Status) -> (response: Response)
        ensures
            response@ == bare(status),
    {
        let response = Response { status, headers: Vec::new(), body: Vec::new() };
        assert(response@.headers =~= Seq::empty());
        response
    }

    /// The `200 OK` response that carries `body` as plain text.
    pub fn text(body: Vec<u8>) -> (response: Response)
        ensures
            response@ == plain_text(body@),
            length_announced(response@),
    {
        let mut headers: Vec<Header> = Vec::new();
        headers.push(
            Header { name: "Content-Type".to_owned(), value: "text/plain".to_owned() },
        );
        headers.push(
            Header { name: "Content-Length".to_owned(), value: to_decimal(body.len()) },
        );
        let response = Response { status: Status::Success, headers, body };
        proof {
            assert(response@.headers =~= plain_text(body@).headers);
            lemma_plain_text_length(body@);
        }
        response
    }

    /// The length of the body in bytes.
    pub fn content_length(&self) -> (length: usize)
        ensures
            length == self@.body.len(),
    {
        self.body.len()
    }

    /// The bytes of the response as they are sent.
    pub fn as_bytes(self) -> (bytes: Vec<u8>)
        ensures
            bytes@ == wire(self@),
    {
        let mut text = String::new();
        text.append(self.status.line());
        text.append("\r\n");
        let ghost lines = self@.headers.map_values(|h: HeaderView| header_line(h) + "\r\n"@);
        let ghost start = text@;
        assert(lines.take(0) =~= Seq::<Seq<char>>::empty());
        for i in 0..self.headers.len()
            invariant
                lines == self@.headers.map_values(|h: HeaderView| header_line(h) + "\r\n"@),
                text@ == start + lines.take(i as int).flatten(),
        {
            proof {
                assert(lines.take(i + 1) =~= lines.take(i as int).push(lines[i as int]));
                lines.take(i as int).lemma_flatten_push(lines[i as int]);
            }
            let ghost before = text@;
            text.append(self.headers[i].name.as_str());
            text.append(": ");
            text.append(self.headers[i].value.as_str());
            text.append("\r\n");
            assert(text@ =~= before + lines[i as int]);
            assert(text@ =~= start + lines.take(i + 1).flatten());
        }
        assert(lines.take(self.headers.len() as int) =~= lines);
        text.append("\r\n");
        assert(text@ =~= head(self@));
        let mut bytes = text.as_str().as_bytes_vec();
        let mut body = self.body;
        bytes.append(&mut body);
        bytes
    }
}

} // verus!
