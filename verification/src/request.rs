//! The request parser: from the text of a request to its method, path
//! segments, header lines and body.

use crate::text::{
    join_all, keep_non_empty, lemma_split_by_first, non_empty, split, split_by, split_once,
    split_once_by, str_eq, trim, trimmed,
};
use std::string::FromUtf8Error;
use vstd::hash_map::StringHashMap;
use vstd::prelude::*;
use vstd::slice::slice_subrange;
use vstd::utf8::{decode_utf8, encode_utf8, valid_utf8};

verus! {

/// The request methods that the parser recognises.
#[derive(Debug, Clone, Copy, PartialEq, Eq, Structural)]
pub enum Method {
    Get,
}

/// The request target, cut into its route key and the parameters after it.
#[derive(Debug, PartialEq, Eq)]
pub struct Path {
    /// The first non-empty segment of the target, or the target itself where
    /// it has no such segment (`/` for the root).
    pub path: String,
    /// The non-empty segments after the first, in order.
    pub params: Vec<String>,
}

/// What the request line holds.
#[derive(Debug, PartialEq, Eq)]
pub struct RequestPart {
    pub method: Method,
    pub path: Path,
}

/// The mathematical value of a [`Path`].
pub struct PathView {
    pub path: Seq<char>,
    pub params: Seq<Seq<char>>,
}

/// The mathematical value of a [`RequestPart`].
pub struct RequestPartView {
    pub method: Method,
    pub path: PathView,
}

impl View for Path {
    type V = PathView;

    open spec fn view(&self) -> PathView {
        PathView { path: self.path@, params: self.params.deep_view() }
    }
}

impl View for RequestPart {
    type V = RequestPartView;

    open spec fn view(&self) -> RequestPartView {
        RequestPartView { method: self.method, path: self.path@ }
    }
}

/// The method that a token of the request line names, if it is recognised.
pub open spec fn parse_method(token: Seq<char>) -> Option<Method> {
    if token == "GET"@ {
        Some(Method::Get)
    } else {
        None
    }
}

/// The non-empty pieces of the trimmed target between its slashes.
pub open spec fn segments(target: Seq<char>) -> Seq<Seq<char>> {
    non_empty(split_by(trimmed(target), "/"@))
}

/// The path of a request target: the first segment is the route key and the
/// others are the parameters. A target without segments is its own route key.
pub open spec fn parse_target(target: Seq<char>) -> PathView {
    let segs = segments(target);
    if segs.len() > 0 {
        PathView { path: segs.first(), params: segs.drop_first() }
    } else {
        PathView { path: target, params: Seq::empty() }
    }
}

/// What a request line holds: exactly three fields separated by single
/// spaces, the first of them a recognised method, the second the target.
pub open spec fn parse_request_line(line: Seq<char>) -> Option<RequestPartView> {
    let fields = split_by(line, " "@);
    if fields.len() == 3 {
        match parse_method(fields[0]) {
            Some(method) => Some(RequestPartView { method, path: parse_target(fields[1]) }),
            None => None,
        }
    } else {
        None
    }
}

impl Method {
    /// Reads a method name. Only `GET` is recognised.
    pub fn from_static(str: &str) -> (method: Option<Method>)
        ensures
            method == parse_method(str@),
    {
        if str_eq(str, "GET") {
            Some(Method::Get)
        } else {
            None
        }
    }
}

impl Path {
    /// Cuts a request target into route key and parameters.
    pub fn from_target(target: &str) -> (path: Path)
        ensures
            path@ == parse_target(target@),
    {
        let trimmed = trim(target);
        let pieces = split(trimmed.as_str(), "/");
        let mut segs = keep_non_empty(&pieces);
        if segs.len() > 0 {
            let first = segs.remove(0);
            assert(segs.deep_view() =~= segments(target@).drop_first());
            Path { path: first, params: segs }
        } else {
            let params: Vec<String> = Vec::new();
            assert(params.deep_view() =~= Seq::<Seq<char>>::empty());
            Path { path: target.to_owned(), params }
        }
    }
}

impl RequestPart {
    /// Reads a request line.
    pub fn from_static(str: &str) -> (part: Option<RequestPart>)
        ensures
            match part {
                Some(p) => parse_request_line(str@) == Some(p@),
                None => parse_request_line(str@) is None,
            },
    {
        let fields = split(str, " ");
        if fields.len() != 3 {
            return None;
        }
        let path = Path::from_target(fields[1].as_str());
        match Method::from_static(fields[0].as_str()) {
            Some(method) => Some(RequestPart { method, path }),
            None => None,
        }
    }
}

/// A parsed request.
#[derive(Debug, PartialEq, Eq)]
pub struct Request {
    pub method: Method,
    pub path: Path,
    /// The lines between the request line and the first blank line, as
    /// received.
    pub header: Vec<String>,
    /// The lines after the first blank line, joined with nothing in between:
    /// line terminators inside a body are lost.
    pub body: Vec<u8>,
}

/// The mathematical value of a [`Request`].
pub struct RequestView {
    pub method: Method,
    pub path: PathView,
    pub header: Seq<Seq<char>>,
    pub body: Seq<u8>,
}

impl View for Request {
    type V = RequestView;

    open spec fn view(&self) -> RequestView {
        RequestView {
            method: self.method,
            path: self.path@,
            header: self.header.deep_view(),
            body: self.body@,
        }
    }
}

/// The number of lines before the first empty one: all of them where none is
/// empty.
pub open spec fn first_blank(lines: Seq<Seq<char>>) -> int
    decreases lines.len(),
{
    if lines.len() == 0 || lines.first().len() == 0 {
        0
    } else {
        1 + first_blank(lines.drop_first())
    }
}

/// The lines before the first empty one.
pub open spec fn header_block(lines: Seq<Seq<char>>) -> Seq<Seq<char>> {
    lines.take(first_blank(lines))
}

/// The lines after the first empty one.
pub open spec fn body_block(lines: Seq<Seq<char>>) -> Seq<Seq<char>> {
    if first_blank(lines) < lines.len() {
        lines.skip(first_blank(lines) + 1)
    } else {
        Seq::empty()
    }
}

/// The request that a text holds. The text is cut into lines at every
/// `\r\n`; the first line is the request line, the lines up to the first
/// empty one are the header lines, and the lines after it, joined with
/// nothing in between, are the body.
pub open spec fn parse_request(text: Seq<char>) -> Option<RequestView> {
    let lines = split_by(text, "\r\n"@);
    match parse_request_line(lines.first()) {
        Some(part) => Some(
            RequestView {
                method: part.method,
                path: part.path,
                header: header_block(lines.drop_first()),
                body: encode_utf8(body_block(lines.drop_first()).flatten()),
            },
        ),
        None => None,
    }
}

/// The header fields that a sequence of header lines defines. A line is cut
/// at its first colon into name and value, both trimmed; a line without a
/// colon defines nothing; a later line overrides an earlier one of the same
/// name.
pub open spec fn header_map(lines: Seq<Seq<char>>) -> Map<Seq<char>, Seq<char>>
    decreases lines.len(),
{
    if lines.len() == 0 {
        Map::empty()
    } else {
        let earlier = header_map(lines.drop_last());
        match split_once_by(lines.last(), ":"@) {
            Some((name, value)) => earlier.insert(trimmed(name), trimmed(value)),
            None => earlier,
        }
    }
}

/// The values of a header table as character sequences.
pub open spec fn field_values(fields: Map<Seq<char>, String>) -> Map<Seq<char>, Seq<char>> {
    fields.map_values(|value: String| value@)
}

/// `k` is the number of lines before the first empty one where the first `k`
/// lines are not empty and line `k`, if there is one, is.
pub proof fn lemma_first_blank(lines: Seq<Seq<char>>, k: int)
    requires
        0 <= k <= lines.len(),
        forall|j: int| 0 <= j < k ==> lines[j].len() > 0,
        k < lines.len() ==> lines[k].len() == 0,
    ensures
        first_blank(lines) == k,
    decreases k,
{
    if k > 0 {
        lemma_first_blank(lines.drop_first(), k - 1);
    }
}

impl Request {
    /// The header fields of the request, by name.
    pub fn headers(&self) -> (fields: StringHashMap<String>)
        ensures
            field_values(fields@) == header_map(self.header.deep_view()),
    {
        let mut fields: StringHashMap<String> = StringHashMap::new();
        let ghost lines = self.header.deep_view();
        assert(field_values(fields@) =~= header_map(lines.take(0)));
        for i in 0..self.header.len()
            invariant
                lines == self.header.deep_view(),
                field_values(fields@) == header_map(lines.take(i as int)),
        {
            let ghost before = fields@;
            assert(lines.take(i + 1).drop_last() =~= lines.take(i as int));
            match split_once(self.header[i].as_str(), ":") {
                Some((name, value)) => {
                    let name = trim(name.as_str());
                    let value = trim(value.as_str());
                    fields.insert(name, value);
                    assert(field_values(fields@) =~= field_values(before).insert(name@, value@));
                },
                None => {},
            }
        }
        assert(lines.take(self.header.len() as int) =~= lines);
        fields
    }
}

/// Parses the text of a request. Without a text there is no request; nor is
/// there one where the request line does not hold exactly three fields, or
/// names a method other than `GET`.
pub fn parse_req(str: Option<String>) -> (request: Option<Request>)
    ensures
        match request {
            Some(r) => str is Some && parse_request(str->0@) == Some(r@),
            None => str is None || parse_request(str->0@) is None,
        },
{
    let text = match str {
        Some(text) => text,
        None => {
            return None;
        },
    };
    let lines = split(text.as_str(), "\r\n");
    proof {
        lemma_split_by_first(text@, "\r\n"@);
    }
    let part = match RequestPart::from_static(lines[0].as_str()) {
        Some(part) => part,
        None => {
            return None;
        },
    };
    let ghost rest = lines.deep_view().drop_first();
    let mut header: Vec<String> = Vec::new();
    let mut i: usize = 1;
    assert(header.deep_view() =~= rest.take(0));
    while i < lines.len() && !lines[i].as_str().is_empty()
        invariant
            1 <= i <= lines.len(),
            rest == lines.deep_view().drop_first(),
            header.deep_view() == rest.take(i - 1),
            forall|j: int| 0 <= j < i - 1 ==> rest[j].len() > 0,
        decreases lines.len() - i,
    {
        let ghost before = header.deep_view();
        header.push(lines[i].clone());
        assert(header.deep_view() =~= before.push(rest[i - 1]));
        assert(rest.take(i as int) =~= rest.take(i - 1).push(rest[i - 1]));
        i += 1;
    }
    proof {
        lemma_first_blank(rest, i - 1);
    }
    let after = if i < lines.len() {
        slice_subrange(lines.as_slice(), i + 1, lines.len())
    } else {
        slice_subrange(lines.as_slice(), i, lines.len())
    };
    assert(after.deep_view() =~= body_block(rest));
    let body = join_all(after).as_str().as_bytes_vec();
    Some(Request { method: part.method, path: part.path, header, body })
}

/// The error of `String::from_utf8`, carried through as it is.
#[verifier::external_type_specification]
#[verifier::external_body]
pub struct ExFromUtf8Error(std::string::FromUtf8Error);

/// Trusted: `String::from_utf8` succeeds exactly on the byte vectors that are
/// well-formed UTF-8, and the string it then returns is made of the bytes it
/// was given. Nothing is said of the error.
pub assume_specification[ String::from_utf8 ](vec: Vec<u8>) -> (r: Result<String, FromUtf8Error>)
    ensures
        r is Ok <==> valid_utf8(vec@),
        r matches Ok(s) ==> encode_utf8(s@) == vec@,
;

/// Decodes the bytes of a request as UTF-8.
pub fn bytes_to_str(vec: Vec<u8>) -> (r: Result<String, FromUtf8Error>)
    ensures
        r is Ok <==> valid_utf8(vec@),
        r matches Ok(s) ==> s@ == decode_utf8(vec@) && encode_utf8(s@) == vec@,
{
    let r = String::from_utf8(vec);
    proof {
        if r is Ok {
            vstd::utf8::encode_utf8_decode_utf8(r->Ok_0@);
        }
    }
    r
}

} // verus!
