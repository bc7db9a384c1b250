//! What holds of the parser and the formatter on every input.

use crate::request::{
    body_block, header_block, header_map, lemma_first_blank, parse_request, parse_target,
    segments, Method, PathView, RequestView,
};
use crate::response::{
    head, header_line, header_lines, status_line, wire, HeaderView, Response, ResponseView,
};
use crate::text::{
    is_first_occurrence, is_whitespace, lemma_first_occurrence, lemma_pieces_lack_separator,
    lemma_separable_without, lemma_split_prefix, lemma_split_whole,
    lemma_trimmed_after_whitespace, lemma_trimmed_fixed, non_empty, occurs_at, separable,
    split_by, split_once_by, trimmed,
};
use vstd::prelude::*;
use vstd::utf8::encode_utf8;

verus! {

/// Whether `s` can stand as a segment of a request target: it is not empty
/// and holds neither a slash nor whitespace.
pub open spec fn is_segment(s: Seq<char>) -> bool {
    s.len() > 0 && forall|i: int| 0 <= i < s.len() ==> s[i] != '/' && !is_whitespace(#[trigger] s[i])
}

/// The request target made of the given segments, each behind a slash.
pub open spec fn target_of(segs: Seq<Seq<char>>) -> Seq<char> {
    segs.map_values(|s: Seq<char>| "/"@ + s).flatten()
}

/// The text of a `GET` request for the given segments, without header lines
/// or body.
pub open spec fn get_request(segs: Seq<Seq<char>>) -> Seq<char> {
    "GET "@ + target_of(segs) + " HTTP/1.1"@ + "\r\n\r\n"@
}

/// A target begins with the slash and the first segment, and what follows is
/// the target of the other segments.
proof fn lemma_target_front(segs: Seq<Seq<char>>)
    requires
        segs.len() > 0,
    ensures
        target_of(segs) == "/"@ + segs.first() + target_of(segs.drop_first()),
{
    let f = |s: Seq<char>| "/"@ + s;
    assert(segs.map_values(f).drop_first() =~= segs.drop_first().map_values(f));
}

/// A target ends with a slash and the last segment, and what comes before is
/// the target of the other segments.
proof fn lemma_target_back(segs: Seq<Seq<char>>)
    requires
        segs.len() > 0,
    ensures
        target_of(segs) == target_of(segs.drop_last()) + ("/"@ + segs.last()),
{
    let f = |s: Seq<char>| "/"@ + s;
    assert(segs.map_values(f) =~= segs.drop_last().map_values(f).push(f(segs.last())));
    segs.drop_last().map_values(f).lemma_flatten_push(f(segs.last()));
}

/// Every character of a target is a slash or a character of a segment.
proof fn lemma_target_chars(segs: Seq<Seq<char>>)
    requires
        forall|i: int| 0 <= i < segs.len() ==> is_segment(#[trigger] segs[i]),
    ensures
        forall|k: int|
            0 <= k < target_of(segs).len() ==> (#[trigger] target_of(segs)[k]) == '/'
                || !is_whitespace(target_of(segs)[k]),
    decreases segs.len(),
{
    reveal_strlit("/");
    if segs.len() > 0 {
        lemma_target_back(segs);
        lemma_target_chars(segs.drop_last());
        let front = target_of(segs.drop_last());
        let last = segs.last();
        assert(is_segment(last));
        assert forall|k: int| 0 <= k < target_of(segs).len() implies (#[trigger] target_of(
            segs,
        )[k]) == '/' || !is_whitespace(target_of(segs)[k]) by {
            if k < front.len() {
                assert(target_of(segs)[k] == front[k]);
            } else if k == front.len() {
                assert(target_of(segs)[k] == '/');
            } else {
                assert(target_of(segs)[k] == last[k - front.len() - 1]);
            }
        }
    }
}

/// A target of at least one segment stays as it is when trimmed.
proof fn lemma_target_trimmed(segs: Seq<Seq<char>>)
    requires
        segs.len() > 0,
        forall|i: int| 0 <= i < segs.len() ==> is_segment(#[trigger] segs[i]),
    ensures
        trimmed(target_of(segs)) == target_of(segs),
{
    reveal_strlit("/");
    lemma_target_front(segs);
    lemma_target_back(segs);
    let target = target_of(segs);
    let last = segs.last();
    assert(is_segment(last));
    assert(target.first() == '/');
    assert(target.last() == last.last());
    lemma_trimmed_fixed(target);
}

/// Splitting a text without a slash, followed by a target, at the slashes
/// gives the text and then the segments.
proof fn lemma_split_segments(first: Seq<char>, segs: Seq<Seq<char>>)
    requires
        !first.contains('/'),
        forall|i: int| 0 <= i < segs.len() ==> is_segment(#[trigger] segs[i]),
    ensures
        split_by(first + target_of(segs), "/"@) == seq![first] + segs,
    decreases segs.len(),
{
    reveal_strlit("/");
    let sep = "/"@;
    lemma_separable_without(first, sep);
    if segs.len() == 0 {
        assert(first + target_of(segs) =~= first);
        lemma_split_whole(first, sep);
        assert(seq![first] + segs =~= seq![first]);
    } else {
        let head = segs.first();
        let rest = segs.drop_first();
        lemma_target_front(segs);
        assert(first + target_of(segs) =~= first + sep + (head + target_of(rest)));
        lemma_split_prefix(first, sep, head + target_of(rest));
        assert(is_segment(head));
        assert(!head.contains('/'));
        assert forall|i: int| 0 <= i < rest.len() implies is_segment(#[trigger] rest[i]) by {
            assert(rest[i] == segs[i + 1]);
        }
        lemma_split_segments(head, rest);
        assert(seq![first] + (seq![head] + rest) =~= seq![first] + segs);
    }
}

/// Where no piece is empty, none is dropped.
proof fn lemma_non_empty_all(parts: Seq<Seq<char>>)
    requires
        forall|i: int| 0 <= i < parts.len() ==> (#[trigger] parts[i]).len() > 0,
    ensures
        non_empty(parts) == parts,
    decreases parts.len(),
{
    let pred = |p: Seq<char>| p.len() > 0;
    reveal(Seq::filter);
    if parts.len() > 0 {
        lemma_non_empty_all(parts.drop_last());
        assert(parts.drop_last().push(parts.last()) =~= parts);
    }
}

/// The segments of a target are the segments it was made of.
proof fn lemma_segments_of_target(segs: Seq<Seq<char>>)
    requires
        segs.len() > 0,
        forall|i: int| 0 <= i < segs.len() ==> is_segment(#[trigger] segs[i]),
    ensures
        segments(target_of(segs)) == segs,
{
    let pred = |p: Seq<char>| p.len() > 0;
    let none = Seq::<char>::empty();
    let nothing = Seq::<Seq<char>>::empty();
    lemma_target_trimmed(segs);
    lemma_split_segments(none, segs);
    assert(none + target_of(segs) =~= target_of(segs));
    assert(seq![none] + segs =~= (nothing.push(none) + segs));
    Seq::filter_distributes_over_add(nothing.push(none), segs, pred);
    lemma_non_empty_all(segs);
    nothing.lemma_filter_push(none, pred);
    assert(nothing.filter(pred) =~= nothing) by {
        reveal(Seq::filter);
    }
    assert(nothing + segs =~= segs);
}

/// A line without a carriage return, followed by two line terminators, is
/// split into that line and two empty ones.
proof fn lemma_lines_of_bare_request(line: Seq<char>)
    requires
        !line.contains('\r'),
    ensures
        split_by(line + "\r\n\r\n"@, "\r\n"@) == seq![line, Seq::empty(), Seq::empty()],
{
    reveal_strlit("\r\n\r\n");
    reveal_strlit("\r\n");
    let crlf = "\r\n"@;
    let none = Seq::<char>::empty();
    assert(line + "\r\n\r\n"@ =~= line + crlf + (none + crlf + none));
    lemma_separable_without(line, crlf);
    lemma_split_prefix(line, crlf, none + crlf + none);
    lemma_separable_without(none, crlf);
    lemma_split_prefix(none, crlf, none);
    lemma_split_whole(none, crlf);
    assert(seq![line] + (seq![none] + seq![none]) =~= seq![line, none, none]);
}

/// A request line for a target without a space has three fields.
proof fn lemma_fields_of_request_line(target: Seq<char>)
    requires
        !target.contains(' '),
    ensures
        split_by("GET "@ + target + " HTTP/1.1"@, " "@) == seq!["GET"@, target, "HTTP/1.1"@],
{
    reveal_strlit("GET ");
    reveal_strlit("GET");
    reveal_strlit(" ");
    reveal_strlit("HTTP/1.1");
    reveal_strlit(" HTTP/1.1");
    let space = " "@;
    let version = "HTTP/1.1"@;
    assert("GET "@ + target + " HTTP/1.1"@ =~= "GET"@ + space + (target + space + version));
    lemma_separable_without("GET"@, space);
    lemma_split_prefix("GET"@, space, target + space + version);
    lemma_separable_without(target, space);
    lemma_split_prefix(target, space, version);
    lemma_separable_without(version, space);
    lemma_split_whole(version, space);
    assert(seq!["GET"@] + (seq![target] + seq![version]) =~= seq!["GET"@, target, version]);
}

/// Two empty lines after the request line leave neither header lines nor a
/// body.
proof fn lemma_no_message(rest: Seq<Seq<char>>)
    requires
        rest == seq![Seq::<char>::empty(), Seq::<char>::empty()],
    ensures
        header_block(rest) == Seq::<Seq<char>>::empty(),
        encode_utf8(body_block(rest).flatten()) == Seq::<u8>::empty(),
{
    let none = Seq::<char>::empty();
    lemma_first_blank(rest, 0);
    assert(header_block(rest) =~= Seq::<Seq<char>>::empty());
    assert(body_block(rest) =~= seq![none]);
    seq![none].lemma_flatten_one_element();
    assert(encode_utf8(none) =~= Seq::<u8>::empty());
}

/// A `GET` request for a path of one or more segments parses to those
/// segments: the first is the route key and the others are the parameters,
/// in their order. There are no header lines and the body is empty.
pub proof fn lemma_parse_get_request(segs: Seq<Seq<char>>)
    requires
        segs.len() > 0,
        forall|i: int| 0 <= i < segs.len() ==> is_segment(#[trigger] segs[i]),
    ensures
        parse_request(get_request(segs)) == Some(
            RequestView {
                method: Method::Get,
                path: PathView { path: segs.first(), params: segs.drop_first() },
                header: Seq::empty(),
                body: Seq::empty(),
            },
        ),
{
    let target = target_of(segs);
    let line = "GET "@ + target + " HTTP/1.1"@;
    lemma_target_chars(segs);
    assert(is_whitespace(' ') && is_whitespace('\r'));
    assert(!target.contains(' ')) by {
        if target.contains(' ') {
            let k = choose|k: int| 0 <= k < target.len() && target[k] == ' ';
            assert(target[k] == '/' || !is_whitespace(target[k]));
        }
    }
    assert(!line.contains('\r')) by {
        reveal_strlit("GET ");
        reveal_strlit(" HTTP/1.1");
        if line.contains('\r') {
            let k = choose|k: int| 0 <= k < line.len() && line[k] == '\r';
            if 4 <= k < 4 + target.len() {
                assert(line[k] == target[k - 4]);
            }
        }
    }
    lemma_lines_of_bare_request(line);
    lemma_fields_of_request_line(target);
    lemma_segments_of_target(segs);
    let lines = split_by(get_request(segs), "\r\n"@);
    assert(lines.drop_first() =~= seq![Seq::<char>::empty(), Seq::<char>::empty()]);
    lemma_no_message(lines.drop_first());
}

/// The route key and the parameters that a target is cut into never hold a
/// slash, and no parameter is empty: neither a trailing slash nor two slashes
/// in a row leave a trace. Where the target has a segment at all, the route
/// key is not empty either.
pub proof fn lemma_segments_are_clean(target: Seq<char>)
    ensures
        forall|i: int|
            0 <= i < segments(target).len() ==> (#[trigger] segments(target)[i]).len() > 0
                && !segments(target)[i].contains('/'),
        forall|i: int|
            0 <= i < parse_target(target).params.len() ==> (#[trigger] parse_target(
                target,
            ).params[i]).len() > 0 && !parse_target(target).params[i].contains('/'),
        segments(target).len() > 0 ==> parse_target(target).path.len() > 0 && !parse_target(
            target,
        ).path.contains('/'),
{
    reveal_strlit("/");
    let sep = "/"@;
    let pred = |p: Seq<char>| p.len() > 0;
    let pieces = split_by(trimmed(target), sep);
    let segs = segments(target);
    lemma_pieces_lack_separator(trimmed(target), sep);
    assert forall|i: int| 0 <= i < segs.len() implies (#[trigger] segs[i]).len() > 0
        && !segs[i].contains('/') by {
        pieces.lemma_filter_pred(pred, i);
        assert(segs.contains(segs[i]));
        pieces.lemma_filter_contains_rev(pred, segs[i]);
        let p = choose|p: int| 0 <= p < pieces.len() && pieces[p] == segs[i];
        if segs[i].contains('/') {
            let k = choose|k: int| 0 <= k < segs[i].len() && segs[i][k] == '/';
            assert(pieces[p].subrange(k, k + 1) =~= sep);
            assert(occurs_at(pieces[p], sep, k));
        }
    }
    assert forall|i: int| 0 <= i < parse_target(target).params.len() implies (
    #[trigger] parse_target(target).params[i]).len() > 0 && !parse_target(
        target,
    ).params[i].contains('/') by {
        assert(parse_target(target).params[i] == segs[i + 1]);
    }
    if segs.len() > 0 {
        assert(parse_target(target).path == segs[0]);
    }
}

/// A text holds a request exactly where its first line has three fields
/// between single spaces and the first of them is `GET`. Every other method,
/// and every other number of fields, is turned down.
pub proof fn lemma_request_accepted(text: Seq<char>)
    ensures
        parse_request(text) is Some <==> {
            let fields = split_by(split_by(text, "\r\n"@).first(), " "@);
            fields.len() == 3 && fields[0] == "GET"@
        },
{
}

/// Whether a header field comes back as it is when it is written on a line
/// and the line is read again: the name holds no colon, neither the name nor
/// the value begins or ends with whitespace, and the line holds no line
/// terminator.
pub open spec fn is_plain_field(field: HeaderView) -> bool {
    &&& !field.name.contains(':')
    &&& trimmed(field.name) == field.name
    &&& trimmed(field.value) == field.value
    &&& forall|j: int| !occurs_at(header_line(field), "\r\n"@, j)
}

/// The lines of the header fields, without their terminators.
pub open spec fn lines_of(headers: Seq<HeaderView>) -> Seq<Seq<char>> {
    headers.map_values(|h: HeaderView| header_line(h))
}

/// A line that holds no line terminator can be followed by one: no
/// terminator begins inside the line.
proof fn lemma_line_separable(line: Seq<char>)
    requires
        forall|j: int| !occurs_at(line, "\r\n"@, j),
    ensures
        separable(line, "\r\n"@),
{
    reveal_strlit("\r\n");
    let crlf = "\r\n"@;
    assert forall|j: int| 0 <= j < line.len() implies !occurs_at(line + crlf, crlf, j) by {
        if occurs_at(line + crlf, crlf, j) {
            let found = (line + crlf).subrange(j, j + 2);
            if j + 2 <= line.len() {
                assert(line.subrange(j, j + 2) =~= found);
                assert(occurs_at(line, crlf, j));
            } else {
                assert(found[1] == crlf[1]);
                assert((line + crlf)[j + 1] == '\r');
            }
        }
    }
}

/// The header lines of a response, whatever follows them, are split into
/// the lines of the fields and the pieces of what follows.
proof fn lemma_split_header_lines(headers: Seq<HeaderView>, tail: Seq<char>)
    requires
        forall|i: int| 0 <= i < headers.len() ==> is_plain_field(#[trigger] headers[i]),
    ensures
        split_by(header_lines(headers) + tail, "\r\n"@) == lines_of(headers) + split_by(
            tail,
            "\r\n"@,
        ),
    decreases headers.len(),
{
    reveal_strlit("\r\n");
    let crlf = "\r\n"@;
    let ended = |h: HeaderView| header_line(h) + "\r\n"@;
    if headers.len() == 0 {
        assert(header_lines(headers) + tail =~= tail);
        assert(lines_of(headers) + split_by(tail, crlf) =~= split_by(tail, crlf));
    } else {
        let first = headers.first();
        let rest = headers.drop_first();
        let line = header_line(first);
        assert(headers.map_values(ended).drop_first() =~= rest.map_values(ended));
        assert(header_lines(headers) + tail =~= line + crlf + (header_lines(rest) + tail));
        assert(is_plain_field(first));
        lemma_line_separable(line);
        lemma_split_prefix(line, crlf, header_lines(rest) + tail);
        assert forall|i: int| 0 <= i < rest.len() implies is_plain_field(#[trigger] rest[i]) by {
            assert(rest[i] == headers[i + 1]);
        }
        lemma_split_header_lines(rest, tail);
        assert(seq![line] + (lines_of(rest) + split_by(tail, crlf)) =~= lines_of(headers)
            + split_by(tail, crlf));
    }
}

/// The head of a response is split into its status line, the lines of its
/// fields, and two empty lines.
proof fn lemma_lines_of_head(response: ResponseView)
    requires
        forall|i: int|
            0 <= i < response.headers.len() ==> is_plain_field(#[trigger] response.headers[i]),
    ensures
        split_by(head(response), "\r\n"@) == seq![status_line(response.status)] + lines_of(
            response.headers,
        ) + seq![Seq::<char>::empty(), Seq::<char>::empty()],
{
    reveal_strlit("\r\n");
    reveal_strlit("HTTP/1.1 200 OK");
    reveal_strlit("HTTP/1.1 404 Not Found");
    let crlf = "\r\n"@;
    let none = Seq::<char>::empty();
    let status = status_line(response.status);
    let fields = header_lines(response.headers);
    assert(!status.contains('\r'));
    lemma_separable_without(status, crlf);
    assert(head(response) =~= status + crlf + (fields + crlf));
    lemma_split_prefix(status, crlf, fields + crlf);
    lemma_split_header_lines(response.headers, crlf);
    assert(crlf =~= none + crlf + none);
    lemma_separable_without(none, crlf);
    lemma_split_prefix(none, crlf, none);
    lemma_split_whole(none, crlf);
    assert(seq![status] + (lines_of(response.headers) + (seq![none] + seq![none])) =~= seq![
        status,
    ] + lines_of(response.headers) + seq![none, none]);
}

/// The line of a plain field is read back as the field.
proof fn lemma_read_header_line(field: HeaderView)
    requires
        is_plain_field(field),
    ensures
        split_once_by(header_line(field), ":"@) matches Some((name, value)) && trimmed(name)
            == field.name && trimmed(value) == field.value,
{
    reveal_strlit(":");
    reveal_strlit(": ");
    let line = header_line(field);
    let n = field.name.len() as int;
    assert(line.subrange(n, n + 1) =~= ":"@);
    assert forall|j: int| 0 <= j < n implies !occurs_at(line, ":"@, j) by {
        if occurs_at(line, ":"@, j) {
            assert(line.subrange(j, j + 1)[0] == ':');
            assert(field.name[j] == ':');
        }
    }
    assert(is_first_occurrence(line, ":"@, n));
    lemma_first_occurrence(line, ":"@, n);
    assert(line.take(n) =~= field.name);
    assert(line.skip(n + 1) =~= seq![' '] + field.value);
    lemma_trimmed_after_whitespace(' ', field.value);
}

/// Reading the lines of plain fields with distinct names gives every field
/// its value, and no name but theirs.
proof fn lemma_read_header_lines(headers: Seq<HeaderView>)
    requires
        forall|i: int| 0 <= i < headers.len() ==> is_plain_field(#[trigger] headers[i]),
        forall|i: int, j: int|
            0 <= i < j < headers.len() ==> headers[i].name != headers[j].name,
    ensures
        forall|i: int|
            0 <= i < headers.len() ==> header_map(lines_of(headers)).contains_key(
                (#[trigger] headers[i]).name,
            ) && header_map(lines_of(headers))[headers[i].name] == headers[i].value,
        forall|name: Seq<char>| #[trigger]
            header_map(lines_of(headers)).contains_key(name) ==> exists|i: int|
                0 <= i < headers.len() && (#[trigger] headers[i]).name == name,
    decreases headers.len(),
{
    if headers.len() > 0 {
        let front = headers.drop_last();
        let last = headers.last();
        assert(lines_of(headers).drop_last() =~= lines_of(front));
        assert(lines_of(headers).last() == header_line(last));
        assert(is_plain_field(last));
        lemma_read_header_line(last);
        assert forall|i: int| 0 <= i < front.len() implies is_plain_field(#[trigger] front[i]) by {
            assert(front[i] == headers[i]);
        }
        lemma_read_header_lines(front);
        let fields = header_map(lines_of(headers));
        assert(fields == header_map(lines_of(front)).insert(last.name, last.value));
        assert forall|i: int| 0 <= i < headers.len() implies fields.contains_key(
            (#[trigger] headers[i]).name,
        ) && fields[headers[i].name] == headers[i].value by {
            if i < front.len() {
                assert(front[i] == headers[i]);
                assert(headers[i].name != last.name);
            }
        }
        assert forall|name: Seq<char>| #[trigger] fields.contains_key(name) implies exists|i: int|
            0 <= i < headers.len() && (#[trigger] headers[i]).name == name by {
            if name == last.name {
                assert(headers[headers.len() - 1].name == name);
            } else {
                assert(header_map(lines_of(front)).contains_key(name));
                let i = choose|i: int| 0 <= i < front.len() && (#[trigger] front[i]).name == name;
                assert(headers[i].name == name);
            }
        }
    }
}

/// The header fields of a response survive the wire: where the fields are
/// plain and no two have the same name, the header lines that the request
/// parser finds in the head of the response give every field its value, and
/// no name but theirs. Names are compared as they are written, letter case
/// included.
pub proof fn lemma_header_round_trip(response: ResponseView)
    requires
        forall|i: int|
            0 <= i < response.headers.len() ==> is_plain_field(#[trigger] response.headers[i]),
        forall|i: int, j: int|
            0 <= i < j < response.headers.len() ==> response.headers[i].name
                != response.headers[j].name,
    ensures
        ({
            let lines = split_by(head(response), "\r\n"@);
            let fields = header_map(header_block(lines.drop_first()));
            &&& forall|i: int|
                0 <= i < response.headers.len() ==> fields.contains_key(
                    (#[trigger] response.headers[i]).name,
                ) && fields[response.headers[i].name] == response.headers[i].value
            &&& forall|name: Seq<char>| #[trigger]
                fields.contains_key(name) ==> exists|i: int|
                    0 <= i < response.headers.len() && (#[trigger] response.headers[i]).name
                        == name
        }),
{
    reveal_strlit(": ");
    let headers = response.headers;
    let none = Seq::<char>::empty();
    let lines = split_by(head(response), "\r\n"@);
    let rest = lines.drop_first();
    lemma_lines_of_head(response);
    assert(rest =~= lines_of(headers) + seq![none, none]);
    assert forall|j: int| 0 <= j < headers.len() implies rest[j].len() > 0 by {
        assert(rest[j] == header_line(headers[j]));
    }
    lemma_first_blank(rest, headers.len() as int);
    assert(header_block(rest) =~= lines_of(headers));
    lemma_read_header_lines(headers);
}

/// Formatting depends on the value of the response alone: two responses of
/// the same value are sent as the same bytes, and so is one response sent
/// twice.
pub proof fn lemma_format_is_a_function(first: Response, second: Response)
    requires
        first@ == second@,
    ensures
        wire(first@) == wire(second@),
{
}

} // verus!
