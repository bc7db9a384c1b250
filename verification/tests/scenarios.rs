use http_server::request::{bytes_to_str, parse_req, Method};
use http_server::response::{Response, Status};
use http_server::router::{process_req, route};

fn parse(request: &str) -> Option<http_server::request::Request> {
    parse_req(bytes_to_str(request.as_bytes().to_vec()).ok())
}

fn respond(request: &str) -> Option<Vec<u8>> {
    process_req(request.as_bytes().to_vec()).map(|response| response.as_bytes())
}

#[test]
fn root_parses_to_the_root_route_without_parameters() {
    let request = parse("GET / HTTP/1.1\r\n\r\n").unwrap();
    assert_eq!(request.method, Method::Get);
    assert_eq!(request.path.path, "/");
    assert!(request.path.params.is_empty());
    assert!(request.header.is_empty());
    assert!(request.body.is_empty());
}

#[test]
fn root_is_answered_with_an_empty_ok() {
    let response = process_req(b"GET / HTTP/1.1\r\n\r\n".to_vec()).unwrap();
    assert_eq!(response.status, Status::Success);
    assert!(response.body.is_empty());
    assert_eq!(response.content_length(), 0);
    assert_eq!(
        response.as_bytes(),
        b"HTTP/1.1 200 OK\r\nContent-Type: text/plain\r\nContent-Length: 0\r\n\r\n".to_vec()
    );
}

#[test]
fn echo_joins_its_parameters() {
    let response = process_req(b"GET /echo/abc/def HTTP/1.1\r\n\r\n".to_vec()).unwrap();
    assert_eq!(response.status, Status::Success);
    assert_eq!(response.headers.len(), 2);
    assert_eq!(response.headers[0].name, "Content-Type");
    assert_eq!(response.headers[0].value, "text/plain");
    assert_eq!(response.headers[1].name, "Content-Length");
    assert_eq!(response.headers[1].value, "6");
    assert_eq!(response.body, b"abcdef".to_vec());
    assert_eq!(
        response.as_bytes(),
        b"HTTP/1.1 200 OK\r\nContent-Type: text/plain\r\nContent-Length: 6\r\n\r\nabcdef".to_vec()
    );
}

#[test]
fn echo_without_parameters_has_an_empty_body() {
    assert_eq!(
        respond("GET /echo HTTP/1.1\r\n\r\n").unwrap(),
        b"HTTP/1.1 200 OK\r\nContent-Type: text/plain\r\nContent-Length: 0\r\n\r\n".to_vec()
    );
}

#[test]
fn echo_counts_bytes_not_characters() {
    let response = process_req("GET /echo/h\u{e9}/\u{8d8a} HTTP/1.1\r\n\r\n".as_bytes().to_vec()).unwrap();
    assert_eq!(response.body, "h\u{e9}\u{8d8a}".as_bytes().to_vec());
    assert_eq!(response.content_length(), 6);
    assert_eq!(response.headers[1].value, "6");
}

#[test]
fn user_agent_is_echoed() {
    let request = "GET /user-agent HTTP/1.1\r\nUser-Agent: test-client/1.0\r\n\r\n";
    let response = process_req(request.as_bytes().to_vec()).unwrap();
    assert_eq!(response.status, Status::Success);
    assert_eq!(response.body, b"test-client/1.0".to_vec());
    assert_eq!(response.headers[1].name, "Content-Length");
    assert_eq!(response.headers[1].value, "15");
    assert_eq!(
        respond(request).unwrap(),
        b"HTTP/1.1 200 OK\r\nContent-Type: text/plain\r\nContent-Length: 15\r\n\r\ntest-client/1.0"
            .to_vec()
    );
}

#[test]
fn user_agent_is_found_among_other_fields() {
    let request =
        "GET /user-agent HTTP/1.1\r\nHost: localhost:4221\r\nUser-Agent: curl/8.0\r\nAccept: */*\r\n\r\n";
    let response = process_req(request.as_bytes().to_vec()).unwrap();
    assert_eq!(response.body, b"curl/8.0".to_vec());
}

#[test]
fn missing_user_agent_is_not_found() {
    assert_eq!(
        respond("GET /user-agent HTTP/1.1\r\nHost: localhost\r\n\r\n").unwrap(),
        b"HTTP/1.1 404 Not Found\r\n\r\n".to_vec()
    );
}

#[test]
fn user_agent_name_is_matched_exactly() {
    assert_eq!(
        respond("GET /user-agent HTTP/1.1\r\nuser-agent: lower\r\n\r\n").unwrap(),
        b"HTTP/1.1 404 Not Found\r\n\r\n".to_vec()
    );
}

#[test]
fn user_agent_after_the_blank_line_is_body_not_header() {
    assert_eq!(
        respond("GET /user-agent HTTP/1.1\r\n\r\nUser-Agent: late\r\n").unwrap(),
        b"HTTP/1.1 404 Not Found\r\n\r\n".to_vec()
    );
}

#[test]
fn unknown_route_is_not_found() {
    let response = process_req(b"GET /nonexistent HTTP/1.1\r\n\r\n".to_vec()).unwrap();
    assert_eq!(response.status, Status::NotFound);
    assert!(response.headers.is_empty());
    assert!(response.body.is_empty());
    assert_eq!(response.as_bytes(), b"HTTP/1.1 404 Not Found\r\n\r\n".to_vec());
}

#[test]
fn target_without_segments_other_than_root_is_not_found() {
    assert_eq!(respond("GET // HTTP/1.1\r\n\r\n").unwrap(), b"HTTP/1.1 404 Not Found\r\n\r\n".to_vec());
    assert_eq!(respond("GET  HTTP/1.1\r\n\r\n").unwrap(), b"HTTP/1.1 404 Not Found\r\n\r\n".to_vec());
}

#[test]
fn other_methods_are_turned_down() {
    assert!(parse("POST / HTTP/1.1\r\n\r\n").is_none());
    assert!(parse("get / HTTP/1.1\r\n\r\n").is_none());
    assert!(parse("GETT / HTTP/1.1\r\n\r\n").is_none());
    assert!(process_req(b"POST /echo/abc HTTP/1.1\r\n\r\n".to_vec()).is_none());
    assert!(process_req(b"DELETE / HTTP/1.1\r\n\r\n".to_vec()).is_none());
}

#[test]
fn malformed_request_lines_are_turned_down() {
    assert!(parse("").is_none());
    assert!(parse("GET").is_none());
    assert!(parse("GET /").is_none());
    assert!(parse("GET / HTTP/1.1 extra\r\n\r\n").is_none());
    assert!(parse("GET  / HTTP/1.1\r\n\r\n").is_none());
    assert!(parse("GET / HTTP/1.1 \r\n\r\n").is_none());
    assert!(parse("\r\nGET / HTTP/1.1\r\n\r\n").is_none());
    assert!(process_req(b"GET /echo/a b HTTP/1.1\r\n\r\n".to_vec()).is_none());
    assert!(process_req(Vec::new()).is_none());
}

#[test]
fn parsing_fails_the_same_way_every_time() {
    for _ in 0..3 {
        assert!(process_req(b"PUT / HTTP/1.1\r\n\r\n".to_vec()).is_none());
        assert!(process_req(b"GET /\r\n\r\n".to_vec()).is_none());
    }
}

#[test]
fn no_text_is_no_request() {
    assert!(parse_req(None).is_none());
}

#[test]
fn bytes_that_are_not_utf8_are_turned_down() {
    assert!(bytes_to_str(vec![0xff, 0xfe]).is_err());
    assert!(bytes_to_str(vec![0xc3]).is_err());
    assert!(process_req(b"GET /echo/\xff HTTP/1.1\r\n\r\n".to_vec()).is_none());
}

#[test]
fn bytes_that_are_utf8_are_decoded() {
    assert_eq!(bytes_to_str(b"GET /".to_vec()).unwrap(), "GET /");
    assert_eq!(bytes_to_str(vec![0xc3, 0xa9]).unwrap(), "\u{e9}");
    assert_eq!(bytes_to_str(Vec::new()).unwrap(), "");
}

#[test]
fn a_request_line_alone_is_a_request() {
    let request = parse("GET /echo/x HTTP/1.1").unwrap();
    assert_eq!(request.path.path, "echo");
    assert_eq!(request.path.params, vec!["x".to_string()]);
    assert!(request.header.is_empty());
    assert!(request.body.is_empty());
}

#[test]
fn the_version_field_is_not_looked_at() {
    assert!(parse("GET / whatever\r\n\r\n").is_some());
}

#[test]
fn route_answers_a_request_built_by_hand() {
    let request = http_server::request::Request {
        method: Method::Get,
        path: http_server::request::Path {
            path: "echo".to_string(),
            params: vec!["a".to_string(), "b".to_string()],
        },
        header: Vec::new(),
        body: Vec::new(),
    };
    assert_eq!(route(&request), Response::text(b"ab".to_vec()));
}

#[test]
fn ill_formed_utf8_is_turned_down() {
    assert!(bytes_to_str(vec![0xc0, 0x80]).is_err());
    assert!(bytes_to_str(vec![0xe0, 0x80, 0x80]).is_err());
    assert!(bytes_to_str(vec![0xed, 0xa0, 0x80]).is_err());
    assert!(bytes_to_str(vec![0xf4, 0x90, 0x80, 0x80]).is_err());
    assert!(bytes_to_str(vec![0xf8, 0x88, 0x80, 0x80, 0x80]).is_err());
    assert!(bytes_to_str(vec![0x80]).is_err());
    assert!(bytes_to_str(vec![b'a', 0xe2, 0x82]).is_err());
}

#[test]
fn well_formed_utf8_at_the_limits_is_decoded() {
    assert_eq!(bytes_to_str(vec![0x7f]).unwrap(), "\u{7f}");
    assert_eq!(bytes_to_str(vec![0xc2, 0x80]).unwrap(), "\u{80}");
    assert_eq!(bytes_to_str(vec![0xe0, 0xa0, 0x80]).unwrap(), "\u{800}");
    assert_eq!(bytes_to_str(vec![0xed, 0x9f, 0xbf]).unwrap(), "\u{d7ff}");
    assert_eq!(bytes_to_str(vec![0xee, 0x80, 0x80]).unwrap(), "\u{e000}");
    assert_eq!(bytes_to_str(vec![0xf0, 0x90, 0x80, 0x80]).unwrap(), "\u{10000}");
    assert_eq!(bytes_to_str(vec![0xf4, 0x8f, 0xbf, 0xbf]).unwrap(), "\u{10ffff}");
}
