use lucism_status::handlers::{
    content_type_for, default_route_handler, empty_response, is_within, not_found,
    sanitize_filename, static_file, static_target,
};
use lucism_status::headers::{HTTPHeader, HTTPHeaders};
use lucism_status::req::{
    build_request, content_length, err_bad_request, read_body, Request, RequestBody,
    RequestMethod, MAX_CONTENT,
};
use lucism_status::res::{send_string, Response, ResponseBody, SERVER_ERR_BODY};
use lucism_status::server::{error_response, respond, HTTPServer, Handler};
use lucism_status::status::Status;
use lucism_status::text::{chars_of, parse_bounded, push_decimal, split_chars};

fn ok_handler(_req: Request, _res: &mut Response) -> ResponseBody {
    send_string("OK")
}

fn serve(server: &HTTPServer<fn(Request, &mut Response) -> ResponseBody>, head: &str) -> String {
    match build_request(head) {
        Err(e) => error_response(e),
        Ok(req) => {
            let mut res = Response::new();
            let body = match server.select_handler(&req) {
                Handler::Route(i) => (server.handler_at(i))(req, &mut res),
                Handler::StaticFile => static_file(req, &mut res, None),
                Handler::NotFound => not_found(req, &mut res),
            };
            respond(res, body)
        }
    }
}

fn test_server() -> HTTPServer<fn(Request, &mut Response) -> ResponseBody> {
    let mut server: HTTPServer<fn(Request, &mut Response) -> ResponseBody> =
        HTTPServer::new("127.0.0.1", 7878);
    server.get("/", ok_handler);
    server
}

#[test]
fn get_root_returns_ok() {
    let out = serve(&test_server(), "GET / HTTP/1.1");
    assert!(out.starts_with("HTTP/1.1 200"));
    assert!(out.contains("Content-Length: 2"));
    assert!(out.ends_with("OK"));
    assert_eq!(out, "HTTP/1.1 200 \r\nContent-Length: 2\r\n\r\nOK");
}

#[test]
fn missing_path_is_not_found() {
    let out = serve(&test_server(), "GET /missing HTTP/1.1");
    assert!(out.starts_with("HTTP/1.1 404 \r\n"));
    assert!(out.ends_with("\r\n\r\n404, PAGE NOT FOUND"));
}

#[test]
fn put_is_method_not_allowed() {
    let out = serve(&test_server(), "PUT / HTTP/1.1");
    assert!(out.starts_with("HTTP/1.1 405 \r\n"));
    assert!(out.ends_with("Method Not Allowed"));
    match build_request("PUT / HTTP/1.1") {
        Err(e) => assert_eq!(e.status, 405),
        Ok(_) => panic!("PUT must be refused"),
    }
}

#[test]
fn malformed_request_line_is_bad_request() {
    for head in ["GET /", "GET / HTTP/1.1 extra", "", "GET  / HTTP/1.1"] {
        match build_request(head) {
            Err(e) => {
                assert_eq!(e.status, 400);
                assert_eq!(e.cause, "Bad Request");
            }
            Ok(_) => panic!("must be refused: {:?}", head),
        }
    }
}

#[test]
fn malformed_header_is_bad_request() {
    match build_request("GET / HTTP/1.1\r\nHost:example") {
        Err(e) => assert_eq!(e.status, 400),
        Ok(_) => panic!("header without separator must be refused"),
    }
}

#[test]
fn request_head_is_parsed() {
    let req = build_request("POST /submit HTTP/1.1\r\nHost: a: b\r\nContent-Length: 5")
        .ok()
        .unwrap();
    assert_eq!(req.method, RequestMethod::POST);
    assert_eq!(req.path, "/submit");
    assert!(req.body.is_none());
    assert_eq!(req.headers.len(), 2);
    assert_eq!(req.headers.at(0).name(), "Host");
    assert_eq!(req.headers.at(0).value(), "a: b");
    assert_eq!(req.headers.get_header("Content-Length").unwrap().value(), "5");
    assert_eq!(content_length(&req).ok().unwrap(), Some(5));
}

#[test]
fn duplicate_headers_are_kept_and_first_wins() {
    let req = build_request("POST / HTTP/1.1\r\nContent-Length: 3\r\nContent-Length: 9")
        .ok()
        .unwrap();
    assert_eq!(req.headers.len(), 2);
    assert_eq!(content_length(&req).ok().unwrap(), Some(3));
}

#[test]
fn get_reads_no_body() {
    let req = build_request("GET / HTTP/1.1\r\nContent-Length: 5").ok().unwrap();
    assert_eq!(content_length(&req).ok().unwrap(), None);
    let req = build_request("POST / HTTP/1.1").ok().unwrap();
    assert_eq!(content_length(&req).ok().unwrap(), None);
}

#[test]
fn short_body_is_bad_request() {
    let req = build_request("POST / HTTP/1.1\r\nContent-Length: 5").ok().unwrap();
    let n = content_length(&req).ok().unwrap().unwrap();
    assert_eq!(n, 5);
    match read_body(n, b"abc".to_vec()) {
        Err(e) => assert_eq!(e.status, 400),
        Ok(_) => panic!("short body must be refused"),
    }
    assert_eq!(read_body(5, b"hello".to_vec()).ok().unwrap(), "hello");
}

#[test]
fn invalid_utf8_body_is_bad_request() {
    match read_body(2, vec![0xff, 0xfe]) {
        Err(e) => assert_eq!(e.status, 400),
        Ok(_) => panic!("invalid UTF-8 must be refused"),
    }
    assert_eq!(read_body(2, "é".as_bytes().to_vec()).ok().unwrap(), "é");
}

#[test]
fn oversized_content_length_is_bad_request() {
    let head = format!("POST / HTTP/1.1\r\nContent-Length: {}", MAX_CONTENT + 1);
    let req = build_request(&head).ok().unwrap();
    match content_length(&req) {
        Err(e) => assert_eq!(e.status, 400),
        Ok(_) => panic!("oversized body must be refused"),
    }
    let head = format!("POST / HTTP/1.1\r\nContent-Length: {}", MAX_CONTENT);
    let req = build_request(&head).ok().unwrap();
    assert_eq!(content_length(&req).ok().unwrap(), Some(2_097_152));
}

#[test]
fn unparsable_content_length_is_bad_request() {
    for v in ["abc", "", "-1", "5 ", "99999999999999999999999"] {
        let head = format!("POST / HTTP/1.1\r\nContent-Length: {}", v);
        let req = build_request(&head).ok().unwrap();
        assert!(content_length(&req).is_err(), "{:?}", v);
    }
    let req = build_request("POST / HTTP/1.1\r\nContent-Length: +7").ok().unwrap();
    assert_eq!(content_length(&req).ok().unwrap(), Some(7));
}

#[test]
fn registration_and_lookup() {
    let mut server = test_server();
    assert!(server.route_exists("/", RequestMethod::GET));
    assert!(!server.route_exists("/", RequestMethod::POST));
    server.post("/", ok_handler);
    assert!(server.route_exists("/", RequestMethod::POST));
    assert_eq!(server.addr(), "127.0.0.1:7878");
    let req = build_request("POST / HTTP/1.1").ok().unwrap();
    assert_eq!(server.select_handler(&req), Handler::Route(1));
    let req = build_request("GET /static/a.css HTTP/1.1").ok().unwrap();
    assert_eq!(server.select_handler(&req), Handler::StaticFile);
    let req = build_request("POST /static HTTP/1.1").ok().unwrap();
    assert_eq!(server.select_handler(&req), Handler::NotFound);
}

#[test]
fn handler_status_is_kept() {
    fn created(_req: Request, res: &mut Response) -> ResponseBody {
        res.status = Status::created();
        res.headers.set_header("X-Id", "7");
        send_string("made")
    }
    let mut server = test_server();
    server.post("/items", created);
    let out = serve(&server, "POST /items HTTP/1.1");
    assert_eq!(out, "HTTP/1.1 201 \r\nX-Id: 7\r\nContent-Length: 4\r\n\r\nmade");
}

#[test]
fn serialize_fills_length_and_is_idempotent() {
    let mut res = Response::new();
    res.body = ResponseBody::build("héllo".to_string(), Some("text/html".to_string()));
    let first = res.build_response();
    assert_eq!(
        first,
        "HTTP/1.1 200 \r\nContent-Length: 6\r\nContent-Type: text/html\r\n\r\nhéllo"
    );
    let second = res.build_response();
    assert_eq!(first, second);
}

#[test]
fn explicit_headers_are_not_overwritten() {
    let mut res = Response::new();
    res.headers.set_header("Content-Length", "99");
    res.headers.set_header("Content-Type", "x/y");
    res.body = ResponseBody::build("ab".to_string(), Some("text/css".to_string()));
    assert_eq!(
        res.build_response(),
        "HTTP/1.1 200 \r\nContent-Length: 99\r\nContent-Type: x/y\r\n\r\nab"
    );
}

#[test]
fn error_response_wire() {
    assert_eq!(
        error_response(err_bad_request()),
        "HTTP/1.1 400 \r\nContent-Length: 11\r\n\r\nBad Request"
    );
}

#[test]
fn header_set_semantics() {
    let mut hs = HTTPHeaders::new();
    hs.set_header("A", "1");
    hs.set_header("B", "2");
    hs.set_header("A", "3");
    assert_eq!(hs.len(), 2);
    assert_eq!(hs.at(0).value(), "3");
    hs.set_header_if_not_exists("B", "9");
    hs.set_header_if_not_exists("C", "4");
    assert_eq!(hs.at(1).value(), "2");
    assert_eq!(hs.at(2).name(), "C");
    assert!(hs.get_header("a").is_none());
    let hs = HTTPHeaders::from_headers(vec![
        ("K".to_string(), "1".to_string()),
        ("K".to_string(), "2".to_string()),
    ]);
    assert_eq!(hs.len(), 2);
    assert_eq!(hs.get_header("K").unwrap().value(), "1");
    let mut h = HTTPHeader::build("N", "v");
    h.set_value("w");
    assert_eq!(h.name(), "N");
    assert_eq!(h.value(), "w");
}

#[test]
fn request_values() {
    assert_eq!(RequestMethod::from_string("GET"), Some(RequestMethod::GET));
    assert_eq!(RequestMethod::from_string("POST"), Some(RequestMethod::POST));
    assert_eq!(RequestMethod::from_string("get"), None);
    assert!(RequestMethod::POST.supports_body());
    assert!(!RequestMethod::GET.supports_body());
    let r = Request::default();
    assert_eq!(r.path, "/");
    assert_eq!(r.method, RequestMethod::GET);
    let r = Request::build(RequestMethod::POST, "/x".to_string(), Some("b".to_string()));
    assert_eq!(r.body.unwrap().content(), "b");
    assert_eq!(RequestBody::from("q".to_string()).content(), "q");
}

#[test]
fn response_body_content_type() {
    let mut b = ResponseBody::from_data("x".to_string());
    assert_eq!(b.content_type(), "text/plain");
    b.set_content_type("image/png".to_string());
    assert_eq!(b.content_type(), "image/png");
    assert_eq!(b.data, "x");
}

#[test]
fn static_paths_are_sanitized() {
    assert_eq!(sanitize_filename("static/a b;c$.txt"), "static/a_b_c_.txt");
    assert_eq!(sanitize_filename("static/../secret"), "static/../secret");
    assert_eq!(sanitize_filename("static/é"), "static/é");
    let req = build_request("GET /static/x?y=1 HTTP/1.1").ok().unwrap();
    assert_eq!(static_target(&req), "static/x_y_1");
    assert_eq!(default_route_handler(&req), Some(Handler::StaticFile));
    let req = build_request("GET /stat HTTP/1.1").ok().unwrap();
    assert_eq!(default_route_handler(&req), None);
}

#[test]
fn escape_is_refused() {
    assert!(is_within("/srv/app/static", "/srv/app/static/a.css"));
    assert!(is_within("/srv/app/static", "/srv/app/static"));
    assert!(!is_within("/srv/app/static", "/srv/app/secret"));
    assert!(!is_within("/srv/app/static", "/srv/app/staticx/a"));
    assert!(is_within("/", "/etc"));
    let mut res = Response::new();
    let body = static_file(Request::default(), &mut res, None);
    assert_eq!(res.status, 404);
    assert_eq!(body.data, "");
}

#[test]
fn static_file_outcomes() {
    let mut res = Response::new();
    let body = static_file(
        Request::default(),
        &mut res,
        Some(("/srv/static/site.css".to_string(), Some("p{}".to_string()))),
    );
    assert_eq!(res.status, 200);
    assert_eq!(body.data, "p{}");
    assert_eq!(body.content_type(), "text/css");
    let body = static_file(
        Request::default(),
        &mut res,
        Some(("/srv/static/site.css".to_string(), None)),
    );
    assert_eq!(res.status, 200);
    assert_eq!(body.data, SERVER_ERR_BODY);
}

#[test]
fn content_types() {
    assert_eq!(content_type_for("a.json"), "application/json");
    assert_eq!(content_type_for("a.min.js"), "text/javascript");
    assert_eq!(content_type_for("a.jpeg"), "image/jpeg");
    assert_eq!(content_type_for("a.jpg"), "image/jpeg");
    assert_eq!(content_type_for("a.gif"), "image/gif");
    assert_eq!(content_type_for("a.png"), "image/png");
    assert_eq!(content_type_for("index.html"), "text/html");
    assert_eq!(content_type_for("README"), "text/plain");
    assert_eq!(content_type_for("a.txt"), "text/plain");
}

#[test]
fn builtin_handlers() {
    let mut res = Response::new();
    let body = empty_response(Request::default(), &mut res);
    assert_eq!(body.data, "");
    assert_eq!(res.status, 200);
    let body = not_found(Request::default(), &mut res);
    assert_eq!(res.status, 404);
    assert_eq!(body.data, "404, PAGE NOT FOUND");
}

#[test]
fn status_codes() {
    let all = [
        Status::success(),
        Status::created(),
        Status::accepted(),
        Status::no_content(),
        Status::bad_request(),
        Status::unauthorized(),
        Status::forbidden(),
        Status::not_found(),
        Status::method_not_allowed(),
        Status::internal_server_error(),
        Status::not_implemented(),
        Status::bad_gateway(),
        Status::service_unavailable(),
    ];
    assert_eq!(all, [200, 201, 202, 204, 400, 401, 403, 404, 405, 500, 501, 502, 503]);
}

#[test]
fn text_helpers() {
    let mut s = String::from("n=");
    push_decimal(&mut s, 1234567);
    assert_eq!(s, "n=1234567");
    let mut z = String::new();
    push_decimal(&mut z, 0);
    assert_eq!(z, "0");
    assert_eq!(parse_bounded(&chars_of("0042"), 100), Some(42));
    assert_eq!(parse_bounded(&chars_of("101"), 100), None);
    assert_eq!(parse_bounded(&chars_of("+"), 100), None);
    let parts = split_chars(&chars_of("a\r\nb\r\n\r\nc"), &chars_of("\r\n"));
    let parts: Vec<String> = parts.into_iter().map(|p| p.into_iter().collect()).collect();
    assert_eq!(parts, vec!["a", "b", "", "c"]);
}

#[test]
fn lf_terminated_lines_are_accepted() {
    let req = build_request("GET /a HTTP/1.1\nHost: x\r\nAccept: y").ok().unwrap();
    assert_eq!(req.path, "/a");
    assert_eq!(req.headers.len(), 2);
    assert_eq!(req.headers.get_header("Host").unwrap().value(), "x");
    assert_eq!(req.headers.get_header("Accept").unwrap().value(), "y");
}
