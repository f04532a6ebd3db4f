use rwf::connection::request::{ParseError, Request};
use rwf::connection::session::{Session, Sessions, Value};
use rwf::connection::RequestHandler;
use rwf::routing::{Handler, Routes};

/// Handlers used by the dispatcher tests.
enum App {
    Greet,
    Count,
    EchoBody,
}

impl Handler for App {
    fn handle(&self, request: Request, session: &mut Session) -> String {
        match self {
            App::Greet => "hello there".to_string(),
            App::Count => {
                let n = match session.get("n").and_then(|v| v.as_int()) {
                    Some(n) => n + 1,
                    None => 0,
                };
                session.add("n".to_string(), Value::Int(n));
                format!("{}", n)
            },
            App::EchoBody => request.body.unwrap_or_default(),
        }
    }
}

fn handler() -> RequestHandler<App> {
    let mut h = RequestHandler::new(Routes::new(), Sessions::new());
    h.route("/greet", App::Greet);
    h.route("/count", App::Count);
    h.route("/echo", App::EchoBody);
    h
}

fn text(bytes: &[u8]) -> String {
    String::from_utf8(bytes.to_vec()).unwrap()
}

#[test]
fn dispatch_success_response() {
    let mut h = handler();
    let r = h.resolve("GET /greet HTTP/1.1\r\n\r\n".as_bytes()).unwrap();
    assert_eq!(
        text(&r),
        "HTTP/1.1 200 OK\r\nSet-Cookie: session_id=0; HttpOnly\r\nContent-Length: 11\r\n\r\nhello there"
    );
}

#[test]
fn dispatch_unregistered_path_is_not_found() {
    let mut h = handler();
    let r = h.resolve("GET /missing HTTP/1.1\r\n\r\n".as_bytes()).unwrap();
    assert_eq!(
        text(&r),
        "HTTP/1.1 404 NOT FOUND\r\nContent-Length: 18\r\n\r\nResource not found"
    );
}

#[test]
fn dispatch_parse_failure_aborts() {
    let mut h = handler();
    assert_eq!(
        h.resolve("PATCH /greet HTTP/1.1\r\n\r\n".as_bytes()).unwrap_err(),
        ParseError::UnsupportedMethod
    );
}

#[test]
fn dispatch_echoes_known_session_id() {
    let mut h = handler();
    let first = text(&h.resolve("GET /greet HTTP/1.1\r\n\r\n".as_bytes()).unwrap());
    assert!(first.contains("session_id=0;"));
    let again = text(
        &h.resolve("GET /greet HTTP/1.1\r\nCookie: session_id=0\r\n\r\n".as_bytes()).unwrap(),
    );
    assert!(again.contains("session_id=0;"));
}

#[test]
fn dispatch_unknown_session_id_gets_fresh_one() {
    let mut h = handler();
    let first = text(&h.resolve("GET /greet HTTP/1.1\r\n\r\n".as_bytes()).unwrap());
    assert!(first.contains("session_id=0;"));
    let second = text(
        &h.resolve("GET /greet HTTP/1.1\r\nCookie: session_id=99\r\n\r\n".as_bytes()).unwrap(),
    );
    assert!(second.contains("session_id=1;"));
    let third = text(&h.resolve("GET /greet HTTP/1.1\r\n\r\n".as_bytes()).unwrap());
    assert!(third.contains("session_id=2;"));
}

#[test]
fn dispatch_session_state_survives_across_requests() {
    let mut h = handler();
    let first = text(&h.resolve("GET /count HTTP/1.1\r\n\r\n".as_bytes()).unwrap());
    assert!(first.ends_with("\r\n\r\n0"));
    let second = text(
        &h.resolve("GET /count HTTP/1.1\r\nCookie: session_id=0\r\n\r\n".as_bytes()).unwrap(),
    );
    assert!(second.ends_with("\r\n\r\n1"));
    let other = text(&h.resolve("GET /count HTTP/1.1\r\n\r\n".as_bytes()).unwrap());
    assert!(other.ends_with("\r\n\r\n0"));
}

#[test]
fn dispatch_handler_sees_the_body() {
    let mut h = handler();
    let r = text(
        &h.resolve("POST /echo HTTP/1.1\r\nContent-Length: 7\r\n\r\npayload".as_bytes()).unwrap(),
    );
    assert!(r.ends_with("\r\n\r\npayload"));
    assert!(r.contains("Content-Length: 7\r\n"));
}

#[test]
fn dispatch_not_found_leaves_sessions_alone() {
    let mut h = handler();
    let miss = text(&h.resolve("GET /missing HTTP/1.1\r\n\r\n".as_bytes()).unwrap());
    assert!(miss.contains("404"));
    let first = text(&h.resolve("GET /greet HTTP/1.1\r\n\r\n".as_bytes()).unwrap());
    assert!(first.contains("session_id=0;"));
}

#[test]
fn dispatch_first_registration_wins() {
    let mut h = RequestHandler::new(Routes::new(), Sessions::new());
    h.route("/p", App::Greet);
    h.route("/p", App::EchoBody);
    let r = text(&h.resolve("GET /p HTTP/1.1\r\n\r\n".as_bytes()).unwrap());
    assert!(r.ends_with("\r\n\r\nhello there"));
}

struct Unicode;

impl Handler for Unicode {
    fn handle(&self, _request: Request, _session: &mut Session) -> String {
        "héllo ✓".to_string()
    }
}

#[test]
fn dispatch_multibyte_body_content_length() {
    let mut h = RequestHandler::new(Routes::new(), Sessions::new());
    h.route("/u", Unicode);
    let r = h.resolve("GET /u HTTP/1.1\r\n\r\n".as_bytes()).unwrap();
    let body = "héllo ✓".as_bytes();
    let expected = format!("Content-Length: {}\r\n", body.len());
    assert!(text(&r).contains(&expected));
    assert!(r.ends_with(body));
}
