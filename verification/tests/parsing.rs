use rwf::connection::method::Method;
use rwf::connection::request::{content_length_of, from_forms, ParseError, Request, SESSION_SENTINEL};

#[test]
fn parse_simple_get() {
    let data = "GET /hello HTTP/1.1\r\nHost: example\r\n\r\n".as_bytes();
    let req = Request::parse(data).unwrap();
    assert_eq!(req.resource, "/hello");
    assert!(matches!(req.method, Method::GET));
    assert_eq!(req.header, "GET /hello HTTP/1.1\nHost: example");
    assert!(req.body.is_none());
    assert!(req.session.is_none());
}

#[test]
fn parse_post_with_body() {
    let data = "POST /submit HTTP/1.1\r\nContent-Length: 5\r\n\r\nhello".as_bytes();
    let req = Request::parse(data).unwrap();
    assert_eq!(req.resource, "/submit");
    assert!(matches!(req.method, Method::POST));
    assert_eq!(req.body, Some("hello".to_string()));
}

#[test]
fn parse_body_is_cut_to_content_length() {
    let data = "POST /a HTTP/1.1\r\nContent-Length: 3\r\n\r\nhello".as_bytes();
    let req = Request::parse(data).unwrap();
    assert_eq!(req.body, Some("hel".to_string()));
}

#[test]
fn parse_zero_content_length_means_no_body() {
    let data = "POST /a HTTP/1.1\r\nContent-Length: 0\r\n\r\n".as_bytes();
    let req = Request::parse(data).unwrap();
    assert!(req.body.is_none());
}

#[test]
fn parse_malformed_content_length_defaults_to_zero() {
    let data = "POST /a HTTP/1.1\r\nContent-Length: ten\r\n\r\nhello".as_bytes();
    let req = Request::parse(data).unwrap();
    assert!(req.body.is_none());
}

#[test]
fn parse_last_content_length_wins() {
    let data = "POST /a HTTP/1.1\r\nContent-Length: 1\r\nContent-Length: 2\r\n\r\nhello".as_bytes();
    let req = Request::parse(data).unwrap();
    assert_eq!(req.body, Some("he".to_string()));
}

#[test]
fn parse_truncated_body_fails() {
    let data = "POST /a HTTP/1.1\r\nContent-Length: 10\r\n\r\nhi".as_bytes();
    assert_eq!(Request::parse(data).unwrap_err(), ParseError::IncompleteBody);
}

#[test]
fn parse_unsupported_method_fails() {
    let data = "PUT /a HTTP/1.1\r\n\r\n".as_bytes();
    assert_eq!(Request::parse(data).unwrap_err(), ParseError::UnsupportedMethod);
}

#[test]
fn parse_missing_path_fails() {
    let data = "GET\r\n\r\n".as_bytes();
    assert_eq!(Request::parse(data).unwrap_err(), ParseError::MalformedStartLine);
}

#[test]
fn parse_empty_input_fails() {
    assert_eq!(
        Request::parse("".as_bytes()).unwrap_err(),
        ParseError::UnsupportedMethod
    );
}

#[test]
fn parse_invalid_utf8_header_fails() {
    let mut data = "GET / HTTP/1.1\r\nX: ".as_bytes().to_vec();
    data.push(0xFF);
    data.extend_from_slice("\r\n\r\n".as_bytes());
    assert_eq!(Request::parse(&data).unwrap_err(), ParseError::InvalidUtf8);
}

#[test]
fn parse_invalid_utf8_body_is_replaced_not_rejected() {
    let mut data = "POST /a HTTP/1.1\r\nContent-Length: 1\r\n\r\n".as_bytes().to_vec();
    data.push(0xFF);
    let req = Request::parse(&data).unwrap();
    assert_eq!(req.body, Some("\u{FFFD}".to_string()));
}

#[test]
fn parse_multibyte_utf8_body() {
    let body = "héllo";
    assert_eq!(body.len(), 6);
    let data = format!("POST /a HTTP/1.1\r\nContent-Length: 6\r\n\r\n{}", body);
    let req = Request::parse(data.as_bytes()).unwrap();
    assert_eq!(req.body, Some(body.to_string()));
}

#[test]
fn parse_session_id_from_cookie_line() {
    let data = "GET / HTTP/1.1\r\nCookie: session_id=5\r\n\r\n".as_bytes();
    let req = Request::parse(data).unwrap();
    assert_eq!(req.session, Some(5));
}

#[test]
fn parse_malformed_session_id_becomes_sentinel() {
    let data = "GET / HTTP/1.1\r\nCookie: session_id=abc\r\n\r\n".as_bytes();
    let req = Request::parse(data).unwrap();
    assert_eq!(req.session, Some(SESSION_SENTINEL));
}

#[test]
fn get_session_reads_value_after_first_equals() {
    assert_eq!(Request::get_session("Cookie: session_id=42"), Some(42));
    assert_eq!(Request::get_session("Host: x\nCookie: session_id=7"), Some(7));
}

#[test]
fn get_session_without_equals_is_none() {
    assert_eq!(Request::get_session("X: session_id"), None);
}

#[test]
fn get_session_absent_is_none() {
    assert_eq!(Request::get_session("Host: example"), None);
    assert_eq!(Request::get_session(""), None);
}

#[test]
fn get_session_trailing_text_is_sentinel() {
    assert_eq!(
        Request::get_session("Cookie: session_id=42; HttpOnly"),
        Some(SESSION_SENTINEL)
    );
}

#[test]
fn content_length_of_header_block() {
    assert_eq!(content_length_of("POST /a HTTP/1.1\r\nContent-Length: 7\r\n\r\n".as_bytes()), 7);
    assert_eq!(content_length_of("GET /a HTTP/1.1\r\n\r\n".as_bytes()), 0);
    assert_eq!(content_length_of("POST /a HTTP/1.1\r\nContent-Length: x\r\n\r\n".as_bytes()), 0);
}

#[test]
fn from_forms_two_pairs() {
    let m = from_forms(&"a=1&b=2".to_string()).unwrap();
    assert_eq!(m.get("a").unwrap(), "1");
    assert_eq!(m.get("b").unwrap(), "2");
    assert!(m.get("c").is_none());
}

#[test]
fn from_forms_single_pair() {
    let m = from_forms(&"a=1".to_string()).unwrap();
    assert_eq!(m.get("a").unwrap(), "1");
    assert!(m.get("b").is_none());
}

#[test]
fn from_forms_pair_without_equals_is_rejected() {
    assert!(from_forms(&"a".to_string()).is_none());
    assert!(from_forms(&"a=1&b".to_string()).is_none());
    assert!(from_forms(&"".to_string()).is_none());
}

#[test]
fn from_forms_pair_with_two_equals_is_rejected() {
    assert!(from_forms(&"a=1=2".to_string()).is_none());
}

#[test]
fn from_forms_repeated_key_keeps_last_value() {
    let m = from_forms(&"a=1&a=2".to_string()).unwrap();
    assert_eq!(m.get("a").unwrap(), "2");
}

#[test]
fn method_from_string_and_back() {
    assert!(matches!(Method::from_string("GET"), Some(Method::GET)));
    assert!(matches!(Method::from_string("POST"), Some(Method::POST)));
    assert!(Method::from_string("get").is_none());
    assert!(Method::from_string("DELETE").is_none());
    assert_eq!(Method::GET.to_string(), "GET");
    assert_eq!(Method::POST.to_string(), "POST");
}
