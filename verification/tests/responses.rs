use rwf::connection::response::{error404, format_content, redirect};
use rwf::response::Response;

/// Reads the Content-Length header out of response bytes and returns it
/// with the body that follows the blank-line separator.
fn split_response(bytes: &[u8]) -> (usize, Vec<u8>) {
    let sep = bytes
        .windows(4)
        .position(|w| w == "\r\n\r\n".as_bytes())
        .expect("no blank line");
    let head = std::str::from_utf8(&bytes[..sep]).expect("head not UTF-8");
    let marker = "Content-Length: ";
    let at = head.find(marker).expect("no Content-Length header");
    let rest = &head[at + marker.len()..];
    let digits: String = rest.chars().take_while(|c| c.is_ascii_digit()).collect();
    (digits.parse().unwrap(), bytes[sep + 4..].to_vec())
}

#[test]
fn not_found_response_is_byte_exact() {
    let r = error404();
    assert_eq!(
        r,
        "HTTP/1.1 404 NOT FOUND\r\nContent-Length: 18\r\n\r\nResource not found"
    );
    let (length, body) = split_response(r.as_bytes());
    assert_eq!(body, "Resource not found".as_bytes());
    assert_eq!(length, body.len());
    assert_eq!(length, 18);
}

#[test]
fn format_content_exact_bytes() {
    let r = format_content(11, "Hello World", 12345);
    assert_eq!(
        r,
        "HTTP/1.1 200 OK\r\nSet-Cookie: session_id=12345; HttpOnly\r\nContent-Length: 11\r\n\r\nHello World"
            .as_bytes()
            .to_vec()
    );
}

#[test]
fn format_content_length_matches_ascii_body() {
    let body = "Hello World";
    let r = format_content(body.len(), body, 0);
    let (length, tail) = split_response(&r);
    assert_eq!(tail, body.as_bytes());
    assert_eq!(length, tail.len());
}

#[test]
fn format_content_length_matches_multibyte_body() {
    let body = "héllo wörld — ✓";
    let r = format_content(body.len(), body, 7);
    let (length, tail) = split_response(&r);
    assert_eq!(tail, body.as_bytes());
    assert_eq!(length, tail.len());
    assert!(length > body.chars().count());
}

#[test]
fn format_content_empty_body() {
    let r = format_content(0, "", 3);
    let (length, tail) = split_response(&r);
    assert_eq!(length, 0);
    assert!(tail.is_empty());
}

#[test]
fn redirect_exact_bytes() {
    assert_eq!(
        redirect("/new-home"),
        "HTTP/1.1 302 Found\r\nLocation: /new-home\r\n\r\n"
    );
}

#[test]
fn plain_text_response() {
    let r = Response::plain_text("hi");
    assert_eq!(
        r.as_bytes(),
        "HTTP/1.1 200 OK\r\nContent-Length: 2\r\n\r\nhi".as_bytes()
    );
}

#[test]
fn plain_text_multibyte_length() {
    let r = Response::plain_text("é");
    let (length, tail) = split_response(r.as_bytes());
    assert_eq!(length, 2);
    assert_eq!(tail, "é".as_bytes());
}

#[test]
fn error_response_is_byte_exact() {
    let r = Response::error();
    assert_eq!(
        r.as_bytes(),
        "HTTP/1.1 500 Internal Server Error\r\nContent-Length: 21\r\n\r\nInternal Server Error"
            .as_bytes()
    );
    let (length, body) = split_response(r.as_bytes());
    assert_eq!(length, body.len());
}
