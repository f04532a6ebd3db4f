//! Response formatting: byte-exact success, not-found and redirect
//! responses. This module builds byte sequences only; it never touches a
//! connection.

use vstd::prelude::*;
use vstd::string::{is_ascii, is_ascii_spec_bytes, StringSliceAdditionalSpecFns};
use vstd::utf8::encode_utf8;
use crate::text::{
    all_digits, dec_val, lemma_dec_roundtrip, lemma_encode_utf8_concat, spec_dec, usize_to_string,
};

verus! {

/// Everything before a success response's body: the status line, the
/// session cookie, and a Content-Length giving the body's byte length.
pub open spec fn spec_success_head(body: Seq<char>, session_id: nat) -> Seq<char> {
    "HTTP/1.1 200 OK\r\nSet-Cookie: session_id="@ + spec_dec(session_id)
        + "; HttpOnly\r\nContent-Length: "@ + spec_dec(encode_utf8(body).len() as nat)
        + "\r\n\r\n"@
}

/// The characters of a success response carrying `body` and naming the
/// resolved session.
pub open spec fn spec_success_chars(body: Seq<char>, session_id: nat) -> Seq<char> {
    spec_success_head(body, session_id) + body
}

/// The bytes on the wire for a success response.
pub open spec fn spec_success_bytes(body: Seq<char>, session_id: nat) -> Seq<u8> {
    encode_utf8(spec_success_chars(body, session_id))
}

/// The fixed not-found response: its body is eighteen bytes long and the
/// hardcoded Content-Length says so.
pub open spec fn spec_error404_chars() -> Seq<char> {
    "HTTP/1.1 404 NOT FOUND\r\nContent-Length: 18\r\n\r\nResource not found"@
}

/// The bytes on the wire for the not-found response.
pub open spec fn spec_error404_bytes() -> Seq<u8> {
    encode_utf8(spec_error404_chars())
}

/// The characters of a redirect response pointing at `route`; it carries
/// no body.
pub open spec fn spec_redirect_chars(route: Seq<char>) -> Seq<char> {
    "HTTP/1.1 302 Found\r\nLocation: "@ + route + "\r\n\r\n"@
}

/// Formats a success response. The caller passes the body's byte length,
/// which must agree with the body; the session identifier is echoed in a
/// `Set-Cookie` header.
pub fn format_content(length: usize, content: &str, session_id: usize) -> (r: Vec<u8>)
    requires
        length == encode_utf8(content@).len(),
    ensures
        r@ == spec_success_bytes(content@, session_id as nat),
{
    let mut s = "HTTP/1.1 200 OK\r\nSet-Cookie: session_id=".to_owned();
    let sid = usize_to_string(session_id);
    s.append(sid.as_str());
    s.append("; HttpOnly\r\nContent-Length: ");
    let len_str = usize_to_string(length);
    s.append(len_str.as_str());
    s.append("\r\n\r\n");
    s.append(content);
    proof {
        assert(s@ =~= spec_success_chars(content@, session_id as nat));
    }
    s.as_str().as_bytes_vec()
}

/// The fixed not-found response.
pub fn error404() -> (r: String)
    ensures
        r@ == spec_error404_chars(),
{
    "HTTP/1.1 404 NOT FOUND\r\nContent-Length: 18\r\n\r\nResource not found".to_owned()
}

/// A redirect to `route`, as a response string without a body.
pub fn redirect(route: &str) -> (r: String)
    ensures
        r@ == spec_redirect_chars(route@),
{
    let mut s = "HTTP/1.1 302 Found\r\nLocation: ".to_owned();
    s.append(route);
    s.append("\r\n\r\n");
    proof {
        assert(s@ =~= spec_redirect_chars(route@));
    }
    s
}

/// Content-Length correctness: a success response is its head followed
/// by exactly the body's bytes, and the numeral written after
/// `Content-Length: ` in the head reads as exactly that byte count —
/// for ASCII and multi-byte UTF-8 bodies alike.
pub proof fn lemma_content_length_correct(body: Seq<char>, session_id: nat)
    ensures
        ({
            let digits = spec_dec(encode_utf8(body).len() as nat);
            spec_success_bytes(body, session_id) == encode_utf8(spec_success_head(body, session_id))
                + encode_utf8(body) && spec_success_head(body, session_id) == "HTTP/1.1 200 OK\r\nSet-Cookie: session_id="@
                + spec_dec(session_id) + "; HttpOnly\r\nContent-Length: "@ + digits + "\r\n\r\n"@
                && all_digits(digits) && dec_val(digits) == encode_utf8(body).len()
        }),
{
    lemma_encode_utf8_concat(spec_success_head(body, session_id), body);
    lemma_dec_roundtrip(encode_utf8(body).len() as nat);
}

/// Not-found byte-exactness: the fixed response splits at its blank line
/// into the 404 status block and a body of exactly eighteen bytes, the
/// length its Content-Length header names.
pub proof fn lemma_error404_exact()
    ensures
        spec_error404_chars() == "HTTP/1.1 404 NOT FOUND\r\nContent-Length: 18\r\n\r\n"@
            + "Resource not found"@,
        encode_utf8("Resource not found"@).len() == 18,
        spec_error404_bytes() == encode_utf8("HTTP/1.1 404 NOT FOUND\r\nContent-Length: 18\r\n\r\n"@)
            + encode_utf8("Resource not found"@),
{
    reveal_strlit("HTTP/1.1 404 NOT FOUND\r\nContent-Length: 18\r\n\r\nResource not found");
    reveal_strlit("HTTP/1.1 404 NOT FOUND\r\nContent-Length: 18\r\n\r\n");
    reveal_strlit("Resource not found");
    assert(spec_error404_chars() =~= "HTTP/1.1 404 NOT FOUND\r\nContent-Length: 18\r\n\r\n"@
        + "Resource not found"@);
    let body = "Resource not found";
    assert(is_ascii(body)) by {
        assert(forall|i: int| 0 <= i < body@.len() ==> ((#[trigger] body@[i]) as u32) < 128);
    }
    is_ascii_spec_bytes(body);
    assert(encode_utf8(body@).len() == 18);
    lemma_encode_utf8_concat(
        "HTTP/1.1 404 NOT FOUND\r\nContent-Length: 18\r\n\r\n"@,
        "Resource not found"@,
    );
}

} // verus!
