//! A plain success response without session headers, for callers that
//! format bodies directly.

use vstd::prelude::*;
use vstd::utf8::encode_utf8;
use crate::text::{
    all_digits, dec_val, lemma_dec_roundtrip, lemma_encode_utf8_concat, spec_dec, usize_to_string,
};

verus! {

/// The characters of a plain success response: status line, the body's
/// byte length as Content-Length, then the body.
pub open spec fn spec_plain_chars(length: nat, content: Seq<char>) -> Seq<char> {
    "HTTP/1.1 200 OK\r\nContent-Length: "@ + spec_dec(length) + "\r\n\r\n"@ + content
}

/// The fixed server-error response; its body is twenty-one bytes long
/// and the hardcoded Content-Length says so.
pub open spec fn spec_error500_chars() -> Seq<char> {
    "HTTP/1.1 500 Internal Server Error\r\nContent-Length: 21\r\n\r\nInternal Server Error"@
}

/// Content-Length correctness for plain responses: the response built
/// around a body is its head followed by exactly the body's bytes, and
/// the numeral in the head's Content-Length header reads as exactly that
/// byte count.
pub proof fn lemma_plain_content_length(content: Seq<char>)
    ensures
        ({
            let length = encode_utf8(content).len() as nat;
            let digits = spec_dec(length);
            let head = "HTTP/1.1 200 OK\r\nContent-Length: "@ + digits + "\r\n\r\n"@;
            encode_utf8(spec_plain_chars(length, content)) == encode_utf8(head) + encode_utf8(
                content,
            ) && all_digits(digits) && dec_val(digits) == length
        }),
{
    let length = encode_utf8(content).len() as nat;
    let digits = spec_dec(length);
    let head = "HTTP/1.1 200 OK\r\nContent-Length: "@ + digits + "\r\n\r\n"@;
    assert(spec_plain_chars(length, content) =~= head + content);
    lemma_encode_utf8_concat(head, content);
    lemma_dec_roundtrip(length);
}

/// A formatted response held as text until it is written out.
pub struct Response {
    content: String,
}

impl Response {
    /// The full text of the response.
    pub closed spec fn spec_content(self) -> Seq<char> {
        self.content@
    }

    /// Builds the response text around a body whose byte length is
    /// `length`.
    fn generate_content(length: usize, content: &str) -> (r: String)
        ensures
            r@ == spec_plain_chars(length as nat, content@),
    {
        let mut s = "HTTP/1.1 200 OK\r\nContent-Length: ".to_owned();
        let len_str = usize_to_string(length);
        s.append(len_str.as_str());
        s.append("\r\n\r\n");
        s.append(content);
        proof {
            assert(s@ =~= spec_plain_chars(length as nat, content@));
        }
        s
    }

    /// The response as the bytes to write to the connection.
    pub fn as_bytes(&self) -> (r: &[u8])
        ensures
            r@ == encode_utf8(self.spec_content()),
    {
        self.content.as_str().as_bytes()
    }

    /// The fixed server-error response.
    pub fn error() -> (r: Response)
        ensures
            r.spec_content() == spec_error500_chars(),
    {
        Response {
            content: "HTTP/1.1 500 Internal Server Error\r\nContent-Length: 21\r\n\r\nInternal Server Error".to_owned(),
        }
    }

    /// Wraps a body in a success response; the Content-Length header is
    /// computed from the body itself.
    pub fn plain_text(content: &str) -> (r: Response)
        ensures
            r.spec_content() == spec_plain_chars(encode_utf8(content@).len() as nat, content@),
    {
        let length = content.as_bytes().len();
        Response { content: Self::generate_content(length, content) }
    }
}

} // verus!
