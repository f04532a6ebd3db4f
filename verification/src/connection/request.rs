//! Wire parsing: the raw bytes of one connection's request become a
//! structured [`Request`], and a form-encoded body becomes a map.
//!
//! The grammar is the classic one: a start line `METHOD SP PATH`, header
//! lines ended by a blank line, then exactly `Content-Length` body bytes.
//! A session identifier rides in any header line containing the substring
//! `session_id`, as the portion after its first `=`.

use vstd::prelude::*;
use vstd::string::StringSliceAdditionalSpecFns;
use vstd::utf8::{decode_utf8, valid_utf8};
use crate::connection::method::{spec_method_token, Method};
use crate::dict::Dict;
use crate::text::{
    contains_seq, copy_trimmed, find_seq, index_of_byte, index_of_char, lemma_find_seq,
    parse_usize, parse_usize_bytes, spec_parse_usize, spec_parse_usize_bytes, starts_with,
    starts_with_bytes, str_contains, trim_spaces_end,
};

verus! {

/// Why parsing a request failed. Every failure here is fatal for its
/// connection: no response is owed to the client.
#[derive(Debug, Clone, Copy, PartialEq, Eq, Structural)]
pub enum ParseError {
    /// A header line is not valid UTF-8.
    InvalidUtf8,
    /// Fewer body bytes arrived than the Content-Length header announced.
    IncompleteBody,
    /// The method token is neither `GET` nor `POST`.
    UnsupportedMethod,
    /// The start line has no token after the method.
    MalformedStartLine,
}

/// Malformed session identifiers are replaced by this out-of-range
/// sentinel rather than aborting the parse. The store issues identifiers
/// strictly below its count, which cannot exceed this value, so the
/// sentinel never names an issued session and such a request simply gets
/// a fresh one.
pub const SESSION_SENTINEL: usize = usize::MAX;

/// What a parsed request denotes, with every text field read as its
/// character sequence.
pub ghost struct RequestModel {
    pub resource: Seq<char>,
    pub method: Method,
    pub header: Seq<char>,
    pub body: Option<Seq<char>>,
    pub session: Option<usize>,
}

/// A parsed HTTP request.
#[derive(Debug)]
pub struct Request {
    /// The resource path, query string included, verbatim.
    pub resource: String,
    /// The request method.
    pub method: Method,
    /// The header block: its lines, trailing whitespace removed, joined
    /// by newlines.
    pub header: String,
    /// The body, present exactly when a positive Content-Length was sent.
    pub body: Option<String>,
    /// The session identifier claimed by the client, if any.
    pub session: Option<usize>,
}

impl View for Request {
    type V = RequestModel;

    open spec fn view(&self) -> RequestModel {
        RequestModel {
            resource: self.resource@,
            method: self.method,
            header: self.header@,
            body: match self.body {
                Some(b) => Some(b@),
                None => None,
            },
            session: self.session,
        }
    }
}

// ---------------------------------------------------------------------------
// The header scan, at byte level
// ---------------------------------------------------------------------------

/// The wire spelling of the Content-Length header prefix.
pub open spec fn spec_cl_prefix() -> Seq<u8> {
    ("Content-Length: ").spec_bytes()
}

/// A Content-Length value's bytes read as a number; anything malformed
/// or out of range counts as zero.
pub open spec fn spec_cl_value(s: Seq<u8>) -> nat {
    match spec_parse_usize_bytes(s) {
        Some(v) => v,
        None => 0,
    }
}

/// The outcome of scanning a header block.
pub ghost struct HeadScan {
    /// The trimmed header lines joined by newlines.
    pub header: Seq<u8>,
    /// The value of the last Content-Length line, or zero.
    pub content_length: nat,
    /// Index of the first body byte.
    pub body_start: int,
}

/// Walks the data line by line from `i`: a line ends at a newline or at
/// the end of the data and loses its trailing whitespace; an empty line
/// ends the header block, and what follows it is the body.
pub open spec fn spec_scan(data: Seq<u8>, i: int, header: Seq<u8>, content_length: nat) -> HeadScan
    decreases data.len() + 1 - i,
    when 0 <= i <= data.len() + 1
{
    if i >= data.len() {
        HeadScan { header, content_length, body_start: data.len() as int }
    } else {
        let j = find_seq(data, i, 10u8);
        let line = trim_spaces_end(data.subrange(i, j));
        if line.len() == 0 {
            HeadScan {
                header,
                content_length,
                body_start: if j + 1 <= data.len() {
                    j + 1
                } else {
                    data.len() as int
                },
            }
        } else {
            let h2 = if header.len() == 0 {
                line
            } else {
                header + seq![10u8] + line
            };
            let cl2 = if starts_with(line, spec_cl_prefix()) {
                spec_cl_value(line.skip(spec_cl_prefix().len() as int))
            } else {
                content_length
            };
            proof {
                lemma_find_seq(data, i, 10u8);
            }
            spec_scan(data, j + 1, h2, cl2)
        }
    }
}

/// The scan of a whole request's bytes.
pub open spec fn spec_head(data: Seq<u8>) -> HeadScan {
    spec_scan(data, 0, Seq::empty(), 0)
}

/// The bytes that follow the header block.
pub open spec fn spec_rest(data: Seq<u8>) -> Seq<u8> {
    data.subrange(spec_head(data).body_start, data.len() as int)
}

/// Recursive worker for [`scan_head`], mirroring [`spec_scan`].
fn scan_rec(data: &[u8], i: usize, header: Vec<u8>, content_length: usize) -> (r: (
    Vec<u8>,
    usize,
    usize,
))
    requires
        i <= data@.len(),
    ensures
        ({
            let hs = spec_scan(data@, i as int, header@, content_length as nat);
            r.0@ == hs.header && r.1 as nat == hs.content_length && r.2 as int == hs.body_start
                && r.2 <= data@.len()
        }),
    decreases data@.len() - i,
{
    if i >= data.len() {
        return (header, content_length, i);
    }
    let j = index_of_byte(data, i, 10u8);
    proof {
        lemma_find_seq(data@, i as int, 10u8);
    }
    let line = copy_trimmed(data, i, j);
    if line.len() == 0 {
        let bs = if j < data.len() {
            j + 1
        } else {
            data.len()
        };
        return (header, content_length, bs);
    }
    let p = "Content-Length: ".as_bytes();
    let cl2 = if starts_with_bytes(line.as_slice(), p) {
        match parse_usize_bytes(line.as_slice(), p.len()) {
            Some(v) => v,
            None => 0,
        }
    } else {
        content_length
    };
    let ghost line_view = line@;
    let mut header2 = header;
    if header2.len() > 0 {
        header2.push(10u8);
    }
    let mut tail = line;
    header2.append(&mut tail);
    proof {
        if header@.len() == 0 {
            assert(header2@ =~= line_view);
        } else {
            assert(header2@ =~= header@ + seq![10u8] + line_view);
        }
    }
    if j >= data.len() {
        proof {
            let hs = spec_scan(data@, i as int, header@, content_length as nat);
            assert(hs == spec_scan(data@, j + 1, header2@, cl2 as nat));
        }
        return (header2, cl2, data.len());
    }
    scan_rec(data, j + 1, header2, cl2)
}

/// Scans a header block: the joined trimmed lines, the Content-Length in
/// force, and where the body starts.
fn scan_head(data: &[u8]) -> (r: (Vec<u8>, usize, usize))
    ensures
        ({
            let hs = spec_head(data@);
            r.0@ == hs.header && r.1 as nat == hs.content_length && r.2 as int == hs.body_start
                && r.2 <= data@.len()
        }),
{
    let header: Vec<u8> = Vec::new();
    scan_rec(data, 0, header, 0)
}

/// The Content-Length announced by the header block of `data`. A caller
/// that has read the header lines of a request uses this to learn how
/// many body bytes to read before handing the request over whole.
pub fn content_length_of(data: &[u8]) -> (n: usize)
    ensures
        n as nat == spec_head(data@).content_length,
{
    let (_, content_length, _) = scan_head(data);
    content_length
}

// ---------------------------------------------------------------------------
// Decoding, behind trusted wrappers
// ---------------------------------------------------------------------------

/// The characters that lossy UTF-8 decoding yields for a byte sequence;
/// a function of the bytes alone.
pub uninterp spec fn lossy_utf8(bytes: Seq<u8>) -> Seq<char>;

/// Relies on String::from_utf8_lossy: it decodes a byte sequence by the
/// bytes alone, replacing invalid sequences, and its documentation
/// promises that valid UTF-8 comes through unchanged.
#[verifier::external_body]
fn decode_lossy(bytes: &Vec<u8>) -> (r: String)
    ensures
        r@ == lossy_utf8(bytes@),
        valid_utf8(bytes@) ==> r@ == decode_utf8(bytes@),
{
    String::from_utf8_lossy(bytes).into_owned()
}

/// Relies on std::str::from_utf8: it accepts exactly the valid UTF-8
/// byte sequences and decodes them.
#[verifier::external_body]
fn decode_strict(bytes: &Vec<u8>) -> (r: Option<String>)
    ensures
        r is Some <==> valid_utf8(bytes@),
        r matches Some(s) ==> s@ == decode_utf8(bytes@),
{
    std::str::from_utf8(bytes).ok().map(|s| s.to_owned())
}

// ---------------------------------------------------------------------------
// The start line and the session header, at character level
// ---------------------------------------------------------------------------

/// The header up to its first newline.
pub open spec fn spec_start_line(h: Seq<char>) -> Seq<char> {
    h.subrange(0, find_seq(h, 0, '\n'))
}

/// The start line's first token: up to the first space.
pub open spec fn spec_method_tok(line: Seq<char>) -> Seq<char> {
    line.subrange(0, find_seq(line, 0, ' '))
}

/// The start line's second token: between the first space and the next.
pub open spec fn spec_path_tok(line: Seq<char>) -> Seq<char> {
    let p = find_seq(line, 0, ' ');
    line.subrange(p + 1, find_seq(line, p + 1, ' '))
}

/// A line with one trailing carriage return removed.
pub open spec fn strip_cr(line: Seq<char>) -> Seq<char> {
    if line.len() > 0 && line.last() == '\r' {
        line.drop_last()
    } else {
        line
    }
}

/// A claimed session identifier's characters read as a number; anything
/// malformed or out of range becomes the sentinel.
pub open spec fn spec_sid_value(s: Seq<char>) -> usize {
    match spec_parse_usize(s) {
        Some(v) => v as usize,
        None => SESSION_SENTINEL,
    }
}

/// Scans the header's lines from `i` for the first one containing
/// `session_id`: its value is what follows the first `=`; a line that
/// has no `=` yields nothing, as does a header with no such line.
pub open spec fn spec_session_scan(h: Seq<char>, i: int) -> Option<usize>
    decreases h.len() + 1 - i,
    when 0 <= i <= h.len() + 1
{
    if i > h.len() {
        None
    } else {
        let j = find_seq(h, i, '\n');
        let line = strip_cr(h.subrange(i, j));
        if contains_seq(line, "session_id"@) {
            let e = find_seq(line, 0, '=');
            if e >= line.len() {
                None
            } else {
                Some(spec_sid_value(line.subrange(e + 1, line.len() as int)))
            }
        } else {
            proof {
                lemma_find_seq(h, i, '\n');
            }
            spec_session_scan(h, j + 1)
        }
    }
}

/// Recursive worker for [`Request::get_session`].
fn session_scan_at(header_str: &str, i: usize) -> (r: Option<usize>)
    requires
        i <= header_str@.len(),
    ensures
        r == spec_session_scan(header_str@, i as int),
    decreases header_str@.len() - i,
{
    let n = header_str.unicode_len();
    let j = index_of_char(header_str, i, '\n');
    proof {
        lemma_find_seq(header_str@, i as int, '\n');
    }
    let rawline = header_str.substring_char(i, j);
    let rl = rawline.unicode_len();
    let line: &str = if rl > 0 && rawline.get_char(rl - 1) == '\r' {
        let stripped = rawline.substring_char(0, rl - 1);
        proof {
            assert(rawline@.drop_last() =~= rawline@.subrange(0, rl - 1));
        }
        stripped
    } else {
        rawline
    };
    proof {
        assert(line@ == strip_cr(header_str@.subrange(i as int, j as int)));
    }
    if str_contains(line, "session_id") {
        let e = index_of_char(line, 0, '=');
        proof {
            lemma_find_seq(line@, 0, '=');
        }
        let ll = line.unicode_len();
        if e >= ll {
            return None;
        }
        let v = line.substring_char(e + 1, ll);
        match parse_usize(v) {
            Some(x) => Some(x),
            None => Some(SESSION_SENTINEL),
        }
    } else {
        if j >= n {
            proof {
                assert(spec_session_scan(header_str@, j as int + 1) is None);
            }
            return None;
        }
        session_scan_at(header_str, j + 1)
    }
}

// ---------------------------------------------------------------------------
// The parse itself
// ---------------------------------------------------------------------------

/// The request denoted by a connection's bytes, or the failure that
/// aborts the connection. In order of precedence: the header lines must
/// be UTF-8; a positive Content-Length must be covered by the bytes that
/// follow the blank line; the start line's first token must be `GET` or
/// `POST` and must be followed by a path token.
pub open spec fn spec_parse(data: Seq<u8>) -> Result<RequestModel, ParseError> {
    let hs = spec_head(data);
    if !valid_utf8(hs.header) {
        Err(ParseError::InvalidUtf8)
    } else {
        let header = decode_utf8(hs.header);
        let rest = spec_rest(data);
        if hs.content_length > 0 && rest.len() < hs.content_length {
            Err(ParseError::IncompleteBody)
        } else {
            let line = spec_start_line(header);
            match spec_method_token(spec_method_tok(line)) {
                None => Err(ParseError::UnsupportedMethod),
                Some(method) => if find_seq(line, 0, ' ') >= line.len() {
                    Err(ParseError::MalformedStartLine)
                } else {
                    Ok(
                        RequestModel {
                            resource: spec_path_tok(line),
                            method,
                            header,
                            body: if hs.content_length == 0 {
                                None
                            } else {
                                Some(lossy_utf8(rest.take(hs.content_length as int)))
                            },
                            session: spec_session_scan(header, 0),
                        },
                    )
                },
            }
        }
    }
}

impl Request {
    /// Parses the raw bytes of one request.
    pub fn parse(data: &[u8]) -> (r: Result<Request, ParseError>)
        ensures
            r matches Ok(req) ==> spec_parse(data@) == Ok::<RequestModel, ParseError>(req@),
            r matches Err(e) ==> spec_parse(data@) == Err::<RequestModel, ParseError>(e),
    {
        let (header_bytes, content_length, body_start) = scan_head(data);
        let header = match decode_strict(&header_bytes) {
            Some(h) => h,
            None => {
                return Err(ParseError::InvalidUtf8);
            },
        };
        let body: Option<String>;
        if content_length > 0 {
            if data.len() - body_start < content_length {
                return Err(ParseError::IncompleteBody);
            }
            let body_end = body_start + content_length;
            let mut body_bytes: Vec<u8> = Vec::new();
            let mut k = body_start;
            while k < body_end
                invariant
                    body_start <= k <= body_end <= data@.len(),
                    body_end == body_start + content_length,
                    body_bytes@ =~= data@.subrange(body_start as int, k as int),
                decreases body_end - k,
            {
                body_bytes.push(data[k]);
                k = k + 1;
            }
            proof {
                assert(body_bytes@ =~= spec_rest(data@).take(content_length as int));
            }
            body = Some(decode_lossy(&body_bytes));
        } else {
            body = None;
        }
        let hstr = header.as_str();
        let nl = index_of_char(hstr, 0, '\n');
        proof {
            lemma_find_seq(header@, 0, '\n');
        }
        let line = hstr.substring_char(0, nl);
        proof {
            assert(line@ == spec_start_line(header@));
        }
        let sp = index_of_char(line, 0, ' ');
        proof {
            lemma_find_seq(line@, 0, ' ');
        }
        let mtok = line.substring_char(0, sp);
        let method = match Method::from_string(mtok) {
            Some(m) => m,
            None => {
                return Err(ParseError::UnsupportedMethod);
            },
        };
        let llen = line.unicode_len();
        if sp >= llen {
            return Err(ParseError::MalformedStartLine);
        }
        let sp2 = index_of_char(line, sp + 1, ' ');
        proof {
            lemma_find_seq(line@, sp as int + 1, ' ');
        }
        let resource = line.substring_char(sp + 1, sp2).to_owned();
        let session = Self::get_session(hstr);
        let req = Request { resource, method, header, body, session };
        proof {
            assert(spec_parse(data@) == Ok::<RequestModel, ParseError>(req@));
        }
        Ok(req)
    }

    /// The session identifier claimed in a header block, if any line of
    /// it mentions `session_id`.
    pub fn get_session(header_str: &str) -> (r: Option<usize>)
        ensures
            r == spec_session_scan(header_str@, 0),
    {
        session_scan_at(header_str, 0)
    }
}

// ---------------------------------------------------------------------------
// Form-encoded bodies
// ---------------------------------------------------------------------------

/// Splits the body on `&` from `i` and folds each `key=value` pair into
/// the map, later pairs overwriting earlier ones. A pair must contain
/// exactly one `=`; otherwise the whole body is rejected.
pub open spec fn spec_forms_scan(b: Seq<char>, i: int, acc: Map<Seq<char>, Seq<char>>) -> Option<
    Map<Seq<char>, Seq<char>>,
>
    decreases b.len() + 1 - i,
    when 0 <= i <= b.len() + 1
{
    if i > b.len() {
        Some(acc)
    } else {
        let j = find_seq(b, i, '&');
        let pair = b.subrange(i, j);
        let e = find_seq(pair, 0, '=');
        if e >= pair.len() {
            None
        } else if find_seq(pair, e + 1, '=') < pair.len() {
            None
        } else {
            let acc2 = acc.insert(pair.subrange(0, e), pair.subrange(e + 1, pair.len() as int));
            proof {
                lemma_find_seq(b, i, '&');
            }
            if j >= b.len() {
                Some(acc2)
            } else {
                spec_forms_scan(b, j + 1, acc2)
            }
        }
    }
}

/// The mapping denoted by a form-encoded body, when every pair is
/// well-formed.
pub open spec fn spec_from_forms(b: Seq<char>) -> Option<Map<Seq<char>, Seq<char>>> {
    spec_forms_scan(b, 0, Map::empty())
}

/// The string map reads exactly as the character map.
pub open spec fn forms_match(d: Map<Seq<char>, String>, m: Map<Seq<char>, Seq<char>>) -> bool {
    d.dom() == m.dom() && forall|k: Seq<char>| m.contains_key(k) ==> (#[trigger] d[k])@ == m[k]
}

/// Recursive worker for [`from_forms`].
fn forms_scan(body: &str, i: usize, acc: Dict<String>, macc: Ghost<Map<Seq<char>, Seq<char>>>) -> (r:
    Option<Dict<String>>)
    requires
        i <= body@.len(),
        forms_match(acc@, macc@),
    ensures
        match r {
            Some(d) => spec_forms_scan(body@, i as int, macc@) matches Some(m) && forms_match(
                d@,
                m,
            ),
            None => spec_forms_scan(body@, i as int, macc@) is None,
        },
    decreases body@.len() - i,
{
    let n = body.unicode_len();
    let j = index_of_char(body, i, '&');
    proof {
        lemma_find_seq(body@, i as int, '&');
    }
    let pair = body.substring_char(i, j);
    let plen = pair.unicode_len();
    let e = index_of_char(pair, 0, '=');
    proof {
        lemma_find_seq(pair@, 0, '=');
    }
    if e >= plen {
        return None;
    }
    let e2 = index_of_char(pair, e + 1, '=');
    if e2 < plen {
        return None;
    }
    let key = pair.substring_char(0, e).to_owned();
    let value = pair.substring_char(e + 1, plen).to_owned();
    let ghost key_view = key@;
    let ghost value_view = value@;
    let mut acc2 = acc;
    acc2.insert(key, value);
    let ghost macc2 = macc@.insert(key_view, value_view);
    proof {
        assert(acc2@.dom() =~= macc2.dom());
        assert(forms_match(acc2@, macc2));
    }
    if j >= n {
        Some(acc2)
    } else {
        forms_scan(body, j + 1, acc2, Ghost(macc2))
    }
}

/// Decodes a form-encoded body `key1=value1&key2=value2` into a map.
/// Keys are unique; a repeated key keeps the value written last. A pair
/// without exactly one `=` makes the whole body malformed.
pub fn from_forms(body: &String) -> (r: Option<Dict<String>>)
    ensures
        match r {
            Some(d) => spec_from_forms(body@) matches Some(m) && forms_match(d@, m),
            None => spec_from_forms(body@) is None,
        },
{
    let acc = Dict::new();
    proof {
        assert(acc@.dom() =~= Map::<Seq<char>, Seq<char>>::empty().dom());
    }
    forms_scan(body.as_str(), 0, acc, Ghost(Map::empty()))
}

} // verus!
