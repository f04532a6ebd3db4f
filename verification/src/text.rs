//! Verified text utilities shared by the wire parser and the response
//! formatter: decimal numerals, searching in character and byte sequences,
//! and substring matching.

use vstd::prelude::*;
use vstd::utf8::encode_utf8;

verus! {

// ---------------------------------------------------------------------------
// Decimal digits and numerals over characters
// ---------------------------------------------------------------------------

/// The character is one of the ten ASCII decimal digits.
pub open spec fn is_digit_char(c: char) -> bool {
    48 <= c as u32 && c as u32 <= 57
}

/// Numeric value of an ASCII decimal digit character.
pub open spec fn digit_char_val(c: char) -> nat {
    (c as u32 - 48) as nat
}

/// The digit character for a value below ten.
pub open spec fn spec_digit(d: nat) -> char {
    if d == 0 {
        '0'
    } else if d == 1 {
        '1'
    } else if d == 2 {
        '2'
    } else if d == 3 {
        '3'
    } else if d == 4 {
        '4'
    } else if d == 5 {
        '5'
    } else if d == 6 {
        '6'
    } else if d == 7 {
        '7'
    } else if d == 8 {
        '8'
    } else {
        '9'
    }
}

/// The usual decimal numeral of `n`, most significant digit first,
/// without leading zeros (`0` itself is written `"0"`).
pub open spec fn spec_dec(n: nat) -> Seq<char>
    decreases n,
{
    if n < 10 {
        seq![spec_digit(n)]
    } else {
        spec_dec(n / 10).push(spec_digit(n % 10))
    }
}

/// Every character of the sequence is a decimal digit.
pub open spec fn all_digits(s: Seq<char>) -> bool {
    forall|i: int| 0 <= i < s.len() ==> is_digit_char(s[i])
}

/// The value of a digit sequence read as a decimal numeral.
pub open spec fn dec_val(s: Seq<char>) -> nat
    decreases s.len(),
{
    if s.len() == 0 {
        0
    } else {
        dec_val(s.drop_last()) * 10 + digit_char_val(s.last())
    }
}

/// `spec_dec(n)` is a nonempty digit string whose decimal value is `n`.
pub proof fn lemma_dec_roundtrip(n: nat)
    ensures
        spec_dec(n).len() >= 1,
        all_digits(spec_dec(n)),
        dec_val(spec_dec(n)) == n,
    decreases n,
{
    if n < 10 {
        let s = spec_dec(n);
        assert(s =~= seq![spec_digit(n)]);
        assert(s.drop_last() =~= Seq::<char>::empty());
        assert(dec_val(Seq::<char>::empty()) == 0);
        assert(s.last() == spec_digit(n));
        assert(dec_val(s) == digit_char_val(spec_digit(n)));
    } else {
        lemma_dec_roundtrip(n / 10);
        let s = spec_dec(n);
        assert(s =~= spec_dec(n / 10).push(spec_digit(n % 10)));
        assert(s.drop_last() =~= spec_dec(n / 10));
        assert(s.last() == spec_digit(n % 10));
        assert(dec_val(s) == (n / 10) * 10 + n % 10);
        assert((n / 10) * 10 + n % 10 == n) by (nonlinear_arith);
        assert(forall|i: int|
            0 <= i < s.len() ==> is_digit_char(#[trigger] s[i])) by {
            assert(forall|i: int|
                0 <= i < s.len() - 1 ==> s[i] == spec_dec(n / 10)[i]);
        }
    }
}

/// Extending a digit string on the right can only raise its value.
pub proof fn lemma_dec_val_prefix(s: Seq<char>, i: int)
    requires
        0 <= i <= s.len(),
    ensures
        dec_val(s) >= dec_val(s.take(i)),
    decreases s.len() - i,
{
    if i < s.len() {
        lemma_dec_val_prefix(s, i + 1);
        assert(s.take(i + 1).drop_last() =~= s.take(i));
        assert(dec_val(s.take(i + 1)) == dec_val(s.take(i)) * 10 + digit_char_val(s.take(i + 1).last()));
    } else {
        assert(s.take(i) =~= s);
    }
}

/// A single-character string for a digit value.
pub fn digit_str(d: usize) -> (s: &'static str)
    requires
        d < 10,
    ensures
        s@ =~= seq![spec_digit(d as nat)],
{
    match d {
        0 => {
            proof { reveal_strlit("0"); }
            "0"
        },
        1 => {
            proof { reveal_strlit("1"); }
            "1"
        },
        2 => {
            proof { reveal_strlit("2"); }
            "2"
        },
        3 => {
            proof { reveal_strlit("3"); }
            "3"
        },
        4 => {
            proof { reveal_strlit("4"); }
            "4"
        },
        5 => {
            proof { reveal_strlit("5"); }
            "5"
        },
        6 => {
            proof { reveal_strlit("6"); }
            "6"
        },
        7 => {
            proof { reveal_strlit("7"); }
            "7"
        },
        8 => {
            proof { reveal_strlit("8"); }
            "8"
        },
        _ => {
            proof { reveal_strlit("9"); }
            "9"
        },
    }
}

/// Renders `n` as its decimal numeral.
pub fn usize_to_string(n: usize) -> (s: String)
    ensures
        s@ == spec_dec(n as nat),
    decreases n,
{
    if n < 10 {
        let s = digit_str(n).to_owned();
        proof {
            assert(s@ =~= spec_dec(n as nat));
        }
        s
    } else {
        let mut s = usize_to_string(n / 10);
        s.append(digit_str(n % 10));
        proof {
            assert(s@ =~= spec_dec(n as nat));
        }
        s
    }
}

/// A digit string's value, when it is nonempty, made of digits only, and in
/// range for `usize`; otherwise nothing.
pub open spec fn spec_parse_usize(s: Seq<char>) -> Option<nat> {
    if s.len() > 0 && all_digits(s) && dec_val(s) <= usize::MAX {
        Some(dec_val(s))
    } else {
        None
    }
}

/// Reads a decimal numeral; rejects empty input, non-digit characters and
/// values that do not fit in `usize`.
pub fn parse_usize(s: &str) -> (r: Option<usize>)
    ensures
        match r {
            Some(v) => spec_parse_usize(s@) == Some(v as nat),
            None => spec_parse_usize(s@) is None,
        },
{
    let n = s.unicode_len();
    if n == 0 {
        return None;
    }
    let mut acc: usize = 0;
    let mut i: usize = 0;
    while i < n
        invariant
            i <= n,
            n == s@.len(),
            all_digits(s@.take(i as int)),
            acc == dec_val(s@.take(i as int)),
        decreases n - i,
    {
        let c = s.get_char(i);
        let u = c as u32;
        if u < 48 || u > 57 {
            proof {
                assert(!is_digit_char(s@[i as int]));
            }
            return None;
        }
        let d = (u - 48) as usize;
        proof {
            assert(s@.take(i as int + 1).drop_last() =~= s@.take(i as int));
            assert(dec_val(s@.take(i as int + 1)) == acc * 10 + d);
        }
        if acc > usize::MAX / 10 {
            proof {
                assert(acc * 10 + d > usize::MAX) by (nonlinear_arith)
                    requires
                        acc > usize::MAX / 10,
                        d >= 0,
                ;
                lemma_dec_val_prefix(s@, i as int + 1);
            }
            return None;
        }
        let acc10 = acc * 10;
        proof {
            assert(acc * 10 <= (usize::MAX / 10) * 10) by (nonlinear_arith)
                requires
                    acc <= usize::MAX / 10,
            ;
            assert((usize::MAX / 10) * 10 <= usize::MAX);
        }
        if acc10 > usize::MAX - d {
            proof {
                lemma_dec_val_prefix(s@, i as int + 1);
            }
            return None;
        }
        acc = acc10 + d;
        proof {
            assert(all_digits(s@.take(i as int + 1)));
        }
        i = i + 1;
    }
    proof {
        assert(s@.take(n as int) =~= s@);
    }
    Some(acc)
}

// ---------------------------------------------------------------------------
// Searching and matching
// ---------------------------------------------------------------------------

/// Index of the first occurrence of `x` at or after `i`, or the length of
/// the sequence when there is none.
pub open spec fn find_seq<T>(s: Seq<T>, i: int, x: T) -> int
    decreases s.len() - i when 0 <= i <= s.len()
{
    if i >= s.len() {
        s.len() as int
    } else if s[i] == x {
        i
    } else {
        find_seq(s, i + 1, x)
    }
}

/// What `find_seq` returns: an in-range index of `x` with no earlier
/// occurrence, or the length when `x` is absent.
pub proof fn lemma_find_seq<T>(s: Seq<T>, i: int, x: T)
    requires
        0 <= i <= s.len(),
    ensures
        i <= find_seq(s, i, x) <= s.len(),
        find_seq(s, i, x) < s.len() ==> s[find_seq(s, i, x)] == x,
        forall|k: int| i <= k < find_seq(s, i, x) ==> s[k] != x,
    decreases s.len() - i,
{
    if i < s.len() && s[i] != x {
        lemma_find_seq(s, i + 1, x);
    }
}

/// Index of the first occurrence of `c` in `s` at or after `from`, or the
/// character length of `s` when there is none.
pub fn index_of_char(s: &str, from: usize, c: char) -> (r: usize)
    requires
        from <= s@.len(),
    ensures
        r == find_seq(s@, from as int, c),
{
    let n = s.unicode_len();
    let mut i = from;
    while i < n
        invariant
            from <= i <= n,
            n == s@.len(),
            find_seq(s@, from as int, c) == find_seq(s@, i as int, c),
        decreases n - i,
    {
        if s.get_char(i) == c {
            return i;
        }
        i = i + 1;
    }
    n
}

/// The pattern occurs somewhere in the sequence.
pub open spec fn contains_seq<T>(s: Seq<T>, p: Seq<T>) -> bool {
    exists|k: int| 0 <= k && k + p.len() <= s.len() && #[trigger] s.subrange(k, k + p.len()) == p
}

/// The pattern matches at position `at`.
fn str_matches_at(s: &str, at: usize, p: &str) -> (r: bool)
    requires
        at + p@.len() <= s@.len(),
    ensures
        r == (s@.subrange(at as int, at as int + p@.len()) == p@),
{
    let n = s.unicode_len();
    let m = p.unicode_len();
    let mut j: usize = 0;
    while j < m
        invariant
            j <= m,
            n == s@.len(),
            m == p@.len(),
            at + m <= n,
            forall|k: int| 0 <= k < j ==> s@[at + k] == p@[k],
        decreases m - j,
    {
        if s.get_char(at + j) != p.get_char(j) {
            proof {
                assert(s@.subrange(at as int, at as int + p@.len())[j as int] != p@[j as int]);
            }
            return false;
        }
        j = j + 1;
    }
    proof {
        assert(s@.subrange(at as int, at as int + p@.len()) =~= p@);
    }
    true
}

/// Substring search by scanning every starting position.
pub fn str_contains(s: &str, p: &str) -> (r: bool)
    ensures
        r == contains_seq(s@, p@),
{
    let n = s.unicode_len();
    let m = p.unicode_len();
    if m > n {
        return false;
    }
    if m == 0 {
        proof {
            assert(contains_seq(s@, p@)) by {
                assert(s@.subrange(0, 0 + p@.len() as int) =~= p@);
            }
        }
        return true;
    }
    let mut k: usize = 0;
    while k <= n - m
        invariant
            k <= n - m + 1,
            1 <= m <= n,
            n == s@.len(),
            m == p@.len(),
            forall|k2: int| 0 <= k2 < k ==> #[trigger] s@.subrange(k2, k2 + p@.len()) != p@,
        decreases n - m - k + 1,
    {
        if str_matches_at(s, k, p) {
            proof {
                assert(0 <= k as int && k as int + p@.len() <= s@.len()
                    && s@.subrange(k as int, k as int + p@.len()) == p@);
            }
            return true;
        }
        k = k + 1;
    }
    false
}

/// Character-for-character string equality.
pub fn str_eq(a: &str, b: &str) -> (r: bool)
    ensures
        r == (a@ == b@),
{
    let n = a.unicode_len();
    if n != b.unicode_len() {
        return false;
    }
    let mut i: usize = 0;
    while i < n
        invariant
            i <= n,
            n == a@.len(),
            n == b@.len(),
            forall|k: int| 0 <= k < i ==> a@[k] == b@[k],
        decreases n - i,
    {
        if a.get_char(i) != b.get_char(i) {
            return false;
        }
        i = i + 1;
    }
    proof {
        assert(a@ =~= b@);
    }
    true
}

// ---------------------------------------------------------------------------
// Byte-level helpers for the wire parser
// ---------------------------------------------------------------------------

/// The sequence begins with the pattern.
pub open spec fn starts_with<T>(s: Seq<T>, p: Seq<T>) -> bool {
    p.len() <= s.len() && s.subrange(0, p.len() as int) == p
}

/// Prefix test on byte strings.
pub fn starts_with_bytes(s: &[u8], p: &[u8]) -> (r: bool)
    ensures
        r == starts_with(s@, p@),
{
    let m = p.len();
    if m > s.len() {
        return false;
    }
    let mut j: usize = 0;
    while j < m
        invariant
            j <= m,
            m == p@.len(),
            m <= s@.len(),
            forall|k: int| 0 <= k < j ==> s@[k] == p@[k],
        decreases m - j,
    {
        if s[j] != p[j] {
            proof {
                assert(s@.subrange(0, p@.len() as int)[j as int] != p@[j as int]);
            }
            return false;
        }
        j = j + 1;
    }
    proof {
        assert(s@.subrange(0, p@.len() as int) =~= p@);
    }
    true
}

/// Index of the first occurrence of `b` in `s` at or after `from`, or the
/// length of `s` when there is none.
pub fn index_of_byte(s: &[u8], from: usize, b: u8) -> (r: usize)
    requires
        from <= s@.len(),
    ensures
        r == find_seq(s@, from as int, b),
{
    let n = s.len();
    let mut i = from;
    while i < n
        invariant
            from <= i <= n,
            n == s@.len(),
            find_seq(s@, from as int, b) == find_seq(s@, i as int, b),
        decreases n - i,
    {
        if s[i] == b {
            return i;
        }
        i = i + 1;
    }
    n
}

/// The byte is ASCII whitespace (tab through carriage return, or space).
pub open spec fn is_ascii_space(b: u8) -> bool {
    9 <= b <= 13 || b == 32
}

/// The sequence with its trailing ASCII whitespace removed.
pub open spec fn trim_spaces_end(s: Seq<u8>) -> Seq<u8>
    decreases s.len(),
{
    if s.len() > 0 && is_ascii_space(s.last()) {
        trim_spaces_end(s.drop_last())
    } else {
        s
    }
}

/// ASCII whitespace test on a byte.
pub fn is_space_u8(b: u8) -> (r: bool)
    ensures
        r == is_ascii_space(b),
{
    9 <= b && b <= 13 || b == 32
}

/// Copies `data[i..j]` and removes its trailing ASCII whitespace.
pub fn copy_trimmed(data: &[u8], i: usize, j: usize) -> (line: Vec<u8>)
    requires
        i <= j <= data@.len(),
    ensures
        line@ == trim_spaces_end(data@.subrange(i as int, j as int)),
{
    let mut t = j;
    while t > i && is_space_u8(data[t - 1])
        invariant
            i <= t <= j <= data@.len(),
            trim_spaces_end(data@.subrange(i as int, j as int)) == trim_spaces_end(
                data@.subrange(i as int, t as int),
            ),
        decreases t,
    {
        proof {
            let cur = data@.subrange(i as int, t as int);
            assert(cur.last() == data@[t - 1]);
            assert(cur.drop_last() =~= data@.subrange(i as int, t - 1));
            assert(trim_spaces_end(cur) == trim_spaces_end(data@.subrange(i as int, t - 1)));
        }
        t = t - 1;
    }
    proof {
        let cur = data@.subrange(i as int, t as int);
        if t == i {
            assert(cur =~= Seq::<u8>::empty());
            assert(trim_spaces_end(cur) == cur);
        } else {
            assert(cur.last() == data@[t - 1]);
            assert(!is_ascii_space(cur.last()));
            assert(trim_spaces_end(cur) == cur);
        }
    }
    let mut line: Vec<u8> = Vec::new();
    let mut k = i;
    while k < t
        invariant
            i <= k <= t <= data@.len(),
            line@ =~= data@.subrange(i as int, k as int),
        decreases t - k,
    {
        line.push(data[k]);
        k = k + 1;
    }
    proof {
        assert(line@ =~= data@.subrange(i as int, t as int));
    }
    line
}

/// The byte is one of the ten ASCII decimal digits.
pub open spec fn is_digit_byte(b: u8) -> bool {
    48 <= b <= 57
}

/// Numeric value of an ASCII decimal digit byte.
pub open spec fn digit_byte_val(b: u8) -> nat {
    (b - 48) as nat
}

/// Every byte of the sequence is a decimal digit.
pub open spec fn all_digit_bytes(s: Seq<u8>) -> bool {
    forall|i: int| 0 <= i < s.len() ==> is_digit_byte(s[i])
}

/// The value of a digit byte sequence read as a decimal numeral.
pub open spec fn dec_val_bytes(s: Seq<u8>) -> nat
    decreases s.len(),
{
    if s.len() == 0 {
        0
    } else {
        dec_val_bytes(s.drop_last()) * 10 + digit_byte_val(s.last())
    }
}

/// Extending a digit byte string on the right can only raise its value.
pub proof fn lemma_dec_val_bytes_prefix(s: Seq<u8>, i: int)
    requires
        0 <= i <= s.len(),
    ensures
        dec_val_bytes(s) >= dec_val_bytes(s.take(i)),
    decreases s.len() - i,
{
    if i < s.len() {
        lemma_dec_val_bytes_prefix(s, i + 1);
        assert(s.take(i + 1).drop_last() =~= s.take(i));
        assert(dec_val_bytes(s.take(i + 1)) == dec_val_bytes(s.take(i)) * 10 + digit_byte_val(
            s.take(i + 1).last(),
        ));
    } else {
        assert(s.take(i) =~= s);
    }
}

/// A digit byte string's value, when it is nonempty, made of digits only,
/// and in range for `usize`; otherwise nothing.
pub open spec fn spec_parse_usize_bytes(s: Seq<u8>) -> Option<nat> {
    if s.len() > 0 && all_digit_bytes(s) && dec_val_bytes(s) <= usize::MAX {
        Some(dec_val_bytes(s))
    } else {
        None
    }
}

/// Reads a decimal numeral from `s[from..]`; rejects empty input,
/// non-digit bytes and values that do not fit in `usize`.
pub fn parse_usize_bytes(s: &[u8], from: usize) -> (r: Option<usize>)
    requires
        from <= s@.len(),
    ensures
        match r {
            Some(v) => spec_parse_usize_bytes(s@.skip(from as int)) == Some(v as nat),
            None => spec_parse_usize_bytes(s@.skip(from as int)) is None,
        },
{
    let ghost t = s@.skip(from as int);
    let n = s.len();
    if from == n {
        return None;
    }
    let mut acc: usize = 0;
    let mut i: usize = from;
    while i < n
        invariant
            from <= i <= n,
            n == s@.len(),
            t == s@.skip(from as int),
            all_digit_bytes(t.take(i - from)),
            acc == dec_val_bytes(t.take(i - from)),
        decreases n - i,
    {
        let b = s[i];
        proof {
            assert(t[i - from] == s@[i as int]);
        }
        if b < 48 || b > 57 {
            proof {
                assert(!is_digit_byte(t[i - from]));
            }
            return None;
        }
        let d = (b - 48) as usize;
        proof {
            assert(t.take(i - from + 1).drop_last() =~= t.take(i - from));
            assert(t.take(i - from + 1).last() == t[i - from]);
            assert(dec_val_bytes(t.take(i - from + 1)) == acc * 10 + d);
        }
        if acc > usize::MAX / 10 {
            proof {
                assert(acc * 10 + d > usize::MAX) by (nonlinear_arith)
                    requires
                        acc > usize::MAX / 10,
                        d >= 0,
                ;
                lemma_dec_val_bytes_prefix(t, i - from + 1);
            }
            return None;
        }
        let acc10 = acc * 10;
        proof {
            assert(acc * 10 <= (usize::MAX / 10) * 10) by (nonlinear_arith)
                requires
                    acc <= usize::MAX / 10,
            ;
            assert((usize::MAX / 10) * 10 <= usize::MAX);
        }
        if acc10 > usize::MAX - d {
            proof {
                lemma_dec_val_bytes_prefix(t, i - from + 1);
            }
            return None;
        }
        acc = acc10 + d;
        proof {
            assert(all_digit_bytes(t.take(i - from + 1)));
        }
        i = i + 1;
    }
    proof {
        assert(t.take(n - from) =~= t);
    }
    Some(acc)
}

// ---------------------------------------------------------------------------
// UTF-8 byte lengths
// ---------------------------------------------------------------------------

/// UTF-8 encoding maps concatenation to concatenation.
pub proof fn lemma_encode_utf8_concat(a: Seq<char>, b: Seq<char>)
    ensures
        encode_utf8(a + b) == encode_utf8(a) + encode_utf8(b),
    decreases a.len(),
{
    if a.len() == 0 {
        assert(a + b =~= b);
        assert(encode_utf8(a) =~= Seq::<u8>::empty());
        assert(encode_utf8(a) + encode_utf8(b) =~= encode_utf8(b));
    } else {
        assert((a + b).drop_first() =~= a.drop_first() + b);
        lemma_encode_utf8_concat(a.drop_first(), b);
        assert((a + b)[0] == a[0]);
        assert(encode_utf8(a + b) =~= encode_utf8(a) + encode_utf8(b));
    }
}

} // verus!
