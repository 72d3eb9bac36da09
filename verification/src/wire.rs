//! Bytes on the wire of the onion transport: HTTP/1.0 responses that onion services send
//! back, read without any HTTP library.

use vstd::prelude::*;
use vstd::string::StringSliceAdditionalSpecFns;
use vstd::utf8::{decode_utf8, valid_utf8};

verus! {

/// `u8::is_ascii_whitespace`: space, tab, line feed, form feed, carriage return.
pub open spec fn is_ascii_ws(b: u8) -> bool {
    b == 0x20 || b == 0x09 || b == 0x0a || b == 0x0c || b == 0x0d
}

fn ascii_ws(b: u8) -> (r: bool)
    ensures
        r == is_ascii_ws(b),
{
    b == 0x20 || b == 0x09 || b == 0x0a || b == 0x0c || b == 0x0d
}

/// `v` without its leading ASCII whitespace.
pub open spec fn trim_start_ws(v: Seq<u8>) -> Seq<u8>
    decreases v.len(),
{
    if v.len() > 0 && is_ascii_ws(v[0]) {
        trim_start_ws(v.drop_first())
    } else {
        v
    }
}

/// `v` without its trailing ASCII whitespace.
pub open spec fn trim_end_ws(v: Seq<u8>) -> Seq<u8>
    decreases v.len(),
{
    if v.len() > 0 && is_ascii_ws(v.last()) {
        trim_end_ws(v.drop_last())
    } else {
        v
    }
}

/// `v` without leading and trailing ASCII whitespace.
pub open spec fn trim_ws(v: Seq<u8>) -> Seq<u8> {
    trim_end_ws(trim_start_ws(v))
}

/// A header line without its final carriage return, if it has one.
pub open spec fn without_cr(line: Seq<u8>) -> Seq<u8> {
    if line.len() > 0 && line.last() == 0x0d {
        line.drop_last()
    } else {
        line
    }
}

/// Removes one trailing carriage return.
pub fn trim_line(line: &[u8]) -> (r: &[u8])
    ensures
        r@ == without_cr(line@),
{
    let n = line.len();
    if n > 0 && line[n - 1] == 0x0d {
        &line[0..n - 1]
    } else {
        line
    }
}

/// Removes leading and trailing ASCII whitespace.
pub fn trim_ascii(value: &[u8]) -> (r: &[u8])
    ensures
        r@ == trim_ws(value@),
{
    let n = value.len();
    let mut start: usize = 0;
    assert(value@.subrange(0, n as int) == value@);
    while start < n && ascii_ws(value[start])
        invariant
            n == value@.len(),
            start <= n,
            trim_start_ws(value@) == trim_start_ws(value@.subrange(start as int, n as int)),
        decreases n - start,
    {
        assert(value@.subrange(start as int, n as int).drop_first() == value@.subrange(
            start + 1,
            n as int,
        ));
        start = start + 1;
    }
    assert(trim_start_ws(value@) == value@.subrange(start as int, n as int));
    let mut end: usize = n;
    while end > start && ascii_ws(value[end - 1])
        invariant
            n == value@.len(),
            start <= end <= n,
            trim_start_ws(value@) == value@.subrange(start as int, n as int),
            trim_ws(value@) == trim_end_ws(value@.subrange(start as int, end as int)),
        decreases end - start,
    {
        assert(value@.subrange(start as int, end as int).drop_last() == value@.subrange(
            start as int,
            end - 1,
        ));
        end = end - 1;
    }
    &value[start..end]
}

/// Where the line that starts at or after `pos` ends: the position of its line break and
/// the break's length (2 for CR LF, 1 for a bare LF), or `None` when no break follows.
pub open spec fn line_end_from(body: Seq<u8>, pos: int) -> Option<(int, int)>
    decreases body.len() - pos,
{
    if pos < 0 || pos >= body.len() {
        None
    } else if pos + 2 <= body.len() && body[pos] == 0x0d && body[pos + 1] == 0x0a {
        Some((pos, 2))
    } else if body[pos] == 0x0a {
        Some((pos, 1))
    } else {
        line_end_from(body, pos + 1)
    }
}

pub proof fn lemma_line_end_bounds(body: Seq<u8>, pos: int)
    ensures
        line_end_from(body, pos) matches Some((e, n)) ==> pos <= e && (n == 1 || n == 2) && e
            + n <= body.len(),
    decreases body.len() - pos,
{
    if 0 <= pos < body.len() {
        lemma_line_end_bounds(body, pos + 1);
    }
}

/// Finds the end of the line that starts at `start`.
pub fn find_line_end(body: &[u8], start: usize) -> (r: Option<(usize, usize)>)
    ensures
        match line_end_from(body@, start as int) {
            Some((e, n)) => r == Some((e as usize, n as usize)),
            None => r is None,
        },
{
    proof {
        lemma_line_end_bounds(body@, start as int);
    }
    let mut pos = start;
    while pos < body.len()
        invariant
            start <= pos,
            line_end_from(body@, start as int) == line_end_from(body@, pos as int),
        decreases body@.len() - pos,
    {
        if pos + 1 < body.len() && body[pos] == 0x0d && body[pos + 1] == 0x0a {
            return Some((pos, 2));
        }
        if body[pos] == 0x0a {
            return Some((pos, 1));
        }
        pos = pos + 1;
    }
    None
}

/// The first position at or after `from` where `pattern` occurs in `raw`.
pub open spec fn find_from(raw: Seq<u8>, pattern: Seq<u8>, from: int) -> Option<int>
    decreases raw.len() + 1 - from,
{
    if from < 0 || from + pattern.len() > raw.len() {
        None
    } else if raw.subrange(from, from + pattern.len()) == pattern {
        Some(from)
    } else {
        find_from(raw, pattern, from + 1)
    }
}

pub proof fn lemma_find_from_bounds(raw: Seq<u8>, pattern: Seq<u8>, from: int)
    ensures
        find_from(raw, pattern, from) matches Some(p) ==> from <= p && p + pattern.len()
            <= raw.len() && raw.subrange(p, p + pattern.len()) == pattern,
    decreases raw.len() + 1 - from,
{
    if 0 <= from && from + pattern.len() <= raw.len() {
        lemma_find_from_bounds(raw, pattern, from + 1);
    }
}

fn matches_at(raw: &[u8], pattern: &[u8], at: usize) -> (r: bool)
    requires
        at + pattern@.len() <= raw@.len(),
    ensures
        r == (raw@.subrange(at as int, at + pattern@.len()) == pattern@),
{
    let n = raw.len();
    let mut i: usize = 0;
    while i < pattern.len()
        invariant
            n == raw@.len(),
            at + pattern@.len() <= raw@.len(),
            i <= pattern@.len(),
            forall|k: int| 0 <= k < i ==> raw@[at + k] == pattern@[k],
        decreases pattern@.len() - i,
    {
        if raw[at + i] != pattern[i] {
            assert(raw@.subrange(at as int, at + pattern@.len())[i as int] != pattern@[i as int]);
            return false;
        }
        i = i + 1;
    }
    assert(raw@.subrange(at as int, at + pattern@.len()) == pattern@);
    true
}

fn find_pattern(raw: &[u8], pattern: &[u8]) -> (r: Option<usize>)
    ensures
        match find_from(raw@, pattern@, 0) {
            Some(p) => r == Some(p as usize),
            None => r is None,
        },
{
    proof {
        lemma_find_from_bounds(raw@, pattern@, 0);
    }
    if pattern.len() > raw.len() {
        return None;
    }
    let last = raw.len() - pattern.len();
    let mut i: usize = 0;
    loop
        invariant
            last + pattern@.len() == raw@.len(),
            i <= last,
            find_from(raw@, pattern@, 0) == find_from(raw@, pattern@, i as int),
        decreases last - i,
    {
        if matches_at(raw, pattern, i) {
            return Some(i);
        }
        if i == last {
            assert(find_from(raw@, pattern@, i + 1) is None);
            return None;
        }
        i = i + 1;
    }
}

pub open spec fn crlf_crlf() -> Seq<u8> {
    seq![0x0du8, 0x0au8, 0x0du8, 0x0au8]
}

pub open spec fn lf_lf() -> Seq<u8> {
    seq![0x0au8, 0x0au8]
}

/// Head and body of a response: split at the first blank line written with CR LF, or,
/// when there is none, at the first one written with bare LFs.
pub open spec fn head_body_split(raw: Seq<u8>) -> Option<(Seq<u8>, Seq<u8>)> {
    match find_from(raw, crlf_crlf(), 0) {
        Some(p) => Some((raw.subrange(0, p), raw.subrange(p + 4, raw.len() as int))),
        None => match find_from(raw, lf_lf(), 0) {
            Some(p) => Some((raw.subrange(0, p), raw.subrange(p + 2, raw.len() as int))),
            None => None,
        },
    }
}

/// Splits a raw response into its head and its body.
pub fn split_head_body(raw: &[u8]) -> (r: Option<(&[u8], &[u8])>)
    ensures
        match head_body_split(raw@) {
            Some((h, b)) => r matches Some((head, body)) && head@ == h && body@ == b,
            None => r is None,
        },
{
    proof {
        lemma_find_from_bounds(raw@, crlf_crlf(), 0);
        lemma_find_from_bounds(raw@, lf_lf(), 0);
    }
    let n = raw.len();
    let crlf: [u8; 4] = [0x0d, 0x0a, 0x0d, 0x0a];
    assert(crlf@ == crlf_crlf());
    match find_pattern(raw, crlf.as_slice()) {
        Some(pos) => return Some((&raw[0..pos], &raw[pos + 4..n])),
        None => {},
    }
    let lf: [u8; 2] = [0x0a, 0x0a];
    assert(lf@ == lf_lf());
    match find_pattern(raw, lf.as_slice()) {
        Some(pos) => Some((&raw[0..pos], &raw[pos + 2..n])),
        None => None,
    }
}

/// What a header value byte becomes: line breaks turn into spaces, other control bytes
/// are dropped, everything else is kept.
pub open spec fn sanitize_byte(b: u8) -> Option<u8> {
    if b == 0x0d || b == 0x0a {
        Some(0x20)
    } else if b <= 31 || b == 127 {
        None
    } else {
        Some(b)
    }
}

/// A header value with every byte replaced as `sanitize_byte` says.
pub open spec fn sanitized(v: Seq<u8>) -> Seq<u8>
    decreases v.len(),
{
    if v.len() == 0 {
        Seq::empty()
    } else {
        match sanitize_byte(v.last()) {
            Some(c) => sanitized(v.drop_last()).push(c),
            None => sanitized(v.drop_last()),
        }
    }
}

/// Makes a header value safe to write on a header line.
pub fn sanitize_header_value(value: &[u8]) -> (r: Vec<u8>)
    ensures
        r@ == sanitized(value@),
{
    let mut out: Vec<u8> = Vec::new();
    let mut i: usize = 0;
    while i < value.len()
        invariant
            i <= value@.len(),
            out@ == sanitized(value@.take(i as int)),
        decreases value@.len() - i,
    {
        let b = value[i];
        assert(value@.take(i + 1).drop_last() == value@.take(i as int));
        if b == 0x0d || b == 0x0a {
            out.push(0x20);
        } else if b <= 31 || b == 127 {
        } else {
            out.push(b);
        }
        i = i + 1;
    }
    assert(value@.take(i as int) == value@);
    out
}

/// `char::is_whitespace`: the characters with the Unicode property White_Space.
pub open spec fn is_white_space(c: char) -> bool {
    let u = c as u32;
    ||| 0x09 <= u <= 0x0d
    ||| u == 0x20
    ||| u == 0x85
    ||| u == 0xa0
    ||| u == 0x1680
    ||| 0x2000 <= u <= 0x200a
    ||| u == 0x2028
    ||| u == 0x2029
    ||| u == 0x202f
    ||| u == 0x205f
    ||| u == 0x3000
}

pub open spec fn trim_start_white_space(s: Seq<char>) -> Seq<char>
    decreases s.len(),
{
    if s.len() > 0 && is_white_space(s[0]) {
        trim_start_white_space(s.drop_first())
    } else {
        s
    }
}

pub open spec fn trim_end_white_space(s: Seq<char>) -> Seq<char>
    decreases s.len(),
{
    if s.len() > 0 && is_white_space(s.last()) {
        trim_end_white_space(s.drop_last())
    } else {
        s
    }
}

/// `str::trim`: the characters without leading and trailing white space.
pub open spec fn trim_white_space(s: Seq<char>) -> Seq<char> {
    trim_end_white_space(trim_start_white_space(s))
}

/// The value of a digit in the given radix (digits are `0-9`, then `a-z` or `A-Z`).
pub open spec fn digit_value(c: char, radix: nat) -> Option<nat> {
    let u = c as u32;
    let d: int = if 0x30 <= u <= 0x39 {
        u - 0x30
    } else if 0x61 <= u <= 0x7a {
        u - 0x61 + 10
    } else if 0x41 <= u <= 0x5a {
        u - 0x41 + 10
    } else {
        radix as int
    };
    if d < radix {
        Some(d as nat)
    } else {
        None
    }
}

/// The value of a string made only of digits of the radix.
pub open spec fn digits_value(s: Seq<char>, radix: nat) -> Option<nat>
    decreases s.len(),
{
    if s.len() == 0 {
        Some(0)
    } else {
        match (digits_value(s.drop_last(), radix), digit_value(s.last(), radix)) {
            (Some(v), Some(d)) => Some(v * radix + d),
            _ => None,
        }
    }
}

/// `from_str_radix` of an unsigned integer type whose largest value is `max`: an optional
/// `+` followed by at least one digit, and a value that fits.
pub open spec fn parse_unsigned(s: Seq<char>, radix: nat, max: nat) -> Option<nat> {
    if s.len() == 0 || (s.len() == 1 && s[0] == '+') {
        None
    } else {
        let digits = if s[0] == '+' {
            s.drop_first()
        } else {
            s
        };
        match digits_value(digits, radix) {
            Some(v) => if v <= max {
                Some(v)
            } else {
                None
            },
            None => None,
        }
    }
}

/// Reads bytes as UTF-8 text.
///
/// Trusted: calls `std::str::from_utf8`; claims that it accepts exactly the well-formed
/// UTF-8 byte strings and that the text it gives decodes them.
#[verifier::external_body]
fn utf8_str(bytes: &[u8]) -> (r: Option<&str>)
    ensures
        r is Some <==> valid_utf8(bytes@),
        r matches Some(s) ==> s@ == decode_utf8(bytes@),
{
    std::str::from_utf8(bytes).ok()
}

/// The characters of a string, in order.
fn chars_of(s: &str) -> (r: Vec<char>)
    ensures
        r@ == s@,
{
    broadcast use vstd::string::axiom_spec_iter;
    let mut out: Vec<char> = Vec::new();
    for c in it: s.chars()
        invariant
            out@ == it.seq().take(it.index() as int),
    {
        out.push(c);
    }
    out
}

fn white_space(c: char) -> (r: bool)
    ensures
        r == is_white_space(c),
{
    let u = c as u32;
    (0x09 <= u && u <= 0x0d) || u == 0x20 || u == 0x85 || u == 0xa0 || u == 0x1680 || (0x2000
        <= u && u <= 0x200a) || u == 0x2028 || u == 0x2029 || u == 0x202f || u == 0x205f || u
        == 0x3000
}

/// Where the characters without leading and trailing white space start and end: the
/// bounds of what `str::trim` keeps.
fn trim_bounds(cs: &Vec<char>) -> (r: (usize, usize))
    ensures
        r.0 <= r.1 <= cs@.len(),
        cs@.subrange(r.0 as int, r.1 as int) == trim_white_space(cs@),
{
    let n = cs.len();
    let mut start: usize = 0;
    assert(cs@.subrange(0, n as int) == cs@);
    while start < n && white_space(cs[start])
        invariant
            n == cs@.len(),
            start <= n,
            trim_start_white_space(cs@) == trim_start_white_space(
                cs@.subrange(start as int, n as int),
            ),
        decreases n - start,
    {
        assert(cs@.subrange(start as int, n as int).drop_first() == cs@.subrange(
            start + 1,
            n as int,
        ));
        start = start + 1;
    }
    assert(trim_start_white_space(cs@) == cs@.subrange(start as int, n as int));
    let mut end: usize = n;
    while end > start && white_space(cs[end - 1])
        invariant
            n == cs@.len(),
            start <= end <= n,
            trim_start_white_space(cs@) == cs@.subrange(start as int, n as int),
            trim_white_space(cs@) == trim_end_white_space(cs@.subrange(start as int, end as int)),
        decreases end - start,
    {
        assert(cs@.subrange(start as int, end as int).drop_last() == cs@.subrange(
            start as int,
            end - 1,
        ));
        end = end - 1;
    }
    (start, end)
}

fn digit(c: char, radix: u32) -> (r: Option<u32>)
    requires
        2 <= radix <= 36,
    ensures
        match digit_value(c, radix as nat) {
            Some(d) => r == Some(d as u32),
            None => r is None,
        },
{
    let u = c as u32;
    let d: u32 = if 0x30 <= u && u <= 0x39 {
        u - 0x30
    } else if 0x61 <= u && u <= 0x7a {
        u - 0x61 + 10
    } else if 0x41 <= u && u <= 0x5a {
        u - 0x41 + 10
    } else {
        radix
    };
    if d < radix {
        Some(d)
    } else {
        None
    }
}

/// A string of digits has a value only when each of its prefixes has one, and never a
/// smaller one.
proof fn lemma_digits_prefix(s: Seq<char>, k: int, radix: nat)
    requires
        0 <= k <= s.len(),
        radix >= 1,
    ensures
        digits_value(s, radix) matches Some(b) ==> (digits_value(s.take(k), radix) matches Some(
            a,
        ) && a <= b),
    decreases s.len() - k,
{
    if k < s.len() {
        lemma_digits_prefix(s.drop_last(), k, radix);
        assert(s.drop_last().take(k) == s.take(k));
        match digits_value(s, radix) {
            Some(b) => {
                let b0 = digits_value(s.drop_last(), radix)->Some_0;
                let d = digit_value(s.last(), radix)->Some_0;
                assert(b0 * radix + d >= b0) by (nonlinear_arith)
                    requires
                        radix >= 1,
                        d >= 0,
                        b0 >= 0,
                ;
            },
            None => {},
        }
    } else {
        assert(s.take(k) == s);
    }
}

/// `from_str_radix` of an unsigned integer type whose largest value is `max`, on the
/// characters `cs[start..end]`.
fn parse_digits(cs: &Vec<char>, start: usize, end: usize, radix: u32, max: u64) -> (r: Option<u64>)
    requires
        start <= end <= cs@.len(),
        2 <= radix <= 36,
    ensures
        r == match parse_unsigned(cs@.subrange(start as int, end as int), radix as nat, max as nat) {
            Some(v) => Some(v as u64),
            None => None::<u64>,
        },
{
    let ghost s = cs@.subrange(start as int, end as int);
    if start == end || (end - start == 1 && cs[start] == '+') {
        return None;
    }
    let first = if cs[start] == '+' {
        start + 1
    } else {
        start
    };
    let ghost digits = cs@.subrange(first as int, end as int);
    assert(digits == if s[0] == '+' {
        s.drop_first()
    } else {
        s
    });
    let mut value: u64 = 0;
    let mut i = first;
    assert(digits.take(0) == Seq::<char>::empty());
    while i < end
        invariant
            first <= i <= end <= cs@.len(),
            2 <= radix <= 36,
            s == cs@.subrange(start as int, end as int),
            s.len() > 0,
            !(s.len() == 1 && s[0] == '+'),
            digits == (if s[0] == '+' {
                s.drop_first()
            } else {
                s
            }),
            digits == cs@.subrange(first as int, end as int),
            digits_value(digits.take(i - first), radix as nat) == Some(value as nat),
            value <= max,
        decreases end - i,
    {
        assert(digits.take(i - first + 1).drop_last() == digits.take(i - first));
        assert(digits.take(i - first + 1).last() == cs@[i as int]);
        proof {
            lemma_digits_prefix(digits, i - first + 1, radix as nat);
        }
        let d = match digit(cs[i], radix) {
            Some(d) => d,
            None => return None,
        };
        assert((value as int) * (radix as int) <= 0xffff_ffff_ffff_ffffint * 36) by (nonlinear_arith)
            requires
                value <= 0xffff_ffff_ffff_ffffu64,
                radix <= 36,
        ;
        let next: u128 = (value as u128) * (radix as u128) + (d as u128);
        if next > max as u128 {
            return None;
        }
        value = next as u64;
        i = i + 1;
    }
    assert(digits.take(i - first) == digits);
    Some(value)
}

pub open spec fn semicolon_byte() -> Seq<u8> {
    seq![0x3bu8]
}

/// The part of `v` before its first `;`, or all of it.
pub open spec fn before_semicolon(v: Seq<u8>) -> Seq<u8> {
    match find_from(v, semicolon_byte(), 0) {
        Some(p) => v.subrange(0, p),
        None => v,
    }
}

fn up_to_semicolon(v: &[u8]) -> (r: &[u8])
    ensures
        r@ == before_semicolon(v@),
{
    proof {
        lemma_find_from_bounds(v@, semicolon_byte(), 0);
    }
    let n = v.len();
    assert(n as int == v@.len());
    let semicolon: [u8; 1] = [0x3b];
    let pattern = semicolon.as_slice();
    assert(pattern@ == semicolon_byte());
    match find_pattern(v, pattern) {
        Some(p) => &v[0..p],
        None => v,
    }
}

/// The size written in a chunk-size line: the text before any chunk extension, read as
/// UTF-8, trimmed, and parsed as a hexadecimal `usize`.
pub open spec fn chunk_size_of(line: Seq<u8>) -> Option<nat> {
    let text = before_semicolon(trim_ws(line));
    if valid_utf8(text) {
        parse_unsigned(trim_white_space(decode_utf8(text)), 16, usize::MAX as nat)
    } else {
        None
    }
}

fn chunk_size(line: &[u8]) -> (r: Option<usize>)
    ensures
        r == match chunk_size_of(line@) {
            Some(v) => Some(v as usize),
            None => None::<usize>,
        },
{
    let text = up_to_semicolon(trim_ascii(line));
    match utf8_str(text) {
        Some(s) => {
            let cs = chars_of(s);
            let (start, end) = trim_bounds(&cs);
            match parse_digits(&cs, start, end, 16, usize::MAX as u64) {
                Some(v) => Some(v as usize),
                None => None,
            }
        },
        None => None,
    }
}

/// Why a chunked body could not be decoded.
#[derive(Clone, Copy, Debug, PartialEq, Eq, Structural)]
pub enum ChunkError {
    /// A chunk-size line has no line break.
    TruncatedHeader,
    /// A chunk size is not a hexadecimal number that fits in `usize`.
    InvalidSize,
    /// A chunk is longer than what is left of the body.
    TruncatedBody,
}

impl ChunkError {
    /// The message the transport reports.
    pub fn message(&self) -> (r: String)
        ensures
            r@ == chunk_error_message(*self),
    {
        match self {
            ChunkError::TruncatedHeader => "onion response has a truncated chunk header".to_string(),
            ChunkError::InvalidSize => "onion response has an invalid chunk size".to_string(),
            ChunkError::TruncatedBody => "onion response has a truncated chunk body".to_string(),
        }
    }
}

pub open spec fn chunk_error_message(e: ChunkError) -> Seq<char> {
    match e {
        ChunkError::TruncatedHeader => "onion response has a truncated chunk header"@,
        ChunkError::InvalidSize => "onion response has an invalid chunk size"@,
        ChunkError::TruncatedBody => "onion response has a truncated chunk body"@,
    }
}

/// Where the next chunk-size line starts after a chunk's data ending at `after`: past a
/// CR LF or a bare LF that follows the data, if any.
pub open spec fn skip_chunk_break(body: Seq<u8>, after: int) -> int {
    if after + 2 <= body.len() && body[after] == 0x0d && body[after + 1] == 0x0a {
        after + 2
    } else if after + 1 <= body.len() && body[after] == 0x0a {
        after + 1
    } else {
        after
    }
}

/// Decodes the chunks of `body` from the chunk-size line at `pos` on: the data of every
/// chunk up to the terminating zero-size chunk, or the first error. A chunk longer than
/// what is left of the body, however large its size, is a truncated body.
pub open spec fn dechunk_from(body: Seq<u8>, pos: int) -> Result<Seq<u8>, ChunkError>
    decreases body.len() - pos,
{
    match line_end_from(body, pos) {
        None => Err(ChunkError::TruncatedHeader),
        Some((end, sep)) => {
            match chunk_size_of(body.subrange(pos, end)) {
                None => Err(ChunkError::InvalidSize),
                Some(size) => {
                    let start = end + sep;
                    if size == 0 {
                        Ok(Seq::empty())
                    } else if start + size > body.len() {
                        Err(ChunkError::TruncatedBody)
                    } else {
                        proof {
                            lemma_line_end_bounds(body, pos);
                        }
                        let after = start + size;
                        match dechunk_from(body, skip_chunk_break(body, after)) {
                            Ok(rest) => Ok(body.subrange(start, after) + rest),
                            Err(e) => Err(e),
                        }
                    }
                }
            }
        },
    }
}

/// What decoding the whole body gives, once `decoded` was read before the chunk at `pos`.
pub open spec fn after_prefix(
    decoded: Seq<u8>,
    rest: Result<Seq<u8>, ChunkError>,
) -> Result<Seq<u8>, ChunkError> {
    match rest {
        Ok(tail) => Ok(decoded + tail),
        Err(e) => Err(e),
    }
}

/// Decodes a body sent with `Transfer-Encoding: chunked`.
pub fn decode_chunked_body(body: &[u8]) -> (r: Result<Vec<u8>, ChunkError>)
    ensures
        match dechunk_from(body@, 0) {
            Ok(data) => r matches Ok(v) && v@ == data,
            Err(e) => r == Err::<Vec<u8>, ChunkError>(e),
        },
{
    let n = body.len();
    let mut decoded: Vec<u8> = Vec::new();
    let mut pos: usize = 0;
    assert(decoded@ + Seq::<u8>::empty() == decoded@);
    loop
        invariant
            n == body@.len(),
            pos <= n,
            dechunk_from(body@, 0) == after_prefix(decoded@, dechunk_from(body@, pos as int)),
        decreases n - pos,
    {
        proof {
            lemma_line_end_bounds(body@, pos as int);
        }
        let (line_end, sep_len) = match find_line_end(body, pos) {
            Some(found) => found,
            None => return Err(ChunkError::TruncatedHeader),
        };
        let size = match chunk_size(&body[pos..line_end]) {
            Some(s) => s,
            None => return Err(ChunkError::InvalidSize),
        };
        pos = line_end + sep_len;
        if size == 0 {
            assert(decoded@ + Seq::<u8>::empty() == decoded@);
            return Ok(decoded);
        }
        if size > n - pos {
            return Err(ChunkError::TruncatedBody);
        }
        let ghost before = decoded@;
        let ghost start = pos as int;
        decoded.extend_from_slice(&body[pos..pos + size]);
        pos = pos + size;
        let ghost after = pos as int;
        if pos < n && n - pos >= 2 && body[pos] == 0x0d && body[pos + 1] == 0x0a {
            pos = pos + 2;
        } else if pos < n && body[pos] == 0x0a {
            pos = pos + 1;
        }
        assert(pos as int == skip_chunk_break(body@, after));
        assert(decoded@ == before + body@.subrange(start, after));
        assert forall|tail: Seq<u8>| #![auto] before + (body@.subrange(start, after) + tail) == decoded@ + tail by {
        }
    }
}

/// The parts of a status line split at its first two spaces: version, status code and
/// reason phrase (which keeps any further spaces).
pub open spec fn status_line_parts(line: Seq<u8>) -> (Seq<u8>, Seq<u8>, Seq<u8>) {
    match find_from(line, seq![0x20u8], 0) {
        None => (line, Seq::empty(), Seq::empty()),
        Some(a) => match find_from(line, seq![0x20u8], a + 1) {
            None => (line.subrange(0, a), line.subrange(a + 1, line.len() as int), Seq::empty()),
            Some(b) => (
                line.subrange(0, a),
                line.subrange(a + 1, b),
                line.subrange(b + 1, line.len() as int),
            ),
        },
    }
}

pub open spec fn http_prefix() -> Seq<u8> {
    seq![0x48u8, 0x54u8, 0x54u8, 0x50u8, 0x2fu8]
}

/// The status code a status-line field stands for: a decimal `u16` in UTF-8 between 100
/// and 999, the range of `http::StatusCode::from_u16`.
pub open spec fn status_code_of(text: Seq<u8>) -> Option<u16> {
    if valid_utf8(text) {
        match parse_unsigned(decode_utf8(text), 10, u16::MAX as nat) {
            Some(v) => if 100 <= v <= 999 {
                Some(v as u16)
            } else {
                None
            },
            None => None,
        }
    } else {
        None
    }
}

/// Why a status line was refused.
#[derive(Clone, Copy, Debug, PartialEq, Eq, Structural)]
pub enum StatusLineError {
    /// The line does not start with an `HTTP/` version.
    NotHttp,
    /// The status code is missing, not a number, or outside 100..=999.
    InvalidStatus,
}

pub open spec fn status_line_outcome(line: Seq<u8>) -> Result<(u16, Seq<u8>), StatusLineError> {
    let (version, status, reason) = status_line_parts(line);
    if !(version.len() >= 5 && version.subrange(0, 5) == http_prefix()) {
        Err(StatusLineError::NotHttp)
    } else {
        match status_code_of(status) {
            Some(code) => Ok((code, reason)),
            None => Err(StatusLineError::InvalidStatus),
        }
    }
}

fn find_space_from(line: &[u8], from: usize) -> (r: Option<usize>)
    requires
        from <= line@.len(),
    ensures
        match find_from(line@, seq![0x20u8], from as int) {
            Some(p) => r == Some(p as usize),
            None => r is None,
        },
{
    let n = line.len();
    let mut i = from;
    while i < n
        invariant
            n == line@.len(),
            from <= i <= n,
            find_from(line@, seq![0x20u8], from as int) == find_from(
                line@,
                seq![0x20u8],
                i as int,
            ),
        decreases n - i,
    {
        assert(line@.subrange(i as int, i + 1) == seq![line@[i as int]]);
        assert(seq![line@[i as int]][0] == line@[i as int]);
        assert(seq![0x20u8][0] == 0x20u8);
        if line[i] == 0x20 {
            return Some(i);
        }
        i = i + 1;
    }
    None
}

/// Reads an HTTP status line: the status code and the reason phrase.
pub fn parse_status_line(line: &[u8]) -> (r: Result<(u16, &[u8]), StatusLineError>)
    ensures
        match status_line_outcome(line@) {
            Ok((code, reason)) => r matches Ok((c, rs)) && c == code && rs@ == reason,
            Err(e) => r == Err::<(u16, &[u8]), StatusLineError>(e),
        },
{
    let n = line.len();
    proof {
        lemma_find_from_bounds(line@, seq![0x20u8], 0);
    }
    let (version, status, reason): (&[u8], &[u8], &[u8]) = match find_space_from(line, 0) {
        None => (line, &line[n..n], &line[n..n]),
        Some(a) => {
            proof {
                lemma_find_from_bounds(line@, seq![0x20u8], a + 1);
            }
            match find_space_from(line, a + 1) {
                None => (&line[0..a], &line[a + 1..n], &line[n..n]),
                Some(b) => (&line[0..a], &line[a + 1..b], &line[b + 1..n]),
            }
        },
    };
    assert(line@.subrange(n as int, n as int) == Seq::<u8>::empty());
    let is_http = version.len() >= 5 && version[0] == 0x48 && version[1] == 0x54 && version[2]
        == 0x54 && version[3] == 0x50 && version[4] == 0x2f;
    if !is_http {
        assert(!(version@.len() >= 5 && version@.subrange(0, 5) == http_prefix())) by {
            if version@.len() >= 5 && version@.subrange(0, 5) == http_prefix() {
                assert(version@.subrange(0, 5)[0] == version@[0]);
                assert(version@.subrange(0, 5)[1] == version@[1]);
                assert(version@.subrange(0, 5)[2] == version@[2]);
                assert(version@.subrange(0, 5)[3] == version@[3]);
                assert(version@.subrange(0, 5)[4] == version@[4]);
            }
        }
        return Err(StatusLineError::NotHttp);
    }
    assert(version@.subrange(0, 5) == http_prefix());
    let code: Option<u16> = match utf8_str(status) {
        Some(text) => {
            let cs = chars_of(text);
            assert(cs@.subrange(0, cs@.len() as int) == cs@);
            match parse_digits(&cs, 0, cs.len(), 10, 65535) {
                Some(v) => {
                    assert(v <= 65535);
                    Some(v as u16)
                },
                None => None,
            }
        },
        None => None,
    };
    match code {
        Some(c) => {
            if 100 <= c && c <= 999 {
                Ok((c, reason))
            } else {
                Err(StatusLineError::InvalidStatus)
            }
        },
        None => Err(StatusLineError::InvalidStatus),
    }
}

/// The bytes of `.onion`.
pub open spec fn onion_suffix() -> Seq<u8> {
    seq![0x2eu8, 0x6fu8, 0x6eu8, 0x69u8, 0x6fu8, 0x6eu8]
}

/// `u8::to_ascii_lowercase`.
pub open spec fn ascii_lower(b: u8) -> u8 {
    if 0x41 <= b <= 0x5a {
        (b + 0x20) as u8
    } else {
        b
    }
}

/// Whether a host name is an onion service: it ends in `.onion`, ignoring ASCII case.
pub open spec fn is_onion_host_spec(host: Seq<u8>) -> bool {
    host.len() >= 6 && forall|i: int|
        0 <= i < 6 ==> #[trigger] ascii_lower(host[host.len() - 6 + i]) == onion_suffix()[i]
}

/// Whether a URL with this host goes through the onion transport: the host ends in
/// `.onion`, in any ASCII case. A URL without a host does not.
pub fn is_onion_host(host: Option<&str>) -> (r: bool)
    ensures
        r == match host {
            Some(h) => is_onion_host_spec(h.spec_bytes()),
            None => false,
        },
{
    match host {
        None => false,
        Some(h) => {
            let bytes = h.as_bytes();
            let n = bytes.len();
            if n < 6 {
                return false;
            }
            let suffix: [u8; 6] = [0x2e, 0x6f, 0x6e, 0x69, 0x6f, 0x6e];
            assert(suffix@ == onion_suffix());
            let mut i: usize = 0;
            while i < 6
                invariant
                    n == bytes@.len(),
                    n >= 6,
                    host == Some(h),
                    bytes@ == h.spec_bytes(),
                    suffix@ == onion_suffix(),
                    i <= 6,
                    forall|k: int| 0 <= k < i ==> #[trigger] ascii_lower(bytes@[n - 6 + k]) == onion_suffix()[k],
                decreases 6 - i,
            {
                let b = bytes[n - 6 + i];
                let lower: u8 = if 0x41 <= b && b <= 0x5a {
                    b + 0x20
                } else {
                    b
                };
                assert(lower == ascii_lower(bytes@[n - 6 + i]));
                if lower != suffix[i] {
                    assert(!is_onion_host_spec(h.spec_bytes())) by {
                        assert(ascii_lower(bytes@[n - 6 + i]) != onion_suffix()[i as int]);
                    }
                    return false;
                }
                i = i + 1;
            }
            true
        },
    }
}

/// Appends bytes to a buffer.
fn append_bytes(out: &mut Vec<u8>, bytes: &[u8])
    ensures
        final(out)@ == old(out)@ + bytes@,
{
    out.extend_from_slice(bytes);
    assert(final(out)@ =~= old(out)@ + bytes@);
}

/// The decimal digits of `n` in ASCII.
pub open spec fn decimal_digits(n: nat) -> Seq<u8>
    decreases n,
{
    if n < 10 {
        seq![(0x30 + n) as u8]
    } else {
        decimal_digits(n / 10).push((0x30 + n % 10) as u8)
    }
}

fn append_decimal(out: &mut Vec<u8>, n: usize)
    ensures
        final(out)@ == old(out)@ + decimal_digits(n as nat),
    decreases n,
{
    if n < 10 {
        out.push(0x30 + n as u8);
        assert(final(out)@ =~= old(out)@ + decimal_digits(n as nat));
    } else {
        append_decimal(out, n / 10);
        out.push(0x30 + (n % 10) as u8);
        assert(final(out)@ =~= old(out)@ + decimal_digits(n as nat));
    }
}

/// `s` with ASCII upper-case letters in lower case.
pub open spec fn lowercase_ascii(s: Seq<u8>) -> Seq<u8> {
    s.map_values(|b: u8| ascii_lower(b))
}

/// The request target: the path (`/` when empty) and the query after a `?`.
pub open spec fn request_target(path: Seq<u8>, query: Option<Seq<u8>>) -> Seq<u8> {
    let p = if path.len() == 0 {
        seq![0x2fu8]
    } else {
        path
    };
    match query {
        Some(q) => p + seq![0x3fu8] + q,
        None => p,
    }
}

/// The `Host` header value: `host:port` when the URL names a port, else the host in
/// lower case.
pub open spec fn host_header_value(host: Seq<u8>, port: Option<u16>) -> Seq<u8> {
    match port {
        Some(p) => host + seq![0x3au8] + decimal_digits(p as nat),
        None => lowercase_ascii(host),
    }
}

/// Header names that the transport writes itself or that do not apply to it.
pub open spec fn is_managed_header(name: Seq<u8>) -> bool {
    ||| name == "host"@.map_values(|c: char| c as u8)
    ||| name == "connection"@.map_values(|c: char| c as u8)
    ||| name == "transfer-encoding"@.map_values(|c: char| c as u8)
    ||| name == "accept-encoding"@.map_values(|c: char| c as u8)
    ||| name == "content-length"@.map_values(|c: char| c as u8)
}

/// The header lines for the caller's headers, in order, without the managed ones.
pub open spec fn header_lines(headers: Seq<(Seq<u8>, Seq<u8>)>) -> Seq<u8>
    decreases headers.len(),
{
    if headers.len() == 0 {
        Seq::empty()
    } else {
        let (name, value) = headers.last();
        let before = header_lines(headers.drop_last());
        if is_managed_header(name) {
            before
        } else {
            before + name + seq![0x3au8, 0x20u8] + sanitized(value) + seq![0x0du8, 0x0au8]
        }
    }
}

pub open spec fn ascii_bytes(s: Seq<char>) -> Seq<u8> {
    s.map_values(|c: char| c as u8)
}

/// The HTTP/1.0 request sent to an onion service.
pub open spec fn request_bytes(
    method: Seq<u8>,
    target: Seq<u8>,
    host_header: Seq<u8>,
    headers: Seq<(Seq<u8>, Seq<u8>)>,
) -> Seq<u8> {
    method + seq![0x20u8] + target + ascii_bytes(" HTTP/1.0\r\nHost: "@) + host_header
        + ascii_bytes("\r\nConnection: close\r\nAccept-Encoding: identity\r\n"@)
        + header_lines(headers) + seq![0x0du8, 0x0au8]
}

pub open spec fn headers_view(headers: Seq<(Vec<u8>, Vec<u8>)>) -> Seq<(Seq<u8>, Seq<u8>)> {
    headers.map_values(|h: (Vec<u8>, Vec<u8>)| (h.0@, h.1@))
}

fn ascii_literal(s: &str) -> (r: Vec<u8>)
    requires
        vstd::string::is_ascii(s),
    ensures
        r@ == ascii_bytes(s@),
{
    proof {
        vstd::string::is_ascii_spec_bytes(s);
    }
    let b = s.as_bytes();
    let mut out: Vec<u8> = Vec::new();
    append_bytes(&mut out, b);
    assert(out@ =~= ascii_bytes(s@));
    out
}

fn bytes_equal(a: &[u8], b: &[u8]) -> (r: bool)
    ensures
        r == (a@ == b@),
{
    if a.len() != b.len() {
        return false;
    }
    assert(a@.subrange(0, b@.len() as int) == a@);
    matches_at(a, b, 0)
}

fn managed_header(name: &[u8]) -> (r: bool)
    ensures
        r == is_managed_header(name@),
{
    proof {
        reveal_strlit("host");
        reveal_strlit("connection");
        reveal_strlit("transfer-encoding");
        reveal_strlit("accept-encoding");
        reveal_strlit("content-length");
    }
    bytes_equal(name, ascii_literal("host").as_slice())
        || bytes_equal(name, ascii_literal("connection").as_slice())
        || bytes_equal(name, ascii_literal("transfer-encoding").as_slice())
        || bytes_equal(name, ascii_literal("accept-encoding").as_slice())
        || bytes_equal(name, ascii_literal("content-length").as_slice())
}

/// Writes the HTTP/1.0 request for `method` and the URL parts `path`, `query`, `host` and
/// `port`, with the caller's `headers` (names in lower case, as HTTP header names are
/// kept) after the transport's own. Managed headers of the caller are left out, and
/// header values are sanitised.
pub fn build_http_request(
    method: &[u8],
    path: &[u8],
    query: Option<&[u8]>,
    host: &[u8],
    port: Option<u16>,
    headers: &[(Vec<u8>, Vec<u8>)],
) -> (r: Vec<u8>)
    ensures
        r@ == request_bytes(
            method@,
            request_target(
                path@,
                match query {
                    Some(q) => Some(q@),
                    None => None,
                },
            ),
            host_header_value(host@, port),
            headers_view(headers@),
        ),
{
    proof {
        reveal_strlit(" HTTP/1.0\r\nHost: ");
        reveal_strlit("\r\nConnection: close\r\nAccept-Encoding: identity\r\n");
    }
    let mut payload: Vec<u8> = Vec::new();
    append_bytes(&mut payload, method);
    payload.push(0x20);
    if path.len() == 0 {
        payload.push(0x2f);
    } else {
        append_bytes(&mut payload, path);
    }
    match query {
        Some(q) => {
            payload.push(0x3f);
            append_bytes(&mut payload, q);
        },
        None => {},
    }
    let ghost after_target = payload@;
    assert(after_target =~= method@ + seq![0x20u8] + request_target(
        path@,
        match query {
            Some(q) => Some(q@),
            None => None,
        },
    ));
    append_bytes(&mut payload, ascii_literal(" HTTP/1.0\r\nHost: ").as_slice());
    match port {
        Some(p) => {
            append_bytes(&mut payload, host);
            payload.push(0x3a);
            append_decimal(&mut payload, p as usize);
        },
        None => {
            let mut i: usize = 0;
            let ghost start = payload@;
            while i < host.len()
                invariant
                    i <= host@.len(),
                    payload@ == start + lowercase_ascii(host@.take(i as int)),
                decreases host@.len() - i,
            {
                let b = host[i];
                let lower: u8 = if 0x41 <= b && b <= 0x5a {
                    b + 0x20
                } else {
                    b
                };
                payload.push(lower);
                assert(lowercase_ascii(host@.take(i + 1)) =~= lowercase_ascii(host@.take(i as int)).push(
                    ascii_lower(b),
                ));
                i = i + 1;
            }
            assert(host@.take(i as int) == host@);
        },
    }
    let ghost after_host = payload@;
    assert(after_host =~= after_target + ascii_bytes(" HTTP/1.0\r\nHost: "@) + host_header_value(
        host@,
        port,
    ));
    append_bytes(
        &mut payload,
        ascii_literal("\r\nConnection: close\r\nAccept-Encoding: identity\r\n").as_slice(),
    );
    let ghost fixed = payload@;
    let mut k: usize = 0;
    while k < headers.len()
        invariant
            k <= headers@.len(),
            payload@ == fixed + header_lines(headers_view(headers@).take(k as int)),
        decreases headers@.len() - k,
    {
        let name = headers[k].0.as_slice();
        let value = headers[k].1.as_slice();
        assert(headers_view(headers@).take(k + 1).drop_last() == headers_view(headers@).take(
            k as int,
        ));
        assert(headers_view(headers@).take(k + 1).last() == (name@, value@));
        let ghost before_line = payload@;
        if !managed_header(name) {
            append_bytes(&mut payload, name);
            payload.push(0x3a);
            payload.push(0x20);
            let clean = sanitize_header_value(value);
            append_bytes(&mut payload, clean.as_slice());
            payload.push(0x0d);
            payload.push(0x0a);
            assert(payload@ =~= before_line + name@ + seq![0x3au8, 0x20u8] + sanitized(value@)
                + seq![0x0du8, 0x0au8]);
        }
        k = k + 1;
    }
    assert(headers_view(headers@).take(k as int) == headers_view(headers@));
    payload.push(0x0d);
    payload.push(0x0a);
    assert(payload@ =~= request_bytes(
        method@,
        request_target(
            path@,
            match query {
                Some(q) => Some(q@),
                None => None,
            },
        ),
        host_header_value(host@, port),
        headers_view(headers@),
    ));
    payload
}

/// A sanitised header value holds no line break and no other control byte, so it cannot
/// end a header line early or start a new one; and it is never longer than the value.
pub proof fn lemma_sanitized_is_safe(v: Seq<u8>)
    ensures
        forall|i: int| 0 <= i < sanitized(v).len() ==> #[trigger] sanitized(v)[i] >= 32
            && sanitized(v)[i] != 127,
        sanitized(v).len() <= v.len(),
    decreases v.len(),
{
    if v.len() > 0 {
        lemma_sanitized_is_safe(v.drop_last());
    }
}

/// Splitting a response loses nothing: the head, the blank line it was split at and the
/// body put back together give the response again.
pub proof fn lemma_split_is_lossless(raw: Seq<u8>)
    ensures
        head_body_split(raw) matches Some((h, b)) ==> (raw == h + crlf_crlf() + b || raw == h
            + lf_lf() + b),
{
    lemma_find_from_bounds(raw, crlf_crlf(), 0);
    lemma_find_from_bounds(raw, lf_lf(), 0);
    match find_from(raw, crlf_crlf(), 0) {
        Some(p) => {
            assert(raw =~= raw.subrange(0, p) + raw.subrange(p, p + 4) + raw.subrange(
                p + 4,
                raw.len() as int,
            ));
        },
        None => match find_from(raw, lf_lf(), 0) {
            Some(p) => {
                assert(raw =~= raw.subrange(0, p) + raw.subrange(p, p + 2) + raw.subrange(
                    p + 2,
                    raw.len() as int,
                ));
            },
            None => {},
        },
    }
}

/// Trimming leaves no ASCII whitespace at either end, and keeps a contiguous part of the value.
pub proof fn lemma_trim_ws_is_trimmed(v: Seq<u8>)
    ensures
        trim_ws(v).len() > 0 ==> !is_ascii_ws(trim_ws(v)[0]) && !is_ascii_ws(trim_ws(v).last()),
        exists|a: int, b: int| 0 <= a <= b <= v.len() && trim_ws(v) == v.subrange(a, b),
{
    lemma_trim_start(v);
    let s = trim_start_ws(v);
    lemma_trim_end(s);
    let a = choose|a: int| 0 <= a <= v.len() && s == v.subrange(a, v.len() as int);
    let b = choose|b: int| 0 <= b <= s.len() && trim_end_ws(s) == s.subrange(0, b);
    assert(trim_ws(v) == v.subrange(a, a + b));
}

proof fn lemma_trim_start(v: Seq<u8>)
    ensures
        trim_start_ws(v).len() > 0 ==> !is_ascii_ws(trim_start_ws(v)[0]),
        exists|a: int| 0 <= a <= v.len() && trim_start_ws(v) == v.subrange(a, v.len() as int),
    decreases v.len(),
{
    if v.len() > 0 && is_ascii_ws(v[0]) {
        lemma_trim_start(v.drop_first());
        let a = choose|a: int|
            0 <= a <= v.drop_first().len() && trim_start_ws(v.drop_first()) == v.drop_first().subrange(
                a,
                v.drop_first().len() as int,
            );
        assert(trim_start_ws(v) == v.subrange(a + 1, v.len() as int));
    } else {
        assert(trim_start_ws(v) == v.subrange(0, v.len() as int));
    }
}

proof fn lemma_trim_end(v: Seq<u8>)
    ensures
        trim_end_ws(v).len() > 0 ==> !is_ascii_ws(trim_end_ws(v).last()) && trim_end_ws(v)[0]
            == v[0],
        exists|b: int| 0 <= b <= v.len() && trim_end_ws(v) == v.subrange(0, b),
    decreases v.len(),
{
    if v.len() > 0 && is_ascii_ws(v.last()) {
        lemma_trim_end(v.drop_last());
        let b = choose|b: int|
            0 <= b <= v.drop_last().len() && trim_end_ws(v.drop_last()) == v.drop_last().subrange(
                0,
                b,
            );
        assert(trim_end_ws(v) == v.subrange(0, b));
    } else {
        assert(trim_end_ws(v) == v.subrange(0, v.len() as int));
    }
}

pub open spec fn lf_byte() -> Seq<u8> {
    seq![0x0au8]
}

pub open spec fn colon_byte() -> Seq<u8> {
    seq![0x3au8]
}

/// `v` split at every line feed, as `slice::split` does: one more piece than there are
/// line feeds.
pub open spec fn split_lines(v: Seq<u8>) -> Seq<Seq<u8>>
    decreases v.len(),
{
    match find_from(v, lf_byte(), 0) {
        None => seq![v],
        Some(p) => {
            proof {
                lemma_find_from_bounds(v, lf_byte(), 0);
            }
            seq![v.subrange(0, p)] + split_lines(v.subrange(p + 1, v.len() as int))
        },
    }
}

/// The header a head line stands for: the name before the first colon and the value
/// after it without surrounding ASCII whitespace. Empty lines and lines without a colon
/// stand for none.
pub open spec fn header_of_line(line: Seq<u8>) -> Option<(Seq<u8>, Seq<u8>)> {
    let l = without_cr(line);
    if l.len() == 0 {
        None
    } else {
        match find_from(l, colon_byte(), 0) {
            None => None,
            Some(c) => Some((l.subrange(0, c), trim_ws(l.subrange(c + 1, l.len() as int)))),
        }
    }
}

/// The headers of the given head lines, in order.
pub open spec fn headers_of_lines(lines: Seq<Seq<u8>>) -> Seq<(Seq<u8>, Seq<u8>)>
    decreases lines.len(),
{
    if lines.len() == 0 {
        Seq::empty()
    } else {
        let rest = headers_of_lines(lines.drop_first());
        match header_of_line(lines[0]) {
            Some(h) => seq![h] + rest,
            None => rest,
        }
    }
}

/// A response head: the status line's code and reason, then the raw header names and
/// values of the following lines, names as written. `parse_http_response` checks the
/// names and values and puts the names in lower case.
pub open spec fn response_head_outcome(head: Seq<u8>) -> Result<
    (u16, Seq<u8>, Seq<(Seq<u8>, Seq<u8>)>),
    StatusLineError,
> {
    let lines = split_lines(head);
    match status_line_outcome(without_cr(lines[0])) {
        Err(e) => Err(e),
        Ok((code, reason)) => Ok((code, reason, headers_of_lines(lines.drop_first()))),
    }
}

proof fn lemma_split_lines_nonempty(v: Seq<u8>)
    ensures
        split_lines(v).len() >= 1,
    decreases v.len(),
{
    lemma_find_from_bounds(v, lf_byte(), 0);
}

fn header_of(line: &[u8]) -> (r: Option<(&[u8], &[u8])>)
    ensures
        match header_of_line(line@) {
            Some((n, v)) => r matches Some((name, value)) && name@ == n && value@ == v,
            None => r is None,
        },
{
    let l = trim_line(line);
    let n = l.len();
    if n == 0 {
        return None;
    }
    proof {
        lemma_find_from_bounds(l@, colon_byte(), 0);
    }
    let colon: [u8; 1] = [0x3a];
    let pattern = colon.as_slice();
    assert(pattern@ == colon_byte());
    match find_pattern(l, pattern) {
        None => None,
        Some(c) => Some((&l[0..c], trim_ascii(&l[c + 1..n]))),
    }
}

/// Reads a response head: the status line, then the header lines.
pub fn parse_response_head(head: &[u8]) -> (r: Result<
    (u16, &[u8], Vec<(&[u8], &[u8])>),
    StatusLineError,
>)
    ensures
        match response_head_outcome(head@) {
            Ok((code, reason, headers)) => r matches Ok((c, rs, hs)) && c == code && rs@ == reason
                && hs@.len() == headers.len() && forall|i: int|
                0 <= i < headers.len() ==> (#[trigger] hs@[i]).0@ == headers[i].0 && hs@[i].1@
                    == headers[i].1,
            Err(e) => r matches Err(x) && x == e,
        },
{
    let n = head.len();
    proof {
        lemma_find_from_bounds(head@, lf_byte(), 0);
    }
    let lf: [u8; 1] = [0x0a];
    let pattern = lf.as_slice();
    assert(pattern@ == lf_byte());
    let first_end = match find_pattern(head, pattern) {
        Some(p) => p,
        None => n,
    };
    let first = &head[0..first_end];
    proof {
        lemma_split_lines_nonempty(head@);
        assert(split_lines(head@)[0] == first@);
    }
    let (code, reason) = match parse_status_line(trim_line(first)) {
        Ok(parsed) => parsed,
        Err(e) => return Err(e),
    };
    let mut headers: Vec<(&[u8], &[u8])> = Vec::new();
    if first_end == n {
        assert(split_lines(head@).drop_first() == Seq::<Seq<u8>>::empty());
        return Ok((code, reason, headers));
    }
    let mut start: usize = first_end + 1;
    assert(split_lines(head@).drop_first() == split_lines(head@.subrange(start as int, n as int)));
    loop
        invariant
            n == head@.len(),
            start <= n,
            pattern@ == lf_byte(),
            response_head_outcome(head@) == Ok::<
                (u16, Seq<u8>, Seq<(Seq<u8>, Seq<u8>)>),
                StatusLineError,
            >((code, reason@, headers_of_lines(split_lines(head@).drop_first()))),
            headers_of_lines(split_lines(head@).drop_first()) == ({
                let done = headers@.map_values(|h: (&[u8], &[u8])| (h.0@, h.1@));
                done + headers_of_lines(split_lines(head@.subrange(start as int, n as int)))
            }),
        decreases n - start,
    {
        let rest = &head[start..n];
        proof {
            lemma_find_from_bounds(rest@, lf_byte(), 0);
        }
        let end = match find_pattern(rest, pattern) {
            Some(p) => p,
            None => rest.len(),
        };
        let line = &rest[0..end];
        let ghost pieces = split_lines(rest@);
        let ghost before = headers@.map_values(|h: (&[u8], &[u8])| (h.0@, h.1@));
        assert(pieces[0] == line@);
        match header_of(line) {
            Some(h) => {
                headers.push(h);
            },
            None => {},
        }
        let ghost after = headers@.map_values(|h: (&[u8], &[u8])| (h.0@, h.1@));
        if end == rest.len() {
            assert(pieces == seq![rest@]);
            assert(headers_of_lines(pieces.drop_first()) == Seq::<(Seq<u8>, Seq<u8>)>::empty());
            assert(after == before + headers_of_lines(pieces)) by {
                assert(pieces.drop_first() =~= Seq::<Seq<u8>>::empty());
            }
            assert(after + Seq::<(Seq<u8>, Seq<u8>)>::empty() == after);
            return Ok((code, reason, headers));
        }
        assert(pieces.drop_first() == split_lines(head@.subrange(start + end + 1, n as int))) by {
            assert(rest@.subrange(end + 1, rest@.len() as int) =~= head@.subrange(
                start + end + 1,
                n as int,
            ));
        }
        assert(after + headers_of_lines(pieces.drop_first()) == before + headers_of_lines(pieces));
        start = start + end + 1;
    }
}

/// `HeaderValue::to_str` succeeds: every byte is visible ASCII or a tab.
pub open spec fn is_visible_ascii(v: Seq<u8>) -> bool {
    forall|i: int| 0 <= i < v.len() ==> (#[trigger] v[i] == 0x09 || (0x20 <= v[i] && v[i] < 0x7f))
}

pub open spec fn transfer_encoding_name() -> Seq<u8> {
    ascii_bytes("transfer-encoding"@)
}

pub open spec fn chunked_word() -> Seq<u8> {
    ascii_bytes("chunked"@)
}

/// Whether a header says the body is chunked: it is `transfer-encoding` and its value, as
/// text in lower case, contains `chunked`.
pub open spec fn says_chunked(header: (Seq<u8>, Seq<u8>)) -> bool {
    &&& header.0 == transfer_encoding_name()
    &&& is_visible_ascii(header.1)
    &&& find_from(lowercase_ascii(header.1), chunked_word(), 0) is Some
}

fn visible_ascii(v: &[u8]) -> (r: bool)
    ensures
        r == is_visible_ascii(v@),
{
    let mut i: usize = 0;
    while i < v.len()
        invariant
            i <= v@.len(),
            forall|k: int| 0 <= k < i ==> (#[trigger] v@[k] == 0x09 || (0x20 <= v@[k] && v@[k] < 0x7f)),
        decreases v@.len() - i,
    {
        let b = v[i];
        if !(b == 0x09 || (0x20 <= b && b < 0x7f)) {
            return false;
        }
        i = i + 1;
    }
    true
}

fn lowercase_copy(v: &[u8]) -> (r: Vec<u8>)
    ensures
        r@ == lowercase_ascii(v@),
{
    let mut out: Vec<u8> = Vec::new();
    let mut i: usize = 0;
    while i < v.len()
        invariant
            i <= v@.len(),
            out@ == lowercase_ascii(v@.take(i as int)),
        decreases v@.len() - i,
    {
        let b = v[i];
        let lower: u8 = if 0x41 <= b && b <= 0x5a {
            b + 0x20
        } else {
            b
        };
        out.push(lower);
        assert(lowercase_ascii(v@.take(i + 1)) =~= lowercase_ascii(v@.take(i as int)).push(
            ascii_lower(b),
        ));
        i = i + 1;
    }
    assert(v@.take(i as int) == v@);
    out
}

/// Whether the headers (names in lower case, as an HTTP header map keeps them) declare a
/// chunked body: some `transfer-encoding` value, readable as text, contains `chunked` in
/// any ASCII case.
pub fn has_chunked_transfer_encoding(headers: &[(Vec<u8>, Vec<u8>)]) -> (r: bool)
    ensures
        r == exists|i: int| 0 <= i < headers@.len() && says_chunked(
            (#[trigger] headers_view(headers@)[i]),
        ),
{
    proof {
        reveal_strlit("transfer-encoding");
        reveal_strlit("chunked");
    }
    let name = ascii_literal("transfer-encoding");
    let word = ascii_literal("chunked");
    let mut i: usize = 0;
    while i < headers.len()
        invariant
            i <= headers@.len(),
            name@ == transfer_encoding_name(),
            word@ == chunked_word(),
            forall|k: int| 0 <= k < i ==> !says_chunked(#[trigger] headers_view(headers@)[k]),
        decreases headers@.len() - i,
    {
        let h_name = headers[i].0.as_slice();
        let h_value = headers[i].1.as_slice();
        assert(headers_view(headers@)[i as int] == (h_name@, h_value@));
        if bytes_equal(h_name, name.as_slice()) && visible_ascii(h_value) {
            let lower = lowercase_copy(h_value);
            if find_pattern(lower.as_slice(), word.as_slice()).is_some() {
                return true;
            }
        }
        i = i + 1;
    }
    false
}

impl StatusLineError {
    /// The message the transport reports.
    pub fn message(&self) -> (r: String)
        ensures
            r@ == status_line_error_message(*self),
    {
        match self {
            StatusLineError::NotHttp => "onion service returned a response without an HTTP status line".to_string(),
            StatusLineError::InvalidStatus => "onion service returned an invalid HTTP status".to_string(),
        }
    }
}

pub open spec fn status_line_error_message(e: StatusLineError) -> Seq<char> {
    match e {
        StatusLineError::NotHttp => "onion service returned a response without an HTTP status line"@,
        StatusLineError::InvalidStatus => "onion service returned an invalid HTTP status"@,
    }
}

/// Why a raw response could not be read.
#[derive(Clone, Copy, Debug, PartialEq, Eq, Structural)]
pub enum ResponseError {
    /// No blank line separates the head from the body.
    Malformed,
    /// The status line was refused.
    StatusLine(StatusLineError),
    /// The chunked body could not be decoded.
    Chunk(ChunkError),
    /// A header name is empty, too long, or holds a byte that is not a token character.
    InvalidHeaderName,
    /// A header value holds a control byte other than tab.
    InvalidHeaderValue,
}

impl ResponseError {
    /// The message the transport reports.
    pub fn message(&self) -> (r: String)
        ensures
            r@ == match *self {
                ResponseError::Malformed => "onion service returned a malformed HTTP response"@,
                ResponseError::StatusLine(e) => status_line_error_message(e),
                ResponseError::Chunk(e) => chunk_error_message(e),
                ResponseError::InvalidHeaderName => "onion response has invalid header name: invalid HTTP header name"@,
                ResponseError::InvalidHeaderValue => "onion response has invalid header value: failed to parse header value"@,
            },
    {
        match self {
            ResponseError::Malformed => "onion service returned a malformed HTTP response".to_string(),
            ResponseError::StatusLine(e) => e.message(),
            ResponseError::Chunk(e) => e.message(),
            ResponseError::InvalidHeaderName => "onion response has invalid header name: invalid HTTP header name".to_string(),
            ResponseError::InvalidHeaderValue => "onion response has invalid header value: failed to parse header value".to_string(),
        }
    }
}

/// A token character of HTTP (RFC 9110 `tchar`): letters, digits and
/// ``!#$%&'*+-.^_`|~``.
pub open spec fn is_token_byte(b: u8) -> bool {
    ||| 0x30 <= b <= 0x39
    ||| 0x41 <= b <= 0x5a
    ||| 0x61 <= b <= 0x7a
    ||| b == 0x21 || b == 0x23 || b == 0x24 || b == 0x25 || b == 0x26 || b == 0x27
    ||| b == 0x2a || b == 0x2b || b == 0x2d || b == 0x2e || b == 0x5e || b == 0x5f
    ||| b == 0x60 || b == 0x7c || b == 0x7e
}

/// A header name an HTTP header map accepts (`http::HeaderName::from_bytes`): one to
/// 65535 token characters.
pub open spec fn is_valid_header_name(name: Seq<u8>) -> bool {
    0 < name.len() <= 65535 && forall|i: int| 0 <= i < name.len() ==> is_token_byte(#[trigger] name[i])
}

/// A byte allowed in a header value or a reason phrase: tab, or anything but the other
/// control bytes and DEL.
pub open spec fn is_field_byte(b: u8) -> bool {
    b == 0x09 || (b >= 0x20 && b != 0x7f)
}

/// A header value an HTTP header map accepts (`http::HeaderValue::from_bytes`).
pub open spec fn is_valid_header_value(value: Seq<u8>) -> bool {
    forall|i: int| 0 <= i < value.len() ==> is_field_byte(#[trigger] value[i])
}

/// The first problem of the header lines, in order: a bad name, or else a bad value.
pub open spec fn header_problem(headers: Seq<(Seq<u8>, Seq<u8>)>) -> Option<ResponseError>
    decreases headers.len(),
{
    if headers.len() == 0 {
        None
    } else if !is_valid_header_name(headers[0].0) {
        Some(ResponseError::InvalidHeaderName)
    } else if !is_valid_header_value(headers[0].1) {
        Some(ResponseError::InvalidHeaderValue)
    } else {
        header_problem(headers.drop_first())
    }
}

/// The reason phrase the response keeps: a non-empty one made of allowed bytes, else none.
pub open spec fn kept_reason(reason: Seq<u8>) -> Option<Seq<u8>> {
    if reason.len() > 0 && is_valid_header_value(reason) {
        Some(reason)
    } else {
        None
    }
}

fn valid_header_name(name: &[u8]) -> (r: bool)
    ensures
        r == is_valid_header_name(name@),
{
    let n = name.len();
    if n == 0 || n > 65535 {
        return false;
    }
    let mut i: usize = 0;
    while i < n
        invariant
            n == name@.len(),
            i <= n,
            forall|k: int| 0 <= k < i ==> is_token_byte(#[trigger] name@[k]),
        decreases n - i,
    {
        let b = name[i];
        let ok = (0x30 <= b && b <= 0x39) || (0x41 <= b && b <= 0x5a) || (0x61 <= b && b <= 0x7a)
            || b == 0x21 || b == 0x23 || b == 0x24 || b == 0x25 || b == 0x26 || b == 0x27 || b
            == 0x2a || b == 0x2b || b == 0x2d || b == 0x2e || b == 0x5e || b == 0x5f || b == 0x60
            || b == 0x7c || b == 0x7e;
        if !ok {
            assert(!is_token_byte(name@[i as int]));
            return false;
        }
        i = i + 1;
    }
    true
}

fn valid_header_value(value: &[u8]) -> (r: bool)
    ensures
        r == is_valid_header_value(value@),
{
    let n = value.len();
    let mut i: usize = 0;
    while i < n
        invariant
            n == value@.len(),
            i <= n,
            forall|k: int| 0 <= k < i ==> is_field_byte(#[trigger] value@[k]),
        decreases n - i,
    {
        let b = value[i];
        if !(b == 0x09 || (b >= 0x20 && b != 0x7f)) {
            assert(!is_field_byte(value@[i as int]));
            return false;
        }
        i = i + 1;
    }
    true
}

pub open spec fn content_length_name() -> Seq<u8> {
    ascii_bytes("content-length"@)
}

/// The headers with their names in lower case, as an HTTP header map keeps them.
pub open spec fn lower_names(headers: Seq<(Seq<u8>, Seq<u8>)>) -> Seq<(Seq<u8>, Seq<u8>)> {
    headers.map_values(|h: (Seq<u8>, Seq<u8>)| (lowercase_ascii(h.0), h.1))
}

/// Whether a header frames the body: `transfer-encoding` or `content-length`.
pub open spec fn is_framing_header(name: Seq<u8>) -> bool {
    name == transfer_encoding_name() || name == content_length_name()
}

/// The headers without the framing ones, in order.
pub open spec fn without_framing(headers: Seq<(Seq<u8>, Seq<u8>)>) -> Seq<(Seq<u8>, Seq<u8>)>
    decreases headers.len(),
{
    if headers.len() == 0 {
        Seq::empty()
    } else {
        let rest = without_framing(headers.drop_last());
        if is_framing_header(headers.last().0) {
            rest
        } else {
            rest.push(headers.last())
        }
    }
}

pub open spec fn has_header_named(headers: Seq<(Seq<u8>, Seq<u8>)>, name: Seq<u8>) -> bool {
    exists|i: int| 0 <= i < headers.len() && (#[trigger] headers[i]).0 == name
}

/// The headers, with a `content-length` of `body_len` added when none is there.
pub open spec fn with_content_length(
    headers: Seq<(Seq<u8>, Seq<u8>)>,
    body_len: nat,
) -> Seq<(Seq<u8>, Seq<u8>)> {
    if has_header_named(headers, content_length_name()) {
        headers
    } else {
        headers.push((content_length_name(), decimal_digits(body_len)))
    }
}

/// A response read from an onion service: status code, reason phrase, headers with
/// names in lower case, and body. A body sent chunked is decoded, and its
/// `transfer-encoding` and `content-length` headers dropped; a `content-length` of the
/// body's length is added when the headers have none.
pub open spec fn response_outcome(raw: Seq<u8>) -> Result<
    (u16, Option<Seq<u8>>, Seq<(Seq<u8>, Seq<u8>)>, Seq<u8>),
    ResponseError,
> {
    match head_body_split(raw) {
        None => Err(ResponseError::Malformed),
        Some((head, body)) => match response_head_outcome(head) {
            Err(e) => Err(ResponseError::StatusLine(e)),
            Ok((code, status_reason, raw_headers)) => if header_problem(raw_headers) is Some {
                Err(header_problem(raw_headers)->Some_0)
            } else {
                let reason = kept_reason(status_reason);
                let headers = lower_names(raw_headers);
                let chunked = exists|i: int|
                    0 <= i < headers.len() && says_chunked(#[trigger] headers[i]);
                if chunked {
                    match dechunk_from(body, 0) {
                        Err(e) => Err(ResponseError::Chunk(e)),
                        Ok(data) => Ok(
                            (
                                code,
                                reason,
                                with_content_length(without_framing(headers), data.len()),
                                data,
                            ),
                        ),
                    }
                } else {
                    Ok((code, reason, with_content_length(headers, body.len()), body))
                }
            },
        },
    }
}

/// A response read from an onion service.
#[derive(Clone, Debug)]
pub struct OnionResponse {
    pub status: u16,
    /// The reason phrase, when the status line has a non-empty one made of allowed bytes.
    pub reason: Option<Vec<u8>>,
    /// Header names in lower case, values as sent, in the order received.
    pub headers: Vec<(Vec<u8>, Vec<u8>)>,
    pub body: Vec<u8>,
}

fn copy_bytes(v: &[u8]) -> (r: Vec<u8>)
    ensures
        r@ == v@,
{
    let mut out: Vec<u8> = Vec::new();
    append_bytes(&mut out, v);
    assert(out@ =~= v@);
    out
}

fn drop_framing(headers: Vec<(Vec<u8>, Vec<u8>)>) -> (r: Vec<(Vec<u8>, Vec<u8>)>)
    ensures
        headers_view(r@) == without_framing(headers_view(headers@)),
{
    proof {
        reveal_strlit("transfer-encoding");
        reveal_strlit("content-length");
    }
    let te = ascii_literal("transfer-encoding");
    let cl = ascii_literal("content-length");
    let mut kept: Vec<(Vec<u8>, Vec<u8>)> = Vec::new();
    let mut i: usize = 0;
    while i < headers.len()
        invariant
            i <= headers@.len(),
            te@ == transfer_encoding_name(),
            cl@ == content_length_name(),
            headers_view(kept@) == without_framing(headers_view(headers@).take(i as int)),
        decreases headers@.len() - i,
    {
        let name = headers[i].0.as_slice();
        assert(headers_view(headers@).take(i + 1).drop_last() == headers_view(headers@).take(
            i as int,
        ));
        assert(headers_view(headers@).take(i + 1).last() == headers_view(headers@)[i as int]);
        if !(bytes_equal(name, te.as_slice()) || bytes_equal(name, cl.as_slice())) {
            let pair = (copy_bytes(name), copy_bytes(headers[i].1.as_slice()));
            kept.push(pair);
            assert(headers_view(kept@) =~= without_framing(headers_view(headers@).take(i as int)).push(
                headers_view(headers@)[i as int],
            ));
        }
        i = i + 1;
    }
    assert(headers_view(headers@).take(i as int) == headers_view(headers@));
    kept
}

fn add_content_length(headers: &mut Vec<(Vec<u8>, Vec<u8>)>, body_len: usize)
    ensures
        headers_view(final(headers)@) == with_content_length(
            headers_view(old(headers)@),
            body_len as nat,
        ),
{
    proof {
        reveal_strlit("content-length");
    }
    let cl = ascii_literal("content-length");
    let mut i: usize = 0;
    while i < headers.len()
        invariant
            i <= headers@.len(),
            cl@ == content_length_name(),
            forall|k: int| 0 <= k < i ==> (#[trigger] headers_view(headers@)[k]).0 != content_length_name(),
        decreases headers@.len() - i,
    {
        assert(headers_view(headers@)[i as int].0 == headers@[i as int].0@);
        if bytes_equal(headers[i].0.as_slice(), cl.as_slice()) {
            assert(has_header_named(headers_view(headers@), content_length_name()));
            return;
        }
        i = i + 1;
    }
    let mut digits: Vec<u8> = Vec::new();
    append_decimal(&mut digits, body_len);
    assert(digits@ =~= decimal_digits(body_len as nat));
    let ghost before = headers_view(headers@);
    headers.push((cl, digits));
    assert(headers_view(headers@) =~= before.push((content_length_name(), decimal_digits(body_len as nat))));
}

/// Reads a raw response from an onion service: status, reason, headers with names in
/// lower case, and body, decoding a chunked body.
pub fn parse_http_response(raw: &[u8]) -> (r: Result<OnionResponse, ResponseError>)
    ensures
        match response_outcome(raw@) {
            Ok((code, reason, headers, body)) => r matches Ok(resp) && resp.status == code
                && resp.reason.deep_view() == reason && headers_view(resp.headers@) == headers
                && resp.body@ == body,
            Err(e) => r == Err::<OnionResponse, ResponseError>(e),
        },
{
    let (head, body) = match split_head_body(raw) {
        Some(parts) => parts,
        None => return Err(ResponseError::Malformed),
    };
    let (code, reason, raw_headers) = match parse_response_head(head) {
        Ok(parsed) => parsed,
        Err(e) => return Err(ResponseError::StatusLine(e)),
    };
    let ghost spec_raw = match response_head_outcome(head@) {
        Ok((_, _, hs)) => hs,
        Err(_) => Seq::empty(),
    };
    let mut headers: Vec<(Vec<u8>, Vec<u8>)> = Vec::new();
    let mut i: usize = 0;
    assert(spec_raw.subrange(0, spec_raw.len() as int) == spec_raw);
    while i < raw_headers.len()
        invariant
            i <= raw_headers@.len(),
            raw_headers@.len() == spec_raw.len(),
            header_problem(spec_raw) == header_problem(
                spec_raw.subrange(i as int, spec_raw.len() as int),
            ),
            header_problem(spec_raw) is Some ==> response_outcome(raw@) == Err::<
                (u16, Option<Seq<u8>>, Seq<(Seq<u8>, Seq<u8>)>, Seq<u8>),
                ResponseError,
            >(header_problem(spec_raw)->Some_0),
            forall|k: int|
                0 <= k < spec_raw.len() ==> (#[trigger] raw_headers@[k]).0@ == spec_raw[k].0
                    && raw_headers@[k].1@ == spec_raw[k].1,
            headers_view(headers@) == lower_names(spec_raw).take(i as int),
        decreases raw_headers@.len() - i,
    {
        let (name, value) = raw_headers[i];
        assert(name@ == spec_raw[i as int].0 && value@ == spec_raw[i as int].1);
        let ghost rest = spec_raw.subrange(i as int, spec_raw.len() as int);
        assert(rest[0] == spec_raw[i as int]);
        assert(rest.drop_first() == spec_raw.subrange(i + 1, spec_raw.len() as int));
        if !valid_header_name(name) {
            return Err(ResponseError::InvalidHeaderName);
        }
        if !valid_header_value(value) {
            return Err(ResponseError::InvalidHeaderValue);
        }
        let ghost before = headers_view(headers@);
        let pair = (lowercase_copy(name), copy_bytes(value));
        headers.push(pair);
        assert(lower_names(spec_raw)[i as int] == (lowercase_ascii(name@), value@));
        assert(headers_view(headers@) =~= before.push((lowercase_ascii(name@), value@)));
        assert(headers_view(headers@) =~= lower_names(spec_raw).take(i + 1));
        i = i + 1;
    }
    assert(lower_names(spec_raw).take(i as int) == lower_names(spec_raw));
    assert(spec_raw.subrange(i as int, spec_raw.len() as int) =~= Seq::<(Seq<u8>, Seq<u8>)>::empty());
    let kept: Option<Vec<u8>> = if reason.len() > 0 && valid_header_value(reason) {
        Some(copy_bytes(reason))
    } else {
        None
    };
    let chunked = has_chunked_transfer_encoding(headers.as_slice());
    if chunked {
        let data = match decode_chunked_body(body) {
            Ok(d) => d,
            Err(e) => return Err(ResponseError::Chunk(e)),
        };
        let mut framed = drop_framing(headers);
        add_content_length(&mut framed, data.len());
        Ok(OnionResponse { status: code, reason: kept, headers: framed, body: data })
    } else {
        add_content_length(&mut headers, body.len());
        Ok(OnionResponse { status: code, reason: kept, headers, body: copy_bytes(body) })
    }
}


/// Every response read carries a `content-length` header.
pub proof fn lemma_response_framing(raw: Seq<u8>)
    ensures
        response_outcome(raw) matches Ok((_, _, headers, _)) ==> has_header_named(
            headers,
            content_length_name(),
        ),
{
    match response_outcome(raw) {
        Ok((_, _, headers, body)) => {
            let hs = headers;
            if !has_header_named(hs, content_length_name()) {
                assert(false) by {
                    match head_body_split(raw) {
                        Some((head, b)) => match response_head_outcome(head) {
                            Ok((_, _, raw_headers)) => if header_problem(raw_headers) is None {
                                let lowered = lower_names(raw_headers);
                                let base = if (exists|i: int|
                                    0 <= i < lowered.len() && says_chunked(#[trigger] lowered[i])) {
                                    without_framing(lowered)
                                } else {
                                    lowered
                                };
                                if !has_header_named(base, content_length_name()) {
                                    let last = base.len() as int;
                                    assert(hs[last].0 == content_length_name());
                                }
                            },
                            Ok(_) => {},
                            Err(_) => {},
                        },
                        None => {},
                    }
                }
            }
        },
        Err(_) => {},
    }
}

/// Dropping the framing headers leaves none of them.
pub proof fn lemma_without_framing_drops_all(headers: Seq<(Seq<u8>, Seq<u8>)>)
    ensures
        forall|i: int|
            0 <= i < without_framing(headers).len() ==> !is_framing_header(
                (#[trigger] without_framing(headers)[i]).0,
            ),
    decreases headers.len(),
{
    if headers.len() > 0 {
        let rest = without_framing(headers.drop_last());
        lemma_without_framing_drops_all(headers.drop_last());
        assert forall|i: int|
            0 <= i < without_framing(headers).len() implies !is_framing_header(
            (#[trigger] without_framing(headers)[i]).0,
        ) by {
            if i < rest.len() {
                assert(without_framing(headers)[i] == rest[i]);
            }
        }
    }
}

/// The first `x` in `v` at or after `from` is at `k`, or there is none when `k` is the
/// length: `find_from` finds exactly that.
proof fn lemma_find_byte(v: Seq<u8>, x: u8, from: int, k: int)
    requires
        0 <= from <= k <= v.len(),
        forall|i: int| from <= i < k ==> v[i] != x,
        k < v.len() ==> v[k] == x,
    ensures
        find_from(v, seq![x], from) == (if k < v.len() {
            Some(k)
        } else {
            None::<int>
        }),
    decreases k - from,
{
    if from < k {
        assert(v.subrange(from, from + 1)[0] == v[from]);
        assert(v.subrange(from, from + 1) != seq![x]);
        lemma_find_byte(v, x, from + 1, k);
    } else if k < v.len() {
        assert(v.subrange(k, k + 1) =~= seq![x]);
    }
}

/// The character of a hexadecimal digit `d` (0 to 15), in lower case.
pub open spec fn hex_digit_char(d: nat) -> char {
    if d < 10 {
        (0x30 + d) as char
    } else {
        (0x61 + d - 10) as char
    }
}

/// `n` written in hexadecimal, in lower case and without leading zeros.
pub open spec fn hex_chars(n: nat) -> Seq<char>
    decreases n,
{
    if n < 16 {
        seq![hex_digit_char(n)]
    } else {
        hex_chars(n / 16).push(hex_digit_char(n % 16))
    }
}

/// Chunk sizes are read in base 16: appending a hexadecimal digit `d` to digits of value
/// `v` gives digits of value `16 * v + d`.
pub proof fn lemma_hex_digit_appends(s: Seq<char>, d: nat)
    requires
        d < 16,
        digits_value(s, 16) is Some,
    ensures
        digits_value(s.push(hex_digit_char(d)), 16) == Some(16 * digits_value(s, 16)->Some_0 + d),
{
    assert(s.push(hex_digit_char(d)).drop_last() == s);
    assert(s.push(hex_digit_char(d)).last() == hex_digit_char(d));
    assert(digit_value(hex_digit_char(d), 16) == Some(d));
}

proof fn lemma_hex_chars_facts(n: nat)
    ensures
        digits_value(hex_chars(n), 16) == Some(n),
        hex_chars(n).len() >= 1,
        forall|i: int|
            0 <= i < hex_chars(n).len() ==> {
                let c = #[trigger] hex_chars(n)[i];
                ('0' <= c <= '9') || ('a' <= c <= 'f')
            },
    decreases n,
{
    if n < 16 {
        let s = seq![hex_digit_char(n)];
        assert(s.drop_last() == Seq::<char>::empty());
        assert(digit_value(hex_digit_char(n), 16) == Some(n));
        assert(digits_value(Seq::<char>::empty(), 16) == Some(0nat));
        assert(digits_value(s, 16) == Some(n));
    } else {
        lemma_hex_chars_facts(n / 16);
        lemma_hex_digit_appends(hex_chars(n / 16), n % 16);
        assert(hex_chars(n) == hex_chars(n / 16).push(hex_digit_char(n % 16)));
        assert(16 * (n / 16) + n % 16 == n);
        assert(digits_value(hex_chars(n), 16) == Some(n));
    }
}

/// The size line of a chunk of `n` bytes, written in hexadecimal, stands for `n`.
pub proof fn lemma_hex_size_line(n: nat)
    requires
        n <= usize::MAX,
    ensures
        chunk_size_of(ascii_bytes(hex_chars(n))) == Some(n),
{
    broadcast use vstd::utf8::group_utf8_lib;

    lemma_hex_chars_facts(n);
    let cs = hex_chars(n);
    let bytes = ascii_bytes(cs);
    assert(vstd::utf8::is_ascii_chars(cs));
    vstd::utf8::is_ascii_chars_encode_utf8(cs);
    assert(vstd::utf8::encode_utf8(cs) =~= bytes);
    assert(!is_ascii_ws(bytes[0]));
    assert(trim_start_ws(bytes) == bytes);
    assert(!is_ascii_ws(bytes.last()));
    assert(trim_end_ws(bytes) == bytes);
    lemma_find_byte(bytes, 0x3b, 0, bytes.len() as int);
    assert(semicolon_byte() == seq![0x3bu8]);
    assert(before_semicolon(bytes) == bytes);
    assert(valid_utf8(bytes));
    assert(decode_utf8(bytes) == cs);
    assert(!is_white_space(cs[0]));
    assert(trim_start_white_space(cs) == cs);
    assert(!is_white_space(cs.last()));
    assert(trim_end_white_space(cs) == cs);
    assert(cs[0] != '+');
}

/// A line end at `k`: no line break from `pos` to `k`, and CR LF at `k`.
proof fn lemma_line_end_at(body: Seq<u8>, pos: int, k: int)
    requires
        0 <= pos <= k,
        k + 1 < body.len(),
        body[k] == 0x0d,
        body[k + 1] == 0x0a,
        forall|i: int| pos <= i < k ==> body[i] != 0x0d && body[i] != 0x0a,
    ensures
        line_end_from(body, pos) == Some((k, 2int)),
    decreases k - pos,
{
    if pos < k {
        lemma_line_end_at(body, pos + 1, k);
    }
}

pub open spec fn crlf() -> Seq<u8> {
    seq![0x0du8, 0x0au8]
}

/// A body made of one chunk of data `data`, written with its length in hexadecimal, then
/// the last chunk `0`, decodes to `data`.
pub proof fn lemma_single_chunk_decodes(data: Seq<u8>)
    requires
        0 < data.len() <= usize::MAX,
    ensures
        dechunk_from(
            ascii_bytes(hex_chars(data.len())) + crlf() + data + crlf() + seq![0x30u8] + crlf(),
            0,
        ) == Ok::<Seq<u8>, ChunkError>(data),
{
    let size = ascii_bytes(hex_chars(data.len()));
    let body = size + crlf() + data + crlf() + seq![0x30u8] + crlf();
    let h = size.len() as int;
    let d = data.len() as int;
    lemma_hex_size_line(data.len());
    lemma_hex_chars_facts(data.len());
    assert forall|i: int| 0 <= i < h implies body[i] != 0x0d && body[i] != 0x0a by {
        assert(body[i] == size[i]);
        assert(size[i] == hex_chars(data.len())[i] as u8);
    }
    lemma_line_end_at(body, 0, h);
    assert(body.subrange(0, h) == size);
    let after = h + 2 + d;
    assert(body[after] == 0x0d && body[after + 1] == 0x0a);
    assert(skip_chunk_break(body, after) == after + 2);
    let last = after + 2;
    assert(body[last] == 0x30);
    lemma_line_end_at(body, last, last + 1);
    let zero = body.subrange(last, last + 1);
    assert(zero == ascii_bytes(hex_chars(0)));
    lemma_hex_size_line(0);
    assert(dechunk_from(body, last) == Ok::<Seq<u8>, ChunkError>(Seq::empty()));
    assert(body.subrange(h + 2, after) == data);
    assert(data + Seq::<u8>::empty() == data);
}

/// A caller's header named `host`, `connection`, `transfer-encoding`, `accept-encoding`
/// or `content-length` never reaches the request; any other header is written as
/// `name: value` with its value sanitised, after the headers before it.
pub proof fn lemma_header_lines_step(
    headers: Seq<(Seq<u8>, Seq<u8>)>,
    name: Seq<u8>,
    value: Seq<u8>,
)
    ensures
        ({
            let managed = name == ascii_bytes("host"@) || name == ascii_bytes("connection"@)
                || name == ascii_bytes("transfer-encoding"@) || name == ascii_bytes(
                "accept-encoding"@,
            ) || name == ascii_bytes("content-length"@);
            &&& managed ==> header_lines(headers.push((name, value))) == header_lines(headers)
            &&& !managed ==> header_lines(headers.push((name, value))) == header_lines(headers)
                + name + seq![0x3au8, 0x20u8] + sanitized(value) + seq![0x0du8, 0x0au8]
        }),
{
    assert(headers.push((name, value)).drop_last() == headers);
    assert(ascii_bytes("host"@) =~= "host"@.map_values(|c: char| c as u8));
    assert(ascii_bytes("connection"@) =~= "connection"@.map_values(|c: char| c as u8));
    assert(ascii_bytes("transfer-encoding"@) =~= "transfer-encoding"@.map_values(
        |c: char| c as u8,
    ));
    assert(ascii_bytes("accept-encoding"@) =~= "accept-encoding"@.map_values(|c: char| c as u8));
    assert(ascii_bytes("content-length"@) =~= "content-length"@.map_values(|c: char| c as u8));
}

/// Decoding a chunked response removes only `transfer-encoding` and `content-length`:
/// every other header stays, in order and with its value.
pub proof fn lemma_without_framing_step(
    headers: Seq<(Seq<u8>, Seq<u8>)>,
    name: Seq<u8>,
    value: Seq<u8>,
)
    ensures
        (name == ascii_bytes("transfer-encoding"@) || name == ascii_bytes("content-length"@))
            ==> without_framing(headers.push((name, value))) == without_framing(headers),
        !(name == ascii_bytes("transfer-encoding"@) || name == ascii_bytes("content-length"@))
            ==> without_framing(headers.push((name, value))) == without_framing(headers).push(
            (name, value),
        ),
{
    assert(headers.push((name, value)).drop_last() == headers);
}

/// A header line `name: value` reads as the name before the first colon and the whole
/// value, whatever bytes it holds, when the name has no colon and the value has no
/// surrounding whitespace.
pub proof fn lemma_header_line_reads_name_and_value(name: Seq<u8>, value: Seq<u8>)
    requires
        forall|i: int| 0 <= i < name.len() ==> name[i] != 0x3a,
        value.len() > 0 ==> !is_ascii_ws(value[0]) && !is_ascii_ws(value.last()),
    ensures
        header_of_line(name + seq![0x3au8, 0x20u8] + value) == Some((name, value)),
{
    let line = name + seq![0x3au8, 0x20u8] + value;
    if value.len() > 0 {
        assert(line.last() == value.last());
    } else {
        assert(line.last() == 0x20);
    }
    assert(without_cr(line) == line);
    let n = name.len() as int;
    lemma_find_byte(line, 0x3a, 0, n);
    assert(colon_byte() == seq![0x3au8]);
    assert(line.subrange(0, n) == name);
    let rest = line.subrange(n + 1, line.len() as int);
    assert(rest == seq![0x20u8] + value);
    assert(rest.drop_first() == value);
    assert(trim_start_ws(rest) == trim_start_ws(value));
    assert(trim_start_ws(value) == value);
    assert(trim_end_ws(value) == value);
}

} // verus!
