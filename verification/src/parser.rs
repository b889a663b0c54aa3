//! Allocation-free token boundary discovery for common log formats.
use vstd::prelude::*;
use crate::severity::{
    Severity, spec_detect, spec_join, find_ascii_case_insensitive, is_first_match, contains_ci,
    panic_word, fatal_word, error_word, failed_word, warn_word, rank,
};

verus! {

/// Semantic class used by the renderer.
#[derive(Clone, Copy, Debug, PartialEq, Eq, Structural)]
pub enum TokenKind {
    Timestamp,
    Host,
    Process,
    Key,
    Value,
    Warning,
    Error,
    Fatal,
}

/// A borrowed byte range in the input line.
#[derive(Clone, Copy, Debug, PartialEq, Eq, Structural)]
pub struct Token {
    pub start: usize,
    pub end: usize,
    pub kind: TokenKind,
}

/// The token `[start, end)` of kind `kind` (with indices as integers).
pub open spec fn tok(start: int, end: int, kind: TokenKind) -> Token {
    Token { start: start as usize, end: end as usize, kind }
}

/// A token lies inside a line of `len` bytes and does not run backwards.
pub open spec fn token_in_line(t: Token, len: int) -> bool {
    t.start <= t.end && t.end <= len
}

/// Every token from index `from` on lies inside a line of `len` bytes.
pub open spec fn tokens_in_line(s: Seq<Token>, from: int, len: int) -> bool {
    forall|i: int| from <= i < s.len() ==> token_in_line(#[trigger] s[i], len)
}

/// `u8::is_ascii_whitespace`: space, tab, line feed, form feed, carriage return.
pub open spec fn is_ws(b: u8) -> bool {
    b == 32 || b == 9 || b == 10 || b == 12 || b == 13
}

/// The first index at or after `i` holding byte `c`.
pub open spec fn find_byte(s: Seq<u8>, c: u8, i: int) -> Option<int>
    decreases s.len() - i,
{
    if i < 0 || i >= s.len() {
        None
    } else if s[i] == c {
        Some(i)
    } else {
        find_byte(s, c, i + 1)
    }
}

/// The first index at or after `i` holding a non-whitespace byte.
pub open spec fn find_non_ws(s: Seq<u8>, i: int) -> Option<int>
    decreases s.len() - i,
{
    if i < 0 || i >= s.len() {
        None
    } else if !is_ws(s[i]) {
        Some(i)
    } else {
        find_non_ws(s, i + 1)
    }
}

/// The first index at or after `i` holding a whitespace byte.
pub open spec fn find_ws(s: Seq<u8>, i: int) -> Option<int>
    decreases s.len() - i,
{
    if i < 0 || i >= s.len() {
        None
    } else if is_ws(s[i]) {
        Some(i)
    } else {
        find_ws(s, i + 1)
    }
}

proof fn lemma_find_byte_bounds(s: Seq<u8>, c: u8, i: int)
    ensures
        find_byte(s, c, i) matches Some(k) ==> 0 <= i <= k < s.len() && s[k] == c,
    decreases s.len() - i,
{
    if 0 <= i < s.len() && s[i] != c {
        lemma_find_byte_bounds(s, c, i + 1);
    }
}

proof fn lemma_find_non_ws_bounds(s: Seq<u8>, i: int)
    ensures
        find_non_ws(s, i) matches Some(k) ==> 0 <= i <= k < s.len() && !is_ws(s[k]),
    decreases s.len() - i,
{
    if 0 <= i < s.len() && is_ws(s[i]) {
        lemma_find_non_ws_bounds(s, i + 1);
    }
}

proof fn lemma_find_ws_bounds(s: Seq<u8>, i: int)
    ensures
        find_ws(s, i) matches Some(k) ==> 0 <= i <= k < s.len() && is_ws(s[k]),
    decreases s.len() - i,
{
    if 0 <= i < s.len() && !is_ws(s[i]) {
        lemma_find_ws_bounds(s, i + 1);
    }
}

/// When no byte of `s[i..j)` is `c`, searching from `i` and from `j` agree.
proof fn lemma_find_byte_skip(s: Seq<u8>, c: u8, i: int, j: int)
    requires
        0 <= i <= j <= s.len(),
        forall|k: int| i <= k < j ==> s[k] != c,
    ensures
        find_byte(s, c, i) == find_byte(s, c, j),
    decreases j - i,
{
    if i < j {
        lemma_find_byte_skip(s, c, i + 1, j);
    }
}

/// `memchr::memchr` on `haystack[start..]`: the offset, relative to `start`,
/// of the first byte equal to `needle`.
#[verifier::external_body]
fn memchr_from(needle: u8, haystack: &[u8], start: usize) -> (r: Option<usize>)
    requires
        start <= haystack@.len(),
    ensures
        match r {
            Some(k) => start + k < haystack@.len() && haystack@[start + k] == needle && forall|
                j: int,
            | start <= j < start + k ==> haystack@[j] != needle,
            None => forall|j: int| start <= j < haystack@.len() ==> haystack@[j] != needle,
        },
{
    memchr::memchr(needle, &haystack[start..])
}

/// The absolute index of the first `needle` byte at or after `start`.
fn find_byte_from(needle: u8, haystack: &[u8], start: usize) -> (r: Option<usize>)
    requires
        start <= haystack@.len(),
    ensures
        match r {
            Some(k) => find_byte(haystack@, needle, start as int) == Some(k as int),
            None => find_byte(haystack@, needle, start as int) is None,
        },
{
    let n = haystack.len();
    assert(n == haystack@.len());
    match memchr_from(needle, haystack, start) {
        Some(k) => {
            proof {
                lemma_find_byte_skip(haystack@, needle, start as int, start + k);
            }
            Some(start + k)
        },
        None => {
            proof {
                lemma_find_byte_skip(haystack@, needle, start as int, haystack@.len() as int);
            }
            None
        },
    }
}

/// `u8::is_ascii_whitespace`.
pub fn is_ascii_whitespace(b: u8) -> (r: bool)
    ensures
        r == is_ws(b),
{
    b == 32 || b == 9 || b == 10 || b == 12 || b == 13
}

/// The first non-whitespace index at or after `start`.
fn find_non_ws_from(line: &[u8], start: usize) -> (r: Option<usize>)
    requires
        start <= line@.len(),
    ensures
        match r {
            Some(k) => find_non_ws(line@, start as int) == Some(k as int),
            None => find_non_ws(line@, start as int) is None,
        },
{
    let mut i = start;
    while i < line.len()
        invariant
            start <= i <= line@.len(),
            find_non_ws(line@, start as int) == find_non_ws(line@, i as int),
        decreases line@.len() - i,
    {
        if !is_ascii_whitespace(line[i]) {
            return Some(i);
        }
        i = i + 1;
    }
    None
}

/// The first whitespace index at or after `start`.
fn find_ws_from(line: &[u8], start: usize) -> (r: Option<usize>)
    requires
        start <= line@.len(),
    ensures
        match r {
            Some(k) => find_ws(line@, start as int) == Some(k as int),
            None => find_ws(line@, start as int) is None,
        },
{
    let mut i = start;
    while i < line.len()
        invariant
            start <= i <= line@.len(),
            find_ws(line@, start as int) == find_ws(line@, i as int),
        decreases line@.len() - i,
    {
        if is_ascii_whitespace(line[i]) {
            return Some(i);
        }
        i = i + 1;
    }
    None
}

/// `position(!is_ascii_whitespace)` on `line[from..]`, defaulting to `from`.
pub open spec fn skip_ws(line: Seq<u8>, from: int) -> int {
    match find_non_ws(line, from) {
        Some(k) => k,
        None => from,
    }
}

pub open spec fn is_upper(b: u8) -> bool {
    65 <= b <= 90
}

pub open spec fn is_lower(b: u8) -> bool {
    97 <= b <= 122
}

pub open spec fn is_digit(b: u8) -> bool {
    48 <= b <= 57
}

/// A line that starts with a syslog timestamp such as `Jul 30 12:34:56`.
pub open spec fn spec_is_syslog_timestamp(line: Seq<u8>) -> bool {
    &&& line.len() >= 15
    &&& is_upper(line[0])
    &&& is_lower(line[1])
    &&& is_lower(line[2])
    &&& line[3] == 32
    &&& line[6] == 32
    &&& line[9] == 58
    &&& line[12] == 58
    &&& is_digit(line[7])
    &&& is_digit(line[8])
    &&& is_digit(line[10])
    &&& is_digit(line[11])
    &&& is_digit(line[13])
    &&& is_digit(line[14])
}

/// Checks for a syslog timestamp at the start of the line.
pub fn is_syslog_timestamp(line: &[u8]) -> (r: bool)
    ensures
        r == spec_is_syslog_timestamp(line@),
{
    line.len() >= 15 && line[0] >= 65 && line[0] <= 90 && line[1] >= 97 && line[1] <= 122
        && line[2] >= 97 && line[2] <= 122 && line[3] == 32 && line[6] == 32 && line[9] == 58
        && line[12] == 58 && line[7] >= 48 && line[7] <= 57 && line[8] >= 48 && line[8] <= 57
        && line[10] >= 48 && line[10] <= 57 && line[11] >= 48 && line[11] <= 57 && line[13] >= 48
        && line[13] <= 57 && line[14] >= 48 && line[14] <= 57
}

/// The first offset at which `needle` occurs, ignoring ASCII case.
pub open spec fn first_match(haystack: Seq<u8>, needle: Seq<u8>) -> int {
    choose|p: int| is_first_match(haystack, needle, p)
}

proof fn lemma_first_match_unique(h: Seq<u8>, n: Seq<u8>, p: int)
    requires
        is_first_match(h, n, p),
    ensures
        first_match(h, n) == p,
{
    let q = first_match(h, n);
    assert(is_first_match(h, n, q));
    if q < p {
        assert(!crate::severity::matches_at(h, n, q));
    } else if p < q {
        assert(!crate::severity::matches_at(h, n, p));
    }
}

/// The token marking the first occurrence of `needle`.
pub open spec fn keyword_token(line: Seq<u8>, needle: Seq<u8>, kind: TokenKind) -> Seq<Token> {
    seq![tok(first_match(line, needle), first_match(line, needle) + needle.len(), kind)]
}

/// The keyword token for the detected severity: the first of the severity's
/// keywords that occurs in the line, marked at its first occurrence.
pub open spec fn severity_tokens(line: Seq<u8>) -> Seq<Token> {
    match spec_detect(line) {
        Severity::Fatal => if contains_ci(line, panic_word()) {
            keyword_token(line, panic_word(), TokenKind::Fatal)
        } else if contains_ci(line, fatal_word()) {
            keyword_token(line, fatal_word(), TokenKind::Fatal)
        } else {
            seq![]
        },
        Severity::Error => if contains_ci(line, error_word()) {
            keyword_token(line, error_word(), TokenKind::Error)
        } else if contains_ci(line, failed_word()) {
            keyword_token(line, failed_word(), TokenKind::Error)
        } else {
            seq![]
        },
        Severity::Warn => if contains_ci(line, warn_word()) {
            keyword_token(line, warn_word(), TokenKind::Warning)
        } else {
            seq![]
        },
        _ => seq![],
    }
}

/// Pushes the keyword token for `needle` when it occurs; reports whether it did.
fn push_keyword(line: &[u8], needle: &[u8], kind: TokenKind, tokens: &mut Vec<Token>) -> (found:
    bool)
    ensures
        found == contains_ci(line@, needle@),
        found ==> final(tokens)@ == old(tokens)@ + keyword_token(line@, needle@, kind),
        !found ==> final(tokens)@ == old(tokens)@,
        found ==> token_in_line(final(tokens)@.last(), line@.len() as int),
{
    let n = line.len();
    assert(n == line@.len());
    match find_ascii_case_insensitive(line, needle) {
        Some(start) => {
            proof {
                lemma_first_match_unique(line@, needle@, start as int);
            }
            tokens.push(Token { start, end: start + needle.len(), kind });
            true
        },
        None => false,
    }
}

/// Marks the keyword behind the detected severity and returns that severity.
pub fn add_severity_token(line: &[u8], tokens: &mut Vec<Token>) -> (s: Severity)
    ensures
        s == spec_detect(line@),
        final(tokens)@ == old(tokens)@ + severity_tokens(line@),
        tokens_in_line(final(tokens)@, old(tokens)@.len() as int, line@.len() as int),
{
    let severity = Severity::detect(line);
    let warn: [u8; 4] = [119, 97, 114, 110];
    let error: [u8; 5] = [101, 114, 114, 111, 114];
    let failed: [u8; 6] = [102, 97, 105, 108, 101, 100];
    let panic: [u8; 5] = [112, 97, 110, 105, 99];
    let fatal: [u8; 5] = [102, 97, 116, 97, 108];
    assert(warn@ == warn_word());
    assert(error@ == error_word());
    assert(failed@ == failed_word());
    assert(panic@ == panic_word());
    assert(fatal@ == fatal_word());
    match severity {
        Severity::Fatal => {
            if !push_keyword(line, panic.as_slice(), TokenKind::Fatal, tokens) {
                push_keyword(line, fatal.as_slice(), TokenKind::Fatal, tokens);
            }
        },
        Severity::Error => {
            if !push_keyword(line, error.as_slice(), TokenKind::Error, tokens) {
                push_keyword(line, failed.as_slice(), TokenKind::Error, tokens);
            }
        },
        Severity::Warn => {
            push_keyword(line, warn.as_slice(), TokenKind::Warning, tokens);
        },
        _ => {},
    }
    severity
}

/// Tokens of a syslog line: timestamp, host and process when present.
pub open spec fn syslog_header_tokens(line: Seq<u8>) -> Seq<Token> {
    if !spec_is_syslog_timestamp(line) {
        seq![]
    } else {
        let host_start = skip_ws(line, 15);
        match find_byte(line, 32, host_start) {
            None => seq![tok(0, 15, TokenKind::Timestamp)],
            Some(host_end) => {
                let process_start = skip_ws(line, host_end);
                match find_byte(line, 58, process_start) {
                    None => seq![
                        tok(0, 15, TokenKind::Timestamp),
                        tok(host_start, host_end, TokenKind::Host),
                    ],
                    Some(colon) => seq![
                        tok(0, 15, TokenKind::Timestamp),
                        tok(host_start, host_end, TokenKind::Host),
                        tok(process_start, colon, TokenKind::Process),
                    ],
                }
            },
        }
    }
}

/// The token of an access log's status code and the severity that it implies.
pub open spec fn httpd_status(line: Seq<u8>) -> (Seq<Token>, Severity) {
    match find_byte(line, 34, 0) {
        None => (seq![], Severity::Info),
        Some(q0) => match find_byte(line, 34, q0 + 1) {
            None => (seq![], Severity::Info),
            Some(q1) => match find_non_ws(line, q1 + 1) {
                None => (seq![], Severity::Info),
                Some(start) => {
                    let end = match find_ws(line, start) {
                        Some(e) => e,
                        None => line.len() as int,
                    };
                    if line[start] == 53 {
                        (seq![tok(start, end, TokenKind::Error)], Severity::Error)
                    } else if line[start] == 52 {
                        (seq![tok(start, end, TokenKind::Warning)], Severity::Warn)
                    } else {
                        (seq![tok(start, end, TokenKind::Value)], Severity::Info)
                    }
                },
            },
        },
    }
}

/// Tokens of an access log line: host, bracketed timestamp and status code.
pub open spec fn httpd_tokens(line: Seq<u8>) -> Seq<Token> {
    let host = match find_byte(line, 32, 0) {
        Some(space) => seq![tok(0, space, TokenKind::Host)],
        None => seq![],
    };
    let stamp = match find_byte(line, 91, 0) {
        Some(open) => match find_byte(line, 93, open + 1) {
            Some(close) => seq![tok(open + 1, close, TokenKind::Timestamp)],
            None => seq![],
        },
        None => seq![],
    };
    host + stamp + httpd_status(line).0
}

/// Tokens of a JSON-like line: each quoted string from `cursor` on, marked as
/// a key when the next non-whitespace byte after it is `:` and as a value otherwise.
pub open spec fn json_tokens(line: Seq<u8>, cursor: int) -> Seq<Token>
    decreases line.len() - cursor,
{
    if cursor < 0 || cursor > line.len() {
        seq![]
    } else {
        match find_byte(line, 34, cursor) {
            None => seq![],
            Some(open) => match find_byte(line, 34, open + 1) {
                None => seq![],
                Some(end) => {
                    let kind = match find_non_ws(line, end + 1) {
                        Some(k) => if line[k] == 58 {
                            TokenKind::Key
                        } else {
                            TokenKind::Value
                        },
                        None => TokenKind::Value,
                    };
                    if cursor < end + 1 && end + 1 <= line.len() {
                        seq![tok(open + 1, end, kind)] + json_tokens(line, end + 1)
                    } else {
                        seq![]
                    }
                },
            },
        }
    }
}

/// The bytes `] "` occur in the line.
pub open spec fn has_request_marker(line: Seq<u8>) -> bool {
    exists|p: int|
        0 <= p && p + 3 <= line.len() && #[trigger] line[p] == 93 && line[p + 1] == 32 && line[p
            + 2] == 34
}

/// Which format the automatic parser picks for a line.
pub open spec fn auto_choice(line: Seq<u8>) -> ParserKind {
    if line.len() > 0 && line[0] == 123 {
        ParserKind::Json
    } else if spec_is_syslog_timestamp(line) {
        ParserKind::Syslog
    } else if has_request_marker(line) {
        ParserKind::Httpd
    } else {
        ParserKind::Auto
    }
}

/// The tokens a parser appends for a line, and the severity it reports.
pub open spec fn spec_parse(kind: ParserKind, line: Seq<u8>) -> (Seq<Token>, Severity) {
    match kind {
        ParserKind::Syslog => (syslog_header_tokens(line) + severity_tokens(line), spec_detect(line)),
        ParserKind::Httpd => (
            httpd_tokens(line) + severity_tokens(line),
            spec_join(httpd_status(line).1, spec_detect(line)),
        ),
        ParserKind::Json => (json_tokens(line, 0) + severity_tokens(line), spec_detect(line)),
        ParserKind::Auto => match auto_choice(line) {
            ParserKind::Json => (json_tokens(line, 0) + severity_tokens(line), spec_detect(line)),
            ParserKind::Syslog => (
                syslog_header_tokens(line) + severity_tokens(line),
                spec_detect(line),
            ),
            ParserKind::Httpd => (
                httpd_tokens(line) + severity_tokens(line),
                spec_join(httpd_status(line).1, spec_detect(line)),
            ),
            _ => (severity_tokens(line), spec_detect(line)),
        },
    }
}

/// Some offset is the first match whenever the needle occurs.
proof fn lemma_first_match_exists(h: Seq<u8>, n: Seq<u8>, p: int)
    requires
        crate::severity::matches_at(h, n, p),
    ensures
        is_first_match(h, n, first_match(h, n)),
    decreases p,
{
    if exists|q: int| 0 <= q < p && crate::severity::matches_at(h, n, q) {
        let q = choose|q: int| 0 <= q < p && crate::severity::matches_at(h, n, q);
        lemma_first_match_exists(h, n, q);
    } else {
        assert(is_first_match(h, n, p));
    }
}

proof fn lemma_keyword_token_in_line(line: Seq<u8>, needle: Seq<u8>, kind: TokenKind)
    requires
        line.len() <= usize::MAX,
        contains_ci(line, needle),
    ensures
        tokens_in_line(keyword_token(line, needle, kind), 0, line.len() as int),
{
    let p = choose|p: int| crate::severity::matches_at(line, needle, p);
    lemma_first_match_exists(line, needle, p);
}

proof fn lemma_concat_in_line(a: Seq<Token>, b: Seq<Token>, len: int)
    requires
        tokens_in_line(a, 0, len),
        tokens_in_line(b, 0, len),
    ensures
        tokens_in_line(a + b, 0, len),
{
    assert forall|i: int| 0 <= i < (a + b).len() implies token_in_line(#[trigger] (a + b)[i], len) by {
        if i >= a.len() {
            assert((a + b)[i] == b[i - a.len()]);
        }
    }
}

proof fn lemma_severity_tokens_in_line(line: Seq<u8>)
    requires
        line.len() <= usize::MAX,
    ensures
        tokens_in_line(severity_tokens(line), 0, line.len() as int),
{
    if contains_ci(line, panic_word()) {
        lemma_keyword_token_in_line(line, panic_word(), TokenKind::Fatal);
    }
    if contains_ci(line, fatal_word()) {
        lemma_keyword_token_in_line(line, fatal_word(), TokenKind::Fatal);
    }
    if contains_ci(line, error_word()) {
        lemma_keyword_token_in_line(line, error_word(), TokenKind::Error);
    }
    if contains_ci(line, failed_word()) {
        lemma_keyword_token_in_line(line, failed_word(), TokenKind::Error);
    }
    if contains_ci(line, warn_word()) {
        lemma_keyword_token_in_line(line, warn_word(), TokenKind::Warning);
    }
}

proof fn lemma_syslog_tokens_in_line(line: Seq<u8>)
    requires
        line.len() <= usize::MAX,
    ensures
        tokens_in_line(syslog_header_tokens(line), 0, line.len() as int),
{
    if spec_is_syslog_timestamp(line) {
        lemma_find_non_ws_bounds(line, 15);
        let host_start = skip_ws(line, 15);
        lemma_find_byte_bounds(line, 32, host_start);
        if let Some(host_end) = find_byte(line, 32, host_start) {
            lemma_find_non_ws_bounds(line, host_end);
            let process_start = skip_ws(line, host_end);
            lemma_find_byte_bounds(line, 58, process_start);
        }
    }
}

proof fn lemma_httpd_tokens_in_line(line: Seq<u8>)
    requires
        line.len() <= usize::MAX,
    ensures
        tokens_in_line(httpd_tokens(line), 0, line.len() as int),
{
    lemma_find_byte_bounds(line, 32, 0);
    lemma_find_byte_bounds(line, 91, 0);
    if let Some(open) = find_byte(line, 91, 0) {
        lemma_find_byte_bounds(line, 93, open + 1);
    }
    lemma_find_byte_bounds(line, 34, 0);
    if let Some(q0) = find_byte(line, 34, 0) {
        lemma_find_byte_bounds(line, 34, q0 + 1);
        if let Some(q1) = find_byte(line, 34, q0 + 1) {
            lemma_find_non_ws_bounds(line, q1 + 1);
            if let Some(start) = find_non_ws(line, q1 + 1) {
                lemma_find_ws_bounds(line, start);
            }
        }
    }
    let host = match find_byte(line, 32, 0) {
        Some(space) => seq![tok(0, space, TokenKind::Host)],
        None => seq![],
    };
    let stamp = match find_byte(line, 91, 0) {
        Some(open) => match find_byte(line, 93, open + 1) {
            Some(close) => seq![tok(open + 1, close, TokenKind::Timestamp)],
            None => seq![],
        },
        None => seq![],
    };
    assert(tokens_in_line(host, 0, line.len() as int));
    assert(tokens_in_line(stamp, 0, line.len() as int));
    assert(tokens_in_line(httpd_status(line).0, 0, line.len() as int));
    lemma_concat_in_line(host, stamp, line.len() as int);
    lemma_concat_in_line(host + stamp, httpd_status(line).0, line.len() as int);
}

proof fn lemma_json_tokens_in_line(line: Seq<u8>, cursor: int)
    requires
        line.len() <= usize::MAX,
    ensures
        tokens_in_line(json_tokens(line, cursor), 0, line.len() as int),
    decreases line.len() - cursor,
{
    if 0 <= cursor <= line.len() {
        lemma_find_byte_bounds(line, 34, cursor);
        if let Some(open) = find_byte(line, 34, cursor) {
            lemma_find_byte_bounds(line, 34, open + 1);
            if let Some(end) = find_byte(line, 34, open + 1) {
                if cursor < end + 1 && end + 1 <= line.len() {
                    lemma_json_tokens_in_line(line, end + 1);
                    let kind = match find_non_ws(line, end + 1) {
                        Some(k) => if line[k] == 58 {
                            TokenKind::Key
                        } else {
                            TokenKind::Value
                        },
                        None => TokenKind::Value,
                    };
                    lemma_concat_in_line(
                        seq![tok(open + 1, end, kind)],
                        json_tokens(line, end + 1),
                        line.len() as int,
                    );
                }
            }
        }
    }
}

/// Every token a parser produces lies inside the line.
pub proof fn lemma_parse_tokens_in_line(kind: ParserKind, line: Seq<u8>)
    requires
        line.len() <= usize::MAX,
    ensures
        tokens_in_line(spec_parse(kind, line).0, 0, line.len() as int),
{
    let len = line.len() as int;
    lemma_severity_tokens_in_line(line);
    lemma_syslog_tokens_in_line(line);
    lemma_httpd_tokens_in_line(line);
    lemma_json_tokens_in_line(line, 0);
    lemma_concat_in_line(syslog_header_tokens(line), severity_tokens(line), len);
    lemma_concat_in_line(httpd_tokens(line), severity_tokens(line), len);
    lemma_concat_in_line(json_tokens(line, 0), severity_tokens(line), len);
}

/// The available log formats.
#[derive(Clone, Copy, Debug, PartialEq, Eq, Structural)]
pub enum ParserKind {
    /// Picks JSON, syslog or access-log parsing per line.
    Auto,
    /// BSD syslog lines.
    Syslog,
    /// Apache/Nginx access log lines.
    Httpd,
    /// JSON objects, one per line.
    Json,
}

/// Extensible parser interface for log formats.
pub trait LogParser {
    fn name(&self) -> &'static str;

    fn parse(&self, line: &[u8], tokens: &mut Vec<Token>) -> Severity;
}

/// The automatic format picker.
pub struct Auto;

/// The syslog parser.
pub struct Syslog;

/// The access log parser.
pub struct Httpd;

/// The JSON parser.
pub struct Json;

impl LogParser for Auto {
    fn name(&self) -> &'static str {
        "auto"
    }

    fn parse(&self, line: &[u8], tokens: &mut Vec<Token>) -> (s: Severity)
        ensures
            final(tokens)@ == old(tokens)@ + spec_parse(ParserKind::Auto, line@).0,
            s == spec_parse(ParserKind::Auto, line@).1,
            tokens_in_line(final(tokens)@, old(tokens)@.len() as int, line@.len() as int),
    {
        if line.len() > 0 && line[0] == 123 {
            Json.parse(line, tokens)
        } else if is_syslog_timestamp(line) {
            Syslog.parse(line, tokens)
        } else if has_request_marker_exec(line) {
            Httpd.parse(line, tokens)
        } else {
            add_severity_token(line, tokens)
        }
    }
}

/// Looks for the bytes `] "`.
fn has_request_marker_exec(line: &[u8]) -> (r: bool)
    ensures
        r == has_request_marker(line@),
{
    let n = line.len();
    if n < 3 {
        return false;
    }
    let mut p: usize = 0;
    let last = n - 3;
    while p <= last
        invariant
            n == line@.len(),
            last + 3 == n,
            0 <= p <= line@.len(),
            line@.len() == line.len(),
            forall|q: int|
                0 <= q < p && q + 3 <= line@.len() ==> !(#[trigger] line@[q] == 93 && line@[q + 1]
                    == 32 && line@[q + 2] == 34),
        decreases line@.len() - p,
    {
        if line[p] == 93 && line[p + 1] == 32 && line[p + 2] == 34 {
            return true;
        }
        p = p + 1;
    }
    assert forall|q: int|
        0 <= q && q + 3 <= line@.len() implies !(#[trigger] line@[q] == 93 && line@[q + 1] == 32
        && line@[q + 2] == 34) by {
        assert(q < p);
    }
    false
}

impl LogParser for Syslog {
    fn name(&self) -> &'static str {
        "syslog"
    }

    fn parse(&self, line: &[u8], tokens: &mut Vec<Token>) -> (s: Severity)
        ensures
            final(tokens)@ == old(tokens)@ + spec_parse(ParserKind::Syslog, line@).0,
            s == spec_parse(ParserKind::Syslog, line@).1,
            tokens_in_line(final(tokens)@, old(tokens)@.len() as int, line@.len() as int),
    {
        let ghost l = line@;
        let ghost before = tokens@;
        let n = line.len();
        assert(n == l.len());
        if is_syslog_timestamp(line) {
            tokens.push(Token { start: 0, end: 15, kind: TokenKind::Timestamp });
            let host_start = match find_non_ws_from(line, 15) {
                Some(k) => k,
                None => 15,
            };
            proof {
                lemma_find_non_ws_bounds(l, 15);
            }
            if let Some(host_end) = find_byte_from(32, line, host_start) {
                proof {
                    lemma_find_byte_bounds(l, 32, host_start as int);
                }
                tokens.push(Token { start: host_start, end: host_end, kind: TokenKind::Host });
                let process_start = match find_non_ws_from(line, host_end) {
                    Some(k) => k,
                    None => host_end,
                };
                proof {
                    lemma_find_non_ws_bounds(l, host_end as int);
                }
                if let Some(colon) = find_byte_from(58, line, process_start) {
                    proof {
                        lemma_find_byte_bounds(l, 58, process_start as int);
                    }
                    tokens.push(
                        Token { start: process_start, end: colon, kind: TokenKind::Process },
                    );
                }
            }
        }
        let ghost mid = tokens@;
        assert(mid == before + syslog_header_tokens(l));
        let s = add_severity_token(line, tokens);
        assert(tokens@ == before + (syslog_header_tokens(l) + severity_tokens(l)));
        s
    }
}

/// Pushes the status-code token of an access log line and returns the severity it implies.
fn push_httpd_status(line: &[u8], tokens: &mut Vec<Token>) -> (s: Severity)
    ensures
        final(tokens)@ == old(tokens)@ + httpd_status(line@).0,
        s == httpd_status(line@).1,
        tokens_in_line(final(tokens)@, old(tokens)@.len() as int, line@.len() as int),
{
    let ghost l = line@;
    let n = line.len();
    assert(n == l.len());
    let mut detected = Severity::Info;
    if let Some(q0) = find_byte_from(34, line, 0) {
        proof {
            lemma_find_byte_bounds(l, 34, 0);
        }
        if let Some(q1) = find_byte_from(34, line, q0 + 1) {
            proof {
                lemma_find_byte_bounds(l, 34, q0 + 1);
            }
            if let Some(start) = find_non_ws_from(line, q1 + 1) {
                proof {
                    lemma_find_non_ws_bounds(l, q1 + 1);
                }
                let end = match find_ws_from(line, start) {
                    Some(e) => e,
                    None => line.len(),
                };
                proof {
                    lemma_find_ws_bounds(l, start as int);
                }
                let kind = if line[start] == 53 {
                    detected = Severity::Error;
                    TokenKind::Error
                } else if line[start] == 52 {
                    detected = Severity::Warn;
                    TokenKind::Warning
                } else {
                    TokenKind::Value
                };
                tokens.push(Token { start, end, kind });
            }
        }
    }
    detected
}

impl LogParser for Httpd {
    fn name(&self) -> &'static str {
        "httpd"
    }

    fn parse(&self, line: &[u8], tokens: &mut Vec<Token>) -> (s: Severity)
        ensures
            final(tokens)@ == old(tokens)@ + spec_parse(ParserKind::Httpd, line@).0,
            s == spec_parse(ParserKind::Httpd, line@).1,
            tokens_in_line(final(tokens)@, old(tokens)@.len() as int, line@.len() as int),
    {
        let ghost l = line@;
        let ghost before = tokens@;
        let n = line.len();
        assert(n == l.len());
        if let Some(space) = find_byte_from(32, line, 0) {
            proof {
                lemma_find_byte_bounds(l, 32, 0);
            }
            tokens.push(Token { start: 0, end: space, kind: TokenKind::Host });
        }
        let ghost after_host = tokens@;
        if let Some(open) = find_byte_from(91, line, 0) {
            proof {
                lemma_find_byte_bounds(l, 91, 0);
            }
            if let Some(close) = find_byte_from(93, line, open + 1) {
                proof {
                    lemma_find_byte_bounds(l, 93, open + 1);
                }
                tokens.push(Token { start: open + 1, end: close, kind: TokenKind::Timestamp });
            }
        }
        let detected = push_httpd_status(line, tokens);
        assert(tokens@ == before + httpd_tokens(l));
        let found = add_severity_token(line, tokens);
        assert(tokens@ == before + (httpd_tokens(l) + severity_tokens(l)));
        detected.join(found)
    }
}

impl LogParser for Json {
    fn name(&self) -> &'static str {
        "json"
    }

    fn parse(&self, line: &[u8], tokens: &mut Vec<Token>) -> (s: Severity)
        ensures
            final(tokens)@ == old(tokens)@ + spec_parse(ParserKind::Json, line@).0,
            s == spec_parse(ParserKind::Json, line@).1,
            tokens_in_line(final(tokens)@, old(tokens)@.len() as int, line@.len() as int),
    {
        let ghost l = line@;
        let ghost before = tokens@;
        let n = line.len();
        let mut cursor: usize = 0;
        loop
            invariant
                n == l.len(),
                0 <= cursor <= l.len(),
                l == line@,
                tokens@ + json_tokens(l, cursor as int) == before + json_tokens(l, 0),
                tokens_in_line(tokens@, before.len() as int, l.len() as int),
                before.len() <= tokens@.len(),
                tokens@.subrange(0, before.len() as int) == before,
            ensures
                tokens@ == before + json_tokens(l, 0),
            decreases l.len() - cursor,
        {
            let open = match find_byte_from(34, line, cursor) {
                Some(o) => o,
                None => {
                    assert(json_tokens(l, cursor as int) == Seq::<Token>::empty());
                    assert(tokens@ + Seq::<Token>::empty() == tokens@);
                    break;
                },
            };
            proof {
                lemma_find_byte_bounds(l, 34, cursor as int);
            }
            let start = open + 1;
            let close = match find_byte_from(34, line, start) {
                Some(c) => c,
                None => {
                    assert(json_tokens(l, cursor as int) == Seq::<Token>::empty());
                    assert(tokens@ + Seq::<Token>::empty() == tokens@);
                    break;
                },
            };
            proof {
                lemma_find_byte_bounds(l, 34, start as int);
                lemma_find_non_ws_bounds(l, close + 1);
            }
            let kind = match find_non_ws_from(line, close + 1) {
                Some(k) => if line[k] == 58 {
                    TokenKind::Key
                } else {
                    TokenKind::Value
                },
                None => TokenKind::Value,
            };
            let ghost prev = tokens@;
            tokens.push(Token { start, end: close, kind });
            assert(json_tokens(l, cursor as int) == seq![tok(start as int, close as int, kind)]
                + json_tokens(l, close + 1));
            assert(tokens@ + json_tokens(l, close + 1) == prev + json_tokens(l, cursor as int));
            assert(tokens@.subrange(0, before.len() as int) == prev.subrange(
                0,
                before.len() as int,
            ));
            cursor = close + 1;
        }
        let s = add_severity_token(line, tokens);
        assert(tokens@ == before + (json_tokens(l, 0) + severity_tokens(l)));
        s
    }
}

impl ParserKind {
    /// The parser's stable name.
    pub fn name(self) -> (s: &'static str)
        ensures
            s@ == parser_name(self),
    {
        match self {
            ParserKind::Auto => "auto",
            ParserKind::Syslog => "syslog",
            ParserKind::Httpd => "httpd",
            ParserKind::Json => "json",
        }
    }

    /// Appends the line's tokens and returns its severity.
    pub fn parse(self, line: &[u8], tokens: &mut Vec<Token>) -> (s: Severity)
        ensures
            final(tokens)@ == old(tokens)@ + spec_parse(self, line@).0,
            s == spec_parse(self, line@).1,
            tokens_in_line(final(tokens)@, old(tokens)@.len() as int, line@.len() as int),
    {
        match self {
            ParserKind::Auto => Auto.parse(line, tokens),
            ParserKind::Syslog => Syslog.parse(line, tokens),
            ParserKind::Httpd => Httpd.parse(line, tokens),
            ParserKind::Json => Json.parse(line, tokens),
        }
    }
}

pub open spec fn parser_name(k: ParserKind) -> Seq<char> {
    match k {
        ParserKind::Auto => "auto"@,
        ParserKind::Syslog => "syslog"@,
        ParserKind::Httpd => "httpd"@,
        ParserKind::Json => "json"@,
    }
}

/// The parser registered under a name, if any.
pub open spec fn parser_named(name: Seq<char>) -> Option<ParserKind> {
    if name == "auto"@ {
        Some(ParserKind::Auto)
    } else if name == "syslog"@ {
        Some(ParserKind::Syslog)
    } else if name == "httpd"@ {
        Some(ParserKind::Httpd)
    } else if name == "json"@ {
        Some(ParserKind::Json)
    } else {
        None
    }
}

/// Text equality of two string slices.
pub fn same_text(a: &str, b: &str) -> (r: bool)
    ensures
        r == (a@ == b@),
{
    String::from_str(a) == String::from_str(b)
}

/// Looks up a parser by its name.
pub fn by_name(name: &str) -> (r: Option<ParserKind>)
    ensures
        r == parser_named(name@),
{
    if same_text(name, "auto") {
        Some(ParserKind::Auto)
    } else if same_text(name, "syslog") {
        Some(ParserKind::Syslog)
    } else if same_text(name, "httpd") {
        Some(ParserKind::Httpd)
    } else if same_text(name, "json") {
        Some(ParserKind::Json)
    } else {
        None
    }
}

/// How severe the color of a token kind is: warnings, errors and fatal
/// keywords carry the rank of `Warn`, `Error` and `Fatal`; other kinds none.
pub open spec fn token_severity_rank(k: TokenKind) -> int {
    match k {
        TokenKind::Warning => 3,
        TokenKind::Error => 4,
        TokenKind::Fatal => 5,
        _ => 0,
    }
}

/// No token of `s` is colored more severely than rank `r`.
pub open spec fn tokens_at_most(s: Seq<Token>, r: int) -> bool {
    forall|i: int| 0 <= i < s.len() ==> token_severity_rank(#[trigger] s[i].kind) <= r
}

proof fn lemma_tokens_at_most_concat(a: Seq<Token>, b: Seq<Token>, r: int)
    requires
        tokens_at_most(a, r),
        tokens_at_most(b, r),
    ensures
        tokens_at_most(a + b, r),
{
    assert forall|i: int| 0 <= i < (a + b).len() implies token_severity_rank(
        #[trigger] (a + b)[i].kind,
    ) <= r by {
        if i < a.len() {
            assert((a + b)[i] == a[i]);
        } else {
            assert((a + b)[i] == b[i - a.len()]);
        }
    }
}

proof fn lemma_severity_tokens_at_most(line: Seq<u8>)
    ensures
        tokens_at_most(severity_tokens(line), rank(spec_detect(line))),
{
}

proof fn lemma_json_tokens_plain(line: Seq<u8>, cursor: int)
    ensures
        tokens_at_most(json_tokens(line, cursor), 0),
    decreases line.len() - cursor,
{
    if 0 <= cursor <= line.len() {
        if let Some(open) = find_byte(line, 34, cursor) {
            if let Some(end) = find_byte(line, 34, open + 1) {
                if cursor < end + 1 && end + 1 <= line.len() {
                    lemma_json_tokens_plain(line, end + 1);
                    let kind = match find_non_ws(line, end + 1) {
                        Some(k) => if line[k] == 58 {
                            TokenKind::Key
                        } else {
                            TokenKind::Value
                        },
                        None => TokenKind::Value,
                    };
                    lemma_tokens_at_most_concat(
                        seq![tok(open + 1, end, kind)],
                        json_tokens(line, end + 1),
                        0,
                    );
                }
            }
        }
    }
}

proof fn lemma_httpd_tokens_at_most(line: Seq<u8>)
    ensures
        tokens_at_most(httpd_tokens(line), rank(httpd_status(line).1)),
{
    let host = match find_byte(line, 32, 0) {
        Some(space) => seq![tok(0, space, TokenKind::Host)],
        None => seq![],
    };
    let stamp = match find_byte(line, 91, 0) {
        Some(open) => match find_byte(line, 93, open + 1) {
            Some(close) => seq![tok(open + 1, close, TokenKind::Timestamp)],
            None => seq![],
        },
        None => seq![],
    };
    let r = rank(httpd_status(line).1);
    assert(tokens_at_most(host, r));
    assert(tokens_at_most(stamp, r));
    assert(tokens_at_most(httpd_status(line).0, r));
    lemma_tokens_at_most_concat(host, stamp, r);
    lemma_tokens_at_most_concat(host + stamp, httpd_status(line).0, r);
}

proof fn lemma_tokens_at_most_weaken(s: Seq<Token>, r: int, r2: int)
    requires
        tokens_at_most(s, r),
        r <= r2,
    ensures
        tokens_at_most(s, r2),
{
}

/// A parser never colors a token more severely than the severity it reports
/// for the line. So an access-log status starting with `5`, colored as an
/// error, makes the line at least `Error`; one starting with `4`, colored as a
/// warning, makes it at least `Warn`; and a keyword colored as fatal, error or
/// warning comes with that severity.
pub proof fn law_severity_covers_tokens(kind: ParserKind, line: Seq<u8>)
    ensures
        tokens_at_most(spec_parse(kind, line).0, rank(spec_parse(kind, line).1)),
{
    let d = rank(spec_detect(line));
    let h = rank(spec_join(httpd_status(line).1, spec_detect(line)));
    lemma_severity_tokens_at_most(line);
    lemma_json_tokens_plain(line, 0);
    lemma_httpd_tokens_at_most(line);
    assert(tokens_at_most(syslog_header_tokens(line), 0));
    lemma_tokens_at_most_weaken(json_tokens(line, 0), 0, d);
    lemma_tokens_at_most_weaken(syslog_header_tokens(line), 0, d);
    lemma_tokens_at_most_concat(json_tokens(line, 0), severity_tokens(line), d);
    lemma_tokens_at_most_concat(syslog_header_tokens(line), severity_tokens(line), d);
    lemma_tokens_at_most_weaken(httpd_tokens(line), rank(httpd_status(line).1), h);
    lemma_tokens_at_most_weaken(severity_tokens(line), d, h);
    lemma_tokens_at_most_concat(httpd_tokens(line), severity_tokens(line), h);
}

/// Whether a line starts with a syslog timestamp does not depend on its day
/// field, bytes 4 and 5, which syslog writes space-padded (`Jul  3`) as well
/// as with two digits (`Jul 30`).
pub proof fn law_syslog_timestamp_ignores_day(line: Seq<u8>, a: u8, b: u8)
    requires
        line.len() >= 6,
    ensures
        spec_is_syslog_timestamp(line.update(4, a).update(5, b)) == spec_is_syslog_timestamp(line),
{
    let l2 = line.update(4, a).update(5, b);
    assert(forall|i: int| 0 <= i < line.len() && i != 4 && i != 5 ==> l2[i] == line[i]);
    assert(l2.len() == line.len());
    if line.len() >= 15 {
        assert(l2[0] == line[0] && l2[1] == line[1] && l2[2] == line[2] && l2[3] == line[3]);
        assert(l2[6] == line[6] && l2[7] == line[7] && l2[8] == line[8] && l2[9] == line[9]);
        assert(l2[10] == line[10] && l2[11] == line[11] && l2[12] == line[12]);
        assert(l2[13] == line[13] && l2[14] == line[14]);
    }
}

/// The automatic parser hands each line to the parser of its format and gives
/// exactly what that parser gives: a line opening with `{` to the JSON parser;
/// one that starts with a syslog timestamp to the syslog parser; any other
/// holding `] "` to the access-log parser.
pub proof fn law_auto_dispatch(line: Seq<u8>)
    ensures
        line.len() > 0 && line[0] == 123 ==> spec_parse(ParserKind::Auto, line) == spec_parse(
            ParserKind::Json,
            line,
        ),
        spec_is_syslog_timestamp(line) ==> spec_parse(ParserKind::Auto, line) == spec_parse(
            ParserKind::Syslog,
            line,
        ),
        !(line.len() > 0 && line[0] == 123) && !spec_is_syslog_timestamp(line) && has_request_marker(
            line,
        ) ==> spec_parse(ParserKind::Auto, line) == spec_parse(ParserKind::Httpd, line),
{
}

proof fn lemma_find_non_ws_skip(s: Seq<u8>, i: int, j: int)
    requires
        0 <= i <= j <= s.len(),
        forall|k: int| i <= k < j ==> is_ws(s[k]),
    ensures
        find_non_ws(s, i) == find_non_ws(s, j),
    decreases j - i,
{
    if i < j {
        lemma_find_non_ws_skip(s, i + 1, j);
    }
}

/// In an access-log line the status follows the request: it starts at the
/// first byte that is not whitespace after the line's second `"` (at `q1`;
/// the first is at `q0`). A status starting with `5` makes the line at least
/// `Error` and one starting with `4` at least `Warn`, whatever else the line
/// holds.
pub proof fn law_httpd_status_severity(line: Seq<u8>, q0: int, q1: int, p: int)
    requires
        0 <= q0 < q1 < p < line.len(),
        line[q0] == 34,
        line[q1] == 34,
        forall|i: int| 0 <= i < q0 ==> line[i] != 34,
        forall|i: int| q0 < i < q1 ==> line[i] != 34,
        forall|i: int| q1 < i < p ==> is_ws(line[i]),
    ensures
        line[p] == 53 ==> rank(spec_parse(ParserKind::Httpd, line).1) >= rank(Severity::Error),
        line[p] == 52 ==> rank(spec_parse(ParserKind::Httpd, line).1) >= rank(Severity::Warn),
{
    lemma_find_byte_skip(line, 34, 0, q0);
    lemma_find_byte_skip(line, 34, q0 + 1, q1);
    lemma_find_non_ws_skip(line, q1 + 1, p);
    assert(find_byte(line, 34, 0) == Some(q0));
    assert(find_byte(line, 34, q0 + 1) == Some(q1));
    if line[p] == 53 || line[p] == 52 {
        assert(!is_ws(line[p]));
        assert(find_non_ws(line, q1 + 1) == Some(p));
    }
}

/// The syslog parser marks the first fifteen bytes of a line that starts with
/// a syslog timestamp as its timestamp token, and marks no header on any other line.
pub proof fn law_syslog_marks_timestamp(line: Seq<u8>)
    ensures
        spec_is_syslog_timestamp(line) ==> spec_parse(ParserKind::Syslog, line).0.len() >= 1
            && spec_parse(ParserKind::Syslog, line).0[0] == tok(0, 15, TokenKind::Timestamp),
        !spec_is_syslog_timestamp(line) ==> spec_parse(ParserKind::Syslog, line).0 == severity_tokens(
            line,
        ),
{
    if !spec_is_syslog_timestamp(line) {
        assert(seq![] + severity_tokens(line) =~= severity_tokens(line));
    }
}

} // verus!
