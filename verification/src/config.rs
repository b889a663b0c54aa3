//! Configuration schemas, auto-fix strategies, and the recognition of
//! configuration errors in service log lines.
//!
//! Values are here, floating-point ones by their bits; configurations, the
//! files of values, are handled by the caller.
use vstd::prelude::*;
use std::collections::HashMap;
use crate::text::{
    concat_str, all_digits, digits_value, lower_equals, starts_with, parse_u64, lines, lines_of, ascii_lower, ascii_lowercase, chars_of, contains_exec, contains_text, find_char,
    find_char_exec, find_text, find_text_exec, lemma_find_char, lemma_find_text, is_white,
    is_whitespace, parse_u64_exec, parse_usize, substring, split_words, trim, trim_str, views,
    words,
};

verus! {

/// A configuration schema defines required and optional parameters.
#[derive(Clone, Debug)]
pub struct ConfigSchema {
    /// Required parameter names.
    pub required: Vec<String>,
    /// Optional parameter names.
    pub optional: Vec<String>,
}

/// The texts of a list of string slices.
pub open spec fn str_views(v: Seq<&str>) -> Seq<Seq<char>> {
    v.map_values(|s: &str| s@)
}

/// Owned copies of string slices.
fn owned_strings(v: &Vec<&str>) -> (r: Vec<String>)
    ensures
        views(r@) == str_views(v@),
{
    let mut r: Vec<String> = Vec::new();
    let mut i: usize = 0;
    while i < v.len()
        invariant
            i <= v@.len(),
            views(r@) == str_views(v@.subrange(0, i as int)),
        decreases v@.len() - i,
    {
        let ghost before = r@;
        r.push(String::from_str(v[i]));
        assert(views(r@) =~= views(before).push(v@[i as int]@));
        assert(str_views(v@.subrange(0, i + 1)) =~= str_views(v@.subrange(0, i as int)).push(
            v@[i as int]@,
        ));
        i = i + 1;
    }
    assert(v@.subrange(0, v@.len() as int) =~= v@);
    r
}

impl ConfigSchema {
    /// A schema with the given required and optional parameter names, in order.
    pub fn new(required: Vec<&str>, optional: Vec<&str>) -> (s: Self)
        ensures
            views(s.required@) == str_views(required@),
            views(s.optional@) == str_views(optional@),
    {
        ConfigSchema { required: owned_strings(&required), optional: owned_strings(&optional) }
    }
}

/// Configuration auto-fix strategy.
#[derive(Clone, Copy, Debug, PartialEq, Eq, Structural)]
pub enum AutoFixStrategy {
    /// Do not auto-fix.
    NoFix,
    /// Use default values for missing parameters.
    Defaults,
    /// Remove invalid parameters.
    RemoveInvalid,
    /// Both: use defaults and remove invalid.
    Both,
}

/// A configuration error found in a log line.
#[derive(Clone, Debug)]
pub struct ConfigError {
    /// The service name.
    pub service: String,
    /// The configuration file path.
    pub config_path: String,
    /// The error message.
    pub error: String,
    /// The line number in the config file (if available).
    pub line_number: Option<usize>,
}

/// What a recognized configuration error says.
pub struct ConfigErrorView {
    pub service: Seq<char>,
    pub config_path: Seq<char>,
    pub error: Seq<char>,
    pub line_number: Option<usize>,
}

impl View for ConfigError {
    type V = ConfigErrorView;

    open spec fn view(&self) -> ConfigErrorView {
        ConfigErrorView {
            service: self.service@,
            config_path: self.config_path@,
            error: self.error@,
            line_number: self.line_number,
        }
    }
}

/// A character that ends a path: whitespace, `:`, or a quote.
pub open spec fn ends_path(c: char) -> bool {
    is_white(c) || c == ':' || c == '"' || c == '\''
}

/// The first index at or after `i` holding a character that ends a path, or the length.
pub open spec fn path_end(s: Seq<char>, i: int) -> int
    decreases s.len() - i,
{
    if i < 0 || i >= s.len() {
        s.len() as int
    } else if ends_path(s[i]) {
        i
    } else {
        path_end(s, i + 1)
    }
}

/// The first Unix path in the text: from its first `/` up to the first
/// character that ends a path.
pub open spec fn path_in(s: Seq<char>) -> Option<Seq<char>> {
    match find_char(s, '/', 0) {
        Some(start) => Some(s.subrange(start, path_end(s, start))),
        None => None,
    }
}

/// The text with every occurrence of `p` from index `i` on removed, scanning
/// left to right as `str::replace(p, "")` does.
pub open spec fn remove_from(s: Seq<char>, p: Seq<char>, i: int) -> Seq<char>
    decreases s.len() - i,
{
    if i < 0 || i > s.len() || p.len() == 0 {
        s.subrange(i, s.len() as int)
    } else {
        match find_text(s, p, i) {
            Some(k) => if k >= i && k + p.len() <= s.len() {
                s.subrange(i, k) + remove_from(s, p, k + p.len())
            } else {
                s.subrange(i, s.len() as int)
            },
            None => s.subrange(i, s.len() as int),
        }
    }
}

/// The last index holding `c`.
pub open spec fn rfind_char(s: Seq<char>, c: char) -> Option<int>
    decreases s.len(),
{
    if s.len() == 0 {
        None
    } else if s.last() == c {
        Some(s.len() - 1)
    } else {
        rfind_char(s.drop_last(), c)
    }
}

/// The first word that reads as a `usize`.
pub open spec fn first_number_word(ws: Seq<Seq<char>>) -> Option<usize>
    decreases ws.len(),
{
    if ws.len() == 0 {
        None
    } else if parse_usize(ws[0]) is Some {
        parse_usize(ws[0])
    } else {
        first_number_word(ws.drop_first())
    }
}

/// The line number a message gives: the number after its last `:`, or else,
/// when it mentions a line (in any case), its first word that is a number.
/// Lowering ASCII letters finds `line` where `str::to_lowercase` does: the one
/// character outside ASCII that lowercases to an ASCII letter of `line` (`İ`)
/// lowercases to two characters, `i` and a combining dot.
pub open spec fn line_number_in(s: Seq<char>) -> Option<usize> {
    let after = match rfind_char(s, ':') {
        Some(c) => parse_usize(trim(s.subrange(c + 1, s.len() as int))),
        None => None,
    };
    if after is Some {
        after
    } else if contains_text(ascii_lower(s), "line"@) {
        first_number_word(words(s))
    } else {
        None
    }
}

/// The configuration error a log line reports, when it mentions an invalid
/// parameter or a syntax error (in any ASCII case, as `Syntax error on line 42
/// of ...`), names a service before its first `:`, and names a path after it.
/// The error message is the rest of the line without the path.
pub open spec fn config_error_in(line: Seq<char>) -> Option<ConfigErrorView> {
    if !(contains_text(line, "invalid parameter"@) || contains_text(
        ascii_lower(line),
        "syntax error"@,
    )) {
        None
    } else {
        match find_char(line, ':', 0) {
            None => None,
            Some(c) => {
                let rest = line.subrange(c + 1, line.len() as int);
                match path_in(rest) {
                    None => None,
                    Some(path) => Some(
                        ConfigErrorView {
                            service: trim(line.subrange(0, c)),
                            config_path: path,
                            error: trim(remove_from(rest, path, 0)),
                            line_number: line_number_in(rest),
                        },
                    ),
                }
            },
        }
    }
}

/// The UTF-8 decoding of bytes in which each invalid sequence becomes U+FFFD.
pub uninterp spec fn utf8_lossy(bytes: Seq<u8>) -> Seq<char>;

/// `String::from_utf8_lossy`: the text of the bytes, each invalid UTF-8
/// sequence replaced by U+FFFD. The decoding is named, not spelled out.
#[verifier::external_body]
pub(crate) fn decode_lossy(bytes: &[u8]) -> (s: String)
    ensures
        s@ == utf8_lossy(bytes@),
{
    String::from_utf8_lossy(bytes).into_owned()
}

/// The index of the first character that ends a path, at or after `i`.
fn path_end_exec(s: &[char], i: usize) -> (r: usize)
    requires
        i <= s@.len(),
    ensures
        r == path_end(s@, i as int),
{
    let mut k = i;
    while k < s.len()
        invariant
            i <= k <= s@.len(),
            path_end(s@, i as int) == path_end(s@, k as int),
        decreases s@.len() - k,
    {
        let c = s[k];
        if is_whitespace(c) || c == ':' || c == '"' || c == '\'' {
            return k;
        }
        k = k + 1;
    }
    k
}

/// The text with every occurrence of a non-empty `p` removed.
fn remove_all(text: &str, p: &[char]) -> (r: String)
    requires
        p@.len() > 0,
    ensures
        r@ == remove_from(text@, p@, 0),
{
    let cs = chars_of(text);
    let ghost s = cs@;
    let mut r = String::new();
    let mut i: usize = 0;
    while i <= cs.len()
        invariant
            s == cs@,
            s == text@,
            i <= s.len() + 1,
            p@.len() > 0,
            i <= s.len() ==> remove_from(s, p@, 0) == r@ + remove_from(s, p@, i as int),
            i > s.len() ==> remove_from(s, p@, 0) == r@,
        decreases s.len() + 1 - i,
    {
        proof {
            lemma_find_text(s, p@, i as int);
        }
        match find_text_exec(cs.as_slice(), p, i) {
            Some(k) => {
                let ghost before = r@;
                let piece = substring(text, i, k);
                r.append(piece.as_str());
                assert(remove_from(s, p@, i as int) == s.subrange(i as int, k as int) + remove_from(
                    s,
                    p@,
                    k + p@.len(),
                ));
                assert(before + s.subrange(i as int, k as int) + remove_from(s, p@, k + p@.len())
                    =~= r@ + remove_from(s, p@, k + p@.len()));
                i = k + p.len();
            },
            None => {
                let n = cs.len();
                let piece = substring(text, i, n);
                r.append(piece.as_str());
                return r;
            },
        }
    }
    r
}

/// The last index holding `c`.
fn rfind_char_exec(s: &[char], c: char) -> (r: Option<usize>)
    ensures
        match r {
            Some(k) => rfind_char(s@, c) == Some(k as int),
            None => rfind_char(s@, c) is None,
        },
{
    let mut k = s.len();
    assert(s@.subrange(0, k as int) =~= s@);
    while k > 0
        invariant
            k <= s@.len(),
            rfind_char(s@, c) == rfind_char(s@.subrange(0, k as int), c),
        decreases k,
    {
        assert(s@.subrange(0, k as int).drop_last() =~= s@.subrange(0, k - 1));
        if s[k - 1] == c {
            return Some(k - 1);
        }
        k = k - 1;
    }
    None
}

/// The text as a `usize`, as `str::parse::<usize>` reads it.
fn parse_usize_exec(s: &str) -> (r: Option<usize>)
    ensures
        r == parse_usize(s@),
{
    let cs = chars_of(s);
    assert(cs@.subrange(0, cs@.len() as int) =~= cs@);
    match parse_u64_exec(cs.as_slice(), 0, cs.len()) {
        Some(v) => if v <= usize::MAX as u64 {
            Some(v as usize)
        } else {
            None
        },
        None => None,
    }
}

impl ConfigError {
    /// The configuration error a log line reports, if it reports one.
    pub fn parse(line: &[u8]) -> (r: Option<Self>)
        ensures
            match r {
                Some(e) => config_error_in(utf8_lossy(line@)) == Some(e@),
                None => config_error_in(utf8_lossy(line@)) is None,
            },
    {
        let text = decode_lossy(line);
        ConfigError::parse_text(text.as_str())
    }

    /// The configuration error a line of text reports, if it reports one.
    pub fn parse_text(line: &str) -> (r: Option<Self>)
        ensures
            match r {
                Some(e) => config_error_in(line@) == Some(e@),
                None => config_error_in(line@) is None,
            },
    {
        let cs = chars_of(line);
        let lowered = ascii_lowercase(cs.as_slice());
        if !(contains_exec(cs.as_slice(), chars_of("invalid parameter").as_slice()) || contains_exec(
            lowered.as_slice(),
            chars_of("syntax error").as_slice(),
        )) {
            return None;
        }
        proof {
            lemma_find_char(cs@, ':', 0);
        }
        let c = match find_char_exec(cs.as_slice(), ':', 0) {
            Some(c) => c,
            None => {
                return None;
            },
        };
        let n = cs.len();
        let rest = substring(line, c + 1, n);
        let service = trim_str(substring(line, 0, c).as_str());
        match ConfigError::extract_path(rest.as_str()) {
            None => None,
            Some(path) => {
                let pc = chars_of(path.as_str());
                let removed_text = remove_all(rest.as_str(), pc.as_slice());
                let error = trim_str(removed_text.as_str());
                let line_number = ConfigError::extract_line_number(rest.as_str());
                Some(ConfigError { service, config_path: path, error, line_number })
            },
        }
    }

    /// The first Unix path in the text.
    fn extract_path(s: &str) -> (r: Option<String>)
        ensures
            match r {
                Some(p) => path_in(s@) == Some(p@) && p@.len() > 0,
                None => path_in(s@) is None,
            },
    {
        let cs = chars_of(s);
        proof {
            lemma_find_char(cs@, '/', 0);
        }
        match find_char_exec(cs.as_slice(), '/', 0) {
            Some(start) => {
                let end = path_end_exec(cs.as_slice(), start);
                proof {
                    lemma_path_end(cs@, start as int);
                }
                Some(substring(s, start, end))
            },
            None => None,
        }
    }

    /// The line number a message gives.
    fn extract_line_number(s: &str) -> (r: Option<usize>)
        ensures
            r == line_number_in(s@),
    {
        let cs = chars_of(s);
        let after = match rfind_char_exec(cs.as_slice(), ':') {
            Some(c) => {
                proof {
                    lemma_rfind_char(cs@, ':');
                }
                let n = cs.len();
                parse_usize_exec(trim_str(substring(s, c + 1, n).as_str()).as_str())
            },
            None => None,
        };
        if after.is_some() {
            return after;
        }
        let lowered = ascii_lowercase(cs.as_slice());
        if !contains_exec(lowered.as_slice(), chars_of("line").as_slice()) {
            return None;
        }
        let ws = split_words(s);
        let ghost wv = views(ws@);
        let mut i: usize = 0;
        assert(wv.subrange(0, wv.len() as int) =~= wv);
        assert(line_number_in(s@) == first_number_word(wv));
        while i < ws.len()
            invariant
                i <= ws@.len(),
                wv == views(ws@),
                wv == words(s@),
                line_number_in(s@) == first_number_word(wv),
                first_number_word(wv) == first_number_word(wv.subrange(i as int, wv.len() as int)),
            decreases ws@.len() - i,
        {
            let ghost tail = wv.subrange(i as int, wv.len() as int);
            assert(tail[0] == ws@[i as int]@);
            assert(tail.drop_first() =~= wv.subrange(i + 1, wv.len() as int));
            match parse_usize_exec(ws[i].as_str()) {
                Some(v) => {
                    return Some(v);
                },
                None => {},
            }
            i = i + 1;
        }
        assert(wv.subrange(i as int, wv.len() as int) =~= Seq::<Seq<char>>::empty());
        None
    }
}

/// A path runs from its `/` to the first character that ends it, so it is not empty.
proof fn lemma_path_end(s: Seq<char>, start: int)
    requires
        0 <= start < s.len(),
        s[start] == '/',
    ensures
        start < path_end(s, start) <= s.len(),
{
    lemma_path_end_bounds(s, start + 1);
}

proof fn lemma_path_end_bounds(s: Seq<char>, i: int)
    requires
        0 <= i <= s.len(),
    ensures
        i <= path_end(s, i) <= s.len(),
    decreases s.len() - i,
{
    if i < s.len() && !ends_path(s[i]) {
        lemma_path_end_bounds(s, i + 1);
    }
}

proof fn lemma_rfind_char(s: Seq<char>, c: char)
    ensures
        rfind_char(s, c) matches Some(k) ==> 0 <= k < s.len(),
    decreases s.len(),
{
    if s.len() > 0 && s.last() != c {
        lemma_rfind_char(s.drop_last(), c);
    }
}

/// How a configuration value's text reads, before any floating-point reading.
#[derive(Debug, Clone, PartialEq, Eq)]
pub enum ValueKind {
    /// Empty text, `true`, `yes`, `on` (in any case) or `1`.
    True,
    /// `false`, `no`, `off` (in any case) or `0`.
    False,
    /// A decimal `i64`.
    Integer(i64),
    /// Anything else: a floating-point number or a plain string.
    Other,
}

/// `i64::from_str`: an optional sign followed by decimal digits whose value fits.
pub open spec fn parse_i64(s: Seq<char>) -> Option<i64> {
    let signed = s.len() > 0 && (s[0] == '+' || s[0] == '-');
    let body = if signed {
        s.drop_first()
    } else {
        s
    };
    if !all_digits(body) {
        None
    } else if signed && s[0] == '-' {
        if digits_value(body) <= 0x8000_0000_0000_0000 {
            Some((0 - digits_value(body)) as i64)
        } else {
            None
        }
    } else if digits_value(body) <= 0x7fff_ffff_ffff_ffff {
        Some(digits_value(body) as i64)
    } else {
        None
    }
}

/// The kind of a trimmed value's text.
pub open spec fn value_kind(v: Seq<char>) -> ValueKind {
    if v.len() == 0 {
        ValueKind::True
    } else if ascii_lower(v) == "true"@ || ascii_lower(v) == "yes"@ || ascii_lower(v) == "on"@ || v
        == "1"@ {
        ValueKind::True
    } else if ascii_lower(v) == "false"@ || ascii_lower(v) == "no"@ || ascii_lower(v) == "off"@ || v
        == "0"@ {
        ValueKind::False
    } else {
        match parse_i64(v) {
            Some(i) => ValueKind::Integer(i),
            None => ValueKind::Other,
        }
    }
}

/// Parses text as an `i64`, as `str::parse::<i64>` does.
pub fn parse_i64_exec(s: &str) -> (r: Option<i64>)
    ensures
        r == parse_i64(s@),
{
    let cs = chars_of(s);
    let n = cs.len();
    let signed = n > 0 && (cs[0] == '+' || cs[0] == '-');
    let start: usize = if signed {
        1
    } else {
        0
    };
    let ghost body = cs@.subrange(start as int, n as int);
    assert(body =~= (if signed {
        s@.drop_first()
    } else {
        s@
    }));
    if start < n && cs[start] == '+' {
        assert(!all_digits(body)) by {
            assert(!crate::text::is_digit_char(body[0]));
        }
        return None;
    }
    let parsed = parse_u64_exec(cs.as_slice(), start, n);
    proof {
        assert(body.len() > 0 ==> body[0] != '+');
    }
    match parsed {
        None => {
            return None;
        },
        Some(v) => {
            if signed && cs[0] == '-' {
                if v <= 0x8000_0000_0000_0000 {
                    if v == 0x8000_0000_0000_0000 {
                        Some(i64::MIN)
                    } else {
                        Some(0 - (v as i64))
                    }
                } else {
                    None
                }
            } else if v <= 0x7fff_ffff_ffff_ffff {
                Some(v as i64)
            } else {
                None
            }
        },
    }
}

/// The kind of a trimmed value's text.
pub fn classify_value(value: &str) -> (k: ValueKind)
    ensures
        k == value_kind(value@),
{
    let cs = chars_of(value);
    if cs.len() == 0 {
        return ValueKind::True;
    }
    if lower_equals(cs.as_slice(), "true") || lower_equals(cs.as_slice(), "yes") || lower_equals(
        cs.as_slice(),
        "on",
    ) || crate::parser::same_text(value, "1") {
        return ValueKind::True;
    }
    if lower_equals(cs.as_slice(), "false") || lower_equals(cs.as_slice(), "no") || lower_equals(
        cs.as_slice(),
        "off",
    ) || crate::parser::same_text(value, "0") {
        return ValueKind::False;
    }
    match parse_i64_exec(value) {
        Some(i) => ValueKind::Integer(i),
        None => ValueKind::Other,
    }
}

/// A configuration parameter value. A floating-point value is held by its
/// IEEE 754 bits (`f64::to_bits`), which the caller turns back into a number.
/// Verus takes no `Clone` on this recursive type, so callers copy a value
/// variant by variant.
#[derive(Debug, PartialEq)]
pub enum ConfigValue {
    /// A string value.
    String(String),
    /// An integer value.
    Integer(i64),
    /// A boolean value.
    Boolean(bool),
    /// A floating-point value, by its bits.
    Float(u64),
    /// A list of values.
    List(Vec<ConfigValue>),
    /// A map of string keys to values.
    Mapping(HashMap<String, ConfigValue>),
}

/// The boolean a word names, in any ASCII case: `true`, `yes`, `on` or `1`,
/// and `false`, `no`, `off` or `0`. Lowering ASCII letters reads these words as
/// `str::to_lowercase` does: no character outside ASCII lowercases to one of
/// their letters alone.
pub open spec fn boolean_word(s: Seq<char>) -> Option<bool> {
    let l = ascii_lower(s);
    if l == "true"@ || l == "yes"@ || l == "on"@ || l == "1"@ {
        Some(true)
    } else if l == "false"@ || l == "no"@ || l == "off"@ || l == "0"@ {
        Some(false)
    } else {
        None
    }
}

/// The boolean a value reads as: a boolean itself, a word that names one, or an
/// integer (true when not zero).
pub open spec fn value_boolean(v: ConfigValue) -> Option<bool> {
    match v {
        ConfigValue::Boolean(b) => Some(b),
        ConfigValue::String(s) => boolean_word(s@),
        ConfigValue::Integer(i) => Some(i != 0),
        _ => None,
    }
}

/// The integer a value reads as: an integer itself, text that parses as an
/// `i64`, or a boolean (1 or 0).
pub open spec fn value_integer(v: ConfigValue) -> Option<i64> {
    match v {
        ConfigValue::Integer(i) => Some(i),
        ConfigValue::String(s) => parse_i64(s@),
        ConfigValue::Boolean(b) => Some(
            if b {
                1i64
            } else {
                0i64
            },
        ),
        _ => None,
    }
}

impl ConfigValue {
    /// Attempts to convert the value to a boolean.
    pub fn as_boolean(&self) -> (r: Option<bool>)
        ensures
            r == value_boolean(*self),
    {
        match self {
            ConfigValue::Boolean(b) => Some(*b),
            ConfigValue::String(s) => {
                let cs = chars_of(s.as_str());
                let w = cs.as_slice();
                if lower_equals(w, "true") || lower_equals(w, "yes") || lower_equals(w, "on")
                    || lower_equals(w, "1") {
                    Some(true)
                } else if lower_equals(w, "false") || lower_equals(w, "no") || lower_equals(
                    w,
                    "off",
                ) || lower_equals(w, "0") {
                    Some(false)
                } else {
                    None
                }
            },
            ConfigValue::Integer(i) => Some(*i != 0),
            _ => None,
        }
    }

    /// Attempts to convert the value to an integer.
    pub fn as_integer(&self) -> (r: Option<i64>)
        ensures
            r == value_integer(*self),
    {
        match self {
            ConfigValue::Integer(i) => Some(*i),
            ConfigValue::String(s) => parse_i64_exec(s.as_str()),
            ConfigValue::Boolean(b) => Some(
                if *b {
                    1
                } else {
                    0
                },
            ),
            _ => None,
        }
    }
}

/// A line of a configuration file, once read: a key with the trimmed text
/// after its first `=`, or a bare key (which stands for `true`).
#[derive(Debug, Clone, PartialEq, Eq)]
pub struct ConfigEntry {
    pub key: String,
    pub value: Option<String>,
}

/// The entry a configuration line states: none for blank lines and comments
/// (`#` or `;`); `key = value` split at the first `=`, both sides trimmed; any
/// other line is a bare key.
pub open spec fn entry_of(line: Seq<char>) -> Option<(Seq<char>, Option<Seq<char>>)> {
    let t = trim(line);
    if t.len() == 0 || t[0] == '#' || t[0] == ';' {
        None
    } else {
        match find_char(t, '=', 0) {
            Some(eq) => Some(
                (
                    trim(t.subrange(0, eq)),
                    Some(trim(t.subrange(eq + 1, t.len() as int))),
                ),
            ),
            None => Some((t, None)),
        }
    }
}

/// The entries of a configuration text, in order.
pub open spec fn entries_of(ls: Seq<Seq<char>>) -> Seq<(Seq<char>, Option<Seq<char>>)>
    decreases ls.len(),
{
    if ls.len() == 0 {
        Seq::empty()
    } else {
        match entry_of(ls.last()) {
            Some(e) => entries_of(ls.drop_last()).push(e),
            None => entries_of(ls.drop_last()),
        }
    }
}

/// What an entry says.
pub open spec fn entry_view(e: ConfigEntry) -> (Seq<char>, Option<Seq<char>>) {
    (
        e.key@,
        match e.value {
            Some(v) => Some(v@),
            None => None,
        },
    )
}

/// The entry a line of a configuration file states.
pub fn config_entry(line: &str) -> (r: Option<ConfigEntry>)
    ensures
        match r {
            Some(e) => entry_of(line@) == Some(entry_view(e)),
            None => entry_of(line@) is None,
        },
{
    let t = trim_str(line);
    let tc = chars_of(t.as_str());
    if tc.len() == 0 || tc[0] == '#' || tc[0] == ';' {
        return None;
    }
    proof {
        lemma_find_char(tc@, '=', 0);
    }
    match find_char_exec(tc.as_slice(), '=', 0) {
        Some(eq) => {
            let n = tc.len();
            let key = trim_str(substring(t.as_str(), 0, eq).as_str());
            let value = trim_str(substring(t.as_str(), eq + 1, n).as_str());
            Some(ConfigEntry { key, value: Some(value) })
        },
        None => Some(ConfigEntry { key: t, value: None }),
    }
}

/// The entries of a configuration text, in order; keys that repeat are all listed.
pub fn config_entries(input: &str) -> (r: Vec<ConfigEntry>)
    ensures
        r@.map_values(|e: ConfigEntry| entry_view(e)) == entries_of(lines(input@)),
{
    let ls = lines_of(input);
    let ghost lv = views(ls@);
    let mut r: Vec<ConfigEntry> = Vec::new();
    let mut i: usize = 0;
    while i < ls.len()
        invariant
            i <= ls@.len(),
            lv == views(ls@),
            lv == lines(input@),
            r@.map_values(|e: ConfigEntry| entry_view(e)) == entries_of(lv.subrange(0, i as int)),
        decreases ls@.len() - i,
    {
        assert(lv.subrange(0, i + 1).drop_last() =~= lv.subrange(0, i as int));
        assert(lv.subrange(0, i + 1).last() == ls@[i as int]@);
        match config_entry(ls[i].as_str()) {
            Some(e) => {
                let ghost before = r@;
                let ghost ev = entry_view(e);
                r.push(e);
                assert(r@.map_values(|e: ConfigEntry| entry_view(e)) =~= before.map_values(
                    |e: ConfigEntry| entry_view(e),
                ).push(ev));
            },
            None => {},
        }
        i = i + 1;
    }
    assert(lv.subrange(0, i as int) =~= lv);
    r
}

/// The required names missing from a set of parameter names, in order.
pub open spec fn missing_required(required: Seq<Seq<char>>, present: Set<Seq<char>>) -> Seq<Seq<char>>
    decreases required.len(),
{
    if required.len() == 0 {
        Seq::empty()
    } else {
        let m = missing_required(required.drop_last(), present);
        if present.contains(required.last()) {
            m
        } else {
            m.push(required.last())
        }
    }
}

/// The validation errors of a set of parameter names: one per missing required name.
pub open spec fn validation_errors(required: Seq<Seq<char>>, present: Set<Seq<char>>) -> Seq<Seq<char>> {
    missing_required(required, present).map_values(|n: Seq<char>| "missing required parameter: "@ + n)
}

/// The names of a list of strings, as a set.
pub open spec fn name_set(v: Seq<String>) -> Set<Seq<char>> {
    Set::new(|n: Seq<char>| exists|i: int| 0 <= i < v.len() && v[i]@ == n)
}

/// Whether the name is in the list.
fn has_name(v: &Vec<String>, name: &String) -> (b: bool)
    ensures
        b == name_set(v@).contains(name@),
{
    let mut i: usize = 0;
    while i < v.len()
        invariant
            i <= v@.len(),
            forall|j: int| 0 <= j < i ==> v@[j]@ != name@,
        decreases v@.len() - i,
    {
        if crate::parser::same_text(v[i].as_str(), name.as_str()) {
            assert(0 <= i < v@.len() && v@[i as int]@ == name@);
            return true;
        }
        i = i + 1;
    }
    false
}

/// How healing changes a configuration: the required parameters to take from
/// the defaults, in order, and, when invalid parameters are removed, the names
/// that may stay.
#[derive(Debug, Clone)]
pub struct HealPlan {
    pub add_defaults: Vec<String>,
    pub keep_only: Option<Vec<String>>,
}

/// The required names a configuration takes from the defaults: each missing
/// one that has a default, once.
pub open spec fn defaults_to_add(
    required: Seq<Seq<char>>,
    present: Set<Seq<char>>,
    defaults: Set<Seq<char>>,
) -> Seq<Seq<char>>
    decreases required.len(),
{
    if required.len() == 0 {
        Seq::empty()
    } else {
        let a = defaults_to_add(required.drop_last(), present, defaults);
        let r = required.last();
        if !present.contains(r) && !a.contains(r) && defaults.contains(r) {
            a.push(r)
        } else {
            a
        }
    }
}

/// The names a configuration has after healing with a plan.
pub open spec fn healed_names(
    present: Set<Seq<char>>,
    add: Seq<Seq<char>>,
    keep: Option<Set<Seq<char>>>,
) -> Set<Seq<char>> {
    let with_defaults = present.union(add.to_set());
    match keep {
        Some(k) => with_defaults.intersect(k),
        None => with_defaults,
    }
}

impl ConfigSchema {
    /// The validation errors of a configuration with the given parameter
    /// names: one `missing required parameter` per required name it lacks.
    pub fn validate(&self, present: &Vec<String>) -> (r: Vec<String>)
        ensures
            views(r@) == validation_errors(views(self.required@), name_set(present@)),
    {
        let mut errors: Vec<String> = Vec::new();
        let ghost rv = views(self.required@);
        let mut i: usize = 0;
        while i < self.required.len()
            invariant
                i <= self.required@.len(),
                rv == views(self.required@),
                views(errors@) == validation_errors(rv.subrange(0, i as int), name_set(present@)),
            decreases self.required@.len() - i,
        {
            assert(rv.subrange(0, i + 1).drop_last() =~= rv.subrange(0, i as int));
            assert(rv.subrange(0, i + 1).last() == self.required@[i as int]@);
            if !has_name(present, &self.required[i]) {
                let ghost before = errors@;
                errors.push(concat_str("missing required parameter: ", self.required[i].as_str()));
                assert(views(errors@) =~= views(before).push(
                    "missing required parameter: "@ + self.required@[i as int]@,
                ));
            }
            i = i + 1;
        }
        assert(rv.subrange(0, i as int) =~= rv);
        errors
    }

    /// Whether a configuration with the given parameter names is valid.
    pub fn is_valid(&self, present: &Vec<String>) -> (b: bool)
        ensures
            b == (validation_errors(views(self.required@), name_set(present@)).len() == 0),
    {
        self.validate(present).len() == 0
    }

    /// How to heal a configuration with the given parameter names, the
    /// defaults being known for `defaults`: nothing when it is valid; the
    /// validation errors when the strategy fixes nothing, or when the healed
    /// configuration would still be invalid.
    pub fn heal_plan(
        &self,
        strategy: AutoFixStrategy,
        present: &Vec<String>,
        defaults: &Vec<String>,
    ) -> (r: Result<HealPlan, Vec<String>>)
        ensures
            ({
                let req = views(self.required@);
                let names = name_set(present@);
                let add = defaults_to_add(req, names, name_set(defaults@));
                let valid = name_set(self.required@).union(name_set(self.optional@));
                let errors = validation_errors(req, names);
                if errors.len() == 0 {
                    r matches Ok(p) && p.add_defaults@.len() == 0 && p.keep_only is None
                } else {
                    match strategy {
                        AutoFixStrategy::NoFix => r matches Err(e) && views(e@) == errors,
                        _ => {
                            let plan_add = if strategy == AutoFixStrategy::RemoveInvalid {
                                Seq::<Seq<char>>::empty()
                            } else {
                                add
                            };
                            let plan_keep = if strategy == AutoFixStrategy::Defaults {
                                None
                            } else {
                                Some(valid)
                            };
                            let after = validation_errors(req, healed_names(names, plan_add, plan_keep));
                            match r {
                                Ok(p) => after.len() == 0 && views(p.add_defaults@) == plan_add && match p.keep_only {
                                    Some(k) => plan_keep == Some(name_set(k@)),
                                    None => plan_keep is None,
                                },
                                Err(e) => after.len() > 0 && views(e@) == after,
                            }
                        },
                    }
                }
            }),
    {
        let errors = self.validate(present);
        if errors.len() == 0 {
            return Ok(HealPlan { add_defaults: Vec::new(), keep_only: None });
        }
        if strategy == AutoFixStrategy::NoFix {
            return Err(errors);
        }
        let mut add: Vec<String> = Vec::new();
        if strategy == AutoFixStrategy::Defaults || strategy == AutoFixStrategy::Both {
            let ghost rv = views(self.required@);
            let mut i: usize = 0;
            while i < self.required.len()
                invariant
                    i <= self.required@.len(),
                    rv == views(self.required@),
                    views(add@) == defaults_to_add(rv.subrange(0, i as int), name_set(present@), name_set(defaults@)),
                decreases self.required@.len() - i,
            {
                assert(rv.subrange(0, i + 1).drop_last() =~= rv.subrange(0, i as int));
                assert(rv.subrange(0, i + 1).last() == self.required@[i as int]@);
                let name = &self.required[i];
                proof {
                    lemma_name_set_views(add@);
                }
                if !has_name(present, name) && !has_name(&add, name) && has_name(defaults, name) {
                    let ghost before = add@;
                    add.push(name.clone());
                    assert(views(add@) =~= views(before).push(name@));
                }
                i = i + 1;
            }
            assert(rv.subrange(0, i as int) =~= rv);
        } else {
            assert(views(add@) =~= Seq::<Seq<char>>::empty());
        }
        assert(views(add@) == if strategy == AutoFixStrategy::RemoveInvalid {
            Seq::<Seq<char>>::empty()
        } else {
            defaults_to_add(views(self.required@), name_set(present@), name_set(defaults@))
        });
        let keep: Option<Vec<String>> = if strategy == AutoFixStrategy::RemoveInvalid || strategy
            == AutoFixStrategy::Both {
            let mut valid = crate::text::copy_strings(&self.required);
            let extra = crate::text::copy_strings(&self.optional);
            let ghost a = valid@;
            let mut j: usize = 0;
            while j < extra.len()
                invariant
                    j <= extra@.len(),
                    valid@ == a + extra@.subrange(0, j as int),
                decreases extra@.len() - j,
            {
                valid.push(extra[j].clone());
                assert(valid@ =~= a + extra@.subrange(0, j + 1));
                j = j + 1;
            }
            assert(valid@ =~= self.required@ + self.optional@);
            proof {
                lemma_name_set_concat(self.required@, self.optional@);
            }
            Some(valid)
        } else {
            None
        };
        assert(match &keep {
            Some(v) => Some(name_set(v@)),
            None => None::<Set<Seq<char>>>,
        } == if strategy == AutoFixStrategy::Defaults {
            None::<Set<Seq<char>>>
        } else {
            Some(name_set(self.required@).union(name_set(self.optional@)))
        });
        let ghost names = name_set(present@);
        let ghost plan_add = views(add@);
        let ghost plan_keep = match &keep {
            Some(v) => Some(name_set(v@)),
            None => None::<Set<Seq<char>>>,
        };
        let ghost healed = healed_names(names, plan_add, plan_keep);
        proof {
            lemma_name_set_views(add@);
        }
        let mut after: Vec<String> = Vec::new();
        let ghost rv = views(self.required@);
        let mut i: usize = 0;
        while i < self.required.len()
            invariant
                i <= self.required@.len(),
                rv == views(self.required@),
                names == name_set(present@),
                plan_add == views(add@),
                healed == healed_names(names, plan_add, plan_keep),
                plan_keep == match &keep {
                    Some(v) => Some(name_set(v@)),
                    None => None::<Set<Seq<char>>>,
                },
                forall|n: Seq<char>| name_set(add@).contains(n) <==> views(add@).contains(n),
                views(after@) == validation_errors(rv.subrange(0, i as int), healed),
            decreases self.required@.len() - i,
        {
            assert(rv.subrange(0, i + 1).drop_last() =~= rv.subrange(0, i as int));
            assert(rv.subrange(0, i + 1).last() == self.required@[i as int]@);
            let name = &self.required[i];
            let kept = match &keep {
                Some(v) => has_name(v, name),
                None => true,
            };
            let there = (has_name(present, name) || has_name(&add, name)) && kept;
            assert(there == healed.contains(name@));
            if !there {
                let ghost before = after@;
                after.push(concat_str("missing required parameter: ", name.as_str()));
                assert(views(after@) =~= views(before).push("missing required parameter: "@ + name@));
            }
            i = i + 1;
        }
        assert(rv.subrange(0, i as int) =~= rv);
        if after.len() == 0 {
            Ok(HealPlan { add_defaults: add, keep_only: keep })
        } else {
            Err(after)
        }
    }
}

/// The names of a list are the views it holds.
proof fn lemma_name_set_views(v: Seq<String>)
    ensures
        forall|n: Seq<char>| name_set(v).contains(n) <==> views(v).contains(n),
{
    assert forall|n: Seq<char>| name_set(v).contains(n) <==> views(v).contains(n) by {
        if name_set(v).contains(n) {
            let i = choose|i: int| 0 <= i < v.len() && v[i]@ == n;
            assert(views(v)[i] == n);
        }
        if views(v).contains(n) {
            let i = choose|i: int| 0 <= i < views(v).len() && views(v)[i] == n;
            assert(v[i]@ == n);
        }
    }
}

/// The names of two lists together.
proof fn lemma_name_set_concat(a: Seq<String>, b: Seq<String>)
    ensures
        name_set(a + b) == name_set(a).union(name_set(b)),
{
    assert forall|n: Seq<char>| name_set(a + b).contains(n) <==> name_set(a).union(name_set(b)).contains(n) by {
        if name_set(a + b).contains(n) {
            let i = choose|i: int| 0 <= i < (a + b).len() && (a + b)[i]@ == n;
            if i < a.len() {
                assert(a[i]@ == n);
            } else {
                assert(b[i - a.len()]@ == n);
            }
        }
        if name_set(a).contains(n) {
            let i = choose|i: int| 0 <= i < a.len() && a[i]@ == n;
            assert((a + b)[i]@ == n);
        }
        if name_set(b).contains(n) {
            let i = choose|i: int| 0 <= i < b.len() && b[i]@ == n;
            assert((a + b)[a.len() + i]@ == n);
        }
    }
    assert(name_set(a + b) =~= name_set(a).union(name_set(b)));
}

} // verus!
