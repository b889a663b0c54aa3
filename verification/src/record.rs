//! Input records of the command-line pipeline: how a record is read from a
//! buffered stream, what its payload is, and the process id a line names.
use vstd::prelude::*;
use crate::parser::find_byte;
use crate::protocol::{Violation, event_name, phase_name};

verus! {

/// The longest input record accepted, in bytes.
pub const MAXIMUM_RECORD_BYTES: usize = 1048576;

/// What to do with the bytes a buffered reader has available.
#[derive(Debug, Clone, Copy, PartialEq, Eq, Structural)]
pub enum RecordStep {
    /// The input is exhausted: the record read so far is complete.
    Finished,
    /// Taking the bytes would make the record longer than allowed.
    TooLong,
    /// Take the first `length` bytes; `complete` when they end the record with a line feed.
    Take { length: usize, complete: bool },
}

/// The length of the chunk taken from the available bytes: up to and with the
/// first line feed, or all of them.
pub open spec fn chunk_length(available: Seq<u8>) -> int {
    match find_byte(available, 10, 0) {
        Some(i) => i + 1,
        None => available.len() as int,
    }
}

/// The step for `available` bytes when the record so far has `line_len` bytes.
pub open spec fn spec_record_step(line_len: usize, available: Seq<u8>) -> RecordStep {
    if available.len() == 0 {
        RecordStep::Finished
    } else if line_len + chunk_length(available) > MAXIMUM_RECORD_BYTES {
        RecordStep::TooLong
    } else {
        RecordStep::Take {
            length: chunk_length(available) as usize,
            complete: available[chunk_length(available) - 1] == 10,
        }
    }
}

proof fn lemma_find_byte_range(s: Seq<u8>, c: u8, i: int)
    requires
        0 <= i,
    ensures
        find_byte(s, c, i) matches Some(k) ==> i <= k < s.len() && s[k] == c,
    decreases s.len() - i,
{
    if i < s.len() && s[i] != c {
        lemma_find_byte_range(s, c, i + 1);
    }
}

/// The first index at or after `from` holding `b`.
fn position_from(s: &[u8], b: u8, from: usize) -> (r: Option<usize>)
    ensures
        match r {
            Some(k) => find_byte(s@, b, from as int) == Some(k as int),
            None => find_byte(s@, b, from as int) is None,
        },
{
    let mut i = from;
    while i < s.len()
        invariant
            from <= i,
            find_byte(s@, b, from as int) == find_byte(s@, b, i as int),
        decreases s@.len() - i,
    {
        if s[i] == b {
            return Some(i);
        }
        i = i + 1;
    }
    None
}

/// Decides what to do with the bytes a buffered reader has available, when
/// the record read so far has `line_len` bytes.
pub fn record_step(line_len: usize, available: &[u8]) -> (r: RecordStep)
    ensures
        r == spec_record_step(line_len, available@),
        r matches RecordStep::Take { length, complete } ==> 0 < length <= available@.len()
            && line_len + length <= MAXIMUM_RECORD_BYTES,
{
    if available.len() == 0 {
        return RecordStep::Finished;
    }
    proof {
        lemma_find_byte_range(available@, 10, 0);
    }
    let length = match position_from(available, 10, 0) {
        Some(i) => i + 1,
        None => available.len(),
    };
    if line_len > MAXIMUM_RECORD_BYTES || length > MAXIMUM_RECORD_BYTES - line_len {
        return RecordStep::TooLong;
    }
    RecordStep::Take { length, complete: available[length - 1] == 10 }
}

/// The payload of a record: without its final line feed, and then without a
/// final carriage return.
pub open spec fn payload_len(line: Seq<u8>) -> int {
    let a = if line.len() > 0 && line.last() == 10 {
        line.len() - 1
    } else {
        line.len() as int
    };
    if a > 0 && line[a - 1] == 13 {
        a - 1
    } else {
        a
    }
}

/// The length of the payload of a record.
pub fn payload_length(line: &[u8]) -> (n: usize)
    ensures
        n == payload_len(line@),
{
    let mut a = line.len();
    if a > 0 && line[a - 1] == 10 {
        a = a - 1;
    }
    if a > 0 && line[a - 1] == 13 {
        a = a - 1;
    }
    a
}

pub open spec fn is_ascii_digit(b: u8) -> bool {
    48 <= b <= 57
}

/// The decimal value of a digit sequence.
pub open spec fn digits_value(s: Seq<u8>) -> nat
    decreases s.len(),
{
    if s.len() == 0 {
        0
    } else {
        digits_value(s.drop_last()) * 10 + (s.last() - 48) as nat
    }
}

/// Every byte is an ASCII digit.
pub open spec fn all_ascii_digits(s: Seq<u8>) -> bool {
    forall|i: int| 0 <= i < s.len() ==> is_ascii_digit(#[trigger] s[i])
}

/// The `u32` a non-empty run of ASCII digits reads as, when it fits.
pub open spec fn decimal_u32(s: Seq<u8>) -> Option<u32> {
    if s.len() > 0 && all_ascii_digits(s) && digits_value(s) <= u32::MAX {
        Some(digits_value(s) as u32)
    } else {
        None
    }
}

/// A prefix of digits is worth no more than the whole.
proof fn lemma_prefix_value(s: Seq<u8>, n: int)
    requires
        0 <= n <= s.len(),
        all_ascii_digits(s),
    ensures
        digits_value(s.subrange(0, n)) <= digits_value(s),
    decreases s.len() - n,
{
    if n < s.len() {
        lemma_prefix_value(s, n + 1);
        assert(s.subrange(0, n + 1).drop_last() =~= s.subrange(0, n));
        assert(is_ascii_digit(s[n]));
    } else {
        assert(s.subrange(0, n) =~= s);
    }
}

/// Reads ASCII digits as a `u32`; none when a byte is not a digit, there are
/// no digits, or the value does not fit.
pub fn parse_decimal(digits: &[u8]) -> (r: Option<u32>)
    ensures
        r == decimal_u32(digits@),
{
    if digits.len() == 0 {
        return None;
    }
    let mut i: usize = 0;
    while i < digits.len()
        invariant
            i <= digits@.len(),
            forall|j: int| 0 <= j < i ==> is_ascii_digit(#[trigger] digits@[j]),
        decreases digits@.len() - i,
    {
        if !(48 <= digits[i] && digits[i] <= 57) {
            assert(!is_ascii_digit(digits@[i as int]));
            return None;
        }
        i = i + 1;
    }
    assert(all_ascii_digits(digits@));
    let mut value: u32 = 0;
    let mut k: usize = 0;
    while k < digits.len()
        invariant
            k <= digits@.len(),
            all_ascii_digits(digits@),
            value == digits_value(digits@.subrange(0, k as int)),
        decreases digits@.len() - k,
    {
        assert(digits@.subrange(0, k + 1).drop_last() =~= digits@.subrange(0, k as int));
        assert(is_ascii_digit(digits@[k as int]));
        let d = (digits[k] - 48) as u32;
        if value > (u32::MAX - d) / 10 {
            proof {
                assert(digits_value(digits@.subrange(0, k + 1)) == value * 10 + d);
                assert(value * 10 + d > u32::MAX) by (nonlinear_arith)
                    requires
                        value > (u32::MAX - d) / 10,
                        d <= 9,
                ;
                lemma_prefix_value(digits@, k + 1);
            }
            return None;
        }
        value = value * 10 + d;
        k = k + 1;
    }
    assert(digits@.subrange(0, k as int) =~= digits@);
    Some(value)
}

/// The first index at or after `i` where `pid=` begins.
pub open spec fn find_pid_marker(s: Seq<u8>, i: int) -> Option<int>
    decreases s.len() - i,
{
    if i < 0 || i + 4 > s.len() {
        None
    } else if s[i] == 112 && s[i + 1] == 105 && s[i + 2] == 100 && s[i + 3] == 61 {
        Some(i)
    } else {
        find_pid_marker(s, i + 1)
    }
}

/// The end of the run of ASCII digits that starts at `i`.
pub open spec fn digit_run_end(s: Seq<u8>, i: int) -> int
    decreases s.len() - i,
{
    if i < 0 || i >= s.len() || !is_ascii_digit(s[i]) {
        i
    } else {
        digit_run_end(s, i + 1)
    }
}

/// The process id between the first `[` and the `]` after it.
pub open spec fn bracket_pid(line: Seq<u8>) -> Option<u32> {
    match find_byte(line, 91, 0) {
        Some(start) => match find_byte(line, 93, start + 1) {
            Some(end) => decimal_u32(line.subrange(start + 1, end)),
            None => None,
        },
        None => None,
    }
}

/// The process id in the digits after the first `pid=`.
pub open spec fn field_pid(line: Seq<u8>) -> Option<u32> {
    match find_pid_marker(line, 0) {
        Some(p) => decimal_u32(line.subrange(p + 4, digit_run_end(line, p + 4))),
        None => None,
    }
}

/// The process id a log line names, as `[1234]` or `pid=1234`; 0 when it names none.
pub open spec fn spec_extract_pid(line: Seq<u8>) -> u32 {
    match bracket_pid(line) {
        Some(pid) => pid,
        None => match field_pid(line) {
            Some(pid) => pid,
            None => 0,
        },
    }
}

proof fn lemma_pid_marker_range(s: Seq<u8>, i: int)
    requires
        0 <= i,
    ensures
        find_pid_marker(s, i) matches Some(k) ==> i <= k && k + 4 <= s.len(),
    decreases s.len() - i,
{
    if i + 4 <= s.len() && !(s[i] == 112 && s[i + 1] == 105 && s[i + 2] == 100 && s[i + 3] == 61) {
        lemma_pid_marker_range(s, i + 1);
    }
}

proof fn lemma_digit_run_range(s: Seq<u8>, i: int)
    requires
        0 <= i <= s.len(),
    ensures
        i <= digit_run_end(s, i) <= s.len(),
    decreases s.len() - i,
{
    if i < s.len() && is_ascii_digit(s[i]) {
        lemma_digit_run_range(s, i + 1);
    }
}

/// The index where the first `pid=` begins.
fn find_marker(line: &[u8]) -> (r: Option<usize>)
    ensures
        match r {
            Some(k) => find_pid_marker(line@, 0) == Some(k as int),
            None => find_pid_marker(line@, 0) is None,
        },
{
    let n = line.len();
    if n < 4 {
        return None;
    }
    let mut p: usize = 0;
    while p <= n - 4
        invariant
            n == line@.len(),
            n >= 4,
            find_pid_marker(line@, 0) == find_pid_marker(line@, p as int),
        decreases n - p,
    {
        if line[p] == 112 && line[p + 1] == 105 && line[p + 2] == 100 && line[p + 3] == 61 {
            return Some(p);
        }
        p = p + 1;
    }
    None
}

/// The process id a log line names, as `[1234]` or `pid=1234`, without
/// requiring the line to be UTF-8; 0 when it names none.
pub fn extract_pid(line: &[u8]) -> (pid: u32)
    ensures
        pid == spec_extract_pid(line@),
{
    let n = line.len();
    proof {
        lemma_find_byte_range(line@, 91, 0);
    }
    match position_from(line, 91, 0) {
        Some(start) => {
            proof {
                lemma_find_byte_range(line@, 93, start + 1);
            }
            match position_from(line, 93, start + 1) {
                Some(end) => {
                    let digits = slice_of(line, start + 1, end);
                    match parse_decimal(digits.as_slice()) {
                        Some(pid) => {
                            return pid;
                        },
                        None => {},
                    }
                },
                None => {},
            }
        },
        None => {},
    }
    proof {
        lemma_pid_marker_range(line@, 0);
    }
    match find_marker(line) {
        Some(p) => {
            let mut e = p + 4;
            while e < n && 48 <= line[e] && line[e] <= 57
                invariant
                    n == line@.len(),
                    p + 4 <= e <= n,
                    digit_run_end(line@, (p + 4) as int) == digit_run_end(line@, e as int),
                decreases n - e,
            {
                e = e + 1;
            }
            let digits = slice_of(line, p + 4, e);
            match parse_decimal(digits.as_slice()) {
                Some(pid) => pid,
                None => 0,
            }
        },
        None => 0,
    }
}

/// The bytes `s[from..to)`.
fn slice_of(s: &[u8], from: usize, to: usize) -> (r: Vec<u8>)
    requires
        from <= to <= s@.len(),
    ensures
        r@ == s@.subrange(from as int, to as int),
{
    let mut r: Vec<u8> = Vec::new();
    let mut i = from;
    while i < to
        invariant
            from <= i <= to <= s@.len(),
            r@ == s@.subrange(from as int, i as int),
        decreases to - i,
    {
        r.push(s[i]);
        assert(r@ =~= s@.subrange(from as int, i + 1));
        i = i + 1;
    }
    r
}

/// The bytes of a text.
pub open spec fn text_bytes(s: Seq<char>) -> Seq<u8> {
    s.map_values(|c: char| (c as u32) as u8)
}

/// The annotation a protocol violation adds to its line.
pub open spec fn violation_note(v: Violation) -> Seq<char> {
    " [protocol violation: "@ + ("invalid "@ + event_name(v.event) + " event while in "@
        + phase_name(v.previous) + " phase"@) + "]"@
}

/// Appends the bytes of an ASCII text.
fn append_ascii(out: &mut Vec<u8>, text: &str)
    requires
        forall|i: int| 0 <= i < text@.len() ==> (text@[i] as u32) < 128,
    ensures
        final(out)@ == old(out)@ + text_bytes(text@),
{
    let cs = crate::text::chars_of(text);
    let mut i: usize = 0;
    while i < cs.len()
        invariant
            i <= cs@.len(),
            cs@ == text@,
            forall|j: int| 0 <= j < text@.len() ==> (text@[j] as u32) < 128,
            out@ == old(out)@ + text_bytes(text@).subrange(0, i as int),
        decreases cs@.len() - i,
    {
        let c = cs[i];
        assert((c as u32) < 128);
        let b = (c as u32) as u8;
        out.push(b);
        assert(text_bytes(text@).subrange(0, i + 1) =~= text_bytes(text@).subrange(0, i as int).push(
            (c as u32) as u8,
        ));
        i = i + 1;
    }
    assert(text_bytes(text@).subrange(0, cs@.len() as int) =~= text_bytes(text@));
}

/// Ends a rendered record: the protocol violation it caused, if any, then its
/// line feed when the record had one.
pub fn finish_record(rendered: &mut Vec<u8>, violation: Option<Violation>, had_newline: bool)
    ensures
        final(rendered)@ == old(rendered)@ + match violation {
            Some(v) => text_bytes(violation_note(v)),
            None => Seq::empty(),
        } + if had_newline {
            seq![10u8]
        } else {
            Seq::empty()
        },
{
    let ghost start = rendered@;
    match violation {
        Some(v) => {
            let note = crate::text::concat_str(
                &crate::text::concat_str(" [protocol violation: ", v.message().as_str()),
                "]",
            );
            proof {
                lemma_note_is_ascii(v);
                assert(note@ =~= violation_note(v));
            }
            append_ascii(rendered, note.as_str());
        },
        None => {},
    }
    let ghost middle = rendered@;
    assert(middle == start + match violation {
        Some(v) => text_bytes(violation_note(v)),
        None => Seq::<u8>::empty(),
    }) by {
        if violation is None {
            assert(middle =~= start + Seq::<u8>::empty());
        }
    }
    if had_newline {
        rendered.push(10);
    }
    proof {
        if had_newline {
            assert(rendered@ =~= middle + seq![10u8]);
        } else {
            assert(rendered@ =~= middle + Seq::<u8>::empty());
        }
    }
}

proof fn lemma_note_is_ascii(v: Violation)
    ensures
        forall|i: int| 0 <= i < violation_note(v).len() ==> (violation_note(v)[i] as u32) < 128,
{
    reveal_strlit(" [protocol violation: ");
    reveal_strlit("invalid ");
    reveal_strlit(" event while in ");
    reveal_strlit(" phase");
    reveal_strlit("]");
    crate::protocol::lemma_names_are_ascii(v.event, v.previous);
}

} // verus!
