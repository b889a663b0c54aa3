//! Streaming log parsing, colorization and protocol verification, with the
//! bookkeeping of the optional Linux integration (kernel modules, LSM, seccomp,
//! XDP, zRAM, cgroups, rollback, fleet gossip).
pub mod severity;
pub mod protocol;
pub mod parser;
pub mod seccomp;
pub mod text;
pub mod clock;
pub mod dkms;
pub mod lsm;
pub mod timing;
pub mod scheduler;
pub mod gossip;
pub mod config;
pub mod rollback;
pub mod cgroup;
pub mod xdp;
pub mod zram;
pub mod vector;
pub mod record;
pub mod analytics;

use vstd::prelude::*;
use crate::parser::{
    ParserKind, Token, TokenKind, by_name, parser_named, parser_name, spec_parse, tokens_in_line,
    token_in_line,
};
use crate::severity::Severity;

verus! {

/// Available parser names accepted by the command-line interface.
pub const PLUGINS: [&'static str; 4] = ["auto", "syslog", "httpd", "json"];

/// The escape sequence that opens a token of the given kind.
pub open spec fn ansi_seq(kind: TokenKind) -> Seq<u8> {
    match kind {
        TokenKind::Timestamp => seq![27u8, 91, 51, 51, 109],
        TokenKind::Host => seq![27u8, 91, 51, 54, 109],
        TokenKind::Process => seq![27u8, 91, 51, 53, 109],
        TokenKind::Key => seq![27u8, 91, 51, 52, 109],
        TokenKind::Value => seq![27u8, 91, 51, 50, 109],
        TokenKind::Warning => seq![27u8, 91, 49, 59, 51, 51, 109],
        TokenKind::Error => seq![27u8, 91, 49, 59, 51, 49, 109],
        TokenKind::Fatal => seq![27u8, 91, 49, 59, 51, 55, 59, 52, 49, 109],
    }
}

/// The escape sequence that closes every token.
pub open spec fn reset_seq() -> Seq<u8> {
    seq![27u8, 91, 48, 109]
}

/// A token is skipped by the renderer when it overlaps text already written,
/// runs past the line, or is empty.
pub open spec fn skipped(t: Token, len: int, cursor: int) -> bool {
    t.start < cursor || t.end > len || t.start == t.end
}

/// The colored rendering of `input` from token `idx` on, with `input[..cursor]` already written.
pub open spec fn render_from(input: Seq<u8>, tokens: Seq<Token>, idx: int, cursor: int) -> Seq<u8>
    decreases tokens.len() - idx,
{
    if idx < 0 || idx >= tokens.len() {
        input.subrange(cursor, input.len() as int)
    } else {
        let t = tokens[idx];
        if skipped(t, input.len() as int, cursor) {
            render_from(input, tokens, idx + 1, cursor)
        } else {
            input.subrange(cursor, t.start as int) + ansi_seq(t.kind) + input.subrange(
                t.start as int,
                t.end as int,
            ) + reset_seq() + render_from(input, tokens, idx + 1, t.end as int)
        }
    }
}

/// The same walk as `render_from` with every escape sequence left out.
pub open spec fn plain_from(input: Seq<u8>, tokens: Seq<Token>, idx: int, cursor: int) -> Seq<u8>
    decreases tokens.len() - idx,
{
    if idx < 0 || idx >= tokens.len() {
        input.subrange(cursor, input.len() as int)
    } else {
        let t = tokens[idx];
        if skipped(t, input.len() as int, cursor) {
            plain_from(input, tokens, idx + 1, cursor)
        } else {
            input.subrange(cursor, t.start as int) + input.subrange(t.start as int, t.end as int)
                + plain_from(input, tokens, idx + 1, t.end as int)
        }
    }
}

/// The rendered line: the input itself without color, the colored walk otherwise.
pub open spec fn spec_render(input: Seq<u8>, tokens: Seq<Token>, color: bool) -> Seq<u8> {
    if color {
        render_from(input, tokens, 0, 0)
    } else {
        input
    }
}

/// Inserts `t` into `s` after every element whose start is not greater.
pub open spec fn insert_by_start(s: Seq<Token>, t: Token) -> Seq<Token>
    decreases s.len(),
{
    if s.len() == 0 {
        seq![t]
    } else if s.last().start <= t.start {
        s.push(t)
    } else {
        insert_by_start(s.drop_last(), t).push(s.last())
    }
}

/// The stable sort of tokens by start offset.
pub open spec fn sort_by_start(s: Seq<Token>) -> Seq<Token>
    decreases s.len(),
{
    if s.len() == 0 {
        s
    } else {
        insert_by_start(sort_by_start(s.drop_last()), s.last())
    }
}

/// The text of the error for an unknown parser name.
pub open spec fn unknown_plugin_message(name: Seq<char>) -> Seq<char> {
    "unknown plugin '"@ + name + "'; expected one of auto, syslog, httpd, json"@
}

/// What processing one line produces: the rendered bytes and the severity.
pub open spec fn spec_process(kind: ParserKind, line: Seq<u8>, color: bool) -> (Seq<u8>, Severity) {
    let parsed = spec_parse(kind, line);
    (spec_render(line, sort_by_start(parsed.0), color), parsed.1)
}

impl TokenKind {
    /// The escape sequence that opens a token of this kind.
    pub fn ansi(self) -> (r: Vec<u8>)
        ensures
            r@ == ansi_seq(self),
    {
        let v: Vec<u8> = match self {
            TokenKind::Timestamp => vec![27, 91, 51, 51, 109],
            TokenKind::Host => vec![27, 91, 51, 54, 109],
            TokenKind::Process => vec![27, 91, 51, 53, 109],
            TokenKind::Key => vec![27, 91, 51, 52, 109],
            TokenKind::Value => vec![27, 91, 51, 50, 109],
            TokenKind::Warning => vec![27, 91, 49, 59, 51, 51, 109],
            TokenKind::Error => vec![27, 91, 49, 59, 51, 49, 109],
            TokenKind::Fatal => vec![27, 91, 49, 59, 51, 55, 59, 52, 49, 109],
        };
        assert(v@ == ansi_seq(self));
        v
    }
}

/// Appends `src[from..to]` to `out`.
fn extend_bytes(out: &mut Vec<u8>, src: &[u8], from: usize, to: usize)
    requires
        from <= to <= src@.len(),
    ensures
        final(out)@ == old(out)@ + src@.subrange(from as int, to as int),
{
    let ghost start = out@;
    let mut i = from;
    while i < to
        invariant
            from <= i <= to <= src@.len(),
            out@ == start + src@.subrange(from as int, i as int),
        decreases to - i,
    {
        out.push(src[i]);
        assert(src@.subrange(from as int, i + 1) == src@.subrange(from as int, i as int).push(
            src@[i as int],
        ));
        i = i + 1;
    }
}

/// Appends all of `src` to `out`.
fn extend_all(out: &mut Vec<u8>, src: &Vec<u8>)
    ensures
        final(out)@ == old(out)@ + src@,
{
    extend_bytes(out, src.as_slice(), 0, src.len());
    assert(src@.subrange(0, src@.len() as int) == src@);
}

/// Renders `input` with the given tokens into `output`, replacing its contents.
fn render(input: &[u8], tokens: &[Token], color: bool, output: &mut Vec<u8>)
    requires
        tokens_in_line(tokens@, 0, input@.len() as int),
    ensures
        final(output)@ == spec_render(input@, tokens@, color),
{
    output.clear();
    let n = input.len();
    if !color {
        extend_bytes(output, input, 0, n);
        assert(input@.subrange(0, n as int) == input@);
        return;
    }
    let mut cursor: usize = 0;
    let mut i: usize = 0;
    while i < tokens.len()
        invariant
            n == input@.len(),
            cursor <= n,
            i <= tokens@.len(),
            tokens_in_line(tokens@, 0, n as int),
            output@ + render_from(input@, tokens@, i as int, cursor as int) == render_from(
                input@,
                tokens@,
                0,
                0,
            ),
        decreases tokens@.len() - i,
    {
        let token = tokens[i];
        assert(token_in_line(tokens@[i as int], n as int));
        if token.start < cursor || token.end > n || token.start == token.end {
            i = i + 1;
            continue;
        }
        let ghost before = output@;
        extend_bytes(output, input, cursor, token.start);
        let code = token.kind.ansi();
        extend_all(output, &code);
        extend_bytes(output, input, token.start, token.end);
        let reset: Vec<u8> = vec![27, 91, 48, 109];
        assert(reset@ == reset_seq());
        extend_all(output, &reset);
        assert(output@ == before + (input@.subrange(cursor as int, token.start as int) + ansi_seq(
            token.kind,
        ) + input@.subrange(token.start as int, token.end as int) + reset_seq()));
        cursor = token.end;
        i = i + 1;
    }
    extend_bytes(output, input, cursor, n);
}

/// The position at which `insert_by_start` places `t`: after the last element
/// whose start is not greater.
proof fn lemma_insert_by_start(s: Seq<Token>, t: Token, p: int)
    requires
        0 <= p <= s.len(),
        forall|k: int| p <= k < s.len() ==> (#[trigger] s[k]).start > t.start,
        p > 0 ==> s[p - 1].start <= t.start,
    ensures
        insert_by_start(s, t) == s.insert(p, t),
    decreases s.len(),
{
    if s.len() == 0 {
        assert(s.insert(p, t) =~= seq![t]);
    } else if s.last().start <= t.start {
        assert(p == s.len());
        assert(s.insert(p, t) =~= s.push(t));
    } else {
        lemma_insert_by_start(s.drop_last(), t, p);
        assert(s.drop_last().insert(p, t).push(s.last()) =~= s.insert(p, t));
    }
}

/// Stable insertion sort of tokens by start offset.
fn sort_tokens_by_start(tokens: &mut Vec<Token>)
    ensures
        final(tokens)@ == sort_by_start(old(tokens)@),
{
    let ghost original = tokens@;
    let mut sorted: Vec<Token> = Vec::new();
    let mut i: usize = 0;
    while i < tokens.len()
        invariant
            tokens@ == original,
            i <= original.len(),
            sorted@ == sort_by_start(original.subrange(0, i as int)),
        decreases original.len() - i,
    {
        let t = tokens[i];
        let mut p = sorted.len();
        while p > 0 && sorted[p - 1].start > t.start
            invariant
                p <= sorted@.len(),
                forall|k: int| p <= k < sorted@.len() ==> (#[trigger] sorted@[k]).start > t.start,
            decreases p,
        {
            p = p - 1;
        }
        proof {
            lemma_insert_by_start(sorted@, t, p as int);
            assert(original.subrange(0, i + 1).drop_last() == original.subrange(0, i as int));
        }
        sorted.insert(p, t);
        i = i + 1;
    }
    assert(original.subrange(0, original.len() as int) == original);
    *tokens = sorted;
}

/// Reusable line processor that avoids copying input while parsing.
pub struct Processor {
    parser: ParserKind,
    tokens: Vec<Token>,
}

impl Processor {
    /// The parser this processor uses.
    pub closed spec fn kind(&self) -> ParserKind {
        self.parser
    }

    /// Creates a processor for a named parser; fails when `name` is not one of `PLUGINS`.
    pub fn new(name: &str) -> (r: Result<Self, String>)
        ensures
            match parser_named(name@) {
                Some(k) => r is Ok && r->Ok_0.kind() == k,
                None => r is Err && r->Err_0@ == unknown_plugin_message(name@),
            },
    {
        match by_name(name) {
            Some(parser) => Ok(Processor { parser, tokens: Vec::with_capacity(16) }),
            None => {
                let mut message = String::from_str("unknown plugin '");
                message.append(name);
                message.append("'; expected one of auto, syslog, httpd, json");
                Err(message)
            },
        }
    }

    /// Returns the parser's stable name.
    pub fn plugin_name(&self) -> (s: &'static str)
        ensures
            s@ == parser_name(self.kind()),
    {
        self.parser.name()
    }

    /// Classifies and renders one line into `output`, replacing its contents.
    pub fn process(&mut self, line: &[u8], color: bool, output: &mut Vec<u8>) -> (s: Severity)
        ensures
            final(self).kind() == old(self).kind(),
            final(output)@ == spec_process(old(self).kind(), line@, color).0,
            s == spec_process(old(self).kind(), line@, color).1,
    {
        self.tokens.clear();
        let severity = self.parser.parse(line, &mut self.tokens);
        let ghost parsed = self.tokens@;
        sort_tokens_by_start(&mut self.tokens);
        proof {
            lemma_sort_keeps_tokens_in_line(parsed, line@.len() as int);
        }
        render(line, self.tokens.as_slice(), color, output);
        severity
    }
}

proof fn lemma_insert_keeps_tokens_in_line(s: Seq<Token>, t: Token, len: int)
    requires
        tokens_in_line(s, 0, len),
        token_in_line(t, len),
    ensures
        tokens_in_line(insert_by_start(s, t), 0, len),
    decreases s.len(),
{
    if s.len() > 0 && s.last().start > t.start {
        lemma_insert_keeps_tokens_in_line(s.drop_last(), t, len);
    }
}

proof fn lemma_sort_keeps_tokens_in_line(s: Seq<Token>, len: int)
    requires
        tokens_in_line(s, 0, len),
    ensures
        tokens_in_line(sort_by_start(s), 0, len),
    decreases s.len(),
{
    if s.len() > 0 {
        lemma_sort_keeps_tokens_in_line(s.drop_last(), len);
        lemma_insert_keeps_tokens_in_line(sort_by_start(s.drop_last()), s.last(), len);
    }
}

proof fn lemma_plain_from_is_suffix(input: Seq<u8>, tokens: Seq<Token>, idx: int, cursor: int)
    requires
        0 <= cursor <= input.len(),
        0 <= idx,
        tokens_in_line(tokens, 0, input.len() as int),
    ensures
        plain_from(input, tokens, idx, cursor) == input.subrange(cursor, input.len() as int),
    decreases tokens.len() - idx,
{
    if idx < tokens.len() {
        let t = tokens[idx];
        if skipped(t, input.len() as int, cursor) {
            lemma_plain_from_is_suffix(input, tokens, idx + 1, cursor);
        } else {
            lemma_plain_from_is_suffix(input, tokens, idx + 1, t.end as int);
            assert(input.subrange(cursor, t.start as int) + input.subrange(
                t.start as int,
                t.end as int,
            ) + input.subrange(t.end as int, input.len() as int) =~= input.subrange(
                cursor,
                input.len() as int,
            ));
        }
    }
}

/// Rendering never changes the payload: without color the output is the input
/// byte for byte, and with color, leaving out the inserted escape sequences
/// gives back the input byte for byte.
pub proof fn law_render_preserves_payload(input: Seq<u8>, tokens: Seq<Token>)
    requires
        tokens_in_line(tokens, 0, input.len() as int),
    ensures
        spec_render(input, tokens, false) == input,
        plain_from(input, tokens, 0, 0) == input,
{
    lemma_plain_from_is_suffix(input, tokens, 0, 0);
    assert(input.subrange(0, input.len() as int) == input);
}

/// The tokens any parser produces lie inside the line, so rendering a processed
/// line preserves its payload.
pub proof fn law_process_preserves_payload(kind: ParserKind, line: Seq<u8>)
    requires
        line.len() <= usize::MAX,
    ensures
        spec_process(kind, line, false).0 == line,
        tokens_in_line(sort_by_start(spec_parse(kind, line).0), 0, line.len() as int),
        plain_from(line, sort_by_start(spec_parse(kind, line).0), 0, 0) == line,
{
    crate::parser::lemma_parse_tokens_in_line(kind, line);
    lemma_sort_keeps_tokens_in_line(spec_parse(kind, line).0, line.len() as int);
    law_render_preserves_payload(line, sort_by_start(spec_parse(kind, line).0));
}

/// `s` with every escape sequence taken out: each run from an ESC byte (27)
/// up to and including the next `m` (109). `inside` tells whether such a run
/// was opened and not yet closed before `s`.
pub open spec fn strip_escapes_from(s: Seq<u8>, inside: bool) -> Seq<u8>
    decreases s.len(),
{
    if s.len() == 0 {
        s
    } else if inside {
        strip_escapes_from(s.drop_first(), s[0] != 109u8)
    } else if s[0] == 27u8 {
        strip_escapes_from(s.drop_first(), true)
    } else {
        seq![s[0]] + strip_escapes_from(s.drop_first(), false)
    }
}

/// `s` with every escape sequence (ESC up to the next `m`) taken out.
pub open spec fn strip_escapes(s: Seq<u8>) -> Seq<u8> {
    strip_escapes_from(s, false)
}

/// The bytes hold no ESC.
pub open spec fn escape_free(s: Seq<u8>) -> bool {
    forall|i: int| 0 <= i < s.len() ==> s[i] != 27u8
}

/// Text without ESC passes through stripping unchanged.
proof fn lemma_strip_plain_prefix(a: Seq<u8>, b: Seq<u8>)
    requires
        escape_free(a),
    ensures
        strip_escapes(a + b) == a + strip_escapes(b),
    decreases a.len(),
{
    if a.len() > 0 {
        assert((a + b).drop_first() =~= a.drop_first() + b);
        assert((a + b)[0] == a[0]);
        lemma_strip_plain_prefix(a.drop_first(), b);
        assert(seq![a[0]] + (a.drop_first() + strip_escapes(b)) =~= a + strip_escapes(b));
    } else {
        assert(a + b =~= b);
    }
}

/// The rest of an escape sequence, up to and including its closing `m`, is
/// taken out whole.
proof fn lemma_strip_sequence_tail(d: Seq<u8>, b: Seq<u8>)
    requires
        d.len() >= 1,
        d.last() == 109u8,
        forall|i: int| 0 <= i < d.len() - 1 ==> d[i] != 109u8,
    ensures
        strip_escapes_from(d + b, true) == strip_escapes(b),
    decreases d.len(),
{
    assert((d + b).drop_first() =~= d.drop_first() + b);
    assert((d + b)[0] == d[0]);
    if d.len() == 1 {
        assert(d.drop_first() + b =~= b);
    } else {
        assert(d[0] != 109u8);
        lemma_strip_sequence_tail(d.drop_first(), b);
    }
}

/// An escape sequence (ESC, then bytes up to the first `m`) is taken out whole.
proof fn lemma_strip_sequence(c: Seq<u8>, b: Seq<u8>)
    requires
        c.len() >= 2,
        c[0] == 27u8,
        c.last() == 109u8,
        forall|i: int| 0 < i < c.len() - 1 ==> c[i] != 109u8,
    ensures
        strip_escapes(c + b) == strip_escapes(b),
{
    assert((c + b).drop_first() =~= c.drop_first() + b);
    assert((c + b)[0] == 27u8);
    lemma_strip_sequence_tail(c.drop_first(), b);
}

/// The colors and the reset that rendering inserts are escape sequences.
proof fn lemma_codes_are_sequences(k: TokenKind, b: Seq<u8>)
    ensures
        strip_escapes(ansi_seq(k) + b) == strip_escapes(b),
        strip_escapes(reset_seq() + b) == strip_escapes(b),
{
    let c = ansi_seq(k);
    assert(forall|i: int| 0 < i < c.len() - 1 ==> c[i] != 109u8);
    lemma_strip_sequence(c, b);
    let r = reset_seq();
    assert(forall|i: int| 0 < i < r.len() - 1 ==> r[i] != 109u8);
    lemma_strip_sequence(r, b);
}

proof fn lemma_strip_render_from(input: Seq<u8>, tokens: Seq<Token>, idx: int, cursor: int)
    requires
        0 <= cursor <= input.len(),
        0 <= idx,
        tokens_in_line(tokens, 0, input.len() as int),
        escape_free(input),
    ensures
        strip_escapes(render_from(input, tokens, idx, cursor)) == input.subrange(
            cursor,
            input.len() as int,
        ),
    decreases tokens.len() - idx,
{
    let len = input.len() as int;
    if idx >= tokens.len() {
        let a = input.subrange(cursor, len);
        lemma_strip_plain_prefix(a, seq![]);
        assert(a + seq![] =~= a);
        assert(strip_escapes(seq![]) =~= seq![]);
    } else {
        let t = tokens[idx];
        if skipped(t, len, cursor) {
            lemma_strip_render_from(input, tokens, idx + 1, cursor);
        } else {
            assert(token_in_line(tokens[idx], len));
            let a = input.subrange(cursor, t.start as int);
            let m = input.subrange(t.start as int, t.end as int);
            let rest = render_from(input, tokens, idx + 1, t.end as int);
            lemma_strip_render_from(input, tokens, idx + 1, t.end as int);
            assert(render_from(input, tokens, idx, cursor) =~= a + (ansi_seq(t.kind) + (m + (
            reset_seq() + rest))));
            lemma_codes_are_sequences(t.kind, m + (reset_seq() + rest));
            lemma_codes_are_sequences(t.kind, rest);
            lemma_strip_plain_prefix(a, ansi_seq(t.kind) + (m + (reset_seq() + rest)));
            lemma_strip_plain_prefix(m, reset_seq() + rest);
            assert(a + (m + input.subrange(t.end as int, len)) =~= input.subrange(cursor, len));
        }
    }
}

/// Coloring never changes the payload: for a line without ESC bytes, taking
/// the escape sequences out of the colored rendering gives back the line byte
/// for byte, text after the last token included.
pub proof fn law_colored_render_keeps_payload(input: Seq<u8>, tokens: Seq<Token>)
    requires
        tokens_in_line(tokens, 0, input.len() as int),
        escape_free(input),
    ensures
        strip_escapes(spec_render(input, tokens, true)) == input,
{
    lemma_strip_render_from(input, tokens, 0, 0);
    assert(input.subrange(0, input.len() as int) =~= input);
}

/// Processing a line without ESC bytes with color keeps its payload: taking
/// the escape sequences out of the output gives back the line.
pub proof fn law_colored_process_keeps_payload(kind: ParserKind, line: Seq<u8>)
    requires
        line.len() <= usize::MAX,
        escape_free(line),
    ensures
        strip_escapes(spec_process(kind, line, true).0) == line,
{
    law_process_preserves_payload(kind, line);
    law_colored_render_keeps_payload(line, sort_by_start(spec_parse(kind, line).0));
}

/// With color, a line without tokens is written as it is, and a single
/// token is wrapped in its kind's color and the reset, with the text before and
/// after it kept in place.
pub proof fn law_render_wraps_tokens(input: Seq<u8>, t: Token)
    ensures
        spec_render(input, seq![], true) == input,
        token_in_line(t, input.len() as int) && t.start < t.end ==> spec_render(
            input,
            seq![t],
            true,
        ) == input.subrange(0, t.start as int) + ansi_seq(t.kind) + input.subrange(
            t.start as int,
            t.end as int,
        ) + reset_seq() + input.subrange(t.end as int, input.len() as int),
{
    assert(input.subrange(0, input.len() as int) =~= input);
    let one = seq![t];
    assert(one[0] == t);
    if token_in_line(t, input.len() as int) && t.start < t.end {
        assert(!skipped(t, input.len() as int, 0));
        assert(render_from(input, one, 1, t.end as int) == input.subrange(
            t.end as int,
            input.len() as int,
        ));
        assert(render_from(input, one, 0, 0) == input.subrange(0, t.start as int) + ansi_seq(t.kind)
            + input.subrange(t.start as int, t.end as int) + reset_seq() + render_from(
            input,
            one,
            1,
            t.end as int,
        ));
    }
}

} // verus!
