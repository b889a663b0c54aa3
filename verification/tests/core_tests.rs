use ccze_rs::parser::{Auto, Httpd, Json, LogParser, Syslog, Token, TokenKind};
use ccze_rs::protocol::{Event, Phase, ProtocolVerifier, Violation};
use ccze_rs::severity::{find_ascii_case_insensitive, Severity};
use ccze_rs::{Processor, PLUGINS};

#[test]
fn renders_syslog_without_changing_payload() {
    let line = b"Jul 30 12:34:56 host sshd[42]: login failed";
    let mut processor = Processor::new("syslog").unwrap();
    let mut plain = Vec::new();
    let severity = processor.process(line, false, &mut plain);
    assert_eq!(plain, line);
    assert_eq!(severity, Severity::Error);

    let mut colored = Vec::new();
    processor.process(line, true, &mut colored);
    assert!(colored.starts_with(b"\x1b[33mJul 30 12:34:56"));
    assert!(colored.ends_with(b"\x1b[1;31mfailed\x1b[0m"));
}

#[test]
fn rejects_unknown_plugins() {
    assert!(Processor::new("made-up").is_err());
}

#[test]
fn unknown_plugin_error_lists_the_plugins() {
    let error = Processor::new("made-up").err().unwrap();
    assert_eq!(
        error,
        "unknown plugin 'made-up'; expected one of auto, syslog, httpd, json"
    );
    assert_eq!(PLUGINS.join(", "), "auto, syslog, httpd, json");
}

#[test]
fn plugin_names_round_trip() {
    for name in PLUGINS {
        let processor = Processor::new(name).unwrap();
        assert_eq!(processor.plugin_name(), name);
    }
}

#[test]
fn colored_syslog_line_is_exact() {
    let line = b"Jul 30 12:34:56 host sshd[42]: login failed";
    let mut processor = Processor::new("syslog").unwrap();
    let mut colored = Vec::new();
    processor.process(line, true, &mut colored);
    let expected: &[u8] = b"\x1b[33mJul 30 12:34:56\x1b[0m \x1b[36mhost\x1b[0m \x1b[35msshd[42]\x1b[0m: login \x1b[1;31mfailed\x1b[0m";
    assert_eq!(colored, expected);
}

#[test]
fn uncolored_output_preserves_arbitrary_bytes() {
    let line = b"message: \xff\xfe\0tail";
    let mut processor = Processor::new("auto").unwrap();
    let mut out = vec![1, 2, 3];
    processor.process(line, false, &mut out);
    assert_eq!(out, line);
}

#[test]
fn auto_detects_json() {
    let parser = Auto;
    let mut tokens = Vec::new();
    parser.parse(br#"{"level":"warn","message":"slow"}"#, &mut tokens);
    assert!(tokens.iter().any(|token| token.kind == TokenKind::Key));
    assert!(tokens.iter().any(|token| token.kind == TokenKind::Warning));
}

#[test]
fn json_tokens_are_exact() {
    let mut tokens = Vec::new();
    let severity = Json.parse(br#"{"level":"warn","message":"slow"}"#, &mut tokens);
    assert_eq!(severity, Severity::Warn);
    assert_eq!(
        tokens,
        vec![
            Token { start: 2, end: 7, kind: TokenKind::Key },
            Token { start: 10, end: 14, kind: TokenKind::Value },
            Token { start: 17, end: 24, kind: TokenKind::Key },
            Token { start: 27, end: 31, kind: TokenKind::Value },
            Token { start: 10, end: 14, kind: TokenKind::Warning },
        ]
    );
}

#[test]
fn parses_http_status() {
    let parser = Httpd;
    let mut tokens = Vec::new();
    parser.parse(
        b"127.0.0.1 - - [30/Jul/2026:12:00:00] \"GET / HTTP/1.1\" 500 1",
        &mut tokens,
    );
    assert!(tokens.iter().any(|token| token.kind == TokenKind::Error));
}

#[test]
fn http_client_error_is_a_warning() {
    let mut tokens = Vec::new();
    let line = b"10.0.0.1 - - [30/Jul/2026:12:00:00] \"GET /x HTTP/1.1\" 404 12";
    let severity = Httpd.parse(line, &mut tokens);
    assert_eq!(severity, Severity::Warn);
    assert_eq!(
        tokens,
        vec![
            Token { start: 0, end: 8, kind: TokenKind::Host },
            Token { start: 14, end: 34, kind: TokenKind::Timestamp },
            Token { start: 54, end: 57, kind: TokenKind::Warning },
        ]
    );
}

#[test]
fn syslog_tokens_are_exact() {
    let mut tokens = Vec::new();
    let severity = Syslog.parse(b"Jul 30 12:34:56 host sshd[42]: login failed", &mut tokens);
    assert_eq!(severity, Severity::Error);
    assert_eq!(
        tokens,
        vec![
            Token { start: 0, end: 15, kind: TokenKind::Timestamp },
            Token { start: 16, end: 20, kind: TokenKind::Host },
            Token { start: 21, end: 29, kind: TokenKind::Process },
            Token { start: 37, end: 43, kind: TokenKind::Error },
        ]
    );
}

#[test]
fn syslog_parser_ignores_other_lines() {
    let mut tokens = Vec::new();
    let severity = Syslog.parse(b"not a syslog line", &mut tokens);
    assert_eq!(severity, Severity::Info);
    assert!(tokens.is_empty());
}

#[test]
fn accepts_the_proven_sequence() {
    let mut verifier = ProtocolVerifier::default();
    for line in [
        "service start",
        "authenticate user",
        "bind socket",
        "server ready",
    ] {
        assert!(matches!(verifier.inspect(line.as_bytes()), Some(Ok(_))));
    }
    assert_eq!(verifier.phase(), Phase::Ready);
}

#[test]
fn rejects_out_of_order_events_without_advancing() {
    let mut verifier = ProtocolVerifier::default();
    assert!(matches!(verifier.inspect(b"server ready"), Some(Err(_))));
    assert_eq!(verifier.phase(), Phase::Cold);
}

#[test]
fn violation_message_names_event_and_phase() {
    let mut verifier = ProtocolVerifier::default();
    let violation = verifier.inspect(b"server ready").unwrap().unwrap_err();
    assert_eq!(
        violation,
        Violation { previous: Phase::Cold, event: Event::Ready }
    );
    assert_eq!(violation.message(), "invalid Ready event while in Cold phase");
}

#[test]
fn lines_without_events_are_ignored() {
    let mut verifier = ProtocolVerifier::default();
    assert!(verifier.inspect(b"nothing to see").is_none());
    assert_eq!(verifier.phase(), Phase::Cold);
}

#[test]
fn reset_returns_to_cold() {
    let mut verifier = ProtocolVerifier::default();
    verifier.inspect(b"service start");
    assert_eq!(verifier.phase(), Phase::Started);
    assert_eq!(verifier.inspect(b"RESET now"), Some(Ok(Phase::Cold)));
    assert_eq!(verifier.phase(), Phase::Cold);
}

#[test]
fn native_table_matches_the_total_idris_definition() {
    let phases = [
        Phase::Cold,
        Phase::Started,
        Phase::Authenticated,
        Phase::Bound,
        Phase::Ready,
    ];
    let events = [
        Event::Start,
        Event::Authenticate,
        Event::Bind,
        Event::Ready,
        Event::Reset,
    ];
    for phase in phases {
        for event in events {
            let expected = if event == Event::Reset {
                Some(Phase::Cold)
            } else if event.code() == phase.code() && phase != Phase::Ready {
                Phase::from_code(phase.code() + 1)
            } else {
                None
            };
            let actual = phase.step(event);
            assert_eq!(actual, expected, "{phase:?} + {event:?}");
        }
    }
}

#[test]
fn join_is_commutative_and_idempotent() {
    let values = [
        Severity::Trace,
        Severity::Debug,
        Severity::Info,
        Severity::Warn,
        Severity::Error,
        Severity::Fatal,
    ];
    for left in values {
        assert_eq!(left.join(left), left);
        for right in values {
            assert_eq!(left.join(right), right.join(left));
            assert_eq!(left.join(right), left.max(right));
        }
    }
}

#[test]
fn unknown_codes_decode_to_info() {
    assert_eq!(Severity::from_code(2), Severity::Info);
    assert_eq!(Severity::from_code(-7), Severity::Info);
    assert_eq!(Severity::from_code(5), Severity::Fatal);
    assert_eq!(Severity::default(), Severity::Info);
    assert_eq!(Severity::Warn.as_str(), "warn");
}

#[test]
fn detection_is_case_insensitive() {
    assert_eq!(Severity::detect(b"Kernel PANIC"), Severity::Fatal);
    assert_eq!(Severity::detect(b"ordinary notice"), Severity::Info);
}

#[test]
fn detection_takes_the_strongest_keyword() {
    assert_eq!(Severity::detect(b"debug: warn then Error"), Severity::Error);
    assert_eq!(Severity::detect(b"trace only"), Severity::Info);
}

#[test]
fn find_is_case_insensitive_and_first() {
    assert_eq!(find_ascii_case_insensitive(b"a WaRn warn", b"warn"), Some(2));
    assert_eq!(find_ascii_case_insensitive(b"abc", b""), Some(0));
    assert_eq!(find_ascii_case_insensitive(b"ab", b"abc"), None);
    assert_eq!(find_ascii_case_insensitive(b"xyz", b"q"), None);
}
