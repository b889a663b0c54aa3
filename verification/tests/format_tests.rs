use ccze_rs::cgroup::CgroupController;
use ccze_rs::record::{extract_pid, parse_decimal, payload_length, record_step, RecordStep, MAXIMUM_RECORD_BYTES};
use ccze_rs::vector::{decode_record, encode_record, header, is_valid_record, is_vector_header};
use ccze_rs::xdp::XdpState;

#[test]
fn vector_records_round_trip_through_bits() {
    let features = [0.5f64, 0.3, 0.7, 0.2, 0.8, 0.1, 0.9, 0.4];
    let bits = features.map(f64::to_bits);
    let record = encode_record(&bits);
    let mut expected = Vec::new();
    for f in features {
        expected.extend_from_slice(&f.to_le_bytes());
    }
    assert_eq!(record.to_vec(), expected);
    let back = decode_record(&record).map(f64::from_bits);
    assert_eq!(back, features);
    assert!(is_valid_record(&bits));
}

#[test]
fn vector_records_reject_non_finite_or_out_of_range_features() {
    let mut bits = [0f64.to_bits(); 8];
    assert!(is_valid_record(&bits));
    bits[3] = (-0.0f64).to_bits();
    assert!(is_valid_record(&bits));
    bits[3] = 1.0f64.to_bits();
    assert!(is_valid_record(&bits));
    bits[3] = 1.0000001f64.to_bits();
    assert!(!is_valid_record(&bits));
    bits[3] = f64::NAN.to_bits();
    assert!(!is_valid_record(&bits));
    bits[3] = (-0.5f64).to_bits();
    assert!(!is_valid_record(&bits));
}

#[test]
fn vector_header_is_checked() {
    assert_eq!(&header(), b"CCZEVEC\x01");
    assert!(is_vector_header(b"CCZEVEC\x01"));
    assert!(!is_vector_header(b"NOTAVEC!"));
    assert!(!is_vector_header(b"CCZEVEC"));
}

#[test]
fn records_end_at_a_line_feed() {
    assert_eq!(record_step(0, b""), RecordStep::Finished);
    assert_eq!(record_step(0, b"ab\ncd"), RecordStep::Take { length: 3, complete: true });
    assert_eq!(record_step(5, b"abc"), RecordStep::Take { length: 3, complete: false });
    assert_eq!(record_step(MAXIMUM_RECORD_BYTES, b"x"), RecordStep::TooLong);
    assert_eq!(record_step(MAXIMUM_RECORD_BYTES - 1, b"x"), RecordStep::Take { length: 1, complete: false });
    assert_eq!(payload_length(b"abc\r\n"), 3);
    assert_eq!(payload_length(b"abc\n"), 3);
    assert_eq!(payload_length(b"abc\r"), 3);
    assert_eq!(payload_length(b"abc\n\n"), 4);
    assert_eq!(payload_length(b""), 0);
}

#[test]
fn process_ids_are_extracted() {
    assert_eq!(extract_pid(b"sshd[1234]: accepted"), 1234);
    assert_eq!(extract_pid(b"[x] worker pid=77 started"), 77);
    assert_eq!(extract_pid(b"pid=99999999999"), 0);
    assert_eq!(extract_pid(b"no id here"), 0);
    assert_eq!(extract_pid(b"[12"), 0);
    assert_eq!(parse_decimal(b"4294967295"), Some(u32::MAX));
    assert_eq!(parse_decimal(b"4294967296"), None);
    assert_eq!(parse_decimal(b""), None);
    assert_eq!(parse_decimal(b"1a"), None);
}

#[test]
fn small_enums_have_their_names() {
    assert_eq!(CgroupController::CpuMemory.as_str(), "cpu,memory");
    assert!(XdpState::Active.is_active());
    assert!(!XdpState::Error("x".to_string()).is_active());
}

/// Reads one record from `input` in buffered chunks of `chunk` bytes, as the
/// program's reader does, following the library's steps.
fn read_record_from(input: &[u8], chunk: usize, line: &mut Vec<u8>) -> Result<usize, ()> {
    line.clear();
    let mut offset = 0;
    loop {
        let end = (offset + chunk).min(input.len());
        let available = &input[offset..end];
        match record_step(line.len(), available) {
            RecordStep::Finished => return Ok(line.len()),
            RecordStep::TooLong => return Err(()),
            RecordStep::Take { length, complete } => {
                line.extend_from_slice(&available[..length]);
                offset += length;
                if complete {
                    return Ok(line.len());
                }
            }
        }
    }
}

#[test]
fn read_record_rejects_unterminated_oversized_input() {
    let input = vec![b'x'; MAXIMUM_RECORD_BYTES + 1];
    let mut line = Vec::new();

    let result = read_record_from(&input, 8192, &mut line);

    assert!(result.is_err());
    assert!(line.len() <= MAXIMUM_RECORD_BYTES);
}

#[test]
fn read_record_splits_lines_and_keeps_the_last_partial_one() {
    let input = b"first\nsecond\nthird";
    let mut line = Vec::new();
    assert_eq!(read_record_from(input, 4, &mut line), Ok(6));
    assert_eq!(line, b"first\n");
    assert_eq!(read_record_from(&input[6..], 4, &mut line), Ok(7));
    assert_eq!(line, b"second\n");
    assert_eq!(read_record_from(&input[13..], 4, &mut line), Ok(5));
    assert_eq!(line, b"third");
    assert_eq!(read_record_from(b"", 4, &mut line), Ok(0));
}
