use obd2_reader::command::pids;
use obd2_reader::connection::{
    check_init_response, has_init_failure, InitSequence, has_status_prefix, init_commands, init_delay_ms,
    is_status_message, reply_from_bytes, reply_from_text, ResponseReader, SupportedPidScan,
};
use obd2_reader::pid::{
    decode_coolant_temp, decode_i16_pid, decode_supported_pids, decode_u8_pid,
    decode_vehicle_speed,
};
use obd2_reader::response::{
    extract_data_bytes, parse_hex_bytes, parse_hex_token, parse_trimmed_response,
};
use obd2_reader::text::{split_words, trim_chars};
use obd2_reader::{ObdCommand, ObdError};

// ---------------------------------------------------------------------------
// Commands
// ---------------------------------------------------------------------------

#[test]
fn rpm_command_string() {
    assert_eq!(pids::engine_rpm().to_command_string(), "010C\r");
}

#[test]
fn speed_command_string() {
    assert_eq!(pids::vehicle_speed().to_command_string(), "010D\r");
}

#[test]
fn coolant_command_string() {
    assert_eq!(pids::coolant_temp().to_command_string(), "0105\r");
}

#[test]
fn display_impl() {
    assert_eq!(pids::engine_rpm().to_display_string(), "010C");
}

#[test]
fn new_command_fields() {
    let cmd = ObdCommand::new(0x01, 0x0C);
    assert_eq!(cmd.mode, 0x01);
    assert_eq!(cmd.pid, 0x0C);
    assert_eq!(cmd, pids::engine_rpm());
}

#[test]
fn command_string_upper_hex_digits() {
    assert_eq!(ObdCommand::new(0xAB, 0xF0).to_command_string(), "ABF0\r");
    assert_eq!(ObdCommand::new(0x09, 0x02).to_display_string(), "0902");
    assert_eq!(pids::throttle_position().to_command_string(), "0111\r");
    assert_eq!(pids::fuel_level().to_command_string(), "012F\r");
    assert_eq!(pids::supported_pids_01_20().to_command_string(), "0100\r");
}

#[test]
fn command_code_parses_back() {
    let cmd = ObdCommand::new(0x7E, 0x2F);
    let code: Vec<char> = cmd.to_display_string().chars().collect();
    assert_eq!(parse_hex_token(&code[0..2]), Some(0x7E));
    assert_eq!(parse_hex_token(&code[2..4]), Some(0x2F));
}

// ---------------------------------------------------------------------------
// PID decoding
// ---------------------------------------------------------------------------

#[test]
fn speed_decode() {
    // 41 0D 3C  =>  0x3C = 60 km/h
    let raw = vec![0x41, 0x0D, 0x3C];
    assert_eq!(decode_vehicle_speed(&raw).unwrap(), 60);
}

#[test]
fn coolant_decode() {
    // 41 05 6E  =>  0x6E (110) - 40 = 70 °C
    let raw = vec![0x41, 0x05, 0x6E];
    assert_eq!(decode_coolant_temp(&raw).unwrap(), 70);
}

#[test]
fn coolant_negative() {
    // 41 05 00  =>  0 - 40 = -40 °C
    let raw = vec![0x41, 0x05, 0x00];
    assert_eq!(decode_coolant_temp(&raw).unwrap(), -40);
}

#[test]
fn coolant_maximum() {
    let raw = vec![0x41, 0x05, 0xFF];
    assert_eq!(decode_coolant_temp(&raw).unwrap(), 215);
}

#[test]
fn speed_too_short() {
    let raw = vec![0x41, 0x0D];
    match decode_vehicle_speed(&raw) {
        Err(ObdError::InsufficientData { expected, got }) => {
            assert_eq!(expected, 3);
            assert_eq!(got, 2);
        }
        other => panic!("unexpected {:?}", other),
    }
}

#[test]
fn typed_pid_dispatch() {
    assert_eq!(decode_u8_pid(0x0D, &[0x41, 0x0D, 0x3C]).unwrap(), 60);
    assert_eq!(decode_i16_pid(0x05, &[0x41, 0x05, 0x6E]).unwrap(), 70);
    match decode_u8_pid(0x0C, &[0x41, 0x0C, 0x1A, 0xF8]) {
        Err(ObdError::Parse(msg)) => assert_eq!(msg, "No u8 decoder for PID 0x0C"),
        other => panic!("unexpected {:?}", other),
    }
    match decode_i16_pid(0xAF, &[0x41, 0xAF, 0x00]) {
        Err(ObdError::Parse(msg)) => assert_eq!(msg, "No i16 decoder for PID 0xAF"),
        other => panic!("unexpected {:?}", other),
    }
    assert!(matches!(
        decode_u8_pid(0x0D, &[0x41, 0x0D]),
        Err(ObdError::InsufficientData { expected: 3, got: 2 })
    ));
}

#[test]
fn supported_pids_first_range() {
    let raw = vec![0x41, 0x00, 0xBE, 0x1F, 0xA8, 0x13];
    let pids = decode_supported_pids(&raw, 0x00).unwrap();
    assert_eq!(
        pids,
        vec![
            0x01, 0x03, 0x04, 0x05, 0x06, 0x07, 0x0C, 0x0D, 0x0E, 0x0F, 0x10, 0x11, 0x13, 0x15,
            0x1C, 0x1F, 0x20
        ]
    );
}

#[test]
fn supported_pids_other_base() {
    let raw = vec![0x41, 0x20, 0x80, 0x00, 0x00, 0x01];
    assert_eq!(decode_supported_pids(&raw, 0x20).unwrap(), vec![0x21, 0x40]);
    let none = vec![0x41, 0x20, 0x00, 0x00, 0x00, 0x00];
    assert_eq!(decode_supported_pids(&none, 0x20).unwrap(), Vec::<u8>::new());
}

#[test]
fn supported_pids_too_short() {
    let raw = vec![0x41, 0x00, 0xBE, 0x1F, 0xA8];
    match decode_supported_pids(&raw, 0x00) {
        Err(ObdError::InsufficientData { expected, got }) => {
            assert_eq!(expected, 6);
            assert_eq!(got, 5);
        }
        other => panic!("unexpected {:?}", other),
    }
}

// ---------------------------------------------------------------------------
// Response parsing
// ---------------------------------------------------------------------------

#[test]
fn parse_rpm_response() {
    let bytes = parse_hex_bytes("41 0C 1A F8").unwrap();
    assert_eq!(bytes, vec![0x41, 0x0C, 0x1A, 0xF8]);
}

#[test]
fn parse_with_prompt() {
    let bytes = parse_hex_bytes("41 0D 3C\r\n>").unwrap();
    assert_eq!(bytes, vec![0x41, 0x0D, 0x3C]);
}

#[test]
fn error_no_data() {
    let result = parse_hex_bytes("NO DATA");
    assert!(matches!(result, Err(ObdError::AdapterError(_))));
}

#[test]
fn error_generic() {
    let result = parse_hex_bytes("ERROR");
    assert!(matches!(result, Err(ObdError::AdapterError(_))));
}

#[test]
fn empty_response() {
    let result = parse_hex_bytes("   ");
    assert!(matches!(result, Err(ObdError::Parse(_))));
}

#[test]
fn extract_data_ok() {
    let raw = vec![0x41, 0x0C, 0x1A, 0xF8];
    let data = extract_data_bytes(&raw, 2).unwrap();
    assert_eq!(data, &[0x1A, 0xF8]);
}

#[test]
fn extract_data_insufficient() {
    let raw = vec![0x41, 0x0C];
    let err = extract_data_bytes(&raw, 2).unwrap_err();
    assert!(matches!(err, ObdError::InsufficientData { .. }));
}

#[test]
fn extract_data_insufficient_values() {
    let raw = vec![0x41, 0x0C, 0x1A];
    match extract_data_bytes(&raw, 2) {
        Err(ObdError::InsufficientData { expected, got }) => {
            assert_eq!(expected, 4);
            assert_eq!(got, 3);
        }
        other => panic!("unexpected {:?}", other),
    }
    assert_eq!(extract_data_bytes(&raw, 0).unwrap(), &[0x1A]);
}

#[test]
fn adapter_error_keeps_trimmed_text() {
    match parse_hex_bytes("  NO DATA\r\n>") {
        Err(ObdError::AdapterError(text)) => assert_eq!(text, "NO DATA"),
        other => panic!("unexpected {:?}", other),
    }
}

#[test]
fn adapter_error_any_case() {
    match parse_hex_bytes("unable to connect") {
        Err(ObdError::AdapterError(text)) => assert_eq!(text, "unable to connect"),
        other => panic!("unexpected {:?}", other),
    }
    assert!(matches!(parse_hex_bytes("41 0C ?"), Err(ObdError::AdapterError(_))));
    // The long s upper-cases to `S`, so this reads as "STOPPED".
    assert!(matches!(parse_hex_bytes("\u{17f}topped"), Err(ObdError::AdapterError(_))));
}

#[test]
fn empty_response_message() {
    match parse_hex_bytes("\r\n>\0") {
        Err(ObdError::Parse(msg)) => assert_eq!(msg, "Empty response from adapter"),
        other => panic!("unexpected {:?}", other),
    }
}

#[test]
fn invalid_token_message() {
    match parse_hex_bytes("41 0G 12") {
        Err(ObdError::Parse(msg)) => assert_eq!(msg, "Invalid hex token: '0G'"),
        other => panic!("unexpected {:?}", other),
    }
    match parse_hex_bytes("41 100") {
        Err(ObdError::Parse(msg)) => assert_eq!(msg, "Invalid hex token: '100'"),
        other => panic!("unexpected {:?}", other),
    }
}

#[test]
fn tokens_are_two_hex_digits() {
    assert_eq!(parse_hex_bytes("41 0c 1a f8").unwrap(), vec![0x41, 0x0C, 0x1A, 0xF8]);
    match parse_hex_bytes("41 0D 3") {
        Err(ObdError::Parse(msg)) => assert_eq!(msg, "Invalid hex token: '3'"),
        other => panic!("unexpected {:?}", other),
    }
    assert!(matches!(parse_hex_bytes("+41"), Err(ObdError::Parse(_))));
    assert!(matches!(parse_hex_bytes("001A"), Err(ObdError::Parse(_))));
    assert!(matches!(parse_hex_bytes("-1"), Err(ObdError::Parse(_))));
    assert_eq!(parse_hex_token(&['f', 'f']), Some(255));
    assert_eq!(parse_hex_token(&['0', '7']), Some(7));
    assert_eq!(parse_hex_token(&['7']), None);
    assert_eq!(parse_hex_token(&['1', '0', '0']), None);
    assert_eq!(parse_hex_token(&[]), None);
}

#[test]
fn noise_and_unicode_whitespace() {
    assert_eq!(parse_hex_bytes("4\u{0}1\r 0C>").unwrap(), vec![0x41, 0x0C]);
    assert_eq!(parse_hex_bytes("\u{3000}41\u{a0}0C\t\n").unwrap(), vec![0x41, 0x0C]);
}

#[test]
fn parse_given_upper_form() {
    // The decision on adapter errors goes by the upper-case form given.
    assert!(matches!(
        parse_trimmed_response("41 0C", "NO DATA"),
        Err(ObdError::AdapterError(_))
    ));
    assert_eq!(parse_trimmed_response("41 0c", "41 0C").unwrap(), vec![0x41, 0x0C]);
}

#[test]
fn hex_dump_reads_back() {
    let bytes: Vec<u8> = vec![0x00, 0x7F, 0x80, 0xFF, 0x41, 0x0C];
    let dump: Vec<String> = bytes.iter().map(|b| format!("{:02X}", b)).collect();
    assert_eq!(parse_hex_bytes(&dump.join(" ")).unwrap(), bytes);
}

// ---------------------------------------------------------------------------
// Text helpers
// ---------------------------------------------------------------------------

#[test]
fn trim_and_words() {
    let s: Vec<char> = "  a bc\u{2003}d  ".chars().collect();
    assert_eq!(trim_chars(&s), "a bc\u{2003}d".chars().collect::<Vec<char>>());
    let ws = split_words(&s);
    assert_eq!(ws, vec![vec!['a'], vec!['b', 'c'], vec!['d']]);
}

// ---------------------------------------------------------------------------
// Session decisions
// ---------------------------------------------------------------------------

#[test]
fn status_messages() {
    assert!(is_status_message("SEARCHING..."));
    assert!(is_status_message("searching..."));
    assert!(is_status_message("Bus Init: ...OK"));
    assert!(is_status_message("AUTO, ISO 15765-4"));
    assert!(!is_status_message("41 0C 1A F8"));
    assert!(!is_status_message(" SEARCHING"));
    assert!(has_status_prefix("TRYING PROTOCOL 6"));
    assert!(!has_status_prefix("trying"));
}

#[test]
fn reply_text_cleaning() {
    assert_eq!(reply_from_text("SEARCHING...\r\n41 0C 1A F8\r\n\r\n"), "41 0C 1A F8");
    assert_eq!(reply_from_text("41 0C\r\n  41 0D  \n"), "41 0C 41 0D");
    assert_eq!(reply_from_text("BUS INIT: ...OK\r41 00\r"), "41 00");
    assert_eq!(reply_from_text("SEARCHING...\r41 0C 1A F8\r\r"), "41 0C 1A F8");
    assert_eq!(reply_from_text(""), "");
}

#[test]
fn reply_from_invalid_utf8() {
    assert_eq!(reply_from_bytes(&[0xFF, b'4', b'1', b'\r', b'\n']), "\u{FFFD}41");
    assert_eq!(reply_from_bytes(b"OK\r\n"), "OK");
}

#[test]
fn reader_stops_at_prompt() {
    let mut reader = ResponseReader::new();
    let mut stopped_at = None;
    for (i, b) in b"41 0C\r\n>rest".iter().enumerate() {
        if reader.feed(*b) {
            stopped_at = Some(i);
            break;
        }
    }
    assert_eq!(stopped_at, Some(7));
    assert!(reader.is_finished());
    assert_eq!(reader.bytes(), b"41 0C\r\n");
    assert_eq!(reader.reply(), "41 0C");
    assert!(reader.feed(b'X'));
    assert_eq!(reader.bytes(), b"41 0C\r\n");
}

#[test]
fn reader_stops_when_full() {
    let mut reader = ResponseReader::new();
    for i in 0..255 {
        assert!(!reader.feed(b'A'), "stopped early at {}", i);
    }
    assert!(reader.feed(b'A'));
    assert_eq!(reader.bytes().len(), 256);
}

#[test]
fn init_sequence() {
    assert_eq!(
        init_commands(),
        vec!["ATZ\r", "ATE0\r", "ATL0\r", "ATS0\r", "ATH0\r"]
    );
    assert_eq!(init_delay_ms("ATZ\r"), 700);
    assert_eq!(init_delay_ms("ATE0\r"), 200);
}

#[test]
fn init_response_checks() {
    assert!(check_init_response("ATZ\r", "ELM327 v1.5").is_ok());
    assert!(check_init_response("ATRV\r", "12.6V").is_ok());
    match check_init_response("ATH0\r", "unable to connect") {
        Err(ObdError::InitFailed(msg)) => {
            assert_eq!(msg, "Command 'ATH0\r' failed with: unable to connect")
        }
        other => panic!("unexpected {:?}", other),
    }
    assert!(has_init_failure("BUS ERROR"));
    assert!(!has_init_failure("bus error"));
}

#[test]
fn pid_scan_stops_when_next_range_missing() {
    let mut scan = SupportedPidScan::new();
    assert_eq!(scan.next_command(), Some(ObdCommand::new(0x01, 0x00)));
    scan.on_response(&[0x41, 0x00, 0x80, 0x00, 0x00, 0x01]).unwrap();
    assert_eq!(scan.next_command(), Some(ObdCommand::new(0x01, 0x20)));
    scan.on_response(&[0x41, 0x20, 0x80, 0x00, 0x00, 0x00]).unwrap();
    assert_eq!(scan.next_command(), None);
    assert_eq!(scan.supported(), vec![0x01, 0x20, 0x21]);
}

#[test]
fn pid_scan_all_ranges_and_errors() {
    let mut scan = SupportedPidScan::new();
    assert!(matches!(
        scan.on_response(&[0x41, 0x00]),
        Err(ObdError::InsufficientData { expected: 6, got: 2 })
    ));
    assert_eq!(scan.next_command(), Some(ObdCommand::new(0x01, 0x00)));
    scan.on_response(&[0x41, 0x00, 0x00, 0x00, 0x00, 0x01]).unwrap();
    scan.on_response(&[0x41, 0x20, 0x00, 0x00, 0x00, 0x01]).unwrap();
    assert_eq!(scan.next_command(), Some(ObdCommand::new(0x01, 0x40)));
    scan.on_response(&[0x41, 0x40, 0x00, 0x00, 0x00, 0x01]).unwrap();
    assert_eq!(scan.next_command(), None);
    assert!(scan.on_response(&[0x41, 0x60, 0xFF, 0xFF, 0xFF, 0xFF]).is_ok());
    assert_eq!(scan.supported(), vec![0x20, 0x40, 0x60]);
}

#[test]
fn init_sequence_runs_in_order() {
    let mut sequence = InitSequence::new();
    let mut sent = Vec::new();
    while let Some(cmd) = sequence.next_command() {
        sent.push(cmd);
        sequence.on_response("OK").unwrap();
    }
    assert_eq!(sent, vec!["ATZ\r", "ATE0\r", "ATL0\r", "ATS0\r", "ATH0\r"]);
    assert!(sequence.succeeded());
    assert!(sequence.on_response("ERROR").is_ok());
}

#[test]
fn init_sequence_stops_at_failure() {
    let mut sequence = InitSequence::new();
    assert_eq!(sequence.next_command(), Some("ATZ\r"));
    sequence.on_response("ELM327 v1.5").unwrap();
    assert_eq!(sequence.next_command(), Some("ATE0\r"));
    match sequence.on_response("?\r bus error") {
        Err(ObdError::InitFailed(msg)) => {
            assert_eq!(msg, "Command 'ATE0\r' failed with: ?\r bus error")
        }
        other => panic!("unexpected {:?}", other),
    }
    assert_eq!(sequence.next_command(), None);
    assert!(!sequence.succeeded());
}
