use yelloweditor::text::{parse_hex_i32, push_hex_padded, same_text, HexError};
use yelloweditor::editor::{normalize_command, normalize_input, parse_command, Command};

#[test]
fn parses_plain_hex() {
    assert_eq!(parse_hex_i32("1ff"), Ok(0x1ff));
    assert_eq!(parse_hex_i32("DeadBeef"), Err(HexError::PosOverflow));
    assert_eq!(parse_hex_i32("7fffffff"), Ok(i32::MAX));
    assert_eq!(parse_hex_i32("0"), Ok(0));
}

#[test]
fn parses_signs() {
    assert_eq!(parse_hex_i32("+1f"), Ok(31));
    assert_eq!(parse_hex_i32("-10"), Ok(-16));
    assert_eq!(parse_hex_i32("-80000000"), Ok(i32::MIN));
}

#[test]
fn reports_each_error_kind() {
    assert_eq!(parse_hex_i32(""), Err(HexError::Empty));
    assert_eq!(parse_hex_i32("+"), Err(HexError::InvalidDigit));
    assert_eq!(parse_hex_i32("1g"), Err(HexError::InvalidDigit));
    assert_eq!(parse_hex_i32("80000000"), Err(HexError::PosOverflow));
    assert_eq!(parse_hex_i32("-80000001"), Err(HexError::NegOverflow));
}

#[test]
fn error_messages() {
    assert_eq!(HexError::InvalidDigit.message(), "ParseIntError { kind: InvalidDigit }");
    assert_eq!(HexError::Empty.message(), "ParseIntError { kind: Empty }");
}

#[test]
fn padded_hex() {
    let mut s = String::new();
    push_hex_padded(&mut s, 0x1c0, 6);
    assert_eq!(s, "0001c0");
    let mut t = String::new();
    push_hex_padded(&mut t, 0xabcdef, 2);
    assert_eq!(t, "abcdef");
}

#[test]
fn compares_text() {
    assert!(same_text("goto", "goto"));
    assert!(!same_text("goto", "got"));
    assert!(!same_text("Goto", "goto"));
}

#[test]
fn commands_are_trimmed_and_lowercased() {
    assert_eq!(normalize_command("  QuIt \n"), "quit");
    assert_eq!(parse_command(&normalize_command(" D\n")), Command::Down);
    assert_eq!(parse_command("size"), Command::Size);
    assert_eq!(parse_command(""), Command::Redraw);
    assert_eq!(parse_command("help"), Command::Redraw);
    assert_eq!(normalize_input("DEADBEEF\n"), "deadbeef");
}

#[test]
fn input_trims_unicode_white_space() {
    assert_eq!(normalize_input("\u{3000}\t1FF\u{a0}\r\n"), "1ff");
    assert_eq!(normalize_command("\u{2003}SAVE\u{85}"), "save");
}
