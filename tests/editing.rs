use yelloweditor::dictionary::CharDictionary;
use yelloweditor::editor::{Command, ROMEditor, Step};
use yelloweditor::rom::ROM;
use yelloweditor::screen::Screen;

const MIB2: usize = 2_097_152;

fn glyphs(lines: &[&str]) -> CharDictionary {
    let v: Vec<Vec<u8>> = lines.iter().map(|l| l.as_bytes().to_vec()).collect();
    CharDictionary::new(&v)
}

fn image(size: usize) -> Vec<u8> {
    (0..size).map(|i| (i % 251) as u8).collect()
}

fn editor_with(size: usize, lines: &[&str]) -> ROMEditor {
    ROMEditor::new(ROM::new(glyphs(lines), image(size)))
}

/// The rows of the view in a chunk of output: the lines after the bold reset.
fn view_rows(out: &str) -> Vec<String> {
    let after = out.split("\x1B[0m").nth(1).unwrap();
    after.lines().map(|l| l.to_string()).collect()
}

#[test]
fn size_query() {
    let mut e = editor_with(MIB2, &[]);
    assert_eq!(e.step(Command::Size), Step::Prompt);
    let out = e.take_output();
    assert!(out.lines().any(|l| l == "rom size: 0x200000"));
    assert_eq!(e.step(Command::Quit), Step::Quit);
}

#[test]
fn navigation_down_down_up() {
    let mut e = editor_with(MIB2, &[]);
    assert_eq!(e.cursor_value(), 0);
    e.step(Command::Down);
    e.step(Command::Down);
    e.step(Command::Up);
    assert_eq!(e.cursor_value(), 512);
    assert_eq!(e.step(Command::Quit), Step::Quit);
    assert_eq!(e.cursor_value(), 512);
}

#[test]
fn goto_alignment() {
    let mut e = editor_with(MIB2, &[]);
    assert_eq!(e.step(Command::Goto), Step::AskGotoAddress);
    assert_eq!(e.goto_entered("1ff\n"), Step::Skip);
    assert_eq!(e.cursor_value(), 0x1C0);
}

#[test]
fn goto_zero() {
    let mut e = editor_with(MIB2, &[]);
    e.step(Command::Down);
    e.step(Command::Goto);
    assert_eq!(e.goto_entered("0\n"), Step::Skip);
    assert_eq!(e.cursor_value(), 0);
}

#[test]
fn goto_bad_hex_keeps_cursor() {
    let mut e = editor_with(MIB2, &[]);
    e.step(Command::Down);
    e.step(Command::Goto);
    e.take_output();
    assert_eq!(e.goto_entered("xyz\n"), Step::Prompt);
    assert_eq!(e.cursor_value(), 512);
    assert_eq!(e.take_output(), "bad hex\n");
}

#[test]
fn goto_past_end_is_refused() {
    let mut e = editor_with(4096, &[]);
    e.step(Command::Goto);
    e.take_output();
    assert_eq!(e.goto_entered("1000"), Step::Prompt);
    assert_eq!(e.cursor_value(), 0);
    assert_eq!(e.take_output(), "address out of range\n");
    assert_eq!(e.goto_entered("fff"), Step::Skip);
    assert_eq!(e.cursor_value(), 0xfc0);
}

#[test]
fn paging_stops_at_the_ends() {
    let mut e = editor_with(1024, &[]);
    e.step(Command::Up);
    assert_eq!(e.cursor_value(), 0);
    e.step(Command::Down);
    assert_eq!(e.cursor_value(), 512);
    e.step(Command::Down);
    assert_eq!(e.cursor_value(), 512);
}

#[test]
fn decode_fallback() {
    // byte 0 has the sentinel, byte 1 the glyph "AB"
    let mut e = editor_with(MIB2, &["..AB"]);
    e.step(Command::Redraw);
    let rows = view_rows(&e.take_output());
    assert_eq!(rows.len(), 8);
    assert!(rows[0].starts_with("000000 00 AB 02 03 "));
}

#[test]
fn mode_toggle_raw() {
    let mut e = editor_with(MIB2, &["..ABCDEF"]);
    assert_eq!(e.step(Command::Raw), Step::Skip);
    assert!(e.is_raw());
    e.step(Command::Redraw);
    let rows = view_rows(&e.take_output());
    for (r, row) in rows.iter().enumerate() {
        let cells = &row[7..];
        assert_eq!(cells.len(), 64 * 3);
        for c in 0..64 {
            let cell = &cells[3 * c..3 * c + 3];
            let expected = format!("{:02X} ", ((r * 64 + c) % 251) as u8);
            assert_eq!(cell, expected);
        }
    }
    assert_eq!(e.step(Command::Eng), Step::Skip);
    assert!(!e.is_raw());
}

#[test]
fn patch_and_save() {
    let mut e = editor_with(MIB2, &[]);
    let before = e.rom().as_bytes().to_vec();
    assert_eq!(e.step(Command::Write), Step::AskWriteAddress);
    assert_eq!(e.write_address_entered("100\n"), Step::AskWriteBytes(0x100));
    assert_eq!(e.write_bytes_entered(0x100, "DEADBEEF\n"), Step::Skip);
    e.step(Command::Save);
    let path = e.save_path_entered("  /tmp/out.gbc \n");
    assert_eq!(path, "/tmp/out.gbc");
    let saved = e.rom().as_bytes().to_vec();
    let mut expected = before.clone();
    expected[0x100..0x104].copy_from_slice(&[0xDE, 0xAD, 0xBE, 0xEF]);
    assert_eq!(saved, expected);
    e.take_output();
    assert_eq!(e.save_finished(&path, None), Step::Prompt);
    assert_eq!(e.take_output(), "successfully wrote to /tmp/out.gbc\n");
    e.save_finished(&path, Some("denied".to_string()));
    assert_eq!(e.take_output(), "error could not write: denied\n");
}

#[test]
fn write_stops_at_bad_chunk() {
    let mut e = editor_with(4096, &[]);
    e.step(Command::Write);
    e.write_address_entered("10");
    e.take_output();
    assert_eq!(e.write_bytes_entered(0x10, "aazz11"), Step::Prompt);
    assert_eq!(e.rom().as_bytes()[0x10], 0xaa);
    assert_eq!(e.rom().as_bytes()[0x11], 0x11);
    assert_eq!(e.take_output(), "ParseIntError { kind: InvalidDigit }\n");
}

#[test]
fn write_address_error() {
    let mut e = editor_with(4096, &[]);
    e.step(Command::Write);
    e.take_output();
    assert_eq!(e.write_address_entered("q"), Step::Prompt);
    assert_eq!(e.take_output(), "ParseIntError { kind: InvalidDigit }\n");
}

#[test]
fn write_past_end_is_refused() {
    let mut e = editor_with(16, &[]);
    e.step(Command::Write);
    e.write_address_entered("f");
    e.take_output();
    assert_eq!(e.write_bytes_entered(0xf, "0102"), Step::Prompt);
    assert_eq!(e.rom().as_bytes()[0xf], 0x01);
    assert_eq!(e.rom().size(), 16);
    assert_eq!(e.take_output(), "address out of range\n");
}

#[test]
fn odd_digit_is_written_alone() {
    let mut e = editor_with(16, &[]);
    assert_eq!(e.write_bytes_entered(2, "abc"), Step::Skip);
    assert_eq!(&e.rom().as_bytes()[2..4], &[0xab, 0x0c]);
}

#[test]
fn write_then_read_back() {
    let mut e = editor_with(300, &[]);
    assert_eq!(e.write_bytes_entered(0x20, "0123456789abcdef"), Step::Skip);
    assert_eq!(&e.rom().as_bytes()[0x20..0x28], &[0x01, 0x23, 0x45, 0x67, 0x89, 0xab, 0xcd, 0xef]);
    assert_eq!(e.rom().as_bytes()[0x28], (0x28 % 251) as u8);
}

#[test]
fn view_layout() {
    let mut e = editor_with(MIB2, &[]);
    e.step(Command::Redraw);
    let out = e.take_output();
    let mut header = String::from("\x1B[1m       ");
    for x in 0..64 {
        header.push_str(&format!("{:02x} ", x));
    }
    header.push_str("\n\x1B[0m");
    assert!(out.starts_with("POKEMON YELLOW ROM EDITOR\n"));
    assert!(out.contains(&header));
    let rows = view_rows(&out);
    assert!(rows[1].starts_with("000040 "));
    assert!(rows[7].starts_with("0001c0 "));
    assert_eq!(e.printed_count(), 10);
}

#[test]
fn write_view_is_four_rows_short() {
    let mut e = editor_with(MIB2, &[]);
    e.step(Command::Write);
    let out = e.take_output();
    assert!(out.ends_with("where to?\n0x"));
    assert_eq!(e.printed_count(), 7);
}

#[test]
fn view_past_end_is_blank() {
    let mut e = editor_with(70, &[]);
    e.step(Command::Redraw);
    let rows = view_rows(&e.take_output());
    assert_eq!(rows[1], format!("40 {}{}", "40 41 42 43 44 45 ", " ".repeat(58 * 3)));
    assert_eq!(rows[2], format!("80 {}", " ".repeat(64 * 3)));
}

#[test]
fn clear_repaints_counted_lines() {
    let mut s = Screen::new();
    s.println("a");
    s.line_entered();
    assert_eq!(s.printed_count(), 2);
    s.take_output();
    s.clear();
    assert_eq!(s.printed_count(), 0);
    let blank = format!("{}\r\n", " ".repeat(200));
    let expected = format!("{}{}{}", "\x1B[1F".repeat(2), blank.repeat(2), "\x1B[1F".repeat(2));
    assert_eq!(s.take_output(), expected);
    s.println("top");
    assert_eq!(s.printed_count(), 1);
    assert_eq!(s.take_output(), "top\n");
}

#[test]
fn init_opens_canvas() {
    let mut s = Screen::new();
    s.init();
    assert_eq!(s.take_output(), format!("{}{}", "\n".repeat(12), "\x1B[1F".repeat(12)));
    s.print(">>> ");
    assert_eq!(s.printed_count(), 0);
}

#[test]
fn prompt_counts_a_line() {
    let mut e = editor_with(64, &[]);
    e.step(Command::Raw);
    e.prompt();
    assert_eq!(e.printed_count(), 2);
    assert!(e.take_output().ends_with(">>> "));
}

#[test]
fn size_kept_across_writes() {
    let mut r = ROM::new(glyphs(&[]), image(1000));
    assert_eq!(r.size(), 1000);
    r.set_byte(0, 9);
    r.set_byte(999, 7);
    assert_eq!(r.size(), 1000);
    assert_eq!(r.byte_at(999), Some(7));
    assert_eq!(r.byte_at(1000), None);
}

#[test]
fn reload_of_saved_bytes_is_equal() {
    let mut r = ROM::new(glyphs(&[]), image(777));
    r.set_byte(5, 0xee);
    let reloaded = ROM::new(glyphs(&[]), r.as_bytes().to_vec());
    assert_eq!(reloaded.as_bytes(), r.as_bytes());
}

#[test]
fn reader_walks_from_offset() {
    let r = ROM::new(glyphs(&[]), vec![1, 2, 3]);
    let mut it = r.iterator_from(1);
    assert_eq!(it.next(), Some(2));
    assert_eq!(it.next(), Some(3));
    assert_eq!(it.next(), None);
}

#[test]
fn cursor_stays_aligned_over_commands() {
    let mut e = editor_with(5000, &[]);
    let inputs = ["d", "d", "u", "goto", "raw", "d", "d", "d", "d", "d", "d", "d", "d", "d", "d", "d", "u", "eng", "goto"];
    let addresses = ["7b", "1234"];
    let mut next_address = 0;
    for cmd in inputs.iter() {
        let step = e.step(yelloweditor::editor::parse_command(cmd));
        if step == Step::AskGotoAddress {
            e.goto_entered(addresses[next_address]);
            next_address += 1;
        }
        let c = e.cursor_value();
        assert_eq!(c % 64, 0);
        assert!(c >= 0 && c < 5000);
    }
    assert_eq!(e.cursor_value(), 0x1200);
}

#[test]
fn drawing_twice_counts_every_line() {
    let mut e = editor_with(MIB2, &[]);
    e.print_rom(0);
    e.print_rom(4);
    assert_eq!(e.printed_count(), 9 + 5);
}

#[test]
fn signed_chunks_are_written_as_bytes() {
    let mut e = editor_with(16, &[]);
    assert_eq!(e.write_bytes_entered(0, "+f-1"), Step::Skip);
    assert_eq!(&e.rom().as_bytes()[0..2], &[0x0f, 0xff]);
}

#[test]
fn save_path_is_trimmed() {
    let mut e = editor_with(16, &[]);
    e.step(Command::Save);
    assert_eq!(e.save_path_entered("\t/tmp/a b.gbc  \n"), "/tmp/a b.gbc");
}
