use yelloweditor::dictionary::CharDictionary;

fn table(lines: &[&str]) -> CharDictionary {
    let v: Vec<Vec<u8>> = lines.iter().map(|l| l.as_bytes().to_vec()).collect();
    CharDictionary::new(&v)
}

#[test]
fn pairs_fill_consecutive_indices() {
    let d = table(&["abcd", "ef"]);
    assert_eq!(d.get(0), Some("ab".to_string()));
    assert_eq!(d.get(1), Some("cd".to_string()));
    assert_eq!(d.get(2), Some("ef".to_string()));
}

#[test]
fn comment_chunks_are_skipped() {
    let d = table(&["ab##cd", "x#yz"]);
    assert_eq!(d.get(0), Some("ab".to_string()));
    assert_eq!(d.get(1), Some("cd".to_string()));
    assert_eq!(d.get(2), Some("yz".to_string()));
    assert_eq!(d.get(3), None);
}

#[test]
fn lone_hash_at_line_end_is_padded() {
    let d = table(&["ab#", "cd"]);
    assert_eq!(d.get(0), Some("ab".to_string()));
    assert_eq!(d.get(1), Some("# ".to_string()));
    assert_eq!(d.get(2), Some("cd".to_string()));
}

#[test]
fn line_of_one_hash_is_a_glyph() {
    let d = table(&["#"]);
    assert_eq!(d.get(0), Some("# ".to_string()));
}

#[test]
fn odd_trailing_byte_is_padded_with_space() {
    let d = table(&["xyz", "q"]);
    assert_eq!(d.get(0), Some("xy".to_string()));
    assert_eq!(d.get(1), Some("z ".to_string()));
    assert_eq!(d.get(2), Some("q ".to_string()));
}

#[test]
fn sentinel_gives_no_mapping() {
    let d = table(&["..ab.."]);
    assert_eq!(d.get(0), None);
    assert_eq!(d.get(1), Some("ab".to_string()));
    assert_eq!(d.get(2), None);
}

#[test]
fn unwritten_entries_have_no_mapping() {
    let d = table(&[]);
    for b in 0..=255u8 {
        assert_eq!(d.get(b), None);
    }
}

#[test]
fn index_saturates_at_last_entry() {
    let mut line = String::new();
    for _ in 0..255 {
        line.push_str("aa");
    }
    line.push_str("bbccdd");
    let d = table(&[line.as_str()]);
    assert_eq!(d.get(254), Some("aa".to_string()));
    assert_eq!(d.get(255), Some("dd".to_string()));
}

#[test]
fn every_lookup_is_two_chars_or_none() {
    let d = table(&["ab..c", "#", "1234567890", "!!"]);
    for b in 0..=255u8 {
        if let Some(g) = d.get(b) {
            assert_eq!(g.chars().count(), 2);
        }
    }
}

#[test]
fn bytes_map_to_latin1_characters() {
    let d = CharDictionary::new(&vec![vec![0xC3u8, 0xA9]]);
    assert_eq!(d.get(0), Some("\u{c3}\u{a9}".to_string()));
}

