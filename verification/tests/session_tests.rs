use speedreading_app_core::session::{can_hash_text, FileSessionRow, SessionData};

#[test]
fn compute_text_hash_short_text() {
    assert_eq!(SessionData::compute_text_hash("The quick brown fox"), "The quick brown fox-19");
    assert_eq!(SessionData::compute_text_hash(""), "-0");
}

#[test]
fn compute_text_hash_long_text_keeps_64_bytes() {
    let text = "a".repeat(100);
    let h = SessionData::compute_text_hash(&text);
    assert_eq!(h, format!("{}-100", "a".repeat(64)));
}

#[test]
fn compute_text_hash_counts_bytes() {
    // "é" is two bytes in UTF-8.
    assert_eq!(SessionData::compute_text_hash("café"), "café-5");
}

#[test]
fn can_hash_text_detects_split_character() {
    let mut text = "a".repeat(63);
    text.push('é'); // bytes 63..65: byte 64 falls inside the character
    assert!(!can_hash_text(&text));
    assert!(can_hash_text(&"a".repeat(64)));
    assert!(can_hash_text("short"));
}

#[test]
fn session_columns_roundtrip() {
    let s = SessionData { text_hash: "abc-100".to_string(), word_index: u64::MAX, wpm: 400, words_per_group: 2 };
    let (h, wi, wpm, wpg) = s.to_columns();
    assert_eq!(wi, -1);
    let back = SessionData::from_columns(h, wi, wpm, wpg);
    assert_eq!(back, s);
}

#[test]
fn file_session_row_columns_roundtrip() {
    let row = FileSessionRow {
        file_hash: "h".to_string(),
        file_name: "test.epub".to_string(),
        file_path: "/tmp/test.epub".to_string(),
        word_index: 10,
        total_words: 100,
        wpm: 300,
        words_per_group: 1,
        opened_at: 1000,
        updated_at: 2000,
    };
    let c = row.to_columns();
    assert_eq!(c.word_index, 10);
    assert_eq!(c.total_words, 100);
    let back = FileSessionRow::from_columns(row.file_hash.clone(), row.file_name.clone(), row.file_path.clone(), c);
    assert_eq!(back.word_index, 10);
    assert_eq!(back.total_words, 100);
    assert_eq!(back.wpm, 300);
    assert_eq!(back.words_per_group, 1);
    assert_eq!(back.opened_at, 1000);
    assert_eq!(back.updated_at, 2000);
    assert_eq!(back.file_name, "test.epub");
}
