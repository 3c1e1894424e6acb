use speedreading_app_core::state::{compute_orp_anchor, AppState, Progress, Router, Screen};

#[test]
fn test_orp_anchor_five_chars() {
    let seg = compute_orp_anchor("hello");
    assert_eq!(seg.before, "he");
    assert_eq!(seg.anchor, "l");
    assert_eq!(seg.after, "lo");
}

#[test]
fn test_orp_anchor_two_chars() {
    let seg = compute_orp_anchor("hi");
    assert_eq!(seg.before, "h");
    assert_eq!(seg.anchor, "i");
    assert_eq!(seg.after, "");
}

#[test]
fn test_orp_anchor_one_char() {
    let seg = compute_orp_anchor("a");
    assert_eq!(seg.before, "");
    assert_eq!(seg.anchor, "a");
    assert_eq!(seg.after, "");
}

#[test]
fn test_orp_anchor_empty() {
    let seg = compute_orp_anchor("");
    assert_eq!(seg.before, "");
    assert_eq!(seg.anchor, "");
    assert_eq!(seg.after, "");
}

#[test]
fn test_orp_anchor_four_chars() {
    // floor(4/2) = 2, so anchor is at index 2 (0-based)
    let seg = compute_orp_anchor("word");
    assert_eq!(seg.before, "wo");
    assert_eq!(seg.anchor, "r");
    assert_eq!(seg.after, "d");
}

#[test]
fn orp_anchor_counts_characters_not_bytes() {
    let seg = compute_orp_anchor("héllo");
    assert_eq!(seg.before, "hé");
    assert_eq!(seg.anchor, "l");
    assert_eq!(seg.after, "lo");
}

#[test]
fn orp_split_reassembles_word() {
    for w in ["", "a", "ab", "abc", "reading", "naïveté"] {
        let seg = compute_orp_anchor(w);
        assert_eq!(format!("{}{}{}", seg.before, seg.anchor, seg.after), w);
        assert_eq!(seg.before.chars().count(), w.chars().count() / 2);
    }
}

#[test]
fn router_shows_top_of_stack_or_default() {
    let mut router = Router { default_screen: Screen::Landing, screen_stack: vec![] };
    assert_eq!(*router.current_screen(), Screen::Landing);
    router.screen_stack.push(Screen::Reading);
    assert_eq!(*router.current_screen(), Screen::Reading);
    router.screen_stack.pop();
    assert_eq!(*router.current_screen(), Screen::Landing);
}

#[test]
fn initial_state_values() {
    let s = AppState::initial();
    assert_eq!(s.rev, 0);
    assert_eq!(s.wpm, 300);
    assert_eq!(s.words_per_group, 1);
    assert!(!s.is_playing);
    assert_eq!(s.progress, Progress::Start);
    assert_eq!(s.total_words, 0);
    assert!(s.display.is_none());
    assert_eq!(*s.router.current_screen(), Screen::Landing);
}
