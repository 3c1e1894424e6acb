use std::time::Duration;

use speedreading_app_core::actor::{
    build_display, compute_word_index, emit, playback_interval_ms, ActorState, AppAction, Effect,
    InternalEvent,
};
use speedreading_app_core::session::SessionData;
use speedreading_app_core::state::{AppState, Progress, Screen};

fn words(list: &[&str]) -> Vec<String> {
    list.iter().map(|w| w.to_string()).collect()
}

fn loaded(list: &[&str]) -> ActorState {
    let mut actor = ActorState::new(None);
    let text = list.join(" ");
    let effects = actor.handle_action(AppAction::LoadText { text }, None);
    assert!(matches!(effects.as_slice(), [Effect::StopTimer]));
    actor
}

#[test]
fn test_compute_word_index_basic() {
    // 300ms elapsed at 300wpm with 1 wpg in a 100-word document
    // raw = 0.3 * 300/60 = 1.5 → floor = 1
    let idx = compute_word_index(Duration::from_millis(300).as_nanos(), 300, 1, 100);
    assert_eq!(idx, 1);
}

#[test]
fn test_compute_word_index_zero_elapsed() {
    let idx = compute_word_index(Duration::from_millis(0).as_nanos(), 300, 1, 100);
    assert_eq!(idx, 0);
}

#[test]
fn test_compute_word_index_clamped_at_end() {
    // 10s elapsed at 300wpm = 50 words, but document only has 10 words
    let idx = compute_word_index(Duration::from_secs(10).as_nanos(), 300, 1, 10);
    assert_eq!(idx, 9, "should clamp to total_words - 1");
}

#[test]
fn test_compute_word_index_with_words_per_group() {
    // 1s elapsed at 300wpm = 5 raw words; with wpg=2: group=2, word_start=4
    let idx = compute_word_index(Duration::from_secs(1).as_nanos(), 300, 2, 100);
    assert_eq!(idx, 4);
}

#[test]
fn test_compute_word_index_empty_document() {
    let idx = compute_word_index(Duration::from_secs(5).as_nanos(), 300, 1, 0);
    assert_eq!(idx, 0);
}

#[test]
fn test_drift_self_correction() {
    // A late tick (200% of expected interval) should still advance by ~2 positions
    // 400ms at 300wpm = 2 words (exactly 2.0 raw)
    let idx = compute_word_index(Duration::from_millis(400).as_nanos(), 300, 1, 100);
    assert_eq!(idx, 2);
}

#[test]
fn compute_word_index_edge_cases() {
    // group size 0 counts as 1
    assert_eq!(compute_word_index(Duration::from_secs(1).as_nanos(), 300, 0, 100), 5);
    // last full group: 10 words, groups of 3 → at most 7
    assert_eq!(compute_word_index(Duration::from_secs(60).as_nanos(), 300, 3, 10), 7);
    // group larger than the text
    assert_eq!(compute_word_index(Duration::from_secs(60).as_nanos(), 300, 5, 3), 0);
    // huge elapsed time saturates
    assert_eq!(compute_word_index(u128::MAX, u32::MAX, 1, 42), 41);
}

#[test]
fn compute_word_index_monotone_example() {
    let mut last = 0;
    for ms in (0..5000).step_by(37) {
        let idx = compute_word_index(Duration::from_millis(ms).as_nanos(), 450, 2, 30);
        assert!(idx >= last);
        assert!(idx < 30);
        last = idx;
    }
}

#[test]
fn playback_interval() {
    assert_eq!(playback_interval_ms(300), 200);
    assert_eq!(playback_interval_ms(1000), 60);
    assert_eq!(playback_interval_ms(100_000), 1);
}

#[test]
fn test_emit_increments_rev() {
    let mut state = AppState::initial();

    emit(&mut state);
    assert_eq!(state.rev, 1, "rev must be 1 after first emit");
    let first = state.clone();

    emit(&mut state);
    assert_eq!(state.rev, 2, "rev must be 2 after second emit");
    let second = state.clone();

    assert_eq!(first.rev, 1);
    assert_eq!(second.rev, 2);
}

#[test]
fn build_display_groups_words() {
    let ws = words(&["one", "two", "three"]);
    let d = build_display(&ws, 1, 5);
    assert_eq!(d.words.len(), 2);
    assert_eq!(d.words[0].before, "t");
    assert_eq!(d.words[0].anchor, "w");
    assert_eq!(d.words[0].after, "o");
    assert_eq!(d.words[1].anchor, "r");
    assert_eq!(build_display(&ws, 3, 2).words.len(), 0);
    assert_eq!(build_display(&ws, 0, 0).words.len(), 0);
}

#[test]
fn test_actor_end_of_document_stop() {
    // ActorState with 5 words, playback started at word index 4 (last word).
    let mut actor = ActorState::new(None);
    actor.words = words(&["one", "two", "three", "four", "five"]);
    actor.state.total_words = 5;
    actor.state.is_playing = true;
    actor.state.current_word_index = 0;
    actor.playback_start_index = 4;

    let effects = actor.handle_internal(InternalEvent::WordAdvance { elapsed_nanos: 1_000 }, None);

    assert!(!actor.state.is_playing, "is_playing must be false after reaching end-of-document");
    assert_eq!(actor.state.current_word_index, 4, "current_word_index must be total_words - 1 = 4 at end-of-document");
    assert_eq!(actor.state.progress, Progress::Finished, "progress_percent must be 100.0 at end-of-document");
    assert!(matches!(effects.as_slice(), [Effect::StopTimer, Effect::PublishState]));
}

#[test]
fn test_word_advance_tick_updates_shared_state() {
    let mut actor = ActorState::new(None);
    actor.words = (1u32..=10).map(|i| format!("word{i}")).collect();
    actor.state.total_words = 10;
    actor.state.wpm = 300;
    actor.state.words_per_group = 1;
    actor.state.is_playing = true;
    actor.state.current_word_index = 0;
    actor.playback_start_index = 0;
    let initial_rev = actor.state.rev;

    // Playback started 300ms ago → compute_word_index returns 1 (word #2)
    let effects = actor.handle_internal(
        InternalEvent::WordAdvance { elapsed_nanos: Duration::from_millis(300).as_nanos() },
        None,
    );

    match effects.as_slice() {
        [Effect::PublishTick { current_word_index, display }] => {
            assert_eq!(*current_word_index, 1, "PlaybackTick must carry advanced word index");
            assert_eq!(display.words[0].anchor, "r");
            assert_eq!(display.words[0].before, "wo");
        }
        _ => panic!("mid-document WordAdvance must send PlaybackTick, not FullState"),
    }
    assert_eq!(
        actor.state.current_word_index, 1,
        "shared_state.current_word_index must be updated on WordAdvance so desktop reads correct position"
    );
    assert!(actor.state.rev > initial_rev, "shared_state.rev must advance on WordAdvance tick");
    assert_eq!(actor.state.progress, Progress::AtWord { index: 1, total: 10 });
    assert!(actor.state.is_playing);
}

#[test]
fn word_advance_when_paused_does_nothing() {
    let mut actor = loaded(&["a", "b", "c"]);
    let rev = actor.state.rev;
    let effects = actor.handle_internal(InternalEvent::WordAdvance { elapsed_nanos: 10_000_000_000 }, None);
    assert!(effects.is_empty());
    assert_eq!(actor.state.rev, rev);
    assert_eq!(actor.state.current_word_index, 0);
}

#[test]
fn load_text_shows_reading_screen() {
    let actor = loaded(&["alpha", "beta", "gamma"]);
    assert_eq!(actor.state.total_words, 3);
    assert_eq!(actor.words, words(&["alpha", "beta", "gamma"]));
    assert_eq!(*actor.state.router.current_screen(), Screen::Reading);
    let d = actor.state.display.as_ref().unwrap();
    assert_eq!(d.words.len(), 1);
    assert_eq!(d.words[0].before, "al");
    assert_eq!(d.words[0].anchor, "p");
    assert!(!actor.state.is_loading);
}

#[test]
fn play_pause_toggle() {
    let mut actor = loaded(&["a", "b", "c"]);
    let e = actor.handle_action(AppAction::Play, None);
    assert!(matches!(e.as_slice(), [Effect::StartTimer]));
    assert!(actor.state.is_playing);
    let e = actor.handle_action(AppAction::Play, None);
    assert!(e.is_empty());
    let e = actor.handle_action(AppAction::Pause, None);
    match e.as_slice() {
        [Effect::StopTimer, Effect::SaveSession { session }] => {
            assert_eq!(session.text_hash, "a b c-5");
            assert_eq!(session.word_index, 0);
            assert_eq!(session.wpm, 300);
        }
        _ => panic!("pause must stop the timer and save the session"),
    }
    assert!(!actor.state.is_playing);
    let e = actor.handle_action(AppAction::Toggle, None);
    assert!(matches!(e.as_slice(), [Effect::StartTimer]));
    let e = actor.handle_action(AppAction::Toggle, None);
    assert!(matches!(e.as_slice(), [Effect::StopTimer, Effect::SaveSession { .. }]));
    assert!(!actor.state.is_playing);
}

#[test]
fn play_without_text_does_nothing() {
    let mut actor = ActorState::new(None);
    assert!(actor.handle_action(AppAction::Play, None).is_empty());
    assert!(actor.handle_action(AppAction::Toggle, None).is_empty());
    assert!(!actor.state.is_playing);
}

#[test]
fn seek_clamps_and_restarts() {
    let mut actor = loaded(&["a", "b", "c", "d"]);
    actor.handle_action(AppAction::Play, None);
    let e = actor.handle_action(AppAction::SeekToIndex { index: 99 }, None);
    assert!(matches!(e.as_slice(), [Effect::StopTimer, Effect::SaveSession { .. }, Effect::StartTimer]));
    assert_eq!(actor.state.current_word_index, 3);
    assert_eq!(actor.playback_start_index, 3);
    assert_eq!(actor.state.progress, Progress::Requested);
    assert!(actor.state.is_playing);
    actor.handle_action(AppAction::Pause, None);
    let e = actor.handle_action(AppAction::SeekToIndex { index: 1 }, None);
    assert!(matches!(e.as_slice(), [Effect::SaveSession { .. }]));
    assert_eq!(actor.state.current_word_index, 1);
    assert!(!actor.state.is_playing);
}

#[test]
fn settings_are_clamped() {
    let mut actor = loaded(&["a", "b", "c"]);
    actor.handle_action(AppAction::SetWPM { wpm: 5 }, None);
    assert_eq!(actor.state.wpm, 100);
    actor.handle_action(AppAction::SetWPM { wpm: 5000 }, None);
    assert_eq!(actor.state.wpm, 1000);
    actor.handle_action(AppAction::SetWordsPerGroup { n: 0 }, None);
    assert_eq!(actor.state.words_per_group, 1);
    actor.handle_action(AppAction::SetWordsPerGroup { n: 9 }, None);
    assert_eq!(actor.state.words_per_group, 5);
    assert_eq!(actor.state.display.as_ref().unwrap().words.len(), 3);
}

#[test]
fn set_wpm_while_playing_restarts_from_current_word() {
    let mut actor = loaded(&["a", "b", "c"]);
    actor.handle_action(AppAction::SeekToIndex { index: 2 }, None);
    actor.handle_action(AppAction::Play, None);
    let e = actor.handle_action(AppAction::SetWPM { wpm: 600 }, None);
    assert!(matches!(e.as_slice(), [Effect::StopTimer, Effect::StartTimer]));
    assert_eq!(actor.playback_start_index, 2);
    assert_eq!(actor.state.wpm, 600);
}

#[test]
fn replay_restarts_from_first_word() {
    let mut actor = loaded(&["a", "b", "c"]);
    actor.handle_action(AppAction::SeekToIndex { index: 2 }, None);
    let e = actor.handle_action(AppAction::Replay, None);
    assert!(matches!(e.as_slice(), [Effect::StopTimer, Effect::StartTimer]));
    assert_eq!(actor.state.current_word_index, 0);
    assert_eq!(actor.state.progress, Progress::Start);
    assert!(actor.state.is_playing);
}

#[test]
fn push_then_pop_restores_router() {
    let mut actor = ActorState::new(None);
    actor.handle_action(AppAction::PushScreen { screen: Screen::Reading }, None);
    assert_eq!(*actor.state.router.current_screen(), Screen::Reading);
    actor.handle_action(AppAction::PopScreen, None);
    assert_eq!(*actor.state.router.current_screen(), Screen::Landing);
    assert!(actor.state.router.screen_stack.is_empty());
    actor.handle_action(AppAction::PopScreen, None);
    assert!(actor.state.router.screen_stack.is_empty());
}

#[test]
fn load_text_resumes_matching_session() {
    let stored = SessionData { text_hash: "one two three four-18".to_string(), word_index: 2, wpm: 450, words_per_group: 2 };
    let mut actor = ActorState::new(Some(stored.clone()));
    assert_eq!(actor.state.wpm, 450);
    actor.handle_action(AppAction::LoadText { text: "one two three four".to_string() }, Some(stored.clone()));
    assert_eq!(actor.state.current_word_index, 2);
    assert_eq!(actor.state.words_per_group, 2);
    assert_eq!(actor.state.display.as_ref().unwrap().words.len(), 2);

    let mut other = ActorState::new(None);
    other.handle_action(AppAction::LoadText { text: "something else entirely".to_string() }, Some(stored));
    assert_eq!(other.state.current_word_index, 0);
}

#[test]
fn pause_then_reload_resumes_position() {
    let mut actor = loaded(&["w1", "w2", "w3", "w4", "w5"]);
    actor.handle_action(AppAction::SeekToIndex { index: 3 }, None);
    actor.handle_action(AppAction::Play, None);
    let e = actor.handle_action(AppAction::Pause, None);
    let saved = match e.into_iter().nth(1) {
        Some(Effect::SaveSession { session }) => session,
        _ => panic!("expected a saved session"),
    };
    let mut fresh = ActorState::new(Some(saved.clone()));
    fresh.handle_action(AppAction::LoadText { text: "w1 w2 w3 w4 w5".to_string() }, Some(saved));
    assert_eq!(fresh.state.current_word_index, 3);
}

#[test]
fn file_selected_and_parse_events() {
    let mut actor = ActorState::new(None);
    let e = actor.handle_action(AppAction::FileSelected { path: "/tmp/book.epub".to_string() }, None);
    match e.as_slice() {
        [Effect::StopTimer, Effect::ParseFile { path }] => assert_eq!(path, "/tmp/book.epub"),
        _ => panic!("expected a parse request"),
    }
    assert!(actor.state.is_loading);
    let e = actor.handle_internal(InternalEvent::ParseError { message: "nope".to_string() }, None);
    assert!(matches!(e.as_slice(), [Effect::PublishState]));
    assert!(!actor.state.is_loading);
    assert_eq!(actor.state.error.as_deref(), Some("nope"));
    assert_eq!(actor.state.rev, 1);
    actor.handle_action(AppAction::ClearError, None);
    assert!(actor.state.error.is_none());
    let e = actor.handle_internal(InternalEvent::ParseComplete { words: words(&["x", "y"]) }, None);
    assert!(matches!(e.as_slice(), [Effect::PublishState]));
    assert_eq!(actor.state.total_words, 2);
    assert_eq!(actor.state.rev, 2);
}

#[test]
fn can_handle_action_flags_unhashable_text() {
    let actor = ActorState::new(None);
    let mut text = "a".repeat(63);
    text.push('é');
    assert!(!actor.can_handle_action(&AppAction::LoadText { text }));
    assert!(actor.can_handle_action(&AppAction::LoadText { text: "fine".to_string() }));
    assert!(actor.can_handle_event(&InternalEvent::WordAdvance { elapsed_nanos: 0 }));
}
