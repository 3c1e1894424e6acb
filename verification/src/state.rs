//! The state that the reading screens render: navigation, the word group on
//! screen and the playback settings.

use vstd::prelude::*;

use crate::text::{chars_of, string_from_range};

verus! {

/// The screens of the application.
#[derive(Clone, Copy, Debug, PartialEq, Eq, Structural)]
pub enum Screen {
    Landing,
    Reading,
}

/// A stack of screens above a default screen.
#[derive(Clone, Debug, PartialEq)]
pub struct Router {
    pub default_screen: Screen,
    pub screen_stack: Vec<Screen>,
}

/// The screen a router shows: the top of its stack, or its default screen
/// when the stack is empty.
pub open spec fn shown_screen(default_screen: Screen, stack: Seq<Screen>) -> Screen {
    if stack.len() > 0 {
        stack.last()
    } else {
        default_screen
    }
}

impl Router {
    /// The screen currently on top.
    pub fn current_screen(&self) -> (s: &Screen)
        ensures
            *s == shown_screen(self.default_screen, self.screen_stack@),
    {
        let n = self.screen_stack.len();
        if n > 0 {
            &self.screen_stack[n - 1]
        } else {
            &self.default_screen
        }
    }
}

/// One word split around its anchor letter.
#[derive(Clone, Debug)]
pub struct WordSegment {
    pub before: String,
    pub anchor: String,
    pub after: String,
}

/// The words on screen, each split around its anchor letter.
#[derive(Clone, Debug)]
pub struct WordDisplay {
    pub words: Vec<WordSegment>,
}

/// A split word as three character sequences.
pub struct SegmentView {
    pub before: Seq<char>,
    pub anchor: Seq<char>,
    pub after: Seq<char>,
}

impl WordSegment {
    pub open spec fn seg_view(&self) -> SegmentView {
        SegmentView { before: self.before@, anchor: self.anchor@, after: self.after@ }
    }
}

/// The split of a word at its optimal recognition point: the anchor is the
/// character at index floor(len / 2); the parts before and after it are the
/// rest of the word. An empty word splits into three empty parts.
pub open spec fn orp_split(w: Seq<char>) -> SegmentView {
    let k = w.len() / 2;
    SegmentView {
        before: w.take(k as int),
        anchor: if k < w.len() {
            seq![w[k as int]]
        } else {
            Seq::<char>::empty()
        },
        after: if k + 1 < w.len() {
            w.skip(k + 1int)
        } else {
            Seq::<char>::empty()
        },
    }
}

/// The segments of a display, as views.
pub open spec fn display_view(d: WordDisplay) -> Seq<SegmentView> {
    d.words@.map_values(|s: WordSegment| s.seg_view())
}

/// Splits a word at its optimal recognition point (floor(len / 2), counted in
/// characters).
pub fn compute_orp_anchor(word: &str) -> (seg: WordSegment)
    ensures
        seg.seg_view() == orp_split(word@),
{
    let chars = chars_of(word);
    let n = chars.len();
    let k = n / 2;
    let before = string_from_range(&chars, 0, k);
    let anchor = if k < n {
        string_from_range(&chars, k, k + 1)
    } else {
        String::new()
    };
    let after = if k + 1 < n {
        string_from_range(&chars, k + 1, n)
    } else {
        String::new()
    };
    proof {
        if k < n {
            assert(chars@.subrange(k as int, k + 1) =~= seq![word@[k as int]]);
        }
        if k + 1 < n {
            assert(chars@.subrange(k + 1, n as int) =~= word@.skip(k + 1int));
        }
        assert(chars@.subrange(0, k as int) =~= word@.take(k as int));
    }
    WordSegment { before, anchor, after }
}


/// How the reading progress shown to the user was last set. The percentage
/// itself is computed by the host: 0 for `Start`, `index / total * 100` for
/// `AtWord`, the percentage the user asked for on a seek for `Requested`,
/// and 100 for `Finished`.
#[derive(Clone, Copy, Debug, PartialEq, Eq, Structural)]
pub enum Progress {
    Start,
    AtWord { index: u64, total: u64 },
    Requested,
    Finished,
}

/// The state the UI renders.
#[derive(Clone, Debug)]
pub struct AppState {
    pub rev: u64,
    pub router: Router,
    pub display: Option<WordDisplay>,
    pub wpm: u32,
    pub words_per_group: u32,
    pub is_playing: bool,
    pub progress: Progress,
    pub current_word_index: u64,
    pub total_words: u64,
    pub is_loading: bool,
    pub error: Option<String>,
    pub toast: Option<String>,
    /// Incremented on any history change.
    pub history_revision: u64,
}

/// The UI state with its texts and lists as sequences.
pub struct AppStateView {
    pub rev: u64,
    pub default_screen: Screen,
    pub screen_stack: Seq<Screen>,
    pub display: Option<Seq<SegmentView>>,
    pub wpm: u32,
    pub words_per_group: u32,
    pub is_playing: bool,
    pub progress: Progress,
    pub current_word_index: u64,
    pub total_words: u64,
    pub is_loading: bool,
    pub error: Option<Seq<char>>,
    pub toast: Option<Seq<char>>,
    pub history_revision: u64,
}

/// An optional display as segment views.
pub open spec fn opt_display_view(d: Option<WordDisplay>) -> Option<Seq<SegmentView>> {
    match d {
        Some(d) => Some(display_view(d)),
        None => None,
    }
}

/// An optional string as a character sequence.
pub open spec fn opt_text_view(o: Option<String>) -> Option<Seq<char>> {
    match o {
        Some(s) => Some(s@),
        None => None,
    }
}

impl View for AppState {
    type V = AppStateView;

    open spec fn view(&self) -> AppStateView {
        AppStateView {
            rev: self.rev,
            default_screen: self.router.default_screen,
            screen_stack: self.router.screen_stack@,
            display: opt_display_view(self.display),
            wpm: self.wpm,
            words_per_group: self.words_per_group,
            is_playing: self.is_playing,
            progress: self.progress,
            current_word_index: self.current_word_index,
            total_words: self.total_words,
            is_loading: self.is_loading,
            error: opt_text_view(self.error),
            toast: opt_text_view(self.toast),
            history_revision: self.history_revision,
        }
    }
}

/// The state at startup: landing screen, 300 wpm, one word per group,
/// nothing loaded.
pub open spec fn initial_state() -> AppStateView {
    AppStateView {
        rev: 0,
        default_screen: Screen::Landing,
        screen_stack: Seq::empty(),
        display: None,
        wpm: 300,
        words_per_group: 1,
        is_playing: false,
        progress: Progress::Start,
        current_word_index: 0,
        total_words: 0,
        is_loading: false,
        error: None,
        toast: None,
        history_revision: 0,
    }
}

impl AppState {
    /// The state at startup.
    pub fn initial() -> (s: AppState)
        ensures
            s@ == initial_state(),
    {
        AppState {
            rev: 0,
            router: Router { default_screen: Screen::Landing, screen_stack: Vec::new() },
            display: None,
            wpm: 300,
            words_per_group: 1,
            is_playing: false,
            progress: Progress::Start,
            current_word_index: 0,
            total_words: 0,
            is_loading: false,
            error: None,
            toast: None,
            history_revision: 0,
        }
    }
}

} // verus!
