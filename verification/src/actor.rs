//! The playback engine: word groups on screen, the word index reached after
//! an elapsed time, and the state machine that turns user actions and timer
//! events into the next state and the effects the host must carry out.

use vstd::prelude::*;

use crate::parser::{strings_view, tokenize, words_of};
use crate::session::{can_hash_text, text_hash, text_hash_defined, SessionData, SessionView};
use crate::state::{
    compute_orp_anchor, display_view, initial_state, orp_split, AppState, AppStateView, Progress,
    Screen, SegmentView, WordDisplay, WordSegment,
};
use crate::text::{chars_of, string_from_range};

verus! {

/// The segments shown for the words `ws[start .. min(start + wpg, len)]`.
pub open spec fn display_words(ws: Seq<Seq<char>>, start: int, wpg: int) -> Seq<SegmentView> {
    let end = if start + wpg < ws.len() {
        start + wpg
    } else {
        ws.len() as int
    };
    Seq::new((end - start) as nat, |i: int| orp_split(ws[start + i]))
}

/// Builds the display for the word group starting at `word_start`: up to
/// `words_per_group` words, each split at its recognition point.
pub fn build_display(words: &[String], word_start: usize, words_per_group: usize) -> (d: WordDisplay)
    requires
        word_start <= words@.len(),
    ensures
        display_view(d) == display_words(strings_view(words@), word_start as int, words_per_group as int),
{
    let len = words.len();
    let sum = word_start.saturating_add(words_per_group);
    let end = if sum < len {
        sum
    } else {
        len
    };
    let ghost ws = strings_view(words@);
    let mut segs: Vec<WordSegment> = Vec::new();
    let mut i: usize = word_start;
    while i < end
        invariant
            word_start <= i <= end <= len,
            len == words@.len(),
            ws == strings_view(words@),
            segs@.len() == i - word_start,
            forall|j: int| 0 <= j < segs@.len() ==> #[trigger] segs@[j].seg_view() == orp_split(ws[word_start + j]),
        decreases end - i,
    {
        let seg = compute_orp_anchor(words[i].as_str());
        segs.push(seg);
        i = i + 1;
    }
    let d = WordDisplay { words: segs };
    assert(display_view(d) =~= display_words(ws, word_start as int, words_per_group as int));
    d
}

/// Nanoseconds in a minute.
pub open spec fn nanos_per_minute() -> nat {
    60_000_000_000
}

/// Words read after `nanos` nanoseconds at `wpm` words per minute, rounded
/// down and capped at the largest u64.
pub open spec fn raw_words(nanos: nat, wpm: nat) -> nat {
    let w = nanos * wpm / nanos_per_minute();
    if w <= u64::MAX {
        w
    } else {
        u64::MAX as nat
    }
}

/// The start of the word group reached after `nanos` nanoseconds: the words
/// read so far rounded down to a multiple of the group size (a group size of
/// 0 counts as 1), and no further than the start of the last full group.
/// An empty document stays at 0.
pub open spec fn word_index_at(nanos: nat, wpm: u32, words_per_group: u32, total_words: u64) -> u64 {
    if total_words == 0 {
        0
    } else {
        let g: nat = if words_per_group == 0 { 1 } else { words_per_group as nat };
        let start = (raw_words(nanos, wpm as nat) / g) * g;
        let last: int = if total_words >= g { total_words - g } else { 0 };
        if start <= last {
            start as u64
        } else {
            last as u64
        }
    }
}

proof fn lemma_overflow_means_many_words(nanos: nat, wpm: nat)
    by (nonlinear_arith)
    requires
        nanos * wpm > u128::MAX,
    ensures
        nanos * wpm / 60_000_000_000 > u64::MAX,
{
}

proof fn lemma_group_start_bounded(raw: nat, g: nat)
    by (nonlinear_arith)
    requires
        g >= 1,
    ensures
        (raw / g) * g <= raw,
{
}

/// Computes the word-group start index from the elapsed time (in
/// nanoseconds) and the reading speed; recomputing from the elapsed time
/// corrects for timer drift.
pub fn compute_word_index(elapsed_nanos: u128, wpm: u32, words_per_group: u32, total_words: u64) -> (idx: u64)
    ensures
        idx == word_index_at(elapsed_nanos as nat, wpm, words_per_group, total_words),
{
    if total_words == 0 {
        return 0;
    }
    let g: u64 = if words_per_group == 0 {
        1
    } else {
        words_per_group as u64
    };
    let raw: u64 = match elapsed_nanos.checked_mul(wpm as u128) {
        Some(p) => {
            let w = p / 60_000_000_000u128;
            if w <= u64::MAX as u128 {
                w as u64
            } else {
                u64::MAX
            }
        },
        None => {
            proof {
                lemma_overflow_means_many_words(elapsed_nanos as nat, wpm as nat);
            }
            u64::MAX
        },
    };
    assert(raw == raw_words(elapsed_nanos as nat, wpm as nat));
    let group = raw / g;
    proof {
        lemma_group_start_bounded(raw as nat, g as nat);
    }
    let start = group * g;
    let last = total_words.saturating_sub(g);
    if start <= last {
        start
    } else {
        last
    }
}

/// The tick interval of playback in milliseconds: one minute divided by the
/// speed, at least 1.
pub fn playback_interval_ms(wpm: u32) -> (ms: u64)
    requires
        wpm > 0,
    ensures
        ms == if 60_000int / (wpm as int) >= 1 { 60_000int / (wpm as int) } else { 1 },
{
    let q = 60_000u64 / (wpm as u64);
    if q >= 1 {
        q
    } else {
        1
    }
}

/// The words joined by single spaces.
pub open spec fn join_words(ws: Seq<Seq<char>>) -> Seq<char>
    decreases ws.len(),
{
    if ws.len() == 0 {
        Seq::empty()
    } else if ws.len() == 1 {
        ws[0]
    } else {
        join_words(ws.drop_last()).push(' ') + ws.last()
    }
}

/// Joins the words with single spaces.
pub fn join_with_spaces(words: &Vec<String>) -> (s: String)
    ensures
        s@ == join_words(strings_view(words@)),
{
    let ghost ws = strings_view(words@);
    let mut acc: Vec<char> = Vec::new();
    let n = words.len();
    let mut i: usize = 0;
    proof {
        assert(ws.take(0) == Seq::<Seq<char>>::empty());
    }
    while i < n
        invariant
            n == words@.len(),
            ws == strings_view(words@),
            i <= n,
            acc@ == join_words(ws.take(i as int)),
        decreases n - i,
    {
        let wc = chars_of(words[i].as_str());
        if i > 0 {
            acc.push(' ');
        }
        let ghost before = acc@;
        let mut j: usize = 0;
        while j < wc.len()
            invariant
                j <= wc@.len(),
                acc@ == before + wc@.take(j as int),
            decreases wc.len() - j,
        {
            acc.push(wc[j]);
            assert(wc@.take(j + 1) == wc@.take(j as int).push(wc@[j as int]));
            j = j + 1;
        }
        proof {
            assert(wc@.take(wc@.len() as int) == wc@);
            assert(ws.take(i + 1).drop_last() == ws.take(i as int));
            assert(ws.take(i + 1).last() == ws[i as int]);
            if i == 0 {
                assert(ws.take(1)[0] == ws[0]);
                assert(Seq::<char>::empty() + wc@ == wc@);
            }
        }
        i = i + 1;
    }
    assert(ws.take(n as int) == ws);
    assert(acc@.subrange(0, acc@.len() as int) == acc@);
    string_from_range(&acc, 0, acc.len())
}


/// A user intent dispatched to the engine. A seek names the word index the
/// requested percentage falls on (the host converts the percentage).
pub enum AppAction {
    PushScreen { screen: Screen },
    PopScreen,
    LoadText { text: String },
    FileSelected { path: String },
    Play,
    Pause,
    Toggle,
    SeekToIndex { index: u64 },
    SetWPM { wpm: u32 },
    SetWordsPerGroup { n: u32 },
    Replay,
    ClearToast,
    ClearError,
    Foregrounded,
}

/// An action with its texts as sequences.
pub enum ActionView {
    PushScreen(Screen),
    PopScreen,
    LoadText(Seq<char>),
    FileSelected(Seq<char>),
    Play,
    Pause,
    Toggle,
    SeekToIndex(u64),
    SetWPM(u32),
    SetWordsPerGroup(u32),
    Replay,
    ClearToast,
    ClearError,
    Foregrounded,
}

impl View for AppAction {
    type V = ActionView;

    open spec fn view(&self) -> ActionView {
        match self {
            AppAction::PushScreen { screen } => ActionView::PushScreen(*screen),
            AppAction::PopScreen => ActionView::PopScreen,
            AppAction::LoadText { text } => ActionView::LoadText(text@),
            AppAction::FileSelected { path } => ActionView::FileSelected(path@),
            AppAction::Play => ActionView::Play,
            AppAction::Pause => ActionView::Pause,
            AppAction::Toggle => ActionView::Toggle,
            AppAction::SeekToIndex { index } => ActionView::SeekToIndex(*index),
            AppAction::SetWPM { wpm } => ActionView::SetWPM(*wpm),
            AppAction::SetWordsPerGroup { n } => ActionView::SetWordsPerGroup(*n),
            AppAction::Replay => ActionView::Replay,
            AppAction::ClearToast => ActionView::ClearToast,
            AppAction::ClearError => ActionView::ClearError,
            AppAction::Foregrounded => ActionView::Foregrounded,
        }
    }
}

/// An event from the engine's own background work.
pub enum InternalEvent {
    /// A file finished parsing into these words.
    ParseComplete { words: Vec<String> },
    /// A file could not be parsed.
    ParseError { message: String },
    /// The playback timer ticked; the time since playback started.
    WordAdvance { elapsed_nanos: u128 },
}

/// An internal event with its texts as sequences.
pub enum EventView {
    ParseComplete(Seq<Seq<char>>),
    ParseError(Seq<char>),
    WordAdvance(u128),
}

impl View for InternalEvent {
    type V = EventView;

    open spec fn view(&self) -> EventView {
        match self {
            InternalEvent::ParseComplete { words } => EventView::ParseComplete(strings_view(words@)),
            InternalEvent::ParseError { message } => EventView::ParseError(message@),
            InternalEvent::WordAdvance { elapsed_nanos } => EventView::WordAdvance(*elapsed_nanos),
        }
    }
}

/// Work the host carries out after a step, in order.
pub enum Effect {
    /// Parse this file in the background and report back with an internal event.
    ParseFile { path: String },
    /// Note the start instant and tick every `playback_interval_ms(wpm)`.
    StartTimer,
    /// Cancel the tick task and forget the start instant.
    StopTimer,
    /// Store this session record (when a database is open).
    SaveSession { session: SessionData },
    /// Publish the whole state (its `rev` is already advanced).
    PublishState,
    /// Publish the state (its `rev` is already advanced) with a playback tick.
    PublishTick { display: WordDisplay, current_word_index: u64 },
}

/// An effect with its contents as views.
pub enum EffectView {
    ParseFile(Seq<char>),
    StartTimer,
    StopTimer,
    SaveSession(SessionView),
    PublishState,
    PublishTick(Seq<SegmentView>, u64),
}

impl View for Effect {
    type V = EffectView;

    open spec fn view(&self) -> EffectView {
        match self {
            Effect::ParseFile { path } => EffectView::ParseFile(path@),
            Effect::StartTimer => EffectView::StartTimer,
            Effect::StopTimer => EffectView::StopTimer,
            Effect::SaveSession { session } => EffectView::SaveSession(session@),
            Effect::PublishState => EffectView::PublishState,
            Effect::PublishTick { display, current_word_index } => EffectView::PublishTick(
                display_view(*display),
                *current_word_index,
            ),
        }
    }
}

/// A list of effects as views.
pub open spec fn effects_view(v: Seq<Effect>) -> Seq<EffectView> {
    v.map_values(|e: Effect| e@)
}

/// An optional session record as a view.
pub open spec fn opt_session_view(o: Option<SessionData>) -> Option<SessionView> {
    match o {
        Some(s) => Some(s@),
        None => None,
    }
}

/// The engine's own state: the words of the loaded text, the index playback
/// last started from, and the UI state. (The timer handle, the start instant
/// and the database connection belong to the host.)
pub struct ActorState {
    pub words: Vec<String>,
    pub playback_start_index: u64,
    pub state: AppState,
}

/// The engine state as sequences.
pub struct ActorView {
    pub words: Seq<Seq<char>>,
    pub playback_start_index: u64,
    pub state: AppStateView,
}

impl View for ActorState {
    type V = ActorView;

    open spec fn view(&self) -> ActorView {
        ActorView {
            words: strings_view(self.words@),
            playback_start_index: self.playback_start_index,
            state: self.state@,
        }
    }
}

/// The engine's invariant: the word count is the number of loaded words and
/// the current index lies inside the text (0 for an empty text).
pub open spec fn actor_wf(m: ActorView) -> bool {
    &&& m.state.total_words == m.words.len()
    &&& m.state.total_words == 0 ==> m.state.current_word_index == 0
    &&& m.state.total_words > 0 ==> m.state.current_word_index < m.state.total_words
}

/// `a - b`, or 0 when `b > a`.
pub open spec fn sat_sub(a: u64, b: u64) -> u64 {
    if a >= b {
        (a - b) as u64
    } else {
        0
    }
}

/// The smaller of two indexes.
pub open spec fn min_u64(a: u64, b: u64) -> u64 {
    if a <= b {
        a
    } else {
        b
    }
}

/// `v` limited to `[lo, hi]`.
pub open spec fn clamp_u32(v: u32, lo: u32, hi: u32) -> u32 {
    if v < lo {
        lo
    } else if v > hi {
        hi
    } else {
        v
    }
}

/// Playback stopped.
pub open spec fn stopped(m: ActorView) -> ActorView {
    ActorView { state: AppStateView { is_playing: false, ..m.state }, ..m }
}

/// Playback started.
pub open spec fn started(m: ActorView) -> ActorView {
    ActorView { state: AppStateView { is_playing: true, ..m.state }, ..m }
}

/// The display shows the word group starting at `start` (nothing when no
/// text is loaded).
pub open spec fn redisplayed(m: ActorView, start: u64) -> ActorView {
    ActorView {
        state: AppStateView {
            display: if m.words.len() == 0 {
                None
            } else {
                Some(display_words(m.words, start as int, m.state.words_per_group as int))
            },
            ..m.state
        },
        ..m
    }
}

/// The published revision advanced by one.
pub open spec fn emitted(m: ActorView) -> ActorView {
    ActorView { state: AppStateView { rev: (m.state.rev + 1) as u64, ..m.state }, ..m }
}

/// The session record of the current reading position.
pub open spec fn session_of(m: ActorView) -> SessionView {
    SessionView {
        text_hash: text_hash(join_words(m.words)),
        word_index: m.state.current_word_index,
        wpm: m.state.wpm,
        words_per_group: m.state.words_per_group,
    }
}

/// Saving the session: only when a text is loaded.
pub open spec fn save_effects(m: ActorView) -> Seq<EffectView> {
    if m.words.len() > 0 {
        seq![EffectView::SaveSession(session_of(m))]
    } else {
        Seq::empty()
    }
}

/// A stored session applies to these words: same text hash and a position
/// inside the text.
pub open spec fn resumes(stored: Option<SessionView>, words: Seq<Seq<char>>) -> bool {
    match stored {
        Some(s) => s.text_hash == text_hash(join_words(words)) && s.word_index < words.len(),
        None => false,
    }
}

/// Loading a new word list: playback stops at the start of the text (or at
/// the stored position, speed and group size when the stored session is for
/// this text), the first group is displayed and the reading screen is pushed.
pub open spec fn parse_completed(m: ActorView, words: Seq<Seq<char>>, stored: Option<SessionView>) -> ActorView {
    let base = AppStateView {
        is_loading: false,
        total_words: words.len() as u64,
        current_word_index: 0,
        progress: Progress::Start,
        is_playing: false,
        ..m.state
    };
    let st = if resumes(stored, words) {
        AppStateView {
            current_word_index: stored->Some_0.word_index,
            wpm: stored->Some_0.wpm,
            words_per_group: stored->Some_0.words_per_group,
            ..base
        }
    } else {
        base
    };
    let m2 = redisplayed(ActorView { words: words, playback_start_index: 0, state: st }, st.current_word_index);
    ActorView {
        state: AppStateView { screen_stack: m2.state.screen_stack.push(Screen::Reading), ..m2.state },
        ..m2
    }
}

/// Stopping playback and saving the position (Pause, or Toggle while playing).
pub open spec fn paused(m: ActorView) -> (ActorView, Seq<EffectView>) {
    (stopped(m), seq![EffectView::StopTimer] + save_effects(stopped(m)))
}

/// Seeking to the word group at `raw` (limited to the last word): the
/// position is saved, and playback restarts from there when it was running
/// and the position lies inside the text.
pub open spec fn seeked(m: ActorView, raw: u64) -> (ActorView, Seq<EffectView>) {
    let was = m.state.is_playing;
    let m1 = if was { stopped(m) } else { m };
    let ni = min_u64(raw, sat_sub(m.state.total_words, 1));
    let m2 = redisplayed(
        ActorView {
            state: AppStateView { current_word_index: ni, progress: Progress::Requested, ..m1.state },
            ..m1
        },
        ni,
    );
    let restart = was && ni < m.state.total_words;
    let m3 = if restart { started(ActorView { playback_start_index: ni, ..m2 }) } else { m2 };
    (
        m3,
        (if was { seq![EffectView::StopTimer] } else { Seq::empty() }) + save_effects(m2) + (if restart {
            seq![EffectView::StartTimer]
        } else {
            Seq::empty()
        }),
    )
}

/// What a user action does to the engine, and the effects it asks for.
pub open spec fn after_action(m: ActorView, a: ActionView, stored: Option<SessionView>) -> (ActorView, Seq<EffectView>) {
    match a {
        ActionView::PushScreen(s) => (
            ActorView { state: AppStateView { screen_stack: m.state.screen_stack.push(s), ..m.state }, ..m },
            Seq::empty(),
        ),
        ActionView::PopScreen => (
            ActorView {
                state: AppStateView {
                    screen_stack: if m.state.screen_stack.len() > 0 {
                        m.state.screen_stack.drop_last()
                    } else {
                        m.state.screen_stack
                    },
                    ..m.state
                },
                ..m
            },
            Seq::empty(),
        ),
        ActionView::LoadText(t) => (parse_completed(stopped(m), words_of(t), stored), seq![EffectView::StopTimer]),
        ActionView::FileSelected(p) => (
            ActorView { state: AppStateView { is_loading: true, error: None, ..stopped(m).state }, ..m },
            seq![EffectView::StopTimer, EffectView::ParseFile(p)],
        ),
        ActionView::Play => if m.words.len() > 0 && !m.state.is_playing {
            (started(m), seq![EffectView::StartTimer])
        } else {
            (m, Seq::empty())
        },
        ActionView::Pause => if m.state.is_playing {
            paused(m)
        } else {
            (m, Seq::empty())
        },
        ActionView::Toggle => if m.state.is_playing {
            paused(m)
        } else if m.words.len() > 0 {
            (started(m), seq![EffectView::StartTimer])
        } else {
            (m, Seq::empty())
        },
        ActionView::SeekToIndex(raw) => seeked(m, raw),
        ActionView::SetWPM(w) => {
            let m2 = ActorView { state: AppStateView { wpm: clamp_u32(w, 100, 1000), ..m.state }, ..m };
            if m.state.is_playing {
                (
                    started(ActorView { playback_start_index: m.state.current_word_index, ..m2 }),
                    seq![EffectView::StopTimer, EffectView::StartTimer],
                )
            } else {
                (m2, Seq::empty())
            }
        },
        ActionView::SetWordsPerGroup(n) => (
            redisplayed(
                ActorView { state: AppStateView { words_per_group: clamp_u32(n, 1, 5), ..m.state }, ..m },
                m.state.current_word_index,
            ),
            Seq::empty(),
        ),
        ActionView::Replay => (
            started(
                redisplayed(
                    ActorView {
                        playback_start_index: 0,
                        state: AppStateView {
                            current_word_index: 0,
                            progress: Progress::Start,
                            ..stopped(m).state
                        },
                        ..m
                    },
                    0,
                ),
            ),
            seq![EffectView::StopTimer, EffectView::StartTimer],
        ),
        ActionView::ClearToast => (ActorView { state: AppStateView { toast: None, ..m.state }, ..m }, Seq::empty()),
        ActionView::ClearError => (ActorView { state: AppStateView { error: None, ..m.state }, ..m }, Seq::empty()),
        ActionView::Foregrounded => (m, Seq::empty()),
    }
}

/// The action can be carried out without the text hash failing: a loaded
/// text that may be saved, or a newly loaded one, must have a defined hash.
pub open spec fn action_defined(m: ActorView, a: ActionView) -> bool {
    match a {
        ActionView::LoadText(t) => text_hash_defined(join_words(words_of(t))),
        ActionView::Pause | ActionView::Toggle => m.state.is_playing ==> text_hash_defined(join_words(m.words)),
        ActionView::SeekToIndex(_) => text_hash_defined(join_words(m.words)),
        _ => true,
    }
}

/// What an internal event does to the engine, and the effects it asks for.
pub open spec fn after_event(m: ActorView, e: EventView, stored: Option<SessionView>) -> (ActorView, Seq<EffectView>) {
    match e {
        EventView::ParseComplete(ws) => (emitted(parse_completed(m, ws, stored)), seq![EffectView::PublishState]),
        EventView::ParseError(msg) => (
            emitted(ActorView { state: AppStateView { is_loading: false, error: Some(msg), ..m.state }, ..m }),
            seq![EffectView::PublishState],
        ),
        EventView::WordAdvance(nanos) => if !m.state.is_playing {
            (m, Seq::empty())
        } else {
            let last = sat_sub(m.state.total_words, 1);
            let reached = word_index_at(nanos as nat, m.state.wpm, m.state.words_per_group, m.state.total_words);
            let sum = reached + m.playback_start_index;
            let ni = if sum <= last { sum as u64 } else { last };
            if ni >= last {
                let m1 = stopped(m);
                let m2 = redisplayed(
                    ActorView {
                        state: AppStateView { current_word_index: last, progress: Progress::Finished, ..m1.state },
                        ..m1
                    },
                    last,
                );
                (emitted(m2), seq![EffectView::StopTimer, EffectView::PublishState])
            } else {
                let disp = display_words(m.words, ni as int, m.state.words_per_group as int);
                (
                    emitted(
                        ActorView {
                            state: AppStateView {
                                current_word_index: ni,
                                progress: Progress::AtWord { index: ni, total: m.state.total_words },
                                display: Some(disp),
                                ..m.state
                            },
                            ..m
                        },
                    ),
                    seq![EffectView::PublishTick(disp, ni)],
                )
            }
        },
    }
}

/// The event can be handled: a published state needs room for the next
/// revision, and new words need a defined text hash.
pub open spec fn event_defined(m: ActorView, e: EventView) -> bool {
    &&& (e is WordAdvance && !m.state.is_playing) || m.state.rev < u64::MAX
    &&& e matches EventView::ParseComplete(ws) ==> text_hash_defined(join_words(ws))
}

/// The engine at startup: nothing loaded, speed and group size restored
/// from the stored session when there is one.
pub open spec fn actor_initial(stored: Option<SessionView>) -> ActorView {
    let st = initial_state();
    ActorView {
        words: Seq::empty(),
        playback_start_index: 0,
        state: match stored {
            Some(s) => AppStateView { wpm: s.wpm, words_per_group: s.words_per_group, ..st },
            None => st,
        },
    }
}

/// Pushing an effect pushes its view.
proof fn lemma_effects_push(v: Seq<Effect>, e: Effect)
    ensures
        effects_view(v.push(e)) == effects_view(v).push(e@),
{
    assert(effects_view(v.push(e)) =~= effects_view(v).push(e@));
}

impl ActorState {
    /// The engine at startup, with speed and group size restored from the
    /// stored session when there is one.
    pub fn new(stored: Option<SessionData>) -> (a: ActorState)
        ensures
            a@ == actor_initial(opt_session_view(stored)),
            actor_wf(a@),
    {
        let mut state = AppState::initial();
        if let Some(session) = stored {
            state.wpm = session.wpm;
            state.words_per_group = session.words_per_group;
        }
        let a = ActorState { words: Vec::new(), playback_start_index: 0, state };
        assert(strings_view(a.words@) =~= Seq::<Seq<char>>::empty());
        a
    }

    fn stop_playback(&mut self, effects: &mut Vec<Effect>)
        ensures
            final(self)@ == stopped(old(self)@),
            effects_view(final(effects)@) == effects_view(old(effects)@).push(EffectView::StopTimer),
    {
        proof {
            lemma_effects_push(effects@, Effect::StopTimer);
        }
        effects.push(Effect::StopTimer);
        self.state.is_playing = false;
    }

    fn start_playback(&mut self, effects: &mut Vec<Effect>)
        ensures
            final(self)@ == started(old(self)@),
            effects_view(final(effects)@) == effects_view(old(effects)@).push(EffectView::StartTimer),
    {
        proof {
            lemma_effects_push(effects@, Effect::StartTimer);
        }
        effects.push(Effect::StartTimer);
        self.state.is_playing = true;
    }

    fn update_display(&mut self, word_start: u64)
        requires
            old(self).words@.len() > 0 ==> word_start <= old(self).words@.len(),
        ensures
            final(self)@ == redisplayed(old(self)@, word_start),
    {
        if self.words.len() == 0 {
            self.state.display = None;
        } else {
            let d = build_display(self.words.as_slice(), word_start as usize, self.state.words_per_group as usize);
            self.state.display = Some(d);
        }
    }

    fn group_display(&self, word_start: u64) -> (d: WordDisplay)
        requires
            word_start <= self@.words.len(),
        ensures
            display_view(d) == display_words(self@.words, word_start as int, self@.state.words_per_group as int),
    {
        let n = self.words.len();
        assert(self@.words.len() == n);
        build_display(self.words.as_slice(), word_start as usize, self.state.words_per_group as usize)
    }

    fn save_current_session(&self, effects: &mut Vec<Effect>)
        requires
            text_hash_defined(join_words(self@.words)),
        ensures
            effects_view(final(effects)@) == effects_view(old(effects)@) + save_effects(self@),
    {
        if self.words.len() > 0 {
            let joined = join_with_spaces(&self.words);
            let session = SessionData {
                text_hash: SessionData::compute_text_hash(joined.as_str()),
                word_index: self.state.current_word_index,
                wpm: self.state.wpm,
                words_per_group: self.state.words_per_group,
            };
            let e = Effect::SaveSession { session };
            proof {
                lemma_effects_push(effects@, e);
            }
            effects.push(e);
        } else {
            assert(effects_view(effects@) + Seq::<EffectView>::empty() == effects_view(effects@));
        }
    }

    fn on_parse_complete(&mut self, words: Vec<String>, stored: Option<SessionData>)
        requires
            text_hash_defined(join_words(strings_view(words@))),
        ensures
            final(self)@ == parse_completed(old(self)@, strings_view(words@), opt_session_view(stored)),
            actor_wf(final(self)@),
    {
        let ghost ws = strings_view(words@);
        self.state.is_loading = false;
        self.state.total_words = words.len() as u64;
        self.state.current_word_index = 0;
        self.state.progress = Progress::Start;
        self.state.is_playing = false;
        self.playback_start_index = 0;
        let joined = join_with_spaces(&words);
        let text_hash = SessionData::compute_text_hash(joined.as_str());
        if let Some(session) = stored {
            if session.text_hash == text_hash && session.word_index < words.len() as u64 {
                self.state.current_word_index = session.word_index;
                self.state.wpm = session.wpm;
                self.state.words_per_group = session.words_per_group;
            }
        }
        self.words = words;
        assert(self@.words.len() == self.words@.len());
        assert(self.state.total_words == self.words@.len());
        let start = self.state.current_word_index;
        self.update_display(start);
        self.state.router.screen_stack.push(Screen::Reading);
    }
}


/// Advances the published revision by one, so that every published state is
/// newer than the one before it (hosts only take a state whose `rev` is
/// greater than the one they hold).
pub fn emit(state: &mut AppState)
    requires
        old(state).rev < u64::MAX,
    ensures
        final(state)@ == (AppStateView { rev: (old(state)@.rev + 1) as u64, ..old(state)@ }),
{
    state.rev = state.rev + 1;
}

impl ActorState {
    /// Handles a user-dispatched action: returns the effects the host must
    /// carry out, in order. (The host publishes the state after each action
    /// with `emit`.)
    pub fn handle_action(&mut self, action: AppAction, stored: Option<SessionData>) -> (effects: Vec<Effect>)
        requires
            actor_wf(old(self)@),
            action_defined(old(self)@, action@),
        ensures
            (final(self)@, effects_view(effects@)) == after_action(old(self)@, action@, opt_session_view(stored)),
            actor_wf(final(self)@),
    {
        let mut effects: Vec<Effect> = Vec::new();
        assert(effects_view(effects@) =~= Seq::<EffectView>::empty());
        match action {
            AppAction::LoadText { text } => {
                self.stop_playback(&mut effects);
                let words = tokenize(text.as_str());
                self.on_parse_complete(words, stored);
            },
            AppAction::FileSelected { path } => {
                self.stop_playback(&mut effects);
                self.state.is_loading = true;
                self.state.error = None;
                let e = Effect::ParseFile { path };
                proof {
                    lemma_effects_push(effects@, e);
                }
                effects.push(e);
            },
            AppAction::Play => {
                if self.words.len() > 0 && !self.state.is_playing {
                    self.start_playback(&mut effects);
                }
            },
            AppAction::Pause => {
                if self.state.is_playing {
                    self.stop_playback(&mut effects);
                    self.save_current_session(&mut effects);
                }
            },
            AppAction::Toggle => {
                if self.state.is_playing {
                    self.stop_playback(&mut effects);
                    self.save_current_session(&mut effects);
                } else if self.words.len() > 0 {
                    self.start_playback(&mut effects);
                }
            },
            AppAction::SeekToIndex { index } => {
                let was_playing = self.state.is_playing;
                if was_playing {
                    self.stop_playback(&mut effects);
                }
                let last = self.state.total_words.saturating_sub(1);
                let new_index = if index <= last {
                    index
                } else {
                    last
                };
                self.state.current_word_index = new_index;
                self.state.progress = Progress::Requested;
                self.update_display(new_index);
                self.save_current_session(&mut effects);
                if was_playing && new_index < self.state.total_words {
                    self.playback_start_index = new_index;
                    self.start_playback(&mut effects);
                } else {
                    assert(effects_view(effects@) + Seq::<EffectView>::empty() == effects_view(effects@));
                }
                proof {
                    if !was_playing {
                        assert(Seq::<EffectView>::empty() + save_effects(self@) == save_effects(self@));
                    }
                }
            },
            AppAction::SetWPM { wpm } => {
                let w = if wpm < 100 {
                    100
                } else if wpm > 1000 {
                    1000
                } else {
                    wpm
                };
                let was_playing = self.state.is_playing;
                if was_playing {
                    self.stop_playback(&mut effects);
                }
                self.state.wpm = w;
                if was_playing {
                    self.playback_start_index = self.state.current_word_index;
                    self.start_playback(&mut effects);
                }
            },
            AppAction::SetWordsPerGroup { n } => {
                let g = if n < 1 {
                    1
                } else if n > 5 {
                    5
                } else {
                    n
                };
                self.state.words_per_group = g;
                let start = self.state.current_word_index;
                self.update_display(start);
            },
            AppAction::Replay => {
                self.stop_playback(&mut effects);
                self.state.current_word_index = 0;
                self.state.progress = Progress::Start;
                self.playback_start_index = 0;
                self.update_display(0);
                self.start_playback(&mut effects);
            },
            AppAction::PushScreen { screen } => {
                self.state.router.screen_stack.push(screen);
            },
            AppAction::PopScreen => {
                self.state.router.screen_stack.pop();
            },
            AppAction::ClearToast => {
                self.state.toast = None;
            },
            AppAction::ClearError => {
                self.state.error = None;
            },
            AppAction::Foregrounded => {},
        }
        effects
    }

    /// Handles an event from the engine's background work: a finished or
    /// failed parse, or a playback tick. Returns the effects the host must
    /// carry out, in order; every published state has its revision advanced.
    pub fn handle_internal(&mut self, event: InternalEvent, stored: Option<SessionData>) -> (effects: Vec<Effect>)
        requires
            actor_wf(old(self)@),
            event_defined(old(self)@, event@),
        ensures
            (final(self)@, effects_view(effects@)) == after_event(old(self)@, event@, opt_session_view(stored)),
            actor_wf(final(self)@),
    {
        let mut effects: Vec<Effect> = Vec::new();
        assert(effects_view(effects@) =~= Seq::<EffectView>::empty());
        match event {
            InternalEvent::ParseComplete { words } => {
                self.on_parse_complete(words, stored);
                emit(&mut self.state);
                proof {
                    lemma_effects_push(effects@, Effect::PublishState);
                }
                effects.push(Effect::PublishState);
            },
            InternalEvent::ParseError { message } => {
                self.state.is_loading = false;
                self.state.error = Some(message);
                emit(&mut self.state);
                proof {
                    lemma_effects_push(effects@, Effect::PublishState);
                }
                effects.push(Effect::PublishState);
            },
            InternalEvent::WordAdvance { elapsed_nanos } => {
                if !self.state.is_playing {
                    return effects;
                }
                let reached = compute_word_index(
                    elapsed_nanos,
                    self.state.wpm,
                    self.state.words_per_group,
                    self.state.total_words,
                );
                let sum = reached.saturating_add(self.playback_start_index);
                let last = self.state.total_words.saturating_sub(1);
                let new_index = if sum <= last {
                    sum
                } else {
                    last
                };
                if new_index >= last {
                    self.stop_playback(&mut effects);
                    self.state.current_word_index = last;
                    self.state.progress = Progress::Finished;
                    self.update_display(last);
                    emit(&mut self.state);
                    proof {
                        lemma_effects_push(effects@, Effect::PublishState);
                    }
                    effects.push(Effect::PublishState);
                    return effects;
                }
                self.state.current_word_index = new_index;
                self.state.progress = Progress::AtWord { index: new_index, total: self.state.total_words };
                let shown = self.group_display(new_index);
                let tick = self.group_display(new_index);
                self.state.display = Some(shown);
                emit(&mut self.state);
                let e = Effect::PublishTick { display: tick, current_word_index: new_index };
                proof {
                    lemma_effects_push(effects@, e);
                }
                effects.push(e);
            },
        }
        effects
    }
}


impl ActorState {
    /// Whether `handle_action` is defined for this action in this state: the
    /// text hash it computes (of newly loaded words, or of the loaded words
    /// when it saves the position) must fall on a character boundary.
    pub fn can_handle_action(&self, action: &AppAction) -> (r: bool)
        ensures
            r == action_defined(self@, action@),
    {
        match action {
            AppAction::LoadText { text } => {
                let words = tokenize(text.as_str());
                let joined = join_with_spaces(&words);
                can_hash_text(joined.as_str())
            },
            AppAction::Pause | AppAction::Toggle => {
                if self.state.is_playing {
                    let joined = join_with_spaces(&self.words);
                    can_hash_text(joined.as_str())
                } else {
                    true
                }
            },
            AppAction::SeekToIndex { .. } => {
                let joined = join_with_spaces(&self.words);
                can_hash_text(joined.as_str())
            },
            _ => true,
        }
    }

    /// Whether `handle_internal` is defined for this event in this state:
    /// the revision can advance, and new words have a defined text hash.
    pub fn can_handle_event(&self, event: &InternalEvent) -> (r: bool)
        ensures
            r == event_defined(self@, event@),
    {
        let publishes = match event {
            InternalEvent::WordAdvance { .. } => self.state.is_playing,
            _ => true,
        };
        if publishes && self.state.rev == u64::MAX {
            return false;
        }
        match event {
            InternalEvent::ParseComplete { words } => {
                let joined = join_with_spaces(words);
                can_hash_text(joined.as_str())
            },
            _ => true,
        }
    }
}

} // verus!
