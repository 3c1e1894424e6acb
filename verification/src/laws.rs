//! Properties of the library that span its functions, stated over the spec
//! functions their contracts use, and proved.

use vstd::prelude::*;

use crate::actor::{
    display_words, min_u64, actor_initial, actor_wf, after_action, after_event, join_words, nanos_per_minute,
    parse_completed, raw_words, sat_sub, session_of, stopped, word_index_at, ActionView, ActorView,
    EffectView, EventView,
};
use crate::session::{text_hash, SessionView};
use crate::state::{shown_screen, Progress, Screen};
use crate::parser::{flush, split_ws_from, strip_run, strip_step, stripped_html, words_of, StripState};
use crate::state::orp_split;
use crate::text::is_white_space;

verus! {

/// The characters of `w` are all non-White_Space.
pub open spec fn no_white_space(w: Seq<char>) -> bool {
    forall|i: int| 0 <= i < w.len() ==> !is_white_space(#[trigger] w[i])
}

/// Every word is non-empty and holds no White_Space.
pub open spec fn all_words_solid(ws: Seq<Seq<char>>) -> bool {
    forall|i: int| 0 <= i < ws.len() ==> #[trigger] ws[i].len() > 0 && no_white_space(ws[i])
}

proof fn lemma_split_solid_run(w: Seq<char>, cur: Seq<char>)
    requires
        no_white_space(w),
    ensures
        split_ws_from(w, cur) == flush(cur + w),
    decreases w.len(),
{
    if w.len() == 0 {
        assert(cur + w == cur);
    } else {
        assert(no_white_space(w.drop_first()));
        lemma_split_solid_run(w.drop_first(), cur.push(w[0]));
        assert(cur.push(w[0]) + w.drop_first() == cur + w);
    }
}

proof fn lemma_split_then_word(a: Seq<char>, w: Seq<char>, cur: Seq<char>)
    requires
        w.len() > 0,
        no_white_space(w),
    ensures
        split_ws_from(a.push(' ') + w, cur) == split_ws_from(a, cur) + seq![w],
    decreases a.len(),
{
    let s = a.push(' ') + w;
    if a.len() == 0 {
        assert(s[0] == ' ');
        assert(s.drop_first() == w);
        lemma_split_solid_run(w, Seq::empty());
        assert(Seq::<char>::empty() + w == w);
        assert(is_white_space(' '));
    } else {
        assert(s[0] == a[0]);
        assert(s.drop_first() == a.drop_first().push(' ') + w);
        if is_white_space(a[0]) {
            lemma_split_then_word(a.drop_first(), w, Seq::empty());
            assert(flush(cur) + (split_ws_from(a.drop_first(), Seq::empty()) + seq![w]) == (flush(cur)
                + split_ws_from(a.drop_first(), Seq::empty())) + seq![w]);
        } else {
            lemma_split_then_word(a.drop_first(), w, cur.push(a[0]));
        }
    }
}

/// Joining words with single spaces and splitting the result again gives
/// back the words, when each is non-empty and free of White_Space.
pub proof fn lemma_tokenize_join_roundtrip(ws: Seq<Seq<char>>)
    requires
        all_words_solid(ws),
    ensures
        words_of(crate::actor::join_words(ws)) == ws,
    decreases ws.len(),
{
    if ws.len() == 0 {
    } else if ws.len() == 1 {
        lemma_split_solid_run(ws[0], Seq::empty());
        assert(Seq::<char>::empty() + ws[0] == ws[0]);
        assert(ws[0].len() > 0);
        assert(seq![ws[0]] == ws);
    } else {
        let init = ws.drop_last();
        assert forall|i: int| 0 <= i < init.len() implies #[trigger] init[i].len() > 0 && no_white_space(init[i]) by {
            assert(init[i] == ws[i]);
        }
        lemma_tokenize_join_roundtrip(init);
        assert(ws.last() == ws[ws.len() - 1]);
        lemma_split_then_word(crate::actor::join_words(init), ws.last(), Seq::empty());
        assert(init + seq![ws.last()] == ws);
    }
}

proof fn lemma_split_words_solid(s: Seq<char>, cur: Seq<char>)
    requires
        no_white_space(cur),
    ensures
        all_words_solid(split_ws_from(s, cur)),
    decreases s.len(),
{
    if s.len() == 0 {
    } else if is_white_space(s[0]) {
        lemma_split_words_solid(s.drop_first(), Seq::empty());
        let rest = split_ws_from(s.drop_first(), Seq::empty());
        let all = flush(cur) + rest;
        assert forall|i: int| 0 <= i < all.len() implies #[trigger] all[i].len() > 0 && no_white_space(all[i]) by {
            if i < flush(cur).len() {
                assert(all[i] == cur);
            } else {
                assert(all[i] == rest[i - flush(cur).len()]);
            }
        }
    } else {
        let next = cur.push(s[0]);
        assert(no_white_space(next)) by {
            assert forall|i: int| 0 <= i < next.len() implies !is_white_space(#[trigger] next[i]) by {
                if i < cur.len() {
                    assert(next[i] == cur[i]);
                }
            }
        }
        lemma_split_words_solid(s.drop_first(), next);
    }
}

/// Every word the tokenizer yields is non-empty and holds no White_Space.
pub proof fn lemma_words_are_solid(s: Seq<char>)
    ensures
        all_words_solid(words_of(s)),
{
    lemma_split_words_solid(s, Seq::empty());
}

/// Tokenizing is idempotent: splitting the words joined by spaces gives the
/// same words.
pub proof fn lemma_tokenize_idempotent(s: Seq<char>)
    ensures
        words_of(crate::actor::join_words(words_of(s))) == words_of(s),
{
    lemma_words_are_solid(s);
    lemma_tokenize_join_roundtrip(words_of(s));
}


/// A word split at its recognition point reassembles to the word: the part
/// before the anchor has floor(len / 2) characters and the anchor is one
/// character (none for the empty word).
pub proof fn lemma_orp_split_reassembles(w: Seq<char>)
    ensures
        orp_split(w).before + orp_split(w).anchor + orp_split(w).after == w,
        orp_split(w).before.len() == w.len() / 2,
        orp_split(w).anchor.len() == if w.len() > 0 { 1int } else { 0int },
{
    let k = w.len() / 2;
    if w.len() == 0 {
        assert(orp_split(w).before + orp_split(w).anchor + orp_split(w).after =~= w);
    } else if k + 1 < w.len() {
        assert(w.take(k as int) + seq![w[k as int]] + w.skip(k + 1int) =~= w);
    } else {
        assert(w.take(k as int) + seq![w[k as int]] + Seq::<char>::empty() =~= w);
    }
}

/// Text without `<` and `>` passes through the HTML stripper unchanged.
pub proof fn lemma_strip_plain_text(s: Seq<char>)
    requires
        forall|i: int| 0 <= i < s.len() ==> #[trigger] s[i] != '<' && s[i] != '>',
    ensures
        stripped_html(s) == s,
{
    lemma_strip_plain_prefix(s);
}

proof fn lemma_strip_plain_prefix(s: Seq<char>)
    requires
        forall|i: int| 0 <= i < s.len() ==> #[trigger] s[i] != '<' && s[i] != '>',
    ensures
        strip_run(s) == (StripState { in_tag: false, in_skip: false, tag: Seq::empty(), out: s }),
    decreases s.len(),
{
    if s.len() > 0 {
        let init = s.drop_last();
        assert forall|i: int| 0 <= i < init.len() implies #[trigger] init[i] != '<' && init[i] != '>' by {
            assert(init[i] == s[i]);
        }
        lemma_strip_plain_prefix(init);
        assert(s.last() == s[s.len() - 1]);
        assert(init.push(s.last()) == s);
    } else {
        assert(s == Seq::<char>::empty());
    }
}

proof fn lemma_div_monotone(a: nat, b: nat, d: nat)
    by (nonlinear_arith)
    requires
        a <= b,
        d > 0,
    ensures
        a / d <= b / d,
{
}

proof fn lemma_mul_monotone(a: nat, b: nat, c: nat)
    by (nonlinear_arith)
    requires
        a <= b,
    ensures
        a * c <= b * c,
{
}

/// The word index playback reaches never decreases as time passes.
pub proof fn lemma_word_index_monotone(n1: nat, n2: nat, wpm: u32, words_per_group: u32, total_words: u64)
    requires
        n1 <= n2,
    ensures
        word_index_at(n1, wpm, words_per_group, total_words) <= word_index_at(n2, wpm, words_per_group, total_words),
{
    if total_words > 0 {
        let g: nat = if words_per_group == 0 { 1 } else { words_per_group as nat };
        lemma_mul_monotone(n1, n2, wpm as nat);
        lemma_div_monotone(n1 * (wpm as nat), n2 * (wpm as nat), nanos_per_minute());
        let r1 = raw_words(n1, wpm as nat);
        let r2 = raw_words(n2, wpm as nat);
        assert(r1 <= r2);
        lemma_div_monotone(r1, r2, g);
        lemma_mul_monotone(r1 / g, r2 / g, g);
    }
}

/// The word index playback reaches lies inside the text (0 for an empty text).
pub proof fn lemma_word_index_in_text(nanos: nat, wpm: u32, words_per_group: u32, total_words: u64)
    ensures
        total_words == 0 ==> word_index_at(nanos, wpm, words_per_group, total_words) == 0,
        total_words > 0 ==> word_index_at(nanos, wpm, words_per_group, total_words) < total_words,
{
}


/// Popping the screen just pushed restores the engine exactly, and a pushed
/// screen is the one shown.
pub proof fn lemma_pop_undoes_push(m: ActorView, screen: Screen, stored: Option<SessionView>)
    ensures
        after_action(after_action(m, ActionView::PushScreen(screen), stored).0, ActionView::PopScreen, stored).0
            == m,
        shown_screen(
            m.state.default_screen,
            after_action(m, ActionView::PushScreen(screen), stored).0.state.screen_stack,
        ) == screen,
{
    let pushed = after_action(m, ActionView::PushScreen(screen), stored).0;
    assert(pushed.state.screen_stack.drop_last() == m.state.screen_stack);
}

/// After a speed change the speed lies in 100..=1000 words per minute; after
/// a group-size change the group size lies in 1..=5.
pub proof fn lemma_settings_clamped(m: ActorView, wpm: u32, n: u32, stored: Option<SessionView>)
    ensures
        100 <= after_action(m, ActionView::SetWPM(wpm), stored).0.state.wpm <= 1000,
        1 <= after_action(m, ActionView::SetWordsPerGroup(n), stored).0.state.words_per_group <= 5,
{
}

/// Actions leave the published revision alone (the host publishes after each
/// one); every event that publishes advances it by exactly one, and an event
/// that publishes nothing leaves it unchanged.
pub proof fn lemma_revision_advances(m: ActorView, a: ActionView, e: EventView, stored: Option<SessionView>)
    requires
        m.state.rev < u64::MAX,
    ensures
        after_action(m, a, stored).0.state.rev == m.state.rev,
        after_event(m, e, stored).1.len() > 0 ==> after_event(m, e, stored).0.state.rev == m.state.rev + 1,
        after_event(m, e, stored).1.len() == 0 ==> after_event(m, e, stored).0.state.rev == m.state.rev,
{
}

/// A playback tick never moves past the last word: either playback goes on
/// at a word before the last one, or it stops at the last word (the first
/// word of an empty text) with the progress finished.
pub proof fn lemma_tick_stays_in_text(m: ActorView, nanos: u128, stored: Option<SessionView>)
    requires
        actor_wf(m),
        m.state.is_playing,
        m.state.rev < u64::MAX,
    ensures
        ({
            let next = after_event(m, EventView::WordAdvance(nanos), stored).0;
            ||| next.state.is_playing && next.state.current_word_index + 1 < m.state.total_words
                && next.state.progress == (Progress::AtWord {
                index: next.state.current_word_index,
                total: m.state.total_words,
            })
            ||| !next.state.is_playing && next.state.current_word_index == sat_sub(m.state.total_words, 1)
                && next.state.progress == Progress::Finished
        }),
{
}

/// Toggling twice leaves playback as it was, when a text is loaded.
pub proof fn lemma_toggle_twice(m: ActorView, stored: Option<SessionView>)
    requires
        m.words.len() > 0,
    ensures
        after_action(after_action(m, ActionView::Toggle, stored).0, ActionView::Toggle, stored).0.state.is_playing
            == m.state.is_playing,
{
}

/// Pausing saves the reading position, and loading the same words again with
/// that saved session resumes at that position with the same speed and group
/// size.
pub proof fn lemma_paused_position_resumes(m: ActorView, later: ActorView, stored: Option<SessionView>)
    requires
        actor_wf(m),
        m.state.is_playing,
        m.words.len() > 0,
    ensures
        after_action(m, ActionView::Pause, stored).1 == seq![
            EffectView::StopTimer,
            EffectView::SaveSession(session_of(m)),
        ],
        ({
            let resumed = parse_completed(later, m.words, Some(session_of(m)));
            &&& resumed.state.current_word_index == m.state.current_word_index
            &&& resumed.state.wpm == m.state.wpm
            &&& resumed.state.words_per_group == m.state.words_per_group
            &&& actor_wf(resumed)
        }),
{
    assert(session_of(stopped(m)) == session_of(m));
}

/// A text whose stored session belongs to another text starts from its first
/// word.
pub proof fn lemma_foreign_session_starts_over(m: ActorView, words: Seq<Seq<char>>, stored: SessionView)
    requires
        stored.text_hash != text_hash(join_words(words)),
    ensures
        parse_completed(m, words, Some(stored)).state.current_word_index == 0,
{
}

/// A session record survives storage: its columns read back give the record.
pub proof fn lemma_session_columns_roundtrip(word_index: u64, wpm: u32, words_per_group: u32)
    ensures
        (word_index as i64) as u64 == word_index,
        (wpm as i64) as u32 == wpm,
        (words_per_group as i64) as u32 == words_per_group,
{
    assert((word_index as i64) as u64 == word_index) by (bit_vector);
    assert((wpm as i64) as u32 == wpm) by (bit_vector);
    assert((words_per_group as i64) as u32 == words_per_group) by (bit_vector);
}

/// Every step keeps the engine's invariant; the engine starts in it.
pub proof fn lemma_steps_keep_invariant(m: ActorView, a: ActionView, e: EventView, stored: Option<SessionView>)
    requires
        actor_wf(m),
        (a matches ActionView::LoadText(t) ==> words_of(t).len() <= u64::MAX),
        (e matches EventView::ParseComplete(ws) ==> ws.len() <= u64::MAX),
    ensures
        actor_wf(after_action(m, a, stored).0),
        actor_wf(after_event(m, e, stored).0),
        actor_wf(actor_initial(stored)),
{
}


/// The HTML stripper's output holds no `<` or `>`: every tag is gone.
pub proof fn lemma_stripped_has_no_brackets(s: Seq<char>)
    ensures
        forall|i: int| 0 <= i < stripped_html(s).len() ==> #[trigger] stripped_html(s)[i] != '<' && stripped_html(s)[i] != '>',
    decreases s.len(),
{
    if s.len() > 0 {
        lemma_stripped_has_no_brackets(s.drop_last());
        let prev = strip_run(s.drop_last());
        let c = s.last();
        let out = strip_run(s).out;
        assert(strip_run(s) == strip_step(prev, c));
        assert(out == prev.out || out == prev.out.push(' ') || (out == prev.out.push(c) && c != '<' && c
            != '>'));
        assert forall|i: int| 0 <= i < out.len() implies #[trigger] out[i] != '<' && out[i] != '>' by {
            if i < prev.out.len() {
                assert(out[i] == prev.out[i]);
                assert(stripped_html(s.drop_last())[i] == prev.out[i]);
            } else if out == prev.out.push(' ') {
                assert(out[i] == ' ');
            } else {
                assert(out[i] == c);
            }
        }
    }
}


/// The display shows the word group that starts at the current word, with
/// the current group size (or nothing).
pub open spec fn shows_current_group(m: ActorView) -> bool {
    m.state.display is Some ==> m.state.display == Some(
        display_words(m.words, m.state.current_word_index as int, m.state.words_per_group as int),
    )
}

/// Whatever the engine does, the word group on screen is the one that starts
/// at the current word: every action and event keeps it so, and the engine
/// starts so.
pub proof fn lemma_display_follows_current_word(m: ActorView, a: ActionView, e: EventView, stored: Option<SessionView>)
    requires
        shows_current_group(m),
    ensures
        shows_current_group(after_action(m, a, stored).0),
        shows_current_group(after_event(m, e, stored).0),
        shows_current_group(actor_initial(stored)),
{
}

/// A playback tick moves to the word reached after the elapsed time counted
/// from the word playback started at, no further than the last word. While
/// playback goes on, the state and the published tick both show the group
/// that starts at that word.
pub proof fn lemma_tick_shows_reached_group(m: ActorView, nanos: u128, stored: Option<SessionView>)
    requires
        actor_wf(m),
        m.state.is_playing,
    ensures
        ({
            let (next, effects) = after_event(m, EventView::WordAdvance(nanos), stored);
            let reached = word_index_at(nanos as nat, m.state.wpm, m.state.words_per_group, m.state.total_words);
            let last = sat_sub(m.state.total_words, 1);
            &&& next.state.current_word_index == (if reached + m.playback_start_index <= last {
                reached + m.playback_start_index
            } else {
                last as int
            })
            &&& next.words == m.words
            &&& next.state.words_per_group == m.state.words_per_group
            &&& next.state.is_playing ==> {
                let group = display_words(m.words, next.state.current_word_index as int, m.state.words_per_group as int);
                &&& next.state.display == Some(group)
                &&& effects == seq![EffectView::PublishTick(group, next.state.current_word_index)]
            }
        }),
{
}

/// Seeking in a loaded text moves to the requested word (at most the last
/// one) and shows the group that starts there; when playback was running it
/// goes on from that word.
pub proof fn lemma_seek_shows_target(m: ActorView, index: u64, stored: Option<SessionView>)
    requires
        actor_wf(m),
        m.words.len() > 0,
    ensures
        ({
            let next = after_action(m, ActionView::SeekToIndex(index), stored).0;
            &&& next.state.current_word_index == min_u64(index, (m.words.len() - 1) as u64)
            &&& next.state.display == Some(
                display_words(m.words, next.state.current_word_index as int, m.state.words_per_group as int),
            )
            &&& next.state.is_playing == m.state.is_playing
            &&& m.state.is_playing ==> next.playback_start_index == next.state.current_word_index
        }),
{
}

/// Seeking while playing and then ticking lands on the sought word plus the
/// words read since, no further than the last word.
pub proof fn lemma_tick_after_seek_counts_from_target(m: ActorView, index: u64, nanos: u128, stored: Option<SessionView>)
    requires
        actor_wf(m),
        m.words.len() > 0,
        m.state.is_playing,
    ensures
        ({
            let sought = after_action(m, ActionView::SeekToIndex(index), stored).0;
            let next = after_event(sought, EventView::WordAdvance(nanos), stored).0;
            let target = min_u64(index, (m.words.len() - 1) as u64);
            let reached = word_index_at(nanos as nat, m.state.wpm, m.state.words_per_group, m.state.total_words);
            next.state.current_word_index == (if target + reached <= m.words.len() - 1 {
                target + reached
            } else {
                m.words.len() - 1
            })
        }),
{
}

/// Changing the group size keeps the current word and redraws the group of
/// the new size starting there.
pub proof fn lemma_group_size_keeps_position(m: ActorView, n: u32, stored: Option<SessionView>)
    requires
        m.words.len() > 0,
    ensures
        ({
            let next = after_action(m, ActionView::SetWordsPerGroup(n), stored).0;
            &&& next.state.current_word_index == m.state.current_word_index
            &&& 1 <= next.state.words_per_group <= 5
            &&& next.state.display == Some(
                display_words(m.words, m.state.current_word_index as int, next.state.words_per_group as int),
            )
        }),
{
}

/// Replay starts playback over from the first word: the position and the
/// start of playback are word 0, the first group is shown, and the next tick
/// lands on the words read since, counted from the first word.
pub proof fn lemma_replay_counts_from_first_word(m: ActorView, nanos: u128, stored: Option<SessionView>)
    requires
        actor_wf(m),
    ensures
        ({
            let replayed = after_action(m, ActionView::Replay, stored).0;
            let next = after_event(replayed, EventView::WordAdvance(nanos), stored).0;
            let reached = word_index_at(nanos as nat, m.state.wpm, m.state.words_per_group, m.state.total_words);
            &&& replayed.playback_start_index == 0
            &&& replayed.state.current_word_index == 0
            &&& replayed.state.is_playing
            &&& m.words.len() > 0 ==> replayed.state.display == Some(
                display_words(m.words, 0, m.state.words_per_group as int),
            )
            &&& next.state.current_word_index == min_u64(reached, sat_sub(m.state.total_words, 1))
        }),
{
}

/// The characters with the Unicode White_Space property, the ones for which
/// `char::is_whitespace` is true, listed one by one.
pub open spec fn unicode_white_space(c: char) -> bool {
    ||| c == '\t'
    ||| c == '\n'
    ||| c == '\u{0B}'
    ||| c == '\u{0C}'
    ||| c == '\r'
    ||| c == ' '
    ||| c == '\u{85}'
    ||| c == '\u{A0}'
    ||| c == '\u{1680}'
    ||| c == '\u{2000}'
    ||| c == '\u{2001}'
    ||| c == '\u{2002}'
    ||| c == '\u{2003}'
    ||| c == '\u{2004}'
    ||| c == '\u{2005}'
    ||| c == '\u{2006}'
    ||| c == '\u{2007}'
    ||| c == '\u{2008}'
    ||| c == '\u{2009}'
    ||| c == '\u{200A}'
    ||| c == '\u{2028}'
    ||| c == '\u{2029}'
    ||| c == '\u{202F}'
    ||| c == '\u{205F}'
    ||| c == '\u{3000}'
}

/// The words laid end to end.
pub open spec fn concat_words(ws: Seq<Seq<char>>) -> Seq<char>
    decreases ws.len(),
{
    if ws.len() == 0 {
        Seq::empty()
    } else {
        ws[0] + concat_words(ws.drop_first())
    }
}

/// The text with its White_Space characters taken out.
pub open spec fn without_white_space(s: Seq<char>) -> Seq<char>
    decreases s.len(),
{
    if s.len() == 0 {
        Seq::empty()
    } else if unicode_white_space(s[0]) {
        without_white_space(s.drop_first())
    } else {
        seq![s[0]] + without_white_space(s.drop_first())
    }
}

proof fn lemma_white_space_is_the_listed_chars(c: char)
    ensures
        is_white_space(c) <==> unicode_white_space(c),
{
}

proof fn lemma_concat_append(a: Seq<Seq<char>>, b: Seq<Seq<char>>)
    ensures
        concat_words(a + b) == concat_words(a) + concat_words(b),
    decreases a.len(),
{
    if a.len() == 0 {
        assert(a + b == b);
        assert(Seq::<char>::empty() + concat_words(b) == concat_words(b));
    } else {
        assert((a + b)[0] == a[0]);
        assert((a + b).drop_first() == a.drop_first() + b);
        lemma_concat_append(a.drop_first(), b);
        assert(a[0] + (concat_words(a.drop_first()) + concat_words(b)) == (a[0] + concat_words(a.drop_first()))
            + concat_words(b));
    }
}

proof fn lemma_split_keeps_other_chars(s: Seq<char>, cur: Seq<char>)
    ensures
        concat_words(split_ws_from(s, cur)) == cur + without_white_space(s),
    decreases s.len(),
{
    let one = seq![cur];
    assert(concat_words(one) == cur) by {
        assert(one[0] == cur);
        assert(one.drop_first() =~= Seq::<Seq<char>>::empty());
        assert(concat_words(one.drop_first()) == Seq::<char>::empty());
        assert(cur + Seq::<char>::empty() == cur);
    }
    assert(concat_words(flush(cur)) == cur) by {
        if cur.len() == 0 {
            assert(flush(cur).len() == 0);
        }
    }
    if s.len() == 0 {
        assert(cur + Seq::<char>::empty() == cur);
    } else {
        lemma_white_space_is_the_listed_chars(s[0]);
        if is_white_space(s[0]) {
            lemma_split_keeps_other_chars(s.drop_first(), Seq::empty());
            lemma_concat_append(flush(cur), split_ws_from(s.drop_first(), Seq::empty()));
            assert(Seq::<char>::empty() + without_white_space(s.drop_first()) == without_white_space(s.drop_first()));
        } else {
            lemma_split_keeps_other_chars(s.drop_first(), cur.push(s[0]));
            assert(cur.push(s[0]) + without_white_space(s.drop_first()) == cur + (seq![s[0]]
                + without_white_space(s.drop_first())));
        }
    }
}

/// Tokenizing splits at every White_Space character and drops nothing else:
/// no word is empty or holds a White_Space character, and the words laid end
/// to end are the text with its White_Space characters taken out.
pub proof fn lemma_tokenize_splits_at_white_space(s: Seq<char>)
    ensures
        forall|i: int, j: int|
            0 <= i < words_of(s).len() && 0 <= j < words_of(s)[i].len() ==> !unicode_white_space(
                #[trigger] words_of(s)[i][j],
            ),
        forall|i: int| 0 <= i < words_of(s).len() ==> #[trigger] words_of(s)[i].len() > 0,
        concat_words(words_of(s)) == without_white_space(s),
{
    lemma_words_are_solid(s);
    let ws = words_of(s);
    assert forall|i: int, j: int| 0 <= i < ws.len() && 0 <= j < ws[i].len() implies !unicode_white_space(
        #[trigger] ws[i][j],
    ) by {
        assert(ws[i].len() > 0 && no_white_space(ws[i]));
        lemma_white_space_is_the_listed_chars(ws[i][j]);
    }
    lemma_split_keeps_other_chars(s, Seq::empty());
    assert(Seq::<char>::empty() + without_white_space(s) == without_white_space(s));
}

/// Changing the speed keeps the position and the playing state, limits the
/// speed to 100..=1000, and while playing restarts the count of words read
/// from the current word, so the next tick counts from there.
pub proof fn lemma_speed_change_keeps_position(m: ActorView, wpm: u32, nanos: u128, stored: Option<SessionView>)
    requires
        actor_wf(m),
    ensures
        ({
            let next = after_action(m, ActionView::SetWPM(wpm), stored).0;
            &&& next.state.current_word_index == m.state.current_word_index
            &&& next.state.is_playing == m.state.is_playing
            &&& 100 <= next.state.wpm <= 1000
            &&& (100 <= wpm <= 1000 ==> next.state.wpm == wpm)
            &&& m.state.is_playing ==> {
                let ticked = after_event(next, EventView::WordAdvance(nanos), stored).0;
                let reached = word_index_at(nanos as nat, next.state.wpm, m.state.words_per_group, m.state.total_words);
                let last = sat_sub(m.state.total_words, 1);
                ticked.state.current_word_index == (if m.state.current_word_index + reached <= last {
                    m.state.current_word_index + reached
                } else {
                    last as int
                })
            }
        }),
{
}

/// Loading text with no stored session for it shows its first word group on
/// the reading screen, stopped at the first word, with the words of the text.
pub proof fn lemma_load_text_starts_at_first_word(m: ActorView, t: Seq<char>)
    requires
        words_of(t).len() <= u64::MAX,
    ensures
        ({
            let next = after_action(m, ActionView::LoadText(t), None).0;
            &&& next.words == words_of(t)
            &&& next.state.total_words == words_of(t).len()
            &&& next.state.current_word_index == 0
            &&& next.playback_start_index == 0
            &&& !next.state.is_playing
            &&& next.state.screen_stack == m.state.screen_stack.push(Screen::Reading)
            &&& next.state.display == if words_of(t).len() > 0 {
                Some(display_words(words_of(t), 0, m.state.words_per_group as int))
            } else {
                None
            }
        }),
{
}

/// Play on a loaded, paused text starts the timer and keeps the position;
/// otherwise it changes nothing.
pub proof fn lemma_play_keeps_position(m: ActorView, stored: Option<SessionView>)
    ensures
        ({
            let (next, effects) = after_action(m, ActionView::Play, stored);
            &&& next.state.current_word_index == m.state.current_word_index
            &&& next.playback_start_index == m.playback_start_index
            &&& next.state.display == m.state.display
            &&& (m.words.len() > 0 && !m.state.is_playing) ==> next.state.is_playing && effects == seq![
                EffectView::StartTimer,
            ]
            &&& !(m.words.len() > 0 && !m.state.is_playing) ==> next == m && effects.len() == 0
        }),
{
}
} // verus!
