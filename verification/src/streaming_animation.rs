//! Typewriter animation state for a message that a bot streams in
//! (MSC4357 `live` messages).
//!
//! The state caches the latest full snapshot of the message text and how
//! much of it is currently revealed, counted both in characters and in
//! UTF-8 bytes.  Growth of a live message opens a short "tween" window
//! during which the revealed part catches up with the new snapshot.

use std::time::{Duration, Instant};
use vstd::prelude::*;
use vstd::utf8::*;
use vstd::string::StringSliceAdditionalSpecFns;
use crate::text::{
    char_boundary_offset, lemma_char_boundary_iff_char_offset, lemma_prefix_before_byte,
    lemma_utf8_len_take_injective, lemma_utf8_len_take_mono, prefix_before_byte, string_capacity,
    string_clear, string_push_str, string_reserve, string_with_capacity, utf8_len, walk_chars,
};

verus! {

broadcast use vstd::seq::group_seq_axioms, vstd::seq_lib::group_seq_properties;

#[verifier::external_type_specification]
#[verifier::external_body]
pub struct ExInstant(Instant);

/// How long a finished (non-live) stream may stay unchanged before it counts as timed out.
pub const FINISHED_STREAM_TIMEOUT_SECS: u64 = 30;
/// How long a live stream may stall before it counts as timed out.
pub const LIVE_STREAM_STALL_TIMEOUT_SECS: u64 = 300;
/// Upper bound on how long a single live update's interpolation runs, in
/// nanoseconds (150 ms).  It is chosen smaller than any reasonable server
/// edit throttle so the client always catches up before the next edit.
pub const TWEEN_DURATION_NANOS: u128 = 150_000_000;

/// The whole number of nanoseconds in `d`.
pub uninterp spec fn duration_nanos(d: Duration) -> u128;

/// `Instant::now`.  Nothing is promised of the reading: it comes from the clock.
#[verifier::external_body]
fn instant_now() -> Instant {
    Instant::now()
}

/// `Instant::elapsed`.  Nothing is promised of the reading: it comes from the clock.
#[verifier::external_body]
fn instant_elapsed(i: &Instant) -> Duration {
    i.elapsed()
}

/// `Duration::as_nanos`: the whole number of nanoseconds in `d`.
#[verifier::external_body]
fn duration_as_nanos(d: &Duration) -> (n: u128)
    ensures
        n == duration_nanos(*d),
{
    d.as_nanos()
}

/// `Duration::from_secs`: a duration of exactly `secs` seconds.
#[verifier::external_body]
fn duration_from_secs(secs: u64) -> (d: Duration)
    ensures
        duration_nanos(d) == secs as int * 1_000_000_000,
{
    Duration::from_secs(secs)
}

/// Animation state for a single streaming message.
/// Tracks an MSC4357 live message and caches the latest full snapshot.
pub struct StreamingAnimState {
    pub target_text: String,
    pub target_char_count: usize,
    pub displayed_char_count: usize,
    pub displayed_byte_offset: usize,
    pub last_update_time: Instant,
    pub animation_start_time: Instant,
    pub display_buffer: String,
    /// Whether the message currently carries the MSC4357 `live` field.
    pub is_live: bool,
    pub timeline_index: Option<usize>,
    /// Starting displayed_char_count for the current tween window.
    /// Equals target_char_count when no tween is in progress.
    pub reveal_base_char: usize,
    /// Reference time for the current tween window.
    pub reveal_base_time: Instant,
}

/// The number of characters revealed at `elapsed_nanos` into a tween that
/// started at `base` and ends at `target`: the linear interpolation,
/// rounded half up, with the elapsed time clamped to the tween's length.
/// The interpolation is exact; a computation in `f64` may land just below
/// an exact half and round it down instead.
pub open spec fn tween_position(base: int, target: int, elapsed_nanos: int) -> int {
    let delta = if target > base { target - base } else { 0 };
    let e = if elapsed_nanos < TWEEN_DURATION_NANOS { elapsed_nanos } else { TWEEN_DURATION_NANOS as int };
    let pos = base + (2 * delta * e + TWEEN_DURATION_NANOS) / (2 * TWEEN_DURATION_NANOS as int);
    if pos < target { pos } else { target }
}

/// The number of characters that advancing by `k` characters from
/// character `j` of `s` actually passes over.
pub open spec fn chars_walked(s: Seq<char>, j: int, k: int) -> int {
    if k <= s.len() - j { k } else { s.len() - j }
}

/// The index of the character whose boundary is at byte offset `off` of `s`.
pub open spec fn char_index_at(s: Seq<char>, off: int) -> int {
    choose|j: int| 0 <= j <= s.len() && off == utf8_len(#[trigger] s.take(j))
}

/// The text shown while streaming: the revealed prefix followed by a cursor.
pub open spec fn displayed_text_with_cursor(s: Seq<char>, off: int) -> Seq<char> {
    prefix_before_byte(s, off) + seq![' ', '\u{25CF}']
}

/// A tween window that has run for its full length has revealed the
/// whole target.
pub proof fn lemma_tween_reaches_target(base: int, target: int, elapsed_nanos: int)
    requires
        0 <= base <= target,
        elapsed_nanos >= TWEEN_DURATION_NANOS,
    ensures
        tween_position(base, target, elapsed_nanos) == target,
{
    let delta = target - base;
    assert((2 * delta * 150_000_000 + 150_000_000) / 300_000_000 == delta) by (nonlinear_arith)
        requires delta >= 0;
}

/// The tween position never moves backwards as time passes, and never
/// passes the target.
pub proof fn lemma_tween_monotone(base: int, target: int, e1: int, e2: int)
    requires
        0 <= base <= target,
        0 <= e1 <= e2,
    ensures
        tween_position(base, target, e1) <= tween_position(base, target, e2) <= target,
        base <= tween_position(base, target, e1),
{
    let delta = target - base;
    let c1 = if e1 < TWEEN_DURATION_NANOS { e1 } else { TWEEN_DURATION_NANOS as int };
    let c2 = if e2 < TWEEN_DURATION_NANOS { e2 } else { TWEEN_DURATION_NANOS as int };
    assert((2 * delta * c1 + 150_000_000) / 300_000_000 <= (2 * delta * c2 + 150_000_000) / 300_000_000)
        by (nonlinear_arith)
        requires delta >= 0, 0 <= c1 <= c2;
    assert(0 <= (2 * delta * c1 + 150_000_000) / 300_000_000) by (nonlinear_arith)
        requires delta >= 0, 0 <= c1;
}

impl StreamingAnimState {
    /// The state is self-consistent: the cached counts describe the target
    /// text and the revealed part is a character prefix of it.
    pub open spec fn is_consistent(&self) -> bool {
        &&& self.target_char_count == self.target_text@.len()
        &&& self.displayed_char_count <= self.target_char_count
        &&& self.displayed_byte_offset == utf8_len(self.target_text@.take(self.displayed_char_count as int))
        &&& self.reveal_base_char <= self.target_char_count
    }

    fn sync_displayed_to_target(&mut self)
        ensures
            final(self).displayed_char_count == old(self).target_char_count,
            final(self).displayed_byte_offset == utf8_len(old(self).target_text@),
            final(self).reveal_base_char == old(self).target_char_count,
            final(self).target_text == old(self).target_text,
            final(self).target_char_count == old(self).target_char_count,
            final(self).last_update_time == old(self).last_update_time,
            final(self).animation_start_time == old(self).animation_start_time,
            final(self).reveal_base_time == old(self).reveal_base_time,
            final(self).display_buffer == old(self).display_buffer,
            final(self).is_live == old(self).is_live,
            final(self).timeline_index == old(self).timeline_index,
    {
        self.displayed_char_count = self.target_char_count;
        self.displayed_byte_offset = self.target_text.as_str().as_bytes().len();
        self.reveal_base_char = self.target_char_count;
    }

    /// A state whose whole `initial_text` is already revealed.
    pub fn new(initial_text: &str, is_live: bool) -> (state: Self)
        requires
            utf8_len(initial_text@) + 4 <= isize::MAX,
        ensures
            state.target_text@ == initial_text@,
            state.target_char_count == initial_text@.len(),
            state.displayed_char_count == initial_text@.len(),
            state.displayed_byte_offset == utf8_len(initial_text@),
            state.reveal_base_char == initial_text@.len(),
            state.display_buffer@ == Seq::<char>::empty(),
            state.is_live == is_live,
            state.timeline_index.is_none(),
            state.last_update_time == state.animation_start_time,
            state.reveal_base_time == state.animation_start_time,
            state.is_consistent(),
    {
        let char_count = initial_text.unicode_len();
        let now = instant_now();
        let mut state = Self {
            target_text: initial_text.to_owned(),
            target_char_count: char_count,
            displayed_char_count: 0,
            displayed_byte_offset: 0,
            last_update_time: now,
            animation_start_time: now,
            display_buffer: string_with_capacity(initial_text.len() + 4),
            is_live,
            timeline_index: None,
            reveal_base_char: 0,
            reveal_base_time: now,
        };
        state.sync_displayed_to_target();
        proof {
            assert(initial_text@.take(initial_text@.len() as int) =~= initial_text@);
        }
        state
    }

    /// A fully revealed state for `new_text` that keeps the animation start
    /// time and timeline index of `previous`.
    pub fn restore(previous: &Self, new_text: &str, is_live: bool) -> (restored: Self)
        requires
            utf8_len(new_text@) + 4 <= isize::MAX,
        ensures
            restored.target_text@ == new_text@,
            restored.target_char_count == new_text@.len(),
            restored.displayed_char_count == new_text@.len(),
            restored.displayed_byte_offset == utf8_len(new_text@),
            restored.reveal_base_char == new_text@.len(),
            restored.display_buffer@ == Seq::<char>::empty(),
            restored.is_live == is_live,
            restored.timeline_index == previous.timeline_index,
            restored.animation_start_time == previous.animation_start_time,
            restored.last_update_time == restored.reveal_base_time,
            restored.is_consistent(),
    {
        let mut restored = Self::new(new_text, is_live);
        restored.animation_start_time = previous.animation_start_time;
        restored.timeline_index = previous.timeline_index;
        restored
    }

    /// Replaces the target snapshot with `new_text`.  A live update that
    /// grows the text keeps the revealed part where it was (clamped to the
    /// new text) and opens a new tween window; any other update reveals the
    /// whole new text at once.
    pub fn update_target(&mut self, new_text: &str, is_live: bool)
        requires
            utf8_len(new_text@) + 4 <= isize::MAX,
        ensures
            final(self).target_text@ == new_text@,
            final(self).target_char_count == new_text@.len(),
            final(self).is_live == is_live,
            final(self).last_update_time == final(self).reveal_base_time,
            final(self).animation_start_time == old(self).animation_start_time,
            final(self).timeline_index == old(self).timeline_index,
            final(self).display_buffer@ == old(self).display_buffer@,
            ({
                let grows = is_live && new_text@.len() > old(self).target_char_count;
                let base = if old(self).displayed_char_count <= new_text@.len() {
                    old(self).displayed_char_count as int
                } else {
                    new_text@.len() as int
                };
                if grows {
                    &&& final(self).reveal_base_char == base
                    &&& final(self).displayed_char_count == base
                    &&& final(self).displayed_byte_offset == utf8_len(new_text@.take(base))
                } else {
                    &&& final(self).reveal_base_char == new_text@.len()
                    &&& final(self).displayed_char_count == new_text@.len()
                    &&& final(self).displayed_byte_offset == utf8_len(new_text@)
                }
            }),
            final(self).is_consistent(),
    {
        let prev_target_char_count = self.target_char_count;
        let previous_displayed = self.displayed_char_count;

        string_clear(&mut self.target_text);
        string_push_str(&mut self.target_text, new_text);
        self.target_char_count = new_text.unicode_len();
        self.is_live = is_live;

        let now = instant_now();
        self.last_update_time = now;

        let needed = new_text.len() + 4;
        let capacity = string_capacity(&self.display_buffer);
        if capacity < needed {
            let additional = needed - self.display_buffer.as_str().len();
            string_reserve(&mut self.display_buffer, additional);
        }
        proof {
            assert(self.target_text@ =~= new_text@);
            assert(new_text@.take(new_text@.len() as int) =~= new_text@);
        }

        let is_growth = is_live && self.target_char_count > prev_target_char_count;
        if is_growth {
            // Keep displayed at its current position and open a fresh tween
            // window; the byte offset is recomputed for the new text.
            self.reveal_base_char = if previous_displayed < self.target_char_count {
                previous_displayed
            } else {
                self.target_char_count
            };
            self.reveal_base_time = now;
            self.displayed_char_count = self.reveal_base_char;
            self.displayed_byte_offset = char_boundary_offset(self.target_text.as_str(), self.reveal_base_char);
        } else {
            // Finished edit or non-growing live update: sync immediately.
            self.sync_displayed_to_target();
            self.reveal_base_time = now;
        }
    }

    /// Reveals up to `chars_to_add` more characters, starting at the
    /// character boundary `displayed_byte_offset`, clamped to the cached
    /// target character count.
    pub fn advance_displayed(&mut self, chars_to_add: usize)
        requires
            is_char_boundary(encode_utf8(old(self).target_text@), old(self).displayed_byte_offset as int),
            chars_to_add > 0 && old(self).displayed_char_count < old(self).target_char_count ==>
                old(self).displayed_char_count + chars_walked(
                    old(self).target_text@,
                    char_index_at(old(self).target_text@, old(self).displayed_byte_offset as int),
                    chars_to_add as int,
                ) <= usize::MAX,
        ensures
            ({
                let s = old(self).target_text@;
                let j = char_index_at(s, old(self).displayed_byte_offset as int);
                let walked = chars_walked(s, j, chars_to_add as int);
                let count = old(self).displayed_char_count + walked;
                if chars_to_add == 0 || old(self).displayed_char_count >= old(self).target_char_count {
                    *final(self) == *old(self)
                } else {
                    &&& final(self).displayed_char_count == (if count < old(self).target_char_count {
                        count
                    } else {
                        old(self).target_char_count as int
                    })
                    &&& final(self).displayed_byte_offset == utf8_len(s.take(j + walked))
                    &&& final(self).target_text == old(self).target_text
                    &&& final(self).target_char_count == old(self).target_char_count
                    &&& final(self).reveal_base_char == old(self).reveal_base_char
                    &&& final(self).display_buffer == old(self).display_buffer
                    &&& final(self).is_live == old(self).is_live
                    &&& final(self).timeline_index == old(self).timeline_index
                    &&& final(self).last_update_time == old(self).last_update_time
                    &&& final(self).animation_start_time == old(self).animation_start_time
                    &&& final(self).reveal_base_time == old(self).reveal_base_time
                }
            }),
            old(self).is_consistent() ==> final(self).is_consistent(),
    {
        if chars_to_add == 0 || self.displayed_char_count >= self.target_char_count {
            return;
        }
        let ghost s = self.target_text@;
        proof {
            lemma_char_boundary_iff_char_offset(s, self.displayed_byte_offset as int);
        }
        let ghost j = char_index_at(s, self.displayed_byte_offset as int);
        let (actual_chars, new_offset) = walk_chars(
            self.target_text.as_str(),
            self.displayed_byte_offset,
            chars_to_add,
            Ghost(j),
        );
        proof {
            lemma_utf8_len_take_mono(s, j + actual_chars, s.len() as int);
            assert(s.take(s.len() as int) =~= s);
        }
        let count = self.displayed_char_count + actual_chars;
        self.displayed_char_count = if count < self.target_char_count {
            count
        } else {
            self.target_char_count
        };
        // `new_offset` never passes the end of the text.
        self.displayed_byte_offset = new_offset;
        proof {
            if old(self).is_consistent() {
                lemma_utf8_len_take_injective(s, j, old(self).displayed_char_count as int);
            }
        }
    }

    /// Advances the tween by the time elapsed since the tween window opened
    /// (as the clock reads it).  Returns whether any more characters were
    /// revealed.
    pub fn tick(&mut self) -> (changed: bool)
        requires
            old(self).is_consistent(),
        ensures
            exists|elapsed: int| elapsed >= 0 && #[trigger] Self::tick_step(*old(self), elapsed, *final(self), changed),
            final(self).is_consistent(),
            final(self).target_text == old(self).target_text,
            final(self).reveal_base_char == old(self).reveal_base_char,
            final(self).is_live == old(self).is_live,
            old(self).displayed_char_count <= final(self).displayed_char_count,
            changed <==> old(self).displayed_char_count < final(self).displayed_char_count,
    {
        let elapsed = instant_elapsed(&self.reveal_base_time);
        self.tick_with_elapsed(elapsed)
    }

    /// Advances the tween to its position `elapsed_since_reveal` after the
    /// window opened; see [`Self::tick_with_elapsed_nanos`].
    pub fn tick_with_elapsed(&mut self, elapsed_since_reveal: Duration) -> (changed: bool)
        requires
            old(self).is_consistent(),
        ensures
            Self::tick_step(*old(self), duration_nanos(elapsed_since_reveal) as int, *final(self), changed),
            final(self).is_consistent(),
            final(self).target_text == old(self).target_text,
            final(self).reveal_base_char == old(self).reveal_base_char,
            final(self).is_live == old(self).is_live,
            old(self).displayed_char_count <= final(self).displayed_char_count,
            changed <==> old(self).displayed_char_count < final(self).displayed_char_count,
    {
        let nanos = duration_as_nanos(&elapsed_since_reveal);
        self.tick_with_elapsed_nanos(nanos)
    }

    /// One tween step `elapsed` nanoseconds after the window opened: the
    /// revealed count moves forward to the tween position when that lies
    /// ahead of it, and nothing else changes.
    pub open spec fn tick_step(old: Self, elapsed: int, new: Self, changed: bool) -> bool {
        let pos = tween_position(old.reveal_base_char as int, old.target_char_count as int, elapsed);
        if old.displayed_char_count >= old.target_char_count || pos <= old.displayed_char_count {
            !changed && new == old
        } else {
            &&& changed
            &&& new.displayed_char_count == pos
            &&& new.displayed_byte_offset == utf8_len(old.target_text@.take(pos))
            &&& new.target_text == old.target_text
            &&& new.target_char_count == old.target_char_count
            &&& new.reveal_base_char == old.reveal_base_char
            &&& new.display_buffer == old.display_buffer
            &&& new.is_live == old.is_live
            &&& new.timeline_index == old.timeline_index
            &&& new.last_update_time == old.last_update_time
            &&& new.animation_start_time == old.animation_start_time
            &&& new.reveal_base_time == old.reveal_base_time
        }
    }

    /// Advances the tween to its position `elapsed_nanos` after the window
    /// opened.  Returns whether any more characters were revealed.
    pub fn tick_with_elapsed_nanos(&mut self, elapsed_nanos: u128) -> (changed: bool)
        requires
            old(self).is_consistent(),
        ensures
            Self::tick_step(*old(self), elapsed_nanos as int, *final(self), changed),
            final(self).is_consistent(),
            final(self).target_text == old(self).target_text,
            final(self).reveal_base_char == old(self).reveal_base_char,
            final(self).is_live == old(self).is_live,
            old(self).displayed_char_count <= final(self).displayed_char_count,
            changed <==> old(self).displayed_char_count < final(self).displayed_char_count,
    {
        if self.displayed_char_count >= self.target_char_count {
            return false;
        }
        let e: u128 = if elapsed_nanos < TWEEN_DURATION_NANOS { elapsed_nanos } else { TWEEN_DURATION_NANOS };
        let delta: usize = if self.target_char_count > self.reveal_base_char {
            self.target_char_count - self.reveal_base_char
        } else {
            0
        };
        proof {
            assert(2 * (delta as int) * (e as int) <= 2 * (usize::MAX as int) * 150_000_000) by (nonlinear_arith)
                requires delta <= usize::MAX, e <= 150_000_000;
        }
        let step: u128 = (2 * (delta as u128) * e + TWEEN_DURATION_NANOS) / (2 * TWEEN_DURATION_NANOS);
        proof {
            assert(step <= delta) by (nonlinear_arith)
                requires
                    step == (2 * (delta as int) * (e as int) + 150_000_000) / 300_000_000,
                    e <= 150_000_000,
                    delta >= 0;
        }
        let target_displayed: usize = if (self.reveal_base_char as u128) + step < (self.target_char_count as u128) {
            self.reveal_base_char + step as usize
        } else {
            self.target_char_count
        };

        if target_displayed <= self.displayed_char_count {
            return false;
        }

        let advance = target_displayed - self.displayed_char_count;
        let ghost s = self.target_text@;
        proof {
            lemma_char_boundary_iff_char_offset(s, self.displayed_byte_offset as int);
            let j = char_index_at(s, self.displayed_byte_offset as int);
            lemma_utf8_len_take_injective(s, j, self.displayed_char_count as int);
        }
        self.advance_displayed(advance);
        true
    }

    /// Shows the revealed prefix followed by a cursor in `display_buffer`.
    pub fn fill_display_buffer(&mut self)
        requires
            is_char_boundary(encode_utf8(old(self).target_text@), old(self).displayed_byte_offset as int),
        ensures
            final(self).display_buffer@ == displayed_text_with_cursor(
                old(self).target_text@,
                old(self).displayed_byte_offset as int,
            ),
            final(self).target_text == old(self).target_text,
            final(self).target_char_count == old(self).target_char_count,
            final(self).displayed_char_count == old(self).displayed_char_count,
            final(self).displayed_byte_offset == old(self).displayed_byte_offset,
            final(self).reveal_base_char == old(self).reveal_base_char,
            final(self).is_live == old(self).is_live,
            final(self).timeline_index == old(self).timeline_index,
            final(self).last_update_time == old(self).last_update_time,
            final(self).animation_start_time == old(self).animation_start_time,
            final(self).reveal_base_time == old(self).reveal_base_time,
    {
        string_clear(&mut self.display_buffer);
        let ghost s = self.target_text@;
        proof {
            encode_utf8_valid_utf8(s);
            lemma_char_boundary_iff_char_offset(s, self.displayed_byte_offset as int);
            let j = char_index_at(s, self.displayed_byte_offset as int);
            lemma_prefix_before_byte(s, j);
        }
        let (prefix, _) = self.target_text.as_str().split_at(self.displayed_byte_offset);
        proof {
            let j = char_index_at(s, self.displayed_byte_offset as int);
            assert(prefix.spec_bytes() == encode_utf8(s.take(j)));
            encode_utf8_decode_utf8(prefix@);
            encode_utf8_decode_utf8(s.take(j));
        }
        string_push_str(&mut self.display_buffer, prefix);
        let cursor = " \u{25CF}";
        proof {
            reveal_strlit(" \u{25CF}");
        }
        string_push_str(&mut self.display_buffer, cursor);
    }

    /// Whether the revealed part still trails the target.
    pub fn needs_frame(&self) -> (needs: bool)
        ensures
            needs == (self.displayed_char_count < self.target_char_count),
    {
        self.displayed_char_count < self.target_char_count
    }

    /// Streaming is complete when the live field is absent and all text has been revealed.
    pub fn is_complete(&self) -> (complete: bool)
        ensures
            complete == (self.displayed_char_count >= self.target_char_count && !self.is_live),
    {
        !self.needs_frame() && !self.is_live
    }

    /// How long the stream may stay unchanged: a live stream may stall for
    /// five minutes, a finished one is dropped after thirty seconds.
    pub fn timeout_after(&self) -> (timeout: Duration)
        ensures
            duration_nanos(timeout) == Self::timeout_nanos(self.is_live),
    {
        if self.is_live {
            duration_from_secs(LIVE_STREAM_STALL_TIMEOUT_SECS)
        } else {
            duration_from_secs(FINISHED_STREAM_TIMEOUT_SECS)
        }
    }

    pub open spec fn timeout_nanos(is_live: bool) -> int {
        if is_live {
            LIVE_STREAM_STALL_TIMEOUT_SECS as int * 1_000_000_000
        } else {
            FINISHED_STREAM_TIMEOUT_SECS as int * 1_000_000_000
        }
    }

    /// Whether the time since the last update (as the clock reads it)
    /// exceeds the timeout.
    pub fn is_timed_out(&self) -> (timed_out: bool)
        ensures
            exists|elapsed: Duration| timed_out == (#[trigger] duration_nanos(elapsed) > Self::timeout_nanos(self.is_live)),
    {
        let elapsed = instant_elapsed(&self.last_update_time);
        self.is_timed_out_after(&elapsed)
    }

    /// Whether `elapsed_since_update` exceeds the timeout for this stream.
    pub fn is_timed_out_after(&self, elapsed_since_update: &Duration) -> (timed_out: bool)
        ensures
            timed_out == (duration_nanos(*elapsed_since_update) > Self::timeout_nanos(self.is_live)),
    {
        let timeout = self.timeout_after();
        duration_as_nanos(elapsed_since_update) > duration_as_nanos(&timeout)
    }
}

} // verus!
