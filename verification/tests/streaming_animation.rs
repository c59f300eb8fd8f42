use robrix::streaming_animation::{StreamingAnimState, TWEEN_DURATION_NANOS};
use std::time::{Duration, Instant};

fn make_state(text: &str) -> StreamingAnimState {
    StreamingAnimState::new(text, true)
}

fn tween_duration() -> Duration {
    Duration::from_nanos(TWEEN_DURATION_NANOS as u64)
}

#[test]
fn test_advance_ascii() {
    let mut s = StreamingAnimState::new("Hello, world!", true);
    s.displayed_char_count = 0;
    s.displayed_byte_offset = 0;
    s.advance_displayed(5);
    assert_eq!(s.displayed_char_count, 5);
    assert_eq!(&s.target_text[..s.displayed_byte_offset], "Hello");
}

#[test]
fn test_advance_utf8_multibyte() {
    let mut s = StreamingAnimState::new("你好世界abcd", true);
    s.displayed_char_count = 0;
    s.displayed_byte_offset = 0;
    s.advance_displayed(2);
    assert_eq!(s.displayed_char_count, 2);
    assert_eq!(&s.target_text[..s.displayed_byte_offset], "你好");
}

#[test]
fn test_advance_clamps_at_end() {
    let mut s = StreamingAnimState::new("abc", true);
    s.displayed_char_count = 0;
    s.displayed_byte_offset = 0;
    s.advance_displayed(100);
    assert_eq!(s.displayed_char_count, 3);
    assert_eq!(s.displayed_byte_offset, 3);
}

#[test]
fn test_new_state_starts_fully_visible() {
    let s = make_state("Hello");
    assert_eq!(s.displayed_char_count, s.target_char_count);
    assert_eq!(s.displayed_byte_offset, s.target_text.len());
    assert!(!s.needs_frame());
}

#[test]
fn test_update_target_live_growth_defers_sync_via_tween() {
    let mut s = make_state("Hello");
    // Sanity: new() already synced displayed to the first target.
    assert_eq!(s.displayed_char_count, s.target_char_count);

    let displayed_before = s.displayed_char_count;
    s.update_target("Hello, world!", true);

    // Growth path must NOT sync displayed; it should stay at the previous
    // target so tick_with_elapsed can interpolate toward the new target.
    assert_eq!(s.displayed_char_count, displayed_before);
    assert_eq!(s.reveal_base_char, displayed_before);
    assert!(s.displayed_char_count < s.target_char_count);
    assert!(s.needs_frame());
}

#[test]
fn test_update_target_live_false_syncs_immediately() {
    let mut s = make_state("Hello");
    // Force a mid-tween state to prove the sync still happens.
    s.displayed_char_count = 1;
    s.displayed_byte_offset = 1;

    s.update_target("Hello, world!", false);

    assert_eq!(s.displayed_char_count, s.target_char_count);
    assert_eq!(s.displayed_byte_offset, s.target_text.len());
    assert!(!s.needs_frame());
}

#[test]
fn test_tick_interpolates_displayed_toward_target() {
    let mut s = make_state("Hello");
    s.update_target(&"a".repeat(100), true);
    // Sanity: growth path sets up the tween.
    assert_eq!(s.reveal_base_char, 5);
    assert_eq!(s.target_char_count, 100);

    let changed = s.tick_with_elapsed(tween_duration() / 2);

    assert!(changed);
    // Halfway through the tween should reveal ~half of the 95-char
    // delta (5 base + ~47 revealed = ~52).
    assert!(s.displayed_char_count >= 50);
    assert!(s.displayed_char_count <= 54);
    assert!(s.displayed_char_count < s.target_char_count);
    assert!(s.needs_frame());
}

#[test]
fn test_tick_completes_tween_at_full_duration() {
    let mut s = make_state("Hello");
    s.update_target(&"a".repeat(100), true);

    let changed = s.tick_with_elapsed(tween_duration());

    assert!(changed);
    assert_eq!(s.displayed_char_count, s.target_char_count);
    assert!(!s.needs_frame());
}

#[test]
fn test_tick_noop_when_displayed_already_caught_up() {
    let mut s = make_state("Hello");
    // new() already synced displayed to target.
    assert_eq!(s.displayed_char_count, s.target_char_count);

    let before = s.displayed_char_count;
    let changed = s.tick_with_elapsed(Duration::from_secs(1));

    assert!(!changed);
    assert_eq!(s.displayed_char_count, before);
    assert!(!s.needs_frame());
}

#[test]
fn test_update_target_shrinks_safely() {
    let mut s = make_state("Hello, world!");
    s.update_target("Hi", true);
    assert_eq!(s.displayed_char_count, 2);
    assert_eq!(s.displayed_byte_offset, 2);
    s.fill_display_buffer();
    assert!(s.display_buffer.starts_with("Hi"));
}

#[test]
fn test_update_target_recalculates_byte_offset_for_different_prefix() {
    let mut s = make_state("hello world");
    s.update_target("你好世界测试数据", true);
    assert_eq!(s.displayed_char_count, 8);
    assert_eq!(s.displayed_byte_offset, s.target_text.len());
    s.fill_display_buffer();
    assert!(s.display_buffer.starts_with("你好世界测试数据"));
}

#[test]
fn test_tick_does_not_advance_without_local_typewriter() {
    let mut s = make_state("Hello, world!");
    let before = s.displayed_char_count;
    let changed = s.tick_with_elapsed(Duration::from_secs(1));
    assert!(!changed);
    assert_eq!(s.displayed_char_count, before);
}

#[test]
fn test_fill_display_buffer_appends_cursor_to_full_snapshot() {
    let mut s = make_state("Hello");
    s.fill_display_buffer();
    assert!(s.display_buffer.starts_with("Hello"));
    assert!(s.display_buffer.ends_with(" \u{25CF}"));
}

#[test]
fn test_is_complete_msc4357() {
    let mut s = make_state("Hi");
    assert!(!s.is_complete());
    s.is_live = false;
    assert!(s.is_complete());
}

#[test]
fn test_update_target_sets_live() {
    let mut s = make_state("Hello");
    assert!(s.is_live);
    s.update_target("Hello, world!", false);
    assert!(!s.is_live);
}

#[test]
fn test_restore_tracks_latest_full_snapshot() {
    let prev = make_state("Hello, world!");
    let restored = StreamingAnimState::restore(&prev, "Hello, world!!!", true);
    assert_eq!(restored.displayed_char_count, restored.target_char_count);
    assert_eq!(restored.displayed_byte_offset, restored.target_text.len());
}

#[test]
fn test_timeout_split_by_live_state() {
    let mut live = make_state("Hello");
    live.last_update_time = Instant::now() - Duration::from_secs(31);
    assert!(!live.is_timed_out());

    let mut finished = make_state("Hello");
    finished.is_live = false;
    finished.last_update_time = Instant::now() - Duration::from_secs(31);
    assert!(finished.is_timed_out());
}

#[test]
fn test_tick_zero_elapsed() {
    let mut s = make_state("Hello");
    assert!(!s.tick_with_elapsed(Duration::ZERO));
    assert_eq!(s.displayed_char_count, s.target_char_count);
}

#[test]
fn test_finished_stream_is_complete_without_extra_frames() {
    let mut s = make_state(&"a".repeat(30));
    s.is_live = false;
    assert!(s.is_complete());
    assert!(!s.tick_with_elapsed(Duration::from_secs(1)));
}
