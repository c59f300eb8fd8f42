# robrix

The logic behind the home and room screens of Robrix, a Matrix chat client:
translations, the space lobby's tree of rooms and subspaces, message search,
the threads and room-info panes, the timeline's update passes and the HTML it
shows for each kind of message, streaming text animation, and the small
state machines of the widgets. Verus proves the contract of every function
in `src/`; the trusted calls into outside code stand in `html.rs`,
`text.rs`, `i18n.rs` and `streaming_animation.rs`.

Layout:

- `src/` — the verified library, one module per screen or concern
  (`space_tree`, `space_lobby`, `timeline_updates`, `message_content`, ...).
  `html.rs` and parts of `text.rs`, `i18n.rs` and `streaming_animation.rs`
  hold the trusted calls into `htmlize`, `serde_json` and `std`.
- `tests/` — tests of the library on concrete values.
- `app/` — what the UI keeps: the persisted language setting (serde), loading
  the translation files, per-thread flags, and computations on floating-point
  sizes and durations.
