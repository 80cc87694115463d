# zeta

An edit-completion engine for a code editor, written and verified in Verus.

The engine follows what the user does, tells a language model about it, and turns the model's
answer into edits of the buffer under the cursor.

- `src/` is the verified library. `zeta.rs` is the engine, `history.rs` what it remembers,
  `event.rs`, `hunk.rs` and `excerpt.rs` what the model is shown, `chat.rs`, `diff.rs` and
  `completion.rs` the way from an answer to edits, `provider.rs` the completion on offer in an
  editor. `buffer.rs`, `rows.rs`, `text.rs`, `pattern.rs` and `path.rs` are about buffers, strings
  and paths. `tasks.rs` and `thread_history.rs` serve two panels of the editor. `laws.rs` and
  `trace.rs` state what holds of the parts together.
- `tests/` runs the library on concrete values.
- `app/` is ordinary Rust around the library: the environment, the service, the timer, the panels.

Offsets into a buffer are byte offsets into its UTF-8 text. The edits between two states of a
buffer come from the editor, which keeps the history of the buffer.
