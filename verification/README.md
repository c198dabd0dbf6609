# termojinal (verified core)

The terminal's logic, written in Verus with its contracts proved:

- `src/csi.rs`, `src/osc.rs`, `src/dcs.rs`, `src/control.rs`, `src/sgr.rs`:
  what each escape sequence, control character and SGR code asks of the
  terminal (cursor moves, modes, replies, clipboard, hyperlinks, shell marks,
  keyboard flags, saved cursors, tab stops, the pen).
- `src/cursor.rs`: where the cursor goes after each of those (clamping,
  the scrolling region and its homing, origin mode, back tabs, line feeds
  at the bottom margin).
- `src/print.rs`, `src/screen.rs`: where a printed character goes
  (wrapping, wide characters), how it is written into a row of cells, line
  erasing, and the main and alternate screens.
- `src/terminal.rs`: the terminal state those handlers compose into:
  cursor, pen, saved cursors, tab stops, queued replies, keyboard flags,
  title and working directory, OSC 133 marks and command history, the
  scroll count, placed images (iTerm2, Sixel), soft fonts, and the
  clipboard and file requests waiting for the front end.
- `src/command.rs`, `src/history.rs`: OSC 133 command records and the jumps
  between commands in the scrollback.
- `src/apc.rs`, `src/kitty.rs`, `src/iterm2.rs`, `src/sixel.rs`,
  `src/image_store.rs`, `src/drcs.rs`: inline images and soft fonts.
- `src/tab_title.rs`, `src/status_line.rs`, `src/notification.rs`,
  `src/ipc.rs`, `src/pty.rs`, `src/process_info.rs`: the front end's text
  values, the daemon's replies and the PTY settings.
- `src/codec.rs`, `src/width.rs`: the calls into `base64` and
  `unicode-width`, behind contracts.

Each module states its laws (invariants kept by every operation, what one
call undoes) as public proof functions.

`app/` holds what Verus does not see: spawning and driving the PTY, raw
mode, configuration files, notifications through `osascript`, and process
probes. `tests/` runs the library on concrete inputs.
