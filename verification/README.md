# jetem

A plugin-first terminal emulator whose core logic is verified with Verus.

- `src/` — the library, every function proved against its contract except
  three small wrappers of std calls whose contracts are trusted (the clock,
  UTF-8 decoding, a path's extension): the cell
  grid and its scrollback, the primary/alternate screens, the escape-sequence
  interpreter, OSC 133 command blocks, chord parsing and the plugin key
  registry, the split layout, scrollback search, selection, the recall
  overlay, text panels and tables, the theme, the software painter, and the
  window's input decisions (key routing, key and mouse encoding, bracketed
  paste, host actions).
- `app/` — the program around it: the window and event loop (winit,
  softbuffer), the PTY (portable-pty), font rasterization (fontdue), plugin
  processes and their JSON-RPC messages, configuration and history files,
  and the clipboard.
- `tests/` — tests of the library on concrete values.

Each law the library keeps (what every operation preserves, what one call
undoes) is a public proof function next to the code it speaks of; their
names start with `law_`.
