# smart_clipboard

The verified core of a clipboard-history app: it classifies copied text
(color, url, JSON and other code, plain text), flags secrets (one-time codes,
card numbers, passwords and keys), builds single-line previews, applies the
Power-Paste transforms, and keeps a bounded, newest-first history with
duplicate suppression.

- `src/` is the library, proved with Verus. `text` holds the character-level
  building blocks, `detect` the classification and secret detection,
  `commands` the transforms and history commands, `clipboard` the history
  state and the watcher's capture decisions, `models` the clip data.
  `patterns`, `json`, `digest` and `clock` call `regex`, `serde_json`,
  `sha2`/`base64`/`image` and `chrono` behind stated contracts.
- `app/` is the Tauri shell: commands, tray, shortcut and the polling thread
  that reads the OS clipboard and hands what it reads to the library.
- `tests/` runs the library on concrete inputs.
