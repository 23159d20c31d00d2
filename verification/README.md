# League Director

A director's desk for the League of Legends Replay API: it finds League
installs, switches the Replay API on in `game.cfg`, asks the League Client
to watch a `.rofl`, waits for the game and its API, and drives playback,
camera keyframes, looks and recordings.

The decisions and text handling of the desk live in a library verified
with Verus; the window, the HTTP calls and the file system stay in an
ordinary Rust program around it.

## Layout

- `src/` — the verified library (`league_director`):
  - `text`, `paths`: string and Unix path operations with their specifications;
  - `config_text`: reading and writing `EnableReplayApi` in `game.cfg` text;
  - `bindings`, `binding_map`: actions, chords, key codes and the user's binding table;
  - `detect`, `lcu`, `media`, `looks`, `settings`: install, lockfile, replay,
    capture, look and settings paths and lists;
  - `handshake`, `desk`, `hotkeys`, `edits`: the waiting loop, the desk's link
    state, global hotkeys and undo history.
- `tests/` — tests of the library.
- `app/` — the desk program (egui window, Replay API and LCU clients, file
  and process access), which calls the library.
