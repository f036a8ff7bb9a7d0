# audio_player

The decisions of a desktop music player, verified with Verus.

`src/` is the library. Every function in it carries a `requires`/`ensures`
contract that Verus proves:

- `queue` — the play queue: ids, the current track, history, shuffle (the
  queue is reordered in place with the current track first) and the repeat
  modes; `next`, `previous`, `remove`, `reorder` and the rest are stated over
  an abstract `QueueModel`.
- `engine` — what the audio engine does with each command and each clock
  tick, as a function from state and event to the next state and an action
  for the player; and the queue as it is saved between sessions.
- `equalizer` — band gains in hundredths of a decibel, clamped, and the
  presets.
- `library` — which files are audio, the `LIKE` pattern and paging of a track
  search, when a scanned file is read again, which rows are stale after a
  scan, and how the folder watcher collects changed paths.
- `metadata` — titles and tags as they are stored, which embedded picture is
  the cover, and the FNV-1a key of the cover cache.
- `playlist` — moving a track within a playlist, and writing and reading
  extended M3U files.
- `decoder`, `settings` — the stream format that is opened, and the language
  preference.
- `paths`, `text` — the calls into `std::path`, and the text helpers the
  others share.

`app/` is the desktop shell around it (Tauri commands, SQLite, the audio
output thread, the folder watcher and the tag reader); it calls the library
for every decision and is not verified. `tests/` holds the tests of the
library.
