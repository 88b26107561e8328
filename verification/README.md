# rhythm_game

A two-lane rhythm game. The library in `src/` holds the game's rules, each
function with a contract proved by Verus:

- `beatmap`: notes, beatmaps, and ordering notes by time.
- `input`: the key codes of macOS and Windows mapped to one set of keys.
- `data`: key bindings and the default settings.
- `tween`: animations that run from their first reading to a fixed end.
- `state/playing`: judging presses against notes, scoring, accuracy, and the
  update of a song being played (inputs, judgements shown on screen, notes
  coming on screen and notes missed).
- `state/results`, `state/song_select`, `state/main_menu`, `state/editor`:
  the decisions of the other screens, and the editor's note timeline.
- `update`: the moves between screens.

`app/` is the program around it: the window and drawing, audio, file
dialogs, reading and writing RON files, the keyboard hooks, and the threads
that pass events and render data between them.
