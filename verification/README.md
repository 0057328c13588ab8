# music_player

The logic of a small desktop music player, verified with Verus.

- `src/player.rs`: the play queue. Moves forward and back are state
  machines: each asks the caller to open a track and is told whether it
  opened.
- `src/playlist.rs`: playlists, their text format, saving and reading back.
- `src/paths.rs`: file names and stems of tracks, and which files are music.
- `src/sound_state.rs`: a sound's position, pause state and length.
- `src/walk.rs`: the order in which a folder tree is walked.
- `src/text.rs`: characters, lines, and the split/join of lines.
- `app/`: the window (egui/eframe), file dialogs (rfd), audio output (rodio),
  track lengths (lofty) and disk access.
