//! The logic of a small desktop music player: the play queue and its
//! navigation, playlists and their file format, and the choice of music
//! files among the files of a folder.

pub mod text;
pub mod paths;
pub mod player;
pub mod playlist;
pub mod sound_state;
pub mod walk;
