use music_player::paths::{file_stem, get_music_files, is_music_file_name, music_files_in, stem_or_empty};

fn strings(v: &[&str]) -> Vec<String> {
    v.iter().map(|s| s.to_string()).collect()
}

#[test]
fn stem_of_a_track() {
    assert_eq!(file_stem("/music/song.mp3"), Some("song".to_string()));
    assert_eq!(file_stem("album/b.tar.gz"), Some("b.tar".to_string()));
    assert_eq!(file_stem("noext"), Some("noext".to_string()));
}

#[test]
fn stem_of_a_hidden_file_is_its_name() {
    assert_eq!(file_stem("/home/u/.bashrc"), Some(".bashrc".to_string()));
    assert_eq!(file_stem("..x"), Some(".".to_string()));
}

#[test]
fn stem_of_a_folder_path() {
    assert_eq!(file_stem("music/rock/"), Some("rock".to_string()));
    assert_eq!(file_stem("music/rock/."), Some("rock".to_string()));
}

#[test]
fn no_stem_without_a_file_name() {
    assert_eq!(file_stem("/"), None);
    assert_eq!(file_stem("a/.."), None);
    assert_eq!(file_stem(""), None);
    assert_eq!(stem_or_empty("/"), "");
    assert_eq!(stem_or_empty("/x/y.wav"), "y");
}

#[test]
fn music_names() {
    assert!(is_music_file_name(&"a.mp3".to_string()));
    assert!(is_music_file_name(&"a.b.flac".to_string()));
    assert!(is_music_file_name(&"wav".to_string()));
    assert!(!is_music_file_name(&"a.MP3".to_string()));
    assert!(!is_music_file_name(&"a.mp3.txt".to_string()));
    assert!(!is_music_file_name(&"mp3.".to_string()));
}

#[test]
fn music_files_are_kept_in_order() {
    let paths = strings(&["/m", "/m/a.mp3", "/m/b.txt", "/m/sub", "/m/sub/c.flac", "/m/d.wav", "/m/e.MP3", "/m/wav"]);
    assert_eq!(get_music_files(paths), strings(&["/m/a.mp3", "/m/sub/c.flac", "/m/d.wav", "/m/wav"]));
}

#[test]
fn music_files_in_needs_file_names() {
    assert_eq!(music_files_in(strings(&["/", "/a.mp3"])), None);
    assert_eq!(music_files_in(strings(&["/m", "/m/a.mp3"])), Some(strings(&["/m/a.mp3"])));
    assert_eq!(music_files_in(strings(&[])), Some(strings(&[])));
}
