use music_player::playlist::Playlist;
use music_player::text::split_lines;

fn strings(v: &[&str]) -> Vec<String> {
    v.iter().map(|s| s.to_string()).collect()
}

#[test]
fn new_playlist_is_empty() {
    let p = Playlist::new("mix");
    assert_eq!(p.get_name(), "mix");
    assert!(p.get_music_files().is_empty());
    assert!(!p.has_location());
}

#[test]
fn set_name_names_the_file_only_when_it_has_none() {
    let mut p = Playlist::new("");
    p.set_name("road");
    assert_eq!(p.get_name(), "road");
    let (path, _) = p.save(Some("/tmp".to_string())).unwrap();
    assert_eq!(path, "/tmp/road");

    let mut q = Playlist::new("first");
    q.set_name("second");
    assert_eq!(q.get_name(), "second");
    let (path, text) = q.save(Some("/d".to_string())).unwrap();
    assert_eq!(path, "/d/first");
    assert_eq!(text, "second\n");
}

#[test]
fn add_skips_the_same_path() {
    let mut p = Playlist::new("mix");
    p.add("a/b.mp3".to_string());
    p.add("a/b.mp3".to_string());
    p.add("a//b.mp3".to_string());
    p.add("a/b.mp3/".to_string());
    assert_eq!(p.get_music_files(), strings(&["a/b.mp3"]));
    p.add("./a/b.mp3".to_string());
    assert_eq!(p.get_music_files(), strings(&["a/b.mp3", "./a/b.mp3"]));
}

#[test]
fn remove_takes_the_first_exact_match() {
    let mut p = Playlist::new("mix");
    p.add("/x.mp3".to_string());
    p.add("/y.mp3".to_string());
    p.remove("/x.mp3".to_string());
    assert_eq!(p.get_music_files(), strings(&["/y.mp3"]));
    p.remove("//y.mp3".to_string());
    assert_eq!(p.get_music_files(), strings(&["/y.mp3"]));
    p.remove("/z.mp3".to_string());
    assert_eq!(p.get_music_files(), strings(&["/y.mp3"]));
}

#[test]
fn remove_undoes_add() {
    let mut p = Playlist::new("mix");
    p.add("/x.mp3".to_string());
    p.add("/new.flac".to_string());
    p.remove("/new.flac".to_string());
    assert_eq!(p.get_music_files(), strings(&["/x.mp3"]));
}

#[test]
fn save_needs_a_folder() {
    let mut p = Playlist::new("mix");
    assert_eq!(p.save(None), None);
    assert!(!p.has_location());
    let first = p.save(Some("/music".to_string()));
    assert!(p.has_location());
    assert_eq!(first, Some(("/music/mix".to_string(), "mix\n".to_string())));
    let again = p.save(Some("/elsewhere".to_string()));
    assert_eq!(again, Some(("/music/mix".to_string(), "mix\n".to_string())));
}

#[test]
fn saved_text_lists_the_tracks() {
    let mut p = Playlist::new("mix");
    p.add("/a.mp3".to_string());
    p.add("/b c.wav".to_string());
    let (_, text) = p.save(Some("/m".to_string())).unwrap();
    assert_eq!(text, "mix\n/a.mp3\n/b c.wav\n");
}

#[test]
fn save_then_load_gives_the_playlist_back() {
    let mut p = Playlist::new("mix");
    p.add("/a.mp3".to_string());
    p.add("/b.flac".to_string());
    let (_, text) = p.save(Some("/m".to_string())).unwrap();
    let lines = split_lines(&text);
    assert_eq!(lines.len(), 4);
    let flags = vec![false, true, true, false];
    let q = Playlist::load("/m".to_string(), "mix".to_string(), &text, flags);
    assert_eq!(q.get_name(), "mix");
    assert_eq!(q.get_music_files(), strings(&["/a.mp3", "/b.flac"]));
    assert!(q.has_location());
}

#[test]
fn load_keeps_only_existing_files() {
    let text = "list\n/gone.mp3\n/here.mp3\n/here.mp3\n";
    let q = Playlist::load("/d".to_string(), "f".to_string(), text, vec![true, false, true, true, false]);
    assert_eq!(q.get_name(), "list");
    assert_eq!(q.get_music_files(), strings(&["/here.mp3", "/here.mp3"]));
}

#[test]
fn load_of_an_empty_file() {
    let q = Playlist::load("/d".to_string(), "f".to_string(), "", vec![false]);
    assert_eq!(q.get_name(), "");
    assert!(q.get_music_files().is_empty());
}

#[test]
fn stem_list_joins_the_names() {
    let mut p = Playlist::new("mix");
    assert_eq!(p.stem_list(), "");
    p.add("/a/x.mp3".to_string());
    p.add("/b/y.z.flac".to_string());
    p.add("/".to_string());
    assert_eq!(p.stem_list(), "x y.z ");
}

#[test]
fn save_then_load_keeps_the_tracks_still_there() {
    let mut p = Playlist::new("mix");
    p.add("/a.mp3".to_string());
    p.add("/gone.mp3".to_string());
    p.add("/c.wav".to_string());
    let (_, text) = p.save(Some("/m".to_string())).unwrap();
    let q = Playlist::load("/m".to_string(), "mix".to_string(), &text, vec![false, true, false, true, false]);
    assert_eq!(q.get_name(), "mix");
    assert_eq!(q.get_music_files(), strings(&["/a.mp3", "/c.wav"]));
    let (path, _) = Playlist::load("/m".to_string(), "mix".to_string(), &text, vec![false, true, false, true, false])
        .save(None)
        .unwrap();
    assert_eq!(path, "/m/mix");
}

#[test]
fn remove_keeps_the_order_of_the_others() {
    let mut p = Playlist::new("p");
    for s in ["a", "b", "c", "d"] {
        p.add(s.to_string());
    }
    p.remove("b".to_string());
    assert_eq!(p.get_music_files(), strings(&["a", "c", "d"]));
    p.add("a".to_string());
    assert_eq!(p.get_music_files(), strings(&["a", "c", "d"]));
}

#[test]
fn an_empty_line_never_names_a_file() {
    let q = Playlist::load("/d".to_string(), "f".to_string(), "n\n\n/x.mp3\n", vec![true, true, true, true]);
    assert_eq!(q.get_music_files(), strings(&["/x.mp3"]));
}
