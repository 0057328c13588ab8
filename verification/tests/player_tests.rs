use music_player::player::{Player, Step};

fn player_with(paths: &[&str]) -> Player {
    let mut p = Player::new();
    for path in paths {
        p.add(path.to_string());
    }
    p
}

fn opened_index(step: &Step) -> Option<usize> {
    match step {
        Step::Open { index, .. } => Some(*index),
        _ => None,
    }
}

#[test]
fn new_player_plays_nothing() {
    let p = Player::new();
    assert_eq!(p.now_playing(), (String::new(), String::new()));
    assert!(p.get_queue().is_empty());
    assert!(!p.get_repeat());
    assert!(p.seek().is_none());
}

#[test]
fn first_skip_opens_the_first_track() {
    let mut p = player_with(&["/m/a.mp3", "/m/b.mp3", "/m/c.mp3"]);
    let step = p.skip();
    match &step {
        Step::Open { path, index } => {
            assert_eq!(path, "/m/a.mp3");
            assert_eq!(*index, 0);
        }
        _ => panic!("expected a track to open"),
    }
    assert_eq!(p.skip_opened(), Some(false));
    assert_eq!(p.now_playing(), ("a".to_string(), "/m/a.mp3".to_string()));
}

#[test]
fn skip_goes_on_past_a_track_that_does_not_open() {
    let mut p = player_with(&["/m/a.mp3", "/m/b.mp3", "/m/c.mp3"]);
    p.skip();
    p.skip_opened();
    assert_eq!(opened_index(&p.skip()), Some(1));
    assert_eq!(opened_index(&p.skip_failed()), Some(2));
    assert_eq!(p.skip_opened(), Some(false));
    assert_eq!(p.now_playing().1, "/m/c.mp3");
}

#[test]
fn skip_at_the_end_stays_without_repeat() {
    let mut p = player_with(&["/m/a.mp3", "/m/b.mp3"]);
    p.skip();
    p.skip_opened();
    p.skip();
    p.skip_opened();
    assert!(matches!(p.skip(), Step::Stay));
    assert_eq!(p.now_playing().0, "b");
}

#[test]
fn skip_failing_at_the_end_gives_up_without_repeat() {
    let mut p = player_with(&["/m/a.mp3", "/m/b.mp3"]);
    p.skip();
    p.skip_opened();
    assert_eq!(opened_index(&p.skip()), Some(1));
    assert!(matches!(p.skip_failed(), Step::Stay));
    assert_eq!(p.now_playing().0, "a");
}

#[test]
fn skip_at_the_end_starts_over_with_repeat() {
    let mut p = player_with(&["/m/a.mp3", "/m/b.mp3"]);
    p.toggle_repeat();
    assert!(p.get_repeat());
    p.skip();
    p.skip_opened();
    p.skip();
    p.skip_opened();
    assert_eq!(opened_index(&p.skip()), Some(0));
}

#[test]
fn coming_back_to_the_playing_track_clears_the_queue() {
    let mut p = player_with(&["/m/only.mp3"]);
    p.toggle_repeat();
    p.skip();
    p.skip_opened();
    assert_eq!(p.now_playing().0, "only");
    assert!(matches!(p.skip(), Step::Reset));
    assert_eq!(p.now_playing(), (String::new(), String::new()));
    assert!(p.seek().is_none());
}

#[test]
fn single_track_does_not_start_without_repeat() {
    let mut p = player_with(&["/m/only.mp3"]);
    assert!(matches!(p.skip(), Step::Stay));
}

#[test]
fn prev_at_the_start() {
    let mut p = player_with(&["/m/a.mp3", "/m/b.mp3", "/m/c.mp3"]);
    assert!(matches!(p.prev(), Step::Stay));
    p.toggle_repeat();
    assert_eq!(opened_index(&p.prev()), Some(2));
    assert_eq!(p.prev_opened(), Some(false));
    assert_eq!(p.now_playing().0, "c");
}

#[test]
fn prev_undoes_skip() {
    let mut p = player_with(&["/m/a.mp3", "/m/b.mp3", "/m/c.mp3"]);
    p.skip();
    p.skip_opened();
    p.skip();
    p.skip_opened();
    assert_eq!(p.now_playing().0, "b");
    assert_eq!(opened_index(&p.prev()), Some(0));
    p.prev_opened();
    assert_eq!(p.now_playing().0, "a");
    assert_eq!(opened_index(&p.skip()), Some(1));
}

#[test]
fn prev_passes_over_the_first_track_after_a_failure() {
    let mut p = player_with(&["/m/a.mp3", "/m/b.mp3", "/m/c.mp3", "/m/d.mp3"]);
    p.skip();
    p.skip_opened();
    p.skip();
    p.skip_opened();
    p.skip();
    p.skip_opened();
    assert_eq!(p.now_playing().0, "c");
    assert_eq!(opened_index(&p.prev()), Some(1));
    assert!(matches!(p.prev_failed(), Step::Stay));
    p.toggle_repeat();
    assert_eq!(opened_index(&p.prev_failed()), Some(3));
}

#[test]
fn prev_coming_back_to_the_playing_track_clears_the_queue() {
    let mut p = player_with(&["/m/a.mp3", "/m/b.mp3", "/m/c.mp3"]);
    p.toggle_repeat();
    p.skip();
    p.skip_opened();
    p.skip();
    p.skip_opened();
    p.skip();
    p.skip_opened();
    assert_eq!(opened_index(&p.prev()), Some(1));
    assert!(matches!(p.prev_failed(), Step::Reset));
    assert!(p.get_queue().is_empty());
}

#[test]
fn upcoming_names() {
    let mut p = player_with(&["/m/a.mp3", "/m/b.mp3", "/m/c.mp3"]);
    assert!(p.get_queue().is_empty());
    p.skip();
    p.skip_opened();
    assert_eq!(p.get_queue(), vec!["a", "b", "c"]);
    p.toggle_repeat();
    assert_eq!(p.get_queue(), vec!["a", "b", "c", "a", "b", "c", "a", "b", "c", "a"]);
}

#[test]
fn upcoming_names_are_at_most_eleven() {
    let names: Vec<String> = (0..15).map(|i| format!("/m/t{}.mp3", i)).collect();
    let refs: Vec<&str> = names.iter().map(|s| s.as_str()).collect();
    let mut p = player_with(&refs);
    p.skip();
    p.skip_opened();
    let q = p.get_queue();
    assert_eq!(q.len(), 11);
    assert_eq!(q[0], "t0");
    assert_eq!(q[10], "t10");
    p.toggle_repeat();
    assert_eq!(p.get_queue().len(), 11);
}

#[test]
fn play_pause_switches() {
    let mut p = Player::new();
    assert_eq!(p.play_pause(), 1);
    assert_eq!(p.play_pause(), 0);
    assert_eq!(p.play_pause(), 1);
    let mut q = player_with(&["/m/a.mp3", "/m/b.mp3"]);
    q.play_pause();
    q.skip();
    assert_eq!(q.skip_opened(), Some(true));
    assert_eq!(q.seek(), Some(("/m/a.mp3".to_string(), true)));
}

#[test]
fn update_moves_on_when_the_sound_ended() {
    let p = Player::new();
    assert!(!p.update(true));
    let q = player_with(&["/m/a.mp3"]);
    assert!(q.update(true));
    assert!(!q.update(false));
}

#[test]
fn reset_clears_the_queue() {
    let mut p = player_with(&["/m/a.mp3", "/m/b.mp3"]);
    p.skip();
    p.skip_opened();
    p.toggle_repeat();
    p.reset();
    assert_eq!(p.now_playing(), (String::new(), String::new()));
    assert!(p.get_queue().is_empty());
    assert!(p.get_repeat());
    assert!(matches!(p.skip(), Step::Stay));
}

#[test]
fn a_track_without_a_name_does_not_play() {
    let mut p = player_with(&["/", "/m/b.mp3"]);
    assert_eq!(opened_index(&p.skip()), Some(0));
    assert_eq!(p.skip_opened(), None);
    assert_eq!(p.now_playing().0, "");
}

#[test]
fn shuffle_keeps_the_tracks_and_follows_the_playing_one() {
    let names: Vec<String> = (0..8).map(|i| format!("/m/t{}.mp3", i)).collect();
    let refs: Vec<&str> = names.iter().map(|s| s.as_str()).collect();
    let mut p = player_with(&refs);
    p.skip();
    p.skip_opened();
    p.skip();
    p.skip_opened();
    assert_eq!(p.now_playing().0, "t1");
    assert!(p.shuffle());
    p.toggle_repeat();
    let mut shown = p.get_queue();
    assert_eq!(shown[0], "t1");
    shown.truncate(8);
    let mut all = shown.clone();
    all.sort();
    let expected: Vec<String> = (0..8).map(|i| format!("t{}", i)).collect();
    assert!(all.iter().all(|n| expected.contains(n)));
    assert_eq!(p.seek().unwrap().0, "/m/t1.mp3");
}

#[test]
fn shuffle_fails_on_a_track_without_a_name() {
    let mut p = player_with(&["/m/a.mp3", "/"]);
    assert!(!p.shuffle());
}

#[test]
fn toggling_repeat_twice_gives_it_back() {
    let mut p = player_with(&["/m/a.mp3"]);
    let before = p.get_repeat();
    p.toggle_repeat();
    assert_ne!(p.get_repeat(), before);
    p.toggle_repeat();
    assert_eq!(p.get_repeat(), before);
}

#[test]
fn a_failed_seek_moves_forward() {
    let mut p = player_with(&["/m/a.mp3", "/m/b.mp3", "/m/c.mp3"]);
    p.skip();
    p.skip_opened();
    assert_eq!(p.seek(), Some(("/m/a.mp3".to_string(), false)));
    assert_eq!(opened_index(&p.seek_failed()), Some(1));
    assert_eq!(p.skip_opened(), Some(false));
    assert_eq!(p.now_playing().0, "b");
    p.skip();
    p.skip_opened();
    assert!(matches!(p.seek_failed(), Step::Stay));
}

#[test]
fn a_failing_forward_move_goes_round_with_repeat() {
    let mut p = player_with(&["/m/a.mp3", "/m/b.mp3", "/m/c.mp3", "/m/d.mp3"]);
    p.toggle_repeat();
    p.skip();
    p.skip_opened();
    p.skip();
    p.skip_opened();
    assert_eq!(opened_index(&p.skip()), Some(2));
    assert_eq!(opened_index(&p.skip_failed()), Some(3));
    assert_eq!(opened_index(&p.skip_failed()), Some(0));
    assert!(matches!(p.skip_failed(), Step::Reset));
}

#[test]
fn a_failing_back_move_goes_round_the_tracks_after_the_first_with_repeat() {
    let mut p = player_with(&["/m/a.mp3", "/m/b.mp3", "/m/c.mp3", "/m/d.mp3"]);
    p.toggle_repeat();
    p.skip();
    p.skip_opened();
    assert_eq!(opened_index(&p.prev()), Some(3));
    assert_eq!(opened_index(&p.prev_failed()), Some(2));
    assert_eq!(opened_index(&p.prev_failed()), Some(1));
    assert_eq!(opened_index(&p.prev_failed()), Some(3));
}
