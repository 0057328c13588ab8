use music_player::sound_state::SoundState;

#[test]
fn playing_adds_the_time_since_start() {
    let s = SoundState::new();
    assert_eq!(s.elapsed(100), Some(100));
    assert_eq!(s.get_duration(), 0);
}

#[test]
fn pausing_holds_the_position() {
    let mut s = SoundState::new();
    assert!(s.action(1, 250));
    assert_eq!(s.elapsed(9999), Some(250));
    assert_eq!(s.elapsed(0), Some(250));
    assert!(s.action(0, 0));
    assert_eq!(s.elapsed(50), Some(300));
}

#[test]
fn opening_sets_position_and_length() {
    let mut s = SoundState::new();
    s.opened(1000, 5000);
    assert_eq!(s.get_duration(), 5000);
    assert_eq!(s.elapsed(20), Some(1020));
}

#[test]
fn stop_changes_nothing_here() {
    let mut s = SoundState::new();
    s.opened(7, 9);
    assert!(s.action(2, 100));
    assert!(s.action(5, 100));
    assert_eq!(s.elapsed(0), Some(7));
}

#[test]
fn time_is_cut_to_32_bits() {
    let s = SoundState::new();
    assert_eq!(s.elapsed((1u128 << 32) + 5), Some(5));
}

#[test]
fn overflow_is_reported() {
    let mut s = SoundState::new();
    s.opened(u32::MAX, 0);
    assert_eq!(s.elapsed(1), None);
    assert!(!s.action(1, 1));
    assert_eq!(s.elapsed(0), Some(u32::MAX));
    assert!(s.action(1, 0));
    assert_eq!(s.elapsed(1), Some(u32::MAX));
}
