use music_player::walk::{FileIterator, Listed};

#[test]
fn walk_lists_folders_last_found_first() {
    let mut w = FileIterator::from("/r");
    assert!(!w.listing());
    assert_eq!(w.dir_read(true), None);
    assert_eq!(w.next_dir(), Some("/r".to_string()));
    assert_eq!(w.dir_read(true), Some("/r".to_string()));
    assert!(w.listing());
    assert_eq!(w.listed(Listed::Entry { path: "/r/a.mp3".to_string(), is_dir: false }), Some("/r/a.mp3".to_string()));
    assert_eq!(w.listed(Listed::Entry { path: "/r/d1".to_string(), is_dir: true }), None);
    assert_eq!(w.listed(Listed::Unreadable), None);
    assert_eq!(w.listed(Listed::Entry { path: "/r/d2".to_string(), is_dir: true }), None);
    assert_eq!(w.listed(Listed::End), None);
    assert!(!w.listing());
    assert_eq!(w.next_dir(), Some("/r/d2".to_string()));
    assert_eq!(w.dir_read(false), None);
    assert!(!w.listing());
    assert_eq!(w.next_dir(), Some("/r/d1".to_string()));
    assert_eq!(w.dir_read(true), Some("/r/d1".to_string()));
    assert!(w.listing());
    assert_eq!(w.listed(Listed::End), None);
    assert_eq!(w.next_dir(), None);
    assert_eq!(w.dir_read(true), None);
}
