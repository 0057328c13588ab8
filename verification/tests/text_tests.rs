use music_player::text::{find_last, from_chars, join_lines, split_lines, to_chars};

fn strings(v: &[&str]) -> Vec<String> {
    v.iter().map(|s| s.to_string()).collect()
}

#[test]
fn split_empty_text_gives_one_empty_line() {
    assert_eq!(split_lines(""), strings(&[""]));
}

#[test]
fn split_keeps_the_piece_after_the_last_break() {
    assert_eq!(split_lines("a\nb"), strings(&["a", "b"]));
    assert_eq!(split_lines("a\n"), strings(&["a", ""]));
    assert_eq!(split_lines("\n\n"), strings(&["", "", ""]));
    assert_eq!(split_lines("one line"), strings(&["one line"]));
}

#[test]
fn split_matches_str_split() {
    let text = "name\r\n/x/ü.mp3\n\n/y.wav\n";
    let expected: Vec<String> = text.split('\n').map(|s| s.to_string()).collect();
    assert_eq!(split_lines(text), expected);
}

#[test]
fn join_ends_every_line() {
    assert_eq!(join_lines(&strings(&["a", "b"])), "a\nb\n");
    assert_eq!(join_lines(&strings(&[])), "");
    assert_eq!(join_lines(&strings(&[""])), "\n");
}

#[test]
fn split_of_join_gives_lines_and_an_empty_piece() {
    let lines = strings(&["mix", "/a.mp3", "/b c.flac"]);
    let mut expected = lines.clone();
    expected.push(String::new());
    assert_eq!(split_lines(&join_lines(&lines)), expected);
}

#[test]
fn chars_round_trip() {
    let chars = to_chars("héllo");
    assert_eq!(chars, vec!['h', 'é', 'l', 'l', 'o']);
    assert_eq!(from_chars(&chars, 1, 4), "éll");
    assert_eq!(from_chars(&chars, 2, 2), "");
}

#[test]
fn find_last_finds_the_last() {
    let chars = to_chars("a.b.c");
    assert_eq!(find_last(&chars, '.'), Some(3));
    assert_eq!(find_last(&chars, 'x'), None);
    assert_eq!(find_last(&to_chars(""), '.'), None);
}
