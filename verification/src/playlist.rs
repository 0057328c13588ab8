//! Playlists: a name, the tracks in it, and where it is saved; the text
//! format a playlist is saved in, and reading it back.

use vstd::prelude::*;
use crate::text::{
    views, no_newline, split_lines_spec, join_lines_spec, lemma_views_push, lemma_split_join,
    lemma_split_nonempty, split_lines, join_lines, lemma_split_push_newline, lemma_split_append_plain,
};
use crate::paths::{stem_or_empty, stem_or_empty_spec};

verus! {

/// The components of a path as `std::path::Path::components` gives them,
/// each read as a string: the root as `/`, `.` and `..` as themselves, and
/// each name as it is (repeated `/` and `.` in the middle are skipped).
pub uninterp spec fn spec_components(path: Seq<char>) -> Seq<Seq<char>>;

/// A single name: not empty, without `/`, and neither `.` nor `..`.
pub open spec fn plain_name(path: Seq<char>) -> bool {
    &&& path.len() > 0
    &&& forall|i: int| 0 <= i < path.len() ==> path[i] != '/'
    &&& path != "."@
    &&& path != ".."@
}

/// Lists the components of a path with `std::path::Path::components`.
/// Trusted: the result, each component taken by its view, is
/// `spec_components` of the path; a component of a `str` path is itself
/// valid text, so reading it back loses nothing. As the documentation of
/// `components` says, a path is split at `/`, and a single name that is
/// neither `.` nor `..` is one normal component, itself (on Unix-like
/// targets, where a path has no Windows prefix such as `C:`).
#[verifier::external_body]
fn path_components(path: &str) -> (parts: Vec<String>)
    ensures
        views(parts@) == spec_components(path@),
        plain_name(path@) ==> views(parts@) == seq![path@],
{
    std::path::Path::new(path).components().map(|c| c.as_os_str().to_string_lossy().into_owned()).collect()
}

/// Whether `a` and `b` name the same path as `std::path::Path`'s `==` sees
/// it: that `==` compares the paths component by component, so that `a//b`
/// and `a/b/` are the same path as `a/b`.
pub open spec fn same_path(a: Seq<char>, b: Seq<char>) -> bool {
    spec_components(a) == spec_components(b)
}

/// Whether two lists of strings are equal, string by string.
fn same_strings(a: &Vec<String>, b: &Vec<String>) -> (same: bool)
    ensures
        same == (views(a@) == views(b@)),
{
    if a.len() != b.len() {
        assert(views(a@).len() != views(b@).len());
        return false;
    }
    let mut i: usize = 0;
    while i < a.len()
        invariant
            i <= a@.len(),
            a@.len() == b@.len(),
            forall|j: int| 0 <= j < i ==> views(a@)[j] == views(b@)[j],
        decreases a@.len() - i,
    {
        if a[i] != b[i] {
            assert(views(a@)[i as int] != views(b@)[i as int]);
            return false;
        }
        i = i + 1;
    }
    assert(views(a@) =~= views(b@));
    true
}

/// What a playlist holds, as plain values.
pub ghost struct PlaylistModel {
    pub name: Seq<char>,
    /// The tracks, by path, in order.
    pub contents: Seq<Seq<char>>,
    /// The folder the playlist is saved in, once there is one.
    pub location: Option<Seq<char>>,
    /// The name of the file the playlist is saved in.
    pub filename: Seq<char>,
}

/// Some track of `contents` is the same path as `path`.
pub open spec fn holds_path(contents: Seq<Seq<char>>, path: Seq<char>) -> bool {
    exists|i: int| 0 <= i < contents.len() && same_path(#[trigger] contents[i], path)
}

/// The position of the first track of `q` that is `t`, letter for letter, or -1.
pub open spec fn first_index(q: Seq<Seq<char>>, t: Seq<char>) -> int
    decreases q.len(),
{
    if q.len() == 0 {
        -1
    } else {
        let r = first_index(q.drop_last(), t);
        if r >= 0 {
            r
        } else if q.last() == t {
            q.len() - 1
        } else {
            -1
        }
    }
}

/// The tracks after adding `path`: unchanged where they hold the same path
/// already, and otherwise with `path` at the end.
pub open spec fn added(contents: Seq<Seq<char>>, path: Seq<char>) -> Seq<Seq<char>> {
    if holds_path(contents, path) {
        contents
    } else {
        contents.push(path)
    }
}

/// The tracks after removing `track`: without the first one that is `track`
/// letter for letter, and unchanged where none is.
pub open spec fn removed(contents: Seq<Seq<char>>, track: Seq<char>) -> Seq<Seq<char>> {
    if first_index(contents, track) < 0 {
        contents
    } else {
        contents.remove(first_index(contents, track))
    }
}

/// The text a playlist is saved as: its name on the first line, then one
/// track per line, each line ended by a line break.
pub open spec fn saved_text(p: PlaylistModel) -> Seq<char> {
    join_lines_spec(seq![p.name] + p.contents)
}

/// The lines after the first whose flag is set, in order; an empty line
/// never names a file, whatever its flag.
pub open spec fn kept_lines(lines: Seq<Seq<char>>, flags: Seq<bool>) -> Seq<Seq<char>>
    decreases lines.len(),
{
    if lines.len() <= 1 {
        Seq::<Seq<char>>::empty()
    } else {
        let rest = kept_lines(lines.drop_last(), flags);
        if flags[lines.len() - 1] && lines.last().len() > 0 {
            rest.push(lines.last())
        } else {
            rest
        }
    }
}

/// The tracks of `contents` that are not empty and whose line in a saved
/// file is flagged: track `i` stands on line `i + 1`, after the name.
pub open spec fn flagged(contents: Seq<Seq<char>>, is_file: Seq<bool>) -> Seq<Seq<char>>
    decreases contents.len(),
{
    if contents.len() == 0 {
        Seq::<Seq<char>>::empty()
    } else {
        let rest = flagged(contents.drop_last(), is_file);
        if is_file[contents.len() as int] && contents.last().len() > 0 {
            rest.push(contents.last())
        } else {
            rest
        }
    }
}

/// The playlist read from `text`, saved as `filename` in `location`, where
/// `is_file[i]` tells whether line `i` names an existing file: the first line
/// is its name, and the other lines that name a file are its tracks.
pub open spec fn loaded(location: Seq<char>, filename: Seq<char>, text: Seq<char>, is_file: Seq<bool>) -> PlaylistModel {
    let lines = split_lines_spec(text);
    PlaylistModel {
        name: lines[0],
        contents: kept_lines(lines, is_file),
        location: Some(location),
        filename: filename,
    }
}

/// The words joined with one space between each two.
pub open spec fn join_words(words: Seq<Seq<char>>) -> Seq<char>
    decreases words.len(),
{
    if words.len() == 0 {
        Seq::<char>::empty()
    } else if words.len() == 1 {
        words[0]
    } else {
        join_words(words.drop_last()) + seq![' '] + words.last()
    }
}

/// A playlist.
pub struct Playlist {
    name: String,
    contents: Vec<String>,
    location: Option<String>,
    filename: String,
}

impl View for Playlist {
    type V = PlaylistModel;

    closed spec fn view(&self) -> PlaylistModel {
        PlaylistModel {
            name: self.name@,
            contents: views(self.contents@),
            location: match self.location {
                Some(l) => Some(l@),
                None => None,
            },
            filename: self.filename@,
        }
    }
}

impl Playlist {
    /// An empty playlist called `name`, to be saved under that name, in no
    /// folder yet.
    pub fn new(name: &str) -> (p: Playlist)
        ensures
            p@ == (PlaylistModel {
                name: name@,
                contents: Seq::<Seq<char>>::empty(),
                location: None,
                filename: name@,
            }),
    {
        let p = Playlist {
            name: name.to_string(),
            contents: Vec::new(),
            location: None,
            filename: name.to_string(),
        };
        assert(views(p.contents@) =~= Seq::<Seq<char>>::empty());
        p
    }

    /// The playlist read back from the `text` of its file `filename` in the
    /// folder `location` (see [`loaded`]); `is_file[i]` tells whether line
    /// `i` of the text names an existing file. An empty line is passed over:
    /// the empty path names no file.
    pub fn load(location: String, filename: String, text: &str, is_file: Vec<bool>) -> (p: Playlist)
        requires
            is_file@.len() == split_lines_spec(text@).len(),
        ensures
            p@ == loaded(location@, filename@, text@, is_file@),
    {
        let lines = split_lines(text);
        proof {
            lemma_split_nonempty(text@);
        }
        let mut contents: Vec<String> = Vec::new();
        let mut i: usize = 1;
        assert(views(contents@) =~= kept_lines(views(lines@).take(1), is_file@));
        while i < lines.len()
            invariant
                1 <= i <= lines@.len(),
                views(lines@) == split_lines_spec(text@),
                is_file@.len() == lines@.len(),
                views(contents@) == kept_lines(views(lines@).take(i as int), is_file@),
            decreases lines@.len() - i,
        {
            let ghost t = views(lines@).take(i + 1);
            assert(t.drop_last() =~= views(lines@).take(i as int));
            assert(t.last() == lines@[i as int]@);
            if is_file[i] && !lines[i].as_str().is_empty() {
                let ghost prev = contents@;
                let line = lines[i].clone();
                contents.push(line);
                proof {
                    lemma_views_push(prev, line);
                }
            }
            i = i + 1;
        }
        assert(views(lines@).take(i as int) =~= views(lines@));
        let name = lines[0].clone();
        Playlist { name, contents, location: Some(location), filename }
    }

    /// Whether the folder to save in is known.
    pub fn has_location(&self) -> (r: bool)
        ensures
            r == self@.location is Some,
    {
        self.location.is_some()
    }

    /// What saving writes: where the playlist has no folder yet, `picked` is
    /// the folder chosen for it, and without one nothing is saved (`None`).
    /// Otherwise the playlist keeps the folder, and the result is the path of
    /// its file (the folder, `/`, the file name) and the text to write there
    /// (see [`saved_text`]).
    pub fn save(&mut self, picked: Option<String>) -> (r: Option<(String, String)>)
        ensures
            old(self)@.location is None && picked is None ==> r is None && final(self)@ == old(self)@,
            old(self)@.location is Some ==> final(self)@ == old(self)@,
            old(self)@.location is None && picked is Some ==> final(self)@ == (PlaylistModel {
                location: Some(picked->0@),
                ..old(self)@
            }),
            r is Some <==> final(self)@.location is Some,
            match (r, final(self)@.location) {
                (Some((path, text)), Some(folder)) => {
                    &&& path@ == folder + "/"@ + final(self)@.filename
                    &&& text@ == saved_text(final(self)@)
                },
                _ => true,
            },
    {
        if self.location.is_none() {
            match picked {
                None => {
                    return None;
                },
                Some(folder) => {
                    self.location = Some(folder);
                },
            }
        }
        let folder = match &self.location {
            Some(l) => l.clone(),
            None => String::new(),
        };
        let path = folder.concat("/").concat(self.filename.as_str());
        let mut lines: Vec<String> = Vec::new();
        lines.push(self.name.clone());
        let mut i: usize = 0;
        assert(views(lines@) =~= seq![self.name@] + views(self.contents@).take(0));
        while i < self.contents.len()
            invariant
                i <= self.contents@.len(),
                views(lines@) == seq![self.name@] + views(self.contents@).take(i as int),
            decreases self.contents@.len() - i,
        {
            let ghost prev = lines@;
            let line = self.contents[i].clone();
            lines.push(line);
            proof {
                lemma_views_push(prev, line);
                assert(views(self.contents@).take(i + 1) =~= views(self.contents@).take(i as int).push(
                    self.contents@[i as int]@,
                ));
            }
            i = i + 1;
        }
        assert(views(self.contents@).take(i as int) =~= views(self.contents@));
        let text = join_lines(&lines);
        Some((path, text))
    }

    /// The playlist's name.
    pub fn get_name(&self) -> (name: String)
        ensures
            name@ == self@.name,
    {
        self.name.clone()
    }

    /// Renames the playlist; one that has no file name yet is then saved
    /// under the new name.
    pub fn set_name(&mut self, s: &str)
        ensures
            final(self)@ == (PlaylistModel {
                name: s@,
                filename: if old(self)@.filename.len() == 0 { s@ } else { old(self)@.filename },
                ..old(self)@
            }),
    {
        self.name = s.to_string();
        if self.filename.as_str().is_empty() {
            self.filename = s.to_string();
        }
    }

    /// Appends a track, unless the playlist already holds the same path.
    ///
    /// Every path it compares is split into its components, so that what
    /// it learns of single names is stated too: a single name is its own
    /// only component, and two different single names are different paths.
    pub fn add(&mut self, path: String)
        ensures
            final(self)@ == (PlaylistModel { contents: added(old(self)@.contents, path@), ..old(self)@ }),
            plain_name(path@) ==> spec_components(path@) == seq![path@],
            forall|i: int|
                0 <= i < old(self)@.contents.len() && plain_name(#[trigger] old(self)@.contents[i])
                    ==> spec_components(old(self)@.contents[i]) == seq![old(self)@.contents[i]],
    {
        let key = path_components(path.as_str());
        let mut held = false;
        let mut i: usize = 0;
        while i < self.contents.len()
            invariant
                i <= self.contents@.len(),
                views(key@) == spec_components(path@),
                plain_name(path@) ==> spec_components(path@) == seq![path@],
                self@ == old(self)@,
                held == exists|j: int| 0 <= j < i && same_path(#[trigger] views(self.contents@)[j], path@),
                forall|j: int|
                    0 <= j < i && plain_name(#[trigger] views(self.contents@)[j])
                        ==> spec_components(views(self.contents@)[j]) == seq![views(self.contents@)[j]],
            decreases self.contents@.len() - i,
        {
            let parts = path_components(self.contents[i].as_str());
            if same_strings(&parts, &key) {
                assert(same_path(views(self.contents@)[i as int], path@));
                held = true;
            }
            i = i + 1;
        }
        if held {
            return;
        }
        let ghost prev = self.contents@;
        let ghost pv = path;
        self.contents.push(path);
        proof {
            lemma_views_push(prev, pv);
        }
    }

    /// Takes out the first track that is `track`, letter for letter, if any.
    pub fn remove(&mut self, track: String)
        ensures
            final(self)@ == (PlaylistModel { contents: removed(old(self)@.contents, track@), ..old(self)@ }),
    {
        let ghost q = views(self.contents@);
        let mut i: usize = 0;
        assert(q.take(0) =~= Seq::<Seq<char>>::empty());
        while i < self.contents.len()
            invariant
                i <= self.contents@.len(),
                q == views(self.contents@),
                self@ == old(self)@,
                first_index(q.take(i as int), track@) == -1,
            decreases self.contents@.len() - i,
        {
            let ghost t = q.take(i + 1);
            assert(t.drop_last() =~= q.take(i as int));
            if self.contents[i] == track {
                proof {
                    assert(first_index(t, track@) == i);
                    lemma_first_index_prefix(q, track@, i + 1);
                }
                self.contents.remove(i);
                assert(views(self.contents@) =~= q.remove(i as int));
                return;
            }
            i = i + 1;
        }
        assert(q.take(i as int) =~= q);
    }

    /// The tracks, in order.
    pub fn get_music_files(&self) -> (tracks: Vec<String>)
        ensures
            views(tracks@) == self@.contents,
    {
        let tracks = self.contents.clone();
        assert(views(tracks@) =~= views(self.contents@));
        tracks
    }

    /// The stems of the tracks, one space between each two, as the playlist
    /// is shown; a track without a file name shows as nothing.
    pub fn stem_list(&self) -> (line: String)
        ensures
            line@ == join_words(self@.contents.map_values(|p: Seq<char>| stem_or_empty_spec(p))),
    {
        let ghost words = self@.contents.map_values(|p: Seq<char>| stem_or_empty_spec(p));
        let mut line = String::new();
        let mut i: usize = 0;
        assert(words.take(0) =~= Seq::<Seq<char>>::empty());
        while i < self.contents.len()
            invariant
                i <= self.contents@.len(),
                words == self@.contents.map_values(|p: Seq<char>| stem_or_empty_spec(p)),
                line@ == join_words(words.take(i as int)),
            decreases self.contents@.len() - i,
        {
            let ghost t = words.take(i + 1);
            assert(t.drop_last() =~= words.take(i as int));
            let stem = stem_or_empty(self.contents[i].as_str());
            if i > 0 {
                line.append(" ");
            }
            line.append(stem.as_str());
            proof {
                reveal_strlit(" ");
                assert(line@ =~= join_words(t));
            }
            i = i + 1;
        }
        assert(words.take(i as int) =~= words);
        line
    }
}

/// Where the first `k` tracks already hold `t`, the first of them is the
/// first in the whole sequence.
pub proof fn lemma_first_index_prefix(q: Seq<Seq<char>>, t: Seq<char>, k: int)
    requires
        0 <= k <= q.len(),
        first_index(q.take(k), t) >= 0,
    ensures
        first_index(q, t) == first_index(q.take(k), t),
    decreases q.len(),
{
    if k == q.len() {
        assert(q.take(k) =~= q);
    } else {
        assert(q.drop_last().take(k) =~= q.take(k));
        lemma_first_index_prefix(q.drop_last(), t, k);
    }
}

/// A first match is a match, and nothing before it matches.
pub proof fn lemma_first_index_bounds(q: Seq<Seq<char>>, t: Seq<char>)
    ensures
        -1 <= first_index(q, t) < q.len(),
        first_index(q, t) >= 0 ==> q[first_index(q, t)] == t,
        forall|j: int| 0 <= j < q.len() && (first_index(q, t) < 0 || j < first_index(q, t)) ==> q[j] != t,
    decreases q.len(),
{
    if q.len() > 0 {
        lemma_first_index_bounds(q.drop_last(), t);
        assert forall|j: int| 0 <= j < q.len() - 1 implies q.drop_last()[j] == q[j] by {}
    }
}

/// The lines after the first of `name` and `tracks` that are kept are the
/// flagged tracks.
proof fn lemma_kept_flagged(name: Seq<char>, tracks: Seq<Seq<char>>, is_file: Seq<bool>)
    requires
        is_file.len() > tracks.len(),
    ensures
        kept_lines(seq![name] + tracks, is_file) == flagged(tracks, is_file),
    decreases tracks.len(),
{
    if tracks.len() == 0 {
        assert(kept_lines(seq![name] + tracks, is_file) =~= flagged(tracks, is_file));
    } else {
        let lines = seq![name] + tracks;
        lemma_kept_flagged(name, tracks.drop_last(), is_file);
        assert(lines.drop_last() =~= seq![name] + tracks.drop_last());
        assert(lines.last() == tracks.last());
    }
}

/// Where every track is flagged and none is empty, all of them are kept.
pub proof fn lemma_flagged_all(tracks: Seq<Seq<char>>, is_file: Seq<bool>)
    requires
        is_file.len() > tracks.len(),
        forall|i: int| 1 <= i <= tracks.len() ==> #[trigger] is_file[i],
        forall|i: int| 0 <= i < tracks.len() ==> (#[trigger] tracks[i]).len() > 0,
    ensures
        flagged(tracks, is_file) == tracks,
    decreases tracks.len(),
{
    if tracks.len() > 0 {
        lemma_flagged_all(tracks.drop_last(), is_file);
        assert(is_file[tracks.len() as int]);
        assert(tracks.last() == tracks[tracks.len() - 1]);
        assert(tracks.drop_last().push(tracks.last()) =~= tracks);
    }
}

/// Saving a playlist and reading back the file it wrote gives the same
/// name and file name, in the folder it was read from, and the tracks that
/// still name a file, in their order: where the name and the tracks hold no
/// line break. Where every track still names a file (and so is not empty),
/// that is the same playlist.
pub proof fn lemma_save_then_load(p: PlaylistModel, folder: Seq<char>, is_file: Seq<bool>)
    requires
        no_newline(p.name),
        forall|i: int| 0 <= i < p.contents.len() ==> no_newline(#[trigger] p.contents[i]),
        is_file.len() == p.contents.len() + 2,
    ensures
        split_lines_spec(saved_text(p)).len() == is_file.len(),
        loaded(folder, p.filename, saved_text(p), is_file) == (PlaylistModel {
            contents: flagged(p.contents, is_file),
            location: Some(folder),
            ..p
        }),
        (forall|i: int| 1 <= i <= p.contents.len() ==> #[trigger] is_file[i]) && (forall|i: int|
            0 <= i < p.contents.len() ==> (#[trigger] p.contents[i]).len() > 0) ==> loaded(
            folder,
            p.filename,
            saved_text(p),
            is_file,
        ) == (PlaylistModel { location: Some(folder), ..p }),
{
    let lines = seq![p.name] + p.contents;
    assert forall|i: int| 0 <= i < lines.len() implies no_newline(#[trigger] lines[i]) by {
        if i > 0 {
            assert(lines[i] == p.contents[i - 1]);
        }
    }
    lemma_split_join(lines);
    let all = lines.push(Seq::<char>::empty());
    assert(split_lines_spec(saved_text(p)) == all);
    lemma_kept_flagged(p.name, p.contents, is_file);
    assert(all.drop_last() =~= lines);
    assert(kept_lines(all, is_file) == kept_lines(lines, is_file));
    assert(all[0] == p.name);
    if (forall|i: int| 1 <= i <= p.contents.len() ==> #[trigger] is_file[i]) && (forall|i: int|
        0 <= i < p.contents.len() ==> (#[trigger] p.contents[i]).len() > 0) {
        lemma_flagged_all(p.contents, is_file);
    }
}

/// After adding a track the playlist holds it.
pub proof fn lemma_add_holds(contents: Seq<Seq<char>>, path: Seq<char>)
    ensures
        holds_path(added(contents, path), path),
{
    if !holds_path(contents, path) {
        let c = contents.push(path);
        assert(same_path(c[contents.len() as int], path));
    }
}

/// Adding the same track twice is adding it once.
pub proof fn lemma_add_twice(contents: Seq<Seq<char>>, path: Seq<char>)
    ensures
        added(added(contents, path), path) == added(contents, path),
{
    lemma_add_holds(contents, path);
}

/// Removing a track that was just added to a playlist that did not hold its
/// path gives back the playlist as it was.
pub proof fn lemma_remove_undoes_add(contents: Seq<Seq<char>>, path: Seq<char>)
    requires
        !holds_path(contents, path),
    ensures
        removed(added(contents, path), path) == contents,
{
    lemma_first_index_bounds(contents, path);
    if first_index(contents, path) >= 0 {
        let k = first_index(contents, path);
        assert(same_path(contents[k], path));
        assert(false);
    }
    let c = contents.push(path);
    assert(c.drop_last() =~= contents);
    assert(first_index(c, path) == contents.len());
    assert(c.remove(contents.len() as int) =~= contents);
}

/// Flags past the lines do not change which lines are kept.
proof fn lemma_kept_more_flags(lines: Seq<Seq<char>>, flags: Seq<bool>, b: bool)
    requires
        flags.len() >= lines.len(),
    ensures
        kept_lines(lines, flags.push(b)) == kept_lines(lines, flags),
    decreases lines.len(),
{
    if lines.len() > 1 {
        lemma_kept_more_flags(lines.drop_last(), flags, b);
        assert(flags.push(b)[lines.len() - 1] == flags[lines.len() - 1]);
    }
}

/// Reading a text with one more line at its end gives the playlist read
/// from the text before it, with that line as one more track at the end
/// when it names a file and is not empty (and nothing more otherwise): every
/// piece of the text after the first is read, the last one included.
pub proof fn lemma_load_one_more_line(
    location: Seq<char>,
    filename: Seq<char>,
    text: Seq<char>,
    is_file: Seq<bool>,
    line: Seq<char>,
    line_is_file: bool,
)
    requires
        is_file.len() == split_lines_spec(text).len(),
        no_newline(line),
    ensures
        split_lines_spec(text.push('\n') + line).len() == is_file.len() + 1,
        loaded(location, filename, text.push('\n') + line, is_file.push(line_is_file)).name
            == loaded(location, filename, text, is_file).name,
        loaded(location, filename, text.push('\n') + line, is_file.push(line_is_file)).contents == if line_is_file
            && line.len() > 0 {
            loaded(location, filename, text, is_file).contents.push(line)
        } else {
            loaded(location, filename, text, is_file).contents
        },
{
    let lines = split_lines_spec(text);
    lemma_split_nonempty(text);
    lemma_split_push_newline(text);
    lemma_split_append_plain(text.push('\n'), line);
    let e = Seq::<char>::empty();
    assert(lines.push(e).update(lines.len() as int, lines.push(e).last() + line) =~= lines.push(line)) by {
        assert(e + line =~= line);
    }
    let all = lines.push(line);
    assert(split_lines_spec(text.push('\n') + line) == all);
    assert(all.drop_last() =~= lines);
    lemma_kept_more_flags(lines, is_file, line_is_file);
    assert(all[0] == lines[0]);
}

/// Where the last piece of the text is flagged and not empty, and the text
/// holds more than one piece, the loaded playlist ends with that piece.
pub proof fn lemma_load_keeps_last_piece(location: Seq<char>, filename: Seq<char>, text: Seq<char>, is_file: Seq<bool>)
    requires
        is_file.len() == split_lines_spec(text).len(),
        split_lines_spec(text).len() >= 2,
        is_file.last(),
        split_lines_spec(text).last().len() > 0,
    ensures
        loaded(location, filename, text, is_file).contents.len() > 0,
        loaded(location, filename, text, is_file).contents.last() == split_lines_spec(text).last(),
{
}

} // verus!
