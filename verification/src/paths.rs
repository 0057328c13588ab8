//! Paths of tracks: their file names and stems, and which files are music.

use vstd::prelude::*;
use crate::text::{views, last_index_of, lemma_last_index_of_bounds, to_chars, from_chars, find_last, lemma_views_push};

verus! {

/// What `std::path::Path::file_name` gives for the path `path`, read as a
/// string: the last component of the path where it is a name, `None` where the
/// path ends in `..` or has no name at all (the root, an empty path).
pub uninterp spec fn spec_file_name(path: Seq<char>) -> Option<Seq<char>>;

/// Calls `std::path::Path::file_name` on `path` and reads the name back as a
/// string. Trusted: the result, taken by its view, is `spec_file_name` of the
/// path; a name cut at `/` from a string is itself valid text, so reading it
/// back loses nothing.
#[verifier::external_body]
fn path_file_name(path: &str) -> (name: Option<String>)
    ensures
        opt_view(name) == spec_file_name(path@),
{
    std::path::Path::new(path).file_name().map(|n| n.to_string_lossy().into_owned())
}

/// An optional string, taken by its view.
pub open spec fn opt_view(o: Option<String>) -> Option<Seq<char>> {
    match o {
        Some(s) => Some(s@),
        None => None,
    }
}

/// The stem of a file name: the whole name where it holds no `.` or only one
/// at its start, and otherwise the part before the last `.`.
pub open spec fn stem_of(name: Seq<char>) -> Seq<char> {
    let d = last_index_of(name, '.');
    if d <= 0 {
        name
    } else {
        name.take(d)
    }
}

/// What `Path::file_stem` gives for a path: the stem of its file name.
pub open spec fn file_stem_spec(path: Seq<char>) -> Option<Seq<char>> {
    match spec_file_name(path) {
        Some(name) => Some(stem_of(name)),
        None => None,
    }
}

/// The stem of a path, or the empty text where the path has no file name.
pub open spec fn stem_or_empty_spec(path: Seq<char>) -> Seq<char> {
    match file_stem_spec(path) {
        Some(stem) => stem,
        None => Seq::<char>::empty(),
    }
}

/// The last piece of a file name split at `.`: the part after the last `.`,
/// or the whole name where it holds none.
pub open spec fn extension_of(name: Seq<char>) -> Seq<char> {
    name.skip(last_index_of(name, '.') + 1)
}

/// A file name whose last piece is `mp3`, `flac` or `wav`.
pub open spec fn is_music_name(name: Seq<char>) -> bool {
    let ext = extension_of(name);
    ext == "mp3"@ || ext == "flac"@ || ext == "wav"@
}

/// A path whose file name is that of a music file.
pub open spec fn is_music_path(path: Seq<char>) -> bool {
    match spec_file_name(path) {
        Some(name) => is_music_name(name),
        None => false,
    }
}

/// The music files among `paths`, in their order.
pub open spec fn music_only(paths: Seq<Seq<char>>) -> Seq<Seq<char>>
    decreases paths.len(),
{
    if paths.len() == 0 {
        Seq::<Seq<char>>::empty()
    } else {
        let rest = music_only(paths.drop_last());
        if is_music_path(paths.last()) {
            rest.push(paths.last())
        } else {
            rest
        }
    }
}

/// Every path of `paths` has a file name.
pub open spec fn all_named(paths: Seq<Seq<char>>) -> bool {
    forall|i: int| 0 <= i < paths.len() ==> (#[trigger] spec_file_name(paths[i])) is Some
}

/// The stem of a file name.
fn stem_of_name(name: &String) -> (stem: String)
    ensures
        stem@ == stem_of(name@),
{
    let chars = to_chars(name.as_str());
    proof {
        lemma_last_index_of_bounds(chars@, '.');
    }
    match find_last(&chars, '.') {
        Some(d) => {
            if d == 0 {
                from_chars(&chars, 0, chars.len())
            } else {
                from_chars(&chars, 0, d)
            }
        },
        None => from_chars(&chars, 0, chars.len()),
    }
}

/// The stem of the file name of `path` (`Path::file_stem`).
pub fn file_stem(path: &str) -> (stem: Option<String>)
    ensures
        opt_view(stem) == file_stem_spec(path@),
{
    match path_file_name(path) {
        Some(name) => Some(stem_of_name(&name)),
        None => None,
    }
}

/// The stem of the file name of `path`, or the empty text where it has none.
pub fn stem_or_empty(path: &str) -> (stem: String)
    ensures
        stem@ == stem_or_empty_spec(path@),
{
    match file_stem(path) {
        Some(s) => s,
        None => String::new(),
    }
}

/// Whether the file name `name` is that of a music file.
pub fn is_music_file_name(name: &String) -> (music: bool)
    ensures
        music == is_music_name(name@),
{
    let chars = to_chars(name.as_str());
    proof {
        lemma_last_index_of_bounds(chars@, '.');
    }
    let start: usize = match find_last(&chars, '.') {
        Some(d) => {
            let n = chars.len();
            assert(d < n);
            d + 1
        },
        None => 0,
    };
    let ext = from_chars(&chars, start, chars.len());
    assert(ext@ == extension_of(name@));
    let mp3 = String::from_str("mp3");
    let flac = String::from_str("flac");
    let wav = String::from_str("wav");
    ext == mp3 || ext == flac || ext == wav
}

/// The music files among `paths`, in their order: those whose file name ends
/// in `.mp3`, `.flac` or `.wav` (a name without a `.` counts as its own last
/// piece, so a file named `wav` counts too).
pub fn get_music_files(paths: Vec<String>) -> (music: Vec<String>)
    requires
        all_named(views(paths@)),
    ensures
        views(music@) == music_only(views(paths@)),
{
    let mut music: Vec<String> = Vec::new();
    let mut i: usize = 0;
    assert(views(paths@).take(0) =~= Seq::<Seq<char>>::empty());
    while i < paths.len()
        invariant
            i <= paths@.len(),
            all_named(views(paths@)),
            views(music@) == music_only(views(paths@).take(i as int)),
        decreases paths@.len() - i,
    {
        let ghost t = views(paths@).take(i + 1);
        assert(t.drop_last() =~= views(paths@).take(i as int));
        assert(t.last() == paths@[i as int]@);
        assert(spec_file_name(views(paths@)[i as int]) is Some);
        let name = path_file_name(paths[i].as_str());
        match name {
            Some(n) => {
                if is_music_file_name(&n) {
                    let ghost prev = music@;
                    music.push(paths[i].clone());
                    proof {
                        lemma_views_push(prev, paths@[i as int]);
                    }
                }
            },
            None => {},
        }
        i = i + 1;
    }
    assert(views(paths@).take(i as int) =~= views(paths@));
    music
}

/// The music files among `paths`, where every path has a file name; `None`
/// where one has none (a path that ends in `..`, the root, an empty path).
pub fn music_files_in(paths: Vec<String>) -> (music: Option<Vec<String>>)
    ensures
        match music {
            Some(m) => all_named(views(paths@)) && views(m@) == music_only(views(paths@)),
            None => !all_named(views(paths@)),
        },
{
    let mut i: usize = 0;
    while i < paths.len()
        invariant
            i <= paths@.len(),
            forall|j: int| 0 <= j < i ==> (#[trigger] spec_file_name(views(paths@)[j])) is Some,
        decreases paths@.len() - i,
    {
        let name = path_file_name(paths[i].as_str());
        if name.is_none() {
            assert(spec_file_name(views(paths@)[i as int]) is None);
            return None;
        }
        i = i + 1;
    }
    Some(get_music_files(paths))
}

/// The paths whose file name ends in `.mp3`, `.flac` or `.wav` (the last
/// piece after a `.`, or the whole name where it holds none).
pub open spec fn has_music_extension(path: Seq<char>) -> bool {
    match spec_file_name(path) {
        Some(name) => {
            let ext = name.skip(last_index_of(name, '.') + 1);
            ext == "mp3"@ || ext == "flac"@ || ext == "wav"@
        },
        None => false,
    }
}

/// The music files picked from `paths` are exactly those among them whose
/// file name ends in `.mp3`, `.flac` or `.wav`: each one picked is one of
/// the paths and has such a name, and each such path is picked. Any other
/// file (an image, a text) is left out.
pub proof fn lemma_music_only_members(paths: Seq<Seq<char>>)
    ensures
        forall|k: int| 0 <= k < music_only(paths).len() ==> {
            &&& paths.contains(#[trigger] music_only(paths)[k])
            &&& has_music_extension(music_only(paths)[k])
        },
        forall|i: int| 0 <= i < paths.len() && has_music_extension(#[trigger] paths[i])
            ==> music_only(paths).contains(paths[i]),
        forall|i: int| 0 <= i < paths.len() && !has_music_extension(#[trigger] paths[i])
            ==> !music_only(paths).contains(paths[i]),
    decreases paths.len(),
{
    if paths.len() > 0 {
        let rest = paths.drop_last();
        let r = music_only(rest);
        lemma_music_only_members(rest);
        let last = paths.last();
        assert(is_music_path(last) == has_music_extension(last));
        assert forall|k: int| 0 <= k < music_only(paths).len() implies {
            &&& paths.contains(#[trigger] music_only(paths)[k])
            &&& has_music_extension(music_only(paths)[k])
        } by {
            if k < r.len() {
                assert(music_only(paths)[k] == r[k]);
                let j = choose|j: int| 0 <= j < rest.len() && rest[j] == r[k];
                assert(paths[j] == rest[j]);
            } else {
                assert(music_only(paths)[k] == last);
                assert(paths[paths.len() - 1] == last);
            }
        }
        assert forall|i: int| 0 <= i < paths.len() && has_music_extension(#[trigger] paths[i])
            implies music_only(paths).contains(paths[i]) by {
            if i < rest.len() {
                assert(rest[i] == paths[i]);
                assert(r.contains(paths[i]));
                let k = choose|k: int| 0 <= k < r.len() && r[k] == paths[i];
                if is_music_path(last) {
                    assert(music_only(paths)[k] == r[k]);
                }
            } else {
                assert(paths[i] == last);
                assert(music_only(paths)[r.len() as int] == last);
            }
        }
        assert forall|i: int| 0 <= i < paths.len() && !has_music_extension(#[trigger] paths[i])
            implies !music_only(paths).contains(paths[i]) by {
            if music_only(paths).contains(paths[i]) {
                let k = choose|k: int| 0 <= k < music_only(paths).len() && music_only(paths)[k] == paths[i];
                assert(has_music_extension(music_only(paths)[k]));
            }
        }
    }
}

} // verus!
