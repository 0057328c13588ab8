//! Walking a folder tree: which folder to list next, and what of a listing
//! is handed out. Listing a folder is done by the caller.

use vstd::prelude::*;
use crate::text::{views, lemma_views_push};

verus! {

/// One result of reading the listing of the open folder.
pub enum Listed {
    /// An entry; `is_dir` where it is known to be a folder.
    Entry { path: String, is_dir: bool },
    /// An entry that could not be read.
    Unreadable,
    /// The listing is over.
    End,
}

/// A walk, as plain values: the folders still to list, the last one next,
/// whether a folder's listing is open, and the folder taken to be opened
/// next, if any.
pub ghost struct WalkModel {
    pub dirs: Seq<Seq<char>>,
    pub listing: bool,
    pub trying: Option<Seq<char>>,
}

/// A walk through the files under a folder. It hands out each folder when
/// its listing opens (a folder that cannot be read is passed over), then
/// the files in that listing; the folders found in a listing are listed
/// later, the last found first.
pub struct FileIterator {
    dirs: Vec<String>,
    listing: bool,
    trying: Option<String>,
}

impl View for FileIterator {
    type V = WalkModel;

    closed spec fn view(&self) -> WalkModel {
        WalkModel {
            dirs: views(self.dirs@),
            listing: self.listing,
            trying: match self.trying {
                Some(d) => Some(d@),
                None => None,
            },
        }
    }
}

impl FileIterator {
    /// A walk that starts at the folder `path`.
    pub fn from(path: &str) -> (w: FileIterator)
        ensures
            w@ == (WalkModel { dirs: seq![path@], listing: false, trying: None }),
    {
        let mut dirs: Vec<String> = Vec::new();
        dirs.push(path.to_string());
        let w = FileIterator { dirs, listing: false, trying: None };
        assert(views(w.dirs@) =~= seq![path@]);
        w
    }

    /// Whether a folder's listing is open.
    pub fn listing(&self) -> (r: bool)
        ensures
            r == self@.listing,
    {
        self.listing
    }

    /// Takes one result of the open listing: a folder is kept to be listed
    /// later, any other entry is handed out, an unreadable one is passed
    /// over, and the end of the listing closes it.
    pub fn listed(&mut self, item: Listed) -> (out: Option<String>)
        ensures
            match item {
                Listed::Entry { path, is_dir } => if is_dir {
                    out is None && final(self)@ == (WalkModel { dirs: old(self)@.dirs.push(path@), ..old(self)@ })
                } else {
                    out == Some(path) && final(self)@ == old(self)@
                },
                Listed::Unreadable => out is None && final(self)@ == old(self)@,
                Listed::End => out is None && final(self)@ == (WalkModel { listing: false, ..old(self)@ }),
            },
    {
        match item {
            Listed::Entry { path, is_dir } => {
                if is_dir {
                    let ghost prev = self.dirs@;
                    let ghost pv = path;
                    self.dirs.push(path);
                    proof {
                        lemma_views_push(prev, pv);
                    }
                    None
                } else {
                    Some(path)
                }
            },
            Listed::Unreadable => None,
            Listed::End => {
                self.listing = false;
                None
            },
        }
    }

    /// The next folder to open: the last one kept, taken off the list and
    /// held until [`FileIterator::dir_read`] says whether it could be read;
    /// `None` when none is left and the walk is over.
    pub fn next_dir(&mut self) -> (dir: Option<String>)
        ensures
            old(self)@.dirs.len() == 0 ==> dir is None && final(self)@ == old(self)@,
            old(self)@.dirs.len() > 0 ==> {
                &&& dir matches Some(d) && d@ == old(self)@.dirs.last()
                &&& final(self)@ == (WalkModel {
                    dirs: old(self)@.dirs.drop_last(),
                    trying: Some(old(self)@.dirs.last()),
                    ..old(self)@
                })
            },
    {
        let ghost prev = self.dirs@;
        match self.dirs.pop() {
            None => None,
            Some(d) => {
                proof {
                    assert(views(self.dirs@) =~= views(prev).drop_last());
                }
                self.trying = Some(d.clone());
                Some(d)
            },
        }
    }

    /// Whether the folder taken to be opened could be read: if so, its
    /// listing opens and the folder itself is handed out; if not, it is
    /// passed over. Nothing is handed out where no folder was taken.
    pub fn dir_read(&mut self, ok: bool) -> (out: Option<String>)
        ensures
            match old(self)@.trying {
                Some(d) => if ok {
                    out matches Some(o) && o@ == d
                        && final(self)@ == (WalkModel { listing: true, trying: None, ..old(self)@ })
                } else {
                    out is None && final(self)@ == (WalkModel { trying: None, ..old(self)@ })
                },
                None => out is None && final(self)@ == old(self)@,
            },
    {
        match self.trying.take() {
            None => None,
            Some(d) => {
                if ok {
                    self.listing = true;
                    Some(d)
                } else {
                    None
                }
            },
        }
    }
}

/// A folder found last in a listing is the next one listed once the
/// listing ends, and after it the walk goes on with the folders it had
/// before.
pub proof fn lemma_last_found_listed_next(m: WalkModel, dir: Seq<char>)
    ensures
        ({
            let found = WalkModel { dirs: m.dirs.push(dir), ..m };
            let ended = WalkModel { listing: false, ..found };
            &&& ended.dirs.len() > 0
            &&& ended.dirs.last() == dir
            &&& ended.dirs.drop_last() == m.dirs
        }),
{
    assert(m.dirs.push(dir).drop_last() =~= m.dirs);
}

} // verus!
