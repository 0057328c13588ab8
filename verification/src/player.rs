//! The play queue: which track plays, which one comes next or before, what is
//! shown as coming up, and the play/pause state. The sound itself is produced
//! by the caller; each move that has to open a file hands back a [`Step`] that
//! says which file to try, and the caller reports whether it could be opened.

use vstd::prelude::*;
use rand::seq::SliceRandom;
use crate::text::{views, lemma_views_push};
use crate::paths::{file_stem, file_stem_spec, stem_or_empty, stem_or_empty_spec};

verus! {

/// What a player holds, as plain values.
pub ghost struct PlayerModel {
    /// The tracks in the queue, by path.
    pub queue: Seq<Seq<char>>,
    /// The position in the queue of the track that plays or is tried.
    pub head: int,
    /// Whether a move forward has ever opened a track since the queue was last cleared.
    pub started: bool,
    /// The name (file stem) of the track that plays, empty when none does.
    pub current: Seq<char>,
    /// The path of the track that plays, empty when none does.
    pub current_path: Seq<char>,
    /// Whether playback is paused.
    pub paused: bool,
    /// Whether the queue starts over after its last track.
    pub repeat: bool,
}

/// What a move asks of the caller next.
pub enum Step {
    /// Nothing to do: the move does not happen, or it gave up.
    Stay,
    /// The move came back round to the track that was playing: the queue was
    /// cleared, and the sound is to be stopped.
    Reset,
    /// Try to open the track at `path`, position `index` in the queue.
    Open { path: String, index: usize },
}

impl PlayerModel {
    /// The position points into the queue (or is 0 when it is empty), and a
    /// track plays only while the queue holds one.
    pub open spec fn valid(self) -> bool {
        &&& (self.queue.len() == 0 ==> self.head == 0)
        &&& (self.queue.len() > 0 ==> 0 <= self.head < self.queue.len())
        &&& (self.current.len() > 0 ==> self.queue.len() > 0)
    }

    /// The same player, at position `h`.
    pub open spec fn at(self, h: int) -> PlayerModel {
        PlayerModel { head: h, ..self }
    }

    /// The same player with its queue cleared and nothing playing.
    pub open spec fn cleared(self) -> PlayerModel {
        PlayerModel {
            queue: Seq::<Seq<char>>::empty(),
            head: 0,
            started: false,
            current: Seq::<char>::empty(),
            current_path: Seq::<char>::empty(),
            ..self
        }
    }

    /// The position a move forward tries first, if the move happens: none
    /// with an empty queue, none at the last track unless the queue repeats;
    /// the first track before anything was started or after the last one,
    /// and otherwise the next one.
    pub open spec fn skip_target(self) -> Option<int> {
        if self.queue.len() == 0 {
            None
        } else if self.head + 1 == self.queue.len() && !self.repeat {
            None
        } else if !self.started || self.head + 1 == self.queue.len() {
            Some(0)
        } else {
            Some(self.head + 1)
        }
    }

    /// The position a move forward tries after the track at the position
    /// could not be opened: the next one; past the last track, the first one
    /// if the queue repeats, and otherwise none (the move gives up).
    pub open spec fn skip_retry(self) -> Option<int> {
        if self.queue.len() == 0 {
            None
        } else if self.head + 1 >= self.queue.len() {
            if self.repeat {
                Some(0)
            } else {
                None
            }
        } else {
            Some(self.head + 1)
        }
    }

    /// The position a move back tries first, if the move happens: none with
    /// an empty queue, none at the first track unless the queue repeats
    /// (then the last one), and otherwise the one before.
    pub open spec fn prev_target(self) -> Option<int> {
        if self.queue.len() == 0 {
            None
        } else if self.head == 0 {
            if self.repeat {
                Some(self.queue.len() - 1)
            } else {
                None
            }
        } else {
            Some(self.head - 1)
        }
    }

    /// The position a move back tries after the track at the position (not
    /// the first) could not be opened: the one before, except that the first
    /// track is passed over: from the second track the move goes on at the
    /// last one if the queue repeats, and otherwise gives up.
    pub open spec fn prev_retry(self) -> Option<int> {
        if self.head - 1 == 0 {
            if self.repeat {
                Some(self.queue.len() - 1)
            } else {
                None
            }
        } else {
            Some(self.head - 1)
        }
    }

    /// The player once the track at its position has been opened: it plays
    /// that track, under the given name.
    pub open spec fn playing(self, name: Seq<char>) -> PlayerModel {
        PlayerModel { current: name, current_path: self.queue[self.head], ..self }
    }

    /// The names shown as coming up: nothing when no track plays; otherwise
    /// the stems of the tracks from the position on, at most eleven of them,
    /// and, when the queue repeats and at most eleven tracks remain, the stems
    /// from the start of the queue over and over until there are ten names.
    pub open spec fn upcoming(self) -> Seq<Seq<char>> {
        if self.current.len() == 0 {
            Seq::<Seq<char>>::empty()
        } else {
            let rest = self.queue.skip(self.head).map_values(|p: Seq<char>| stem_or_empty_spec(p));
            let first = if rest.len() > 11 {
                rest.take(11)
            } else {
                rest
            };
            if self.repeat && rest.len() <= 11 && first.len() < 10 {
                first + Seq::new(
                    (10 - first.len()) as nat,
                    |k: int| stem_or_empty_spec(self.queue[k % (self.queue.len() as int)]),
                )
            } else {
                first
            }
        }
    }
}

/// What trying the track at the position of `m` gives: when it is the track
/// that was playing, the queue is cleared and the step is `Reset`; otherwise
/// the step asks to open that track, and nothing changes.
pub open spec fn tried(step: Step, m: PlayerModel, after: PlayerModel) -> bool {
    if m.queue[m.head] == m.current_path {
        step is Reset && after == m.cleared()
    } else {
        &&& step matches Step::Open { path, index } && path@ == m.queue[m.head] && index == m.head
        &&& after == m
    }
}

/// The position of the last track in `q` whose stem is `name`, or -1.
pub open spec fn last_stem_match(q: Seq<Seq<char>>, name: Seq<char>) -> int
    decreases q.len(),
{
    if q.len() == 0 {
        -1
    } else if file_stem_spec(q.last()) == Some(name) {
        q.len() - 1
    } else {
        last_stem_match(q.drop_last(), name)
    }
}

/// Every track in `q` has a file stem.
pub open spec fn all_have_stems(q: Seq<Seq<char>>) -> bool {
    forall|i: int| 0 <= i < q.len() ==> (#[trigger] file_stem_spec(q[i])) is Some
}

/// Shuffles the tracks with `rand`'s `SliceRandom::shuffle`, drawing from
/// `rand::thread_rng()`. Trusted: the outcome is random; what holds of every
/// outcome is that the tracks are the same, each as often, in some order
/// (the shuffle only swaps elements). `thread_rng` panics where the
/// operating system gives no randomness to seed it; that is not excluded.
#[verifier::external_body]
fn shuffle_tracks(queue: &mut Vec<String>)
    ensures
        views(final(queue)@).len() == views(old(queue)@).len(),
        views(final(queue)@).to_multiset() == views(old(queue)@).to_multiset(),
{
    queue.shuffle(&mut rand::thread_rng());
}

/// A music player's queue and play state.
pub struct Player {
    queue: Vec<String>,
    head: usize,
    started: bool,
    current: String,
    current_path: String,
    state: i32,
    repeat: bool,
}

impl View for Player {
    type V = PlayerModel;

    closed spec fn view(&self) -> PlayerModel {
        PlayerModel {
            queue: views(self.queue@),
            head: self.head as int,
            started: self.started,
            current: self.current@,
            current_path: self.current_path@,
            paused: self.state == 1,
            repeat: self.repeat,
        }
    }
}

impl Player {
    /// The player's model is valid, and its play state is one of the two.
    pub closed spec fn wf(&self) -> bool {
        &&& self@.valid()
        &&& (self.state == 0 || self.state == 1)
    }

    /// An empty queue, nothing playing, not paused, not repeating.
    pub fn new() -> (p: Player)
        ensures
            p@ == (PlayerModel {
                queue: Seq::<Seq<char>>::empty(),
                head: 0,
                started: false,
                current: Seq::<char>::empty(),
                current_path: Seq::<char>::empty(),
                paused: false,
                repeat: false,
            }),
            p.wf(),
    {
        let p = Player {
            queue: Vec::new(),
            head: 0,
            started: false,
            current: String::new(),
            current_path: String::new(),
            state: 0,
            repeat: false,
        };
        assert(views(p.queue@) =~= Seq::<Seq<char>>::empty());
        p
    }

    /// Appends a track to the queue.
    pub fn add(&mut self, p: String)
        requires
            old(self).wf(),
        ensures
            final(self).wf(),
            final(self)@ == (PlayerModel { queue: old(self)@.queue.push(p@), ..old(self)@ }),
            final(self)@.valid(),
    {
        let ghost q = self.queue@;
        let ghost pv = p;
        self.queue.push(p);
        proof {
            lemma_views_push(q, pv);
        }
    }

    /// Whether the queue starts over after its last track.
    pub fn get_repeat(&self) -> (r: bool)
        ensures
            r == self@.repeat,
    {
        self.repeat
    }

    /// Turns repeating on or off.
    pub fn toggle_repeat(&mut self)
        requires
            old(self).wf(),
        ensures
            final(self).wf(),
            final(self)@ == (PlayerModel { repeat: !old(self)@.repeat, ..old(self)@ }),
    {
        self.repeat = !self.repeat;
    }

    /// Clears the queue; nothing plays afterwards. The caller stops the sound.
    pub fn reset(&mut self)
        requires
            old(self).wf(),
        ensures
            final(self).wf(),
            final(self)@ == old(self)@.cleared(),
    {
        self.head = 0;
        self.started = false;
        self.current = String::new();
        self.current_path = String::new();
        self.queue = Vec::new();
        assert(views(self.queue@) =~= Seq::<Seq<char>>::empty());
    }

    /// The name and the path of the track that plays (both empty when none does).
    pub fn now_playing(&self) -> (r: (String, String))
        ensures
            r.0@ == self@.current,
            r.1@ == self@.current_path,
    {
        (self.current.clone(), self.current_path.clone())
    }

    /// Switches between playing and paused; gives the sound action to take:
    /// 0 to play, 1 to pause.
    pub fn play_pause(&mut self) -> (action: i32)
        requires
            old(self).wf(),
        ensures
            final(self).wf(),
            action == (if old(self)@.paused { 0i32 } else { 1i32 }),
            final(self)@ == (PlayerModel { paused: !old(self)@.paused, ..old(self)@ }),
    {
        let newstate = (self.state + 1) % 2;
        self.state = newstate;
        newstate
    }

    /// Whether to move forward, given whether the sound has run out: only
    /// when it has and the queue holds a track.
    pub fn update(&self, ended: bool) -> (move_on: bool)
        ensures
            move_on == (ended && self@.queue.len() > 0),
    {
        ended && self.queue.len() > 0
    }

    /// The track to reopen for a seek, and whether to pause the sound once
    /// the seek is over (also after [`Player::seek_failed`]); `None` when the
    /// queue is empty (there is nothing to seek in).
    pub fn seek(&self) -> (r: Option<(String, bool)>)
        requires
            self.wf(),
        ensures
            match r {
                None => self@.queue.len() == 0,
                Some((path, pause)) => {
                    &&& self@.queue.len() > 0
                    &&& path@ == self@.queue[self@.head]
                    &&& pause == self@.paused
                },
            },
    {
        if self.queue.len() == 0 {
            None
        } else {
            Some((self.queue[self.head].clone(), self.state == 1))
        }
    }

    /// Tries the track at the position (see [`tried`]).
    fn attempt(&mut self) -> (step: Step)
        requires
            old(self).wf(),
            old(self)@.queue.len() > 0,
        ensures
            final(self).wf(),
            tried(step, old(self)@, final(self)@),
            final(self)@.valid(),
    {
        if self.queue[self.head] == self.current_path {
            self.reset();
            Step::Reset
        } else {
            Step::Open { path: self.queue[self.head].clone(), index: self.head }
        }
    }

    /// Starts a move forward: goes to [`PlayerModel::skip_target`] and tries
    /// the track there, or stays where the move does not happen.
    pub fn skip(&mut self) -> (step: Step)
        requires
            old(self).wf(),
        ensures
            final(self).wf(),
            final(self)@.valid(),
            match old(self)@.skip_target() {
                None => step is Stay && final(self)@ == old(self)@,
                Some(t) => tried(step, old(self)@.at(t), final(self)@),
            },
    {
        let len = self.queue.len();
        if len == 0 {
            return Step::Stay;
        }
        let at_end = self.head + 1 == len;
        if at_end && !self.repeat {
            return Step::Stay;
        }
        let target: usize = if !self.started || at_end {
            0
        } else {
            self.head + 1
        };
        self.head = target;
        self.attempt()
    }

    /// Goes on with a move forward after the track at the position could not
    /// be opened: goes to [`PlayerModel::skip_retry`] and tries the track
    /// there, or gives up.
    pub fn skip_failed(&mut self) -> (step: Step)
        requires
            old(self).wf(),
        ensures
            final(self).wf(),
            final(self)@.valid(),
            match old(self)@.skip_retry() {
                None => step is Stay && final(self)@ == old(self)@,
                Some(h) => tried(step, old(self)@.at(h), final(self)@),
            },
    {
        let len = self.queue.len();
        if len == 0 {
            return Step::Stay;
        }
        let next: usize = if self.head + 1 >= len {
            if !self.repeat {
                return Step::Stay;
            }
            0
        } else {
            self.head + 1
        };
        self.head = next;
        self.attempt()
    }

    /// Ends a move forward whose track was opened: the player plays it and
    /// counts as started. Gives whether to pause the new sound, or `None`
    /// (and changes nothing) where the track has no file stem, or the queue
    /// is empty, so that there is no name to show.
    pub fn skip_opened(&mut self) -> (pause: Option<bool>)
        requires
            old(self).wf(),
        ensures
            final(self).wf(),
            old(self)@.queue.len() == 0 ==> pause is None && final(self)@ == old(self)@,
            old(self)@.queue.len() > 0 ==> match file_stem_spec(old(self)@.queue[old(self)@.head]) {
                None => pause is None && final(self)@ == old(self)@,
                Some(name) => {
                    &&& pause == Some(old(self)@.paused)
                    &&& final(self)@ == (PlayerModel { started: true, ..old(self)@.playing(name) })
                },
            },
            final(self)@.valid(),
    {
        if self.queue.len() == 0 {
            return None;
        }
        match file_stem(self.queue[self.head].as_str()) {
            None => None,
            Some(name) => {
                self.started = true;
                self.current_path = self.queue[self.head].clone();
                self.current = name;
                Some(self.state == 1)
            },
        }
    }

    /// Goes on with a seek whose track could not be reopened: the seek turns
    /// into a move forward, exactly as [`Player::skip`] starts one. Whether
    /// to pause afterwards is what [`Player::seek`] gave.
    pub fn seek_failed(&mut self) -> (step: Step)
        requires
            old(self).wf(),
        ensures
            final(self).wf(),
            final(self)@.valid(),
            match old(self)@.skip_target() {
                None => step is Stay && final(self)@ == old(self)@,
                Some(t) => tried(step, old(self)@.at(t), final(self)@),
            },
    {
        self.skip()
    }

    /// Starts a move back: goes to [`PlayerModel::prev_target`] and tries the
    /// track there, or stays where the move does not happen.
    pub fn prev(&mut self) -> (step: Step)
        requires
            old(self).wf(),
        ensures
            final(self).wf(),
            final(self)@.valid(),
            match old(self)@.prev_target() {
                None => step is Stay && final(self)@ == old(self)@,
                Some(t) => tried(step, old(self)@.at(t), final(self)@),
            },
    {
        let len = self.queue.len();
        if len == 0 {
            return Step::Stay;
        }
        let target: usize = if self.head == 0 {
            if !self.repeat {
                return Step::Stay;
            }
            len - 1
        } else {
            self.head - 1
        };
        self.head = target;
        self.attempt()
    }

    /// Goes on with a move back after the track at the position could not be
    /// opened: goes to [`PlayerModel::prev_retry`] and tries the track there,
    /// or gives up. At the first track there is nothing before it to go to.
    pub fn prev_failed(&mut self) -> (step: Step)
        requires
            old(self).wf(),
            old(self)@.head > 0,
        ensures
            final(self).wf(),
            final(self)@.valid(),
            match old(self)@.prev_retry() {
                None => step is Stay && final(self)@ == old(self)@,
                Some(h) => tried(step, old(self)@.at(h), final(self)@),
            },
    {
        let next: usize = if self.head - 1 == 0 {
            if !self.repeat {
                return Step::Stay;
            }
            self.queue.len() - 1
        } else {
            self.head - 1
        };
        self.head = next;
        self.attempt()
    }

    /// Ends a move back whose track was opened: the player plays it. Gives
    /// whether to pause the new sound, or `None` (and changes nothing) where
    /// the track has no file stem, or the queue is empty.
    pub fn prev_opened(&mut self) -> (pause: Option<bool>)
        requires
            old(self).wf(),
        ensures
            final(self).wf(),
            old(self)@.queue.len() == 0 ==> pause is None && final(self)@ == old(self)@,
            old(self)@.queue.len() > 0 ==> match file_stem_spec(old(self)@.queue[old(self)@.head]) {
                None => pause is None && final(self)@ == old(self)@,
                Some(name) => {
                    &&& pause == Some(old(self)@.paused)
                    &&& final(self)@ == old(self)@.playing(name)
                },
            },
            final(self)@.valid(),
    {
        if self.queue.len() == 0 {
            return None;
        }
        match file_stem(self.queue[self.head].as_str()) {
            None => None,
            Some(name) => {
                self.current_path = self.queue[self.head].clone();
                self.current = name;
                Some(self.state == 1)
            },
        }
    }

    /// The names shown as coming up (see [`PlayerModel::upcoming`]).
    pub fn get_queue(&self) -> (names: Vec<String>)
        requires
            self.wf(),
        ensures
            views(names@) == self@.upcoming(),
    {
        let ghost m = self@;
        let mut a: Vec<String> = Vec::new();
        if self.current.as_str().is_empty() {
            assert(views(a@) =~= m.upcoming());
            return a;
        }
        let len = self.queue.len();
        let ghost rest = m.queue.skip(m.head).map_values(|p: Seq<char>| stem_or_empty_spec(p));
        let mut i: usize = self.head;
        assert(views(a@) =~= rest.take(0));
        while i < len && a.len() <= 10
            invariant
                len == self.queue@.len(),
                m == self@,
                self.wf(),
                m.head <= i <= len,
                a@.len() == i - m.head,
                a@.len() <= 11,
                rest == m.queue.skip(m.head).map_values(|p: Seq<char>| stem_or_empty_spec(p)),
                views(a@) == rest.take(i - m.head),
            decreases len - i,
        {
            let ghost prev = a@;
            let name = stem_or_empty(self.queue[i].as_str());
            a.push(name);
            proof {
                lemma_views_push(prev, name);
                assert(rest[i - m.head] == stem_or_empty_spec(m.queue[i as int]));
                assert(rest.take(i + 1 - m.head) =~= rest.take(i - m.head).push(rest[i - m.head]));
            }
            i = i + 1;
        }
        let done = i < len;
        let ghost first = views(a@);
        assert(first == (if rest.len() > 11 { rest.take(11) } else { rest })) by {
            if rest.len() > 11 {
                assert(a@.len() == 11);
            } else {
                assert(i == len);
                assert(rest.take(i - m.head) =~= rest);
            }
        }
        if self.repeat && !done {
            let mut pos: usize = 0;
            let base = a.len();
            assert(views(a@) =~= first + Seq::new(0, |k: int| stem_or_empty_spec(m.queue[k % (len as int)])));
            while a.len() < 10
                invariant
                    len == self.queue@.len(),
                    len > 0,
                    m == self@,
                    base <= a@.len(),
                    a@.len() <= 10 || a@.len() == base,
                    pos < len,
                    pos as int == (a@.len() - base) % (len as int),
                    views(a@) == first + Seq::new(
                        (a@.len() - base) as nat,
                        |k: int| stem_or_empty_spec(m.queue[k % (len as int)]),
                    ),
                decreases 10 - a@.len(),
            {
                let ghost prev = a@;
                let ghost k = a@.len() - base;
                let name = stem_or_empty(self.queue[pos].as_str());
                a.push(name);
                proof {
                    lemma_views_push(prev, name);
                    assert(views(a@) =~= first + Seq::new(
                        (k + 1) as nat,
                        |k: int| stem_or_empty_spec(m.queue[k % (len as int)]),
                    ));
                }
                let ghost p0 = pos as int;
                pos = pos + 1;
                if pos >= len {
                    pos = 0;
                }
                proof {
                    let n = len as int;
                    assert((k + 1) % n == (if p0 + 1 < n { p0 + 1 } else { 0 })) by (nonlinear_arith)
                        requires
                            p0 == k % n,
                            0 <= p0 < n,
                            k >= 0,
                            n > 0,
                    ;
                }
            }
        }
        a
    }

    /// Shuffles the queue; the position then goes to the last track whose
    /// stem is the name that plays, and stays where none has it. Gives
    /// `false` where some track has no file stem: the tracks are then
    /// shuffled and the position is unchanged.
    pub fn shuffle(&mut self) -> (named: bool)
        requires
            old(self).wf(),
        ensures
            final(self).wf(),
            final(self)@.queue.len() == old(self)@.queue.len(),
            final(self)@.queue.to_multiset() == old(self)@.queue.to_multiset(),
            named == all_have_stems(final(self)@.queue),
            final(self)@ == (PlayerModel {
                queue: final(self)@.queue,
                head: if named && last_stem_match(final(self)@.queue, old(self)@.current) >= 0 {
                    last_stem_match(final(self)@.queue, old(self)@.current)
                } else {
                    old(self)@.head
                },
                ..old(self)@
            }),
    {
        let current = self.current.clone();
        shuffle_tracks(&mut self.queue);
        let len = self.queue.len();
        let mut h: usize = self.head;
        let mut i: usize = 0;
        let ghost shuffled = self@;
        assert(shuffled == (PlayerModel { queue: shuffled.queue, ..old(self)@ }));
        while i < len
            invariant
                len == self.queue@.len(),
                self@ == shuffled,
                self.wf(),
                shuffled == (PlayerModel { queue: shuffled.queue, ..old(self)@ }),
                shuffled.queue.len() == old(self)@.queue.len(),
                shuffled.queue.to_multiset() == old(self)@.queue.to_multiset(),
                i <= len,
                h < len || (len == 0 && h == 0),
                current@ == old(self)@.current,
                h == (if last_stem_match(self@.queue.take(i as int), current@) >= 0 {
                    last_stem_match(self@.queue.take(i as int), current@)
                } else {
                    old(self)@.head
                }),
                forall|j: int| 0 <= j < i ==> (#[trigger] file_stem_spec(self@.queue[j])) is Some,
            decreases len - i,
        {
            let ghost t = self@.queue.take(i + 1);
            assert(t.drop_last() =~= self@.queue.take(i as int));
            assert(t.last() == self@.queue[i as int]);
            match file_stem(self.queue[i].as_str()) {
                None => {
                    assert(file_stem_spec(self@.queue[i as int]) is None);
                    return false;
                },
                Some(name) => {
                    if name == current {
                        h = i;
                    }
                },
            }
            i = i + 1;
        }
        assert(self@.queue.take(len as int) =~= self@.queue);
        self.head = h;
        true
    }
}

/// A move back right after a move forward that opened the next track comes
/// back to the track it started from (once a forward move has opened a track,
/// and where the next track is not past the end).
pub proof fn lemma_prev_undoes_skip(m: PlayerModel, name: Seq<char>)
    requires
        m.valid(),
        m.started,
        m.head + 1 < m.queue.len(),
    ensures
        m.skip_target() == Some(m.head + 1),
        (PlayerModel { started: true, ..m.at(m.head + 1).playing(name) }).prev_target() == Some(m.head),
{
}

/// A move forward right after a move back that opened the track before comes
/// back to the track it started from (once a forward move has opened a track).
pub proof fn lemma_skip_undoes_prev(m: PlayerModel, name: Seq<char>)
    requires
        m.valid(),
        m.started,
        m.head > 0,
    ensures
        m.prev_target() == Some(m.head - 1),
        m.at(m.head - 1).playing(name).skip_target() == Some(m.head),
{
}

/// Every position a move goes to is a track of the queue.
pub proof fn lemma_moves_stay_in_queue(m: PlayerModel)
    requires
        m.valid(),
    ensures
        m.skip_target() matches Some(t) ==> 0 <= t < m.queue.len(),
        m.skip_retry() matches Some(t) ==> 0 <= t < m.queue.len(),
        m.prev_target() matches Some(t) ==> 0 <= t < m.queue.len(),
        m.head > 0 ==> (m.prev_retry() matches Some(t) ==> 0 < t < m.queue.len()),
{
}

/// Clearing the queue leaves a valid player with nothing coming up.
pub proof fn lemma_cleared(m: PlayerModel)
    ensures
        m.cleared().valid(),
        m.cleared().upcoming() == Seq::<Seq<char>>::empty(),
{
}

/// Turning repeat on or off twice, or switching between playing and paused
/// twice, gives back the player as it was.
pub proof fn lemma_toggles_undo(m: PlayerModel)
    ensures
        ({
            let once = PlayerModel { repeat: !m.repeat, ..m };
            PlayerModel { repeat: !once.repeat, ..once }
        }) == m,
        ({
            let once = PlayerModel { paused: !m.paused, ..m };
            PlayerModel { paused: !once.paused, ..once }
        }) == m,
{
}

/// At most eleven names are shown as coming up, and at least ten when a
/// track plays and the queue repeats.
pub proof fn lemma_upcoming_len(m: PlayerModel)
    requires
        m.valid(),
    ensures
        m.upcoming().len() <= 11,
        m.current.len() > 0 && m.repeat ==> m.upcoming().len() >= 10,
{
}

/// A well-formed player's model is valid: its position points into the
/// queue, and a track plays only while the queue holds one.
pub proof fn lemma_wf_valid(p: Player)
    requires
        p.wf(),
    ensures
        p@.valid(),
{
}

/// The position a move forward has reached after `k` tracks in a row could
/// not be opened, starting from the track tried first (the position of `m`);
/// `None` once the move gave up. (The move also ends, with `Reset`, when it
/// comes to the track that was playing.)
pub open spec fn skip_after(m: PlayerModel, k: nat) -> Option<int>
    decreases k,
{
    if k == 0 {
        Some(m.head)
    } else {
        match skip_after(m, (k - 1) as nat) {
            Some(h) => m.at(h).skip_retry(),
            None => None,
        }
    }
}

/// The position a move back has reached after `k` tracks in a row could
/// not be opened, starting from the track tried first (the position of `m`);
/// `None` once the move gave up.
pub open spec fn prev_after(m: PlayerModel, k: nat) -> Option<int>
    decreases k,
{
    if k == 0 {
        Some(m.head)
    } else {
        match prev_after(m, (k - 1) as nat) {
            Some(h) => m.at(h).prev_retry(),
            None => None,
        }
    }
}

/// Where a move forward stands after `k` failures.
proof fn lemma_skip_scan_at(m: PlayerModel, k: nat)
    requires
        m.valid(),
        m.queue.len() > 0,
    ensures
        !m.repeat ==> skip_after(m, k) == (if m.head + k < m.queue.len() {
            Some(m.head + k)
        } else {
            None::<int>
        }),
        m.repeat ==> skip_after(m, k) == Some((m.head + k) % (m.queue.len() as int)),
    decreases k,
{
    let n = m.queue.len() as int;
    let h = m.head;
    if k == 0 {
        assert(h % n == h) by (nonlinear_arith)
            requires
                0 <= h < n,
        ;
    } else {
        lemma_skip_scan_at(m, (k - 1) as nat);
        if m.repeat {
            let p = (h + k - 1) % n;
            assert(0 <= p < n) by (nonlinear_arith)
                requires
                    p == (h + k - 1) % n,
                    n > 0,
            ;
            let kk = h + k - 1;
            assert((kk + 1) % n == (if p + 1 < n { p + 1 } else { 0 })) by (nonlinear_arith)
                requires
                    p == kk % n,
                    0 <= p < n,
                    kk >= 0,
                    n > 0,
            ;
        }
    }
}

/// Where a move back stands after `k` failures.
proof fn lemma_prev_scan_at(m: PlayerModel, k: nat)
    requires
        m.valid(),
        m.head >= 1,
    ensures
        !m.repeat ==> prev_after(m, k) == (if k < m.head { Some(m.head - k) } else { None::<int> }),
        m.repeat ==> prev_after(m, k) == Some(1 + (m.head - 1 - k) % (m.queue.len() - 1)),
    decreases k,
{
    let n = m.queue.len() - 1;
    let h = m.head;
    if k == 0 {
        assert((h - 1) % n == h - 1) by (nonlinear_arith)
            requires
                0 <= h - 1 < n,
        ;
    } else {
        lemma_prev_scan_at(m, (k - 1) as nat);
        if m.repeat {
            let x = h - k;
            let r = x % n;
            assert(0 <= r < n) by (nonlinear_arith)
                requires
                    r == x % n,
                    n > 0,
            ;
            assert((x - 1) % n == (if r == 0 { n - 1 } else { r - 1 })) by (nonlinear_arith)
                requires
                    r == x % n,
                    0 <= r < n,
                    n > 0,
            ;
            assert(h - 1 - (k - 1) == x);
        }
    }
}

/// A move forward that keeps failing goes through the queue one track at a
/// time: after `k` failures it is `k` tracks further on. Without repeat it
/// gives up at the end of the queue, so within one pass; with repeat it
/// goes round the queue.
pub proof fn lemma_skip_scan(m: PlayerModel, k: nat)
    requires
        m.valid(),
        m.queue.len() > 0,
    ensures
        !m.repeat ==> skip_after(m, k) == (if m.head + k < m.queue.len() {
            Some(m.head + k)
        } else {
            None::<int>
        }),
        !m.repeat ==> skip_after(m, m.queue.len()) is None,
        m.repeat ==> skip_after(m, k) == Some((m.head + k) % (m.queue.len() as int)),
{
    lemma_skip_scan_at(m, k);
    lemma_skip_scan_at(m, m.queue.len());
}

/// A move back that keeps failing goes back one track at a time, passing
/// over the first track: after `k` failures it is `k` tracks back. Without
/// repeat it gives up when it would come to the first track, so within one
/// pass; with repeat it goes round the tracks after the first.
pub proof fn lemma_prev_scan(m: PlayerModel, k: nat)
    requires
        m.valid(),
        m.head >= 1,
    ensures
        !m.repeat ==> prev_after(m, k) == (if k < m.head { Some(m.head - k) } else { None::<int> }),
        !m.repeat ==> prev_after(m, m.queue.len()) is None,
        m.repeat ==> prev_after(m, k) == Some(1 + (m.head - 1 - k) % (m.queue.len() - 1)),
{
    lemma_prev_scan_at(m, k);
    lemma_prev_scan_at(m, m.queue.len());
}

/// A move, forward or back, ends with `Reset` (the queue cleared) exactly
/// when the path at the position tried is, character for character, the
/// path of the track that plays; any other track is asked to be opened,
/// whatever its name, and nothing changes.
pub proof fn lemma_reset_only_on_playing_path(step: Step, m: PlayerModel, after: PlayerModel)
    requires
        m.valid(),
        m.queue.len() > 0,
        tried(step, m, after),
    ensures
        step is Reset <==> m.queue[m.head] == m.current_path,
        step is Reset ==> after.queue.len() == 0 && after.current.len() == 0,
        m.queue[m.head] != m.current_path ==> {
            &&& step matches Step::Open { path, index } && path@ == m.queue[m.head] && index == m.head
            &&& after == m
        },
{
}

/// After the queue is cleared and new tracks are added, nothing counts as
/// started, and the first move forward goes to the first new track (where
/// it can move at all: with two tracks or more, or with repeat).
pub proof fn lemma_reset_then_add_starts_at_first(m: PlayerModel, tracks: Seq<Seq<char>>)
    requires
        tracks.len() >= 2 || (tracks.len() == 1 && m.repeat),
    ensures
        !m.cleared().started,
        m.cleared().head == 0,
        (PlayerModel { queue: m.cleared().queue + tracks, ..m.cleared() }).skip_target() == Some(0int),
{
    assert(m.cleared().queue + tracks =~= tracks);
}

} // verus!
