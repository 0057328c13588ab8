//! What a playing sound keeps track of besides the audio itself: how far
//! into the track it is, whether it is paused, and how long the track is.
//! The time that passes is measured by the caller, which hands in the
//! milliseconds since playback last started.

use vstd::prelude::*;

verus! {

/// A sound's state, as plain values.
pub ghost struct SoundStateModel {
    /// The milliseconds played before playback last started (or up to the pause).
    pub elapsed: u32,
    pub paused: bool,
    /// The length of the track, in milliseconds.
    pub duration: u32,
}

/// How far into the track playback is, `since_ms` milliseconds after
/// playback last started: the stored time while paused, and otherwise the
/// stored time plus those milliseconds (cut to 32 bits); `None` where that
/// sum does not fit in 32 bits.
pub open spec fn position(m: SoundStateModel, since_ms: u128) -> Option<u32> {
    if m.paused {
        Some(m.elapsed)
    } else if m.elapsed + (since_ms as u32) <= u32::MAX {
        Some((m.elapsed + (since_ms as u32)) as u32)
    } else {
        None
    }
}

/// A sound's state.
pub struct SoundState {
    elapsed: u32,
    paused: bool,
    duration: u32,
}

impl View for SoundState {
    type V = SoundStateModel;

    closed spec fn view(&self) -> SoundStateModel {
        SoundStateModel { elapsed: self.elapsed, paused: self.paused, duration: self.duration }
    }
}

impl SoundState {
    /// A fresh sound: nothing played, playing, no length yet.
    pub fn new() -> (s: SoundState)
        ensures
            s@ == (SoundStateModel { elapsed: 0, paused: false, duration: 0 }),
    {
        SoundState { elapsed: 0, paused: false, duration: 0 }
    }

    /// A track was opened, started `skip` milliseconds in, and lasts
    /// `duration` milliseconds.
    pub fn opened(&mut self, skip: u32, duration: u32)
        ensures
            final(self)@ == (SoundStateModel { elapsed: skip, duration, ..old(self)@ }),
    {
        self.elapsed = skip;
        self.duration = duration;
    }

    /// Takes the sound action `a`, `since_ms` milliseconds after playback
    /// last started: 0 plays (the caller restarts its count of time), 1
    /// pauses and adds the time played to the stored time, other actions
    /// (2 stops the audio) change nothing here. Gives `false`, and changes
    /// nothing, where a pause would push the stored time past 32 bits.
    pub fn action(&mut self, a: i32, since_ms: u128) -> (ok: bool)
        ensures
            a == 0 ==> ok && final(self)@ == (SoundStateModel { paused: false, ..old(self)@ }),
            a == 1 ==> (ok <==> old(self)@.elapsed + (since_ms as u32) <= u32::MAX),
            a == 1 && ok ==> final(self)@ == (SoundStateModel {
                elapsed: (old(self)@.elapsed + (since_ms as u32)) as u32,
                paused: true,
                ..old(self)@
            }),
            a == 1 && !ok ==> final(self)@ == old(self)@,
            a != 0 && a != 1 ==> ok && final(self)@ == old(self)@,
    {
        if a == 0 {
            self.paused = false;
            true
        } else if a == 1 {
            let played = since_ms as u32;
            if self.elapsed > u32::MAX - played {
                return false;
            }
            self.elapsed = self.elapsed + played;
            self.paused = true;
            true
        } else {
            true
        }
    }

    /// How far into the track playback is, `since_ms` milliseconds after it
    /// last started (see [`position`]).
    pub fn elapsed(&self, since_ms: u128) -> (r: Option<u32>)
        ensures
            r == position(self@, since_ms),
    {
        if self.paused {
            return Some(self.elapsed);
        }
        let played = since_ms as u32;
        if self.elapsed > u32::MAX - played {
            None
        } else {
            Some(self.elapsed + played)
        }
    }

    /// The length of the track, in milliseconds.
    pub fn get_duration(&self) -> (d: u32)
        ensures
            d == self@.duration,
    {
        self.duration
    }
}

/// While paused, the position does not move, however much time passes.
pub proof fn lemma_paused_holds_still(m: SoundStateModel, t1: u128, t2: u128)
    requires
        m.paused,
    ensures
        position(m, t1) == position(m, t2),
        position(m, t1) == Some(m.elapsed),
{
}

/// Pausing right away after playback started keeps the position where it was.
pub proof fn lemma_pause_at_start(m: SoundStateModel)
    ensures
        position(SoundStateModel { paused: false, ..m }, 0) == Some(m.elapsed),
{
    assert((0u128 as u32) == 0u32) by (bit_vector);
}

} // verus!
