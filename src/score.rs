use vstd::prelude::*;

use crate::synth::NoteCommand;

verus! {

/// A note of a score. Times are in the engine's time units, `freq` in millihertz.
#[derive(Clone, Copy, PartialEq, Eq, Structural, Debug)]
pub struct Note {
    pub voice_id: u64,
    pub freq: u64,
    pub start: u64,
    pub length: u64,
}

/// An immutable snapshot of a score: its notes and its cyclic duration `size`.
#[derive(Clone, Debug)]
pub struct Score {
    pub notes: Vec<Note>,
    pub size: u64,
}

/// Where a note's stop falls on the cyclic timeline: its end, taken modulo the
/// score's duration (a note that ends with the score stops at time zero).
pub open spec fn stop_time(n: Note, size: u64) -> int {
    (n.start + n.length) % (size as int)
}

/// The events of one note in `[a, b)`: its start, then its stop.
pub open spec fn note_events(n: Note, a: int, b: int, size: u64) -> Seq<NoteCommand> {
    (if a <= n.start < b {
        seq![NoteCommand::NotePlay { voice_id: n.voice_id, freq: n.freq }]
    } else {
        Seq::empty()
    }) + (if size > 0 && a <= stop_time(n, size) < b {
        seq![NoteCommand::NoteStop { voice_id: n.voice_id }]
    } else {
        Seq::empty()
    })
}

/// The events whose time falls in `[a, b)`, note by note in score order.
pub open spec fn events_in(notes: Seq<Note>, a: int, b: int, size: u64) -> Seq<NoteCommand>
    decreases notes.len(),
{
    if notes.len() == 0 {
        Seq::empty()
    } else {
        events_in(notes.drop_last(), a, b, size) + note_events(notes.last(), a, b, size)
    }
}

/// A play command for each note sounding at `t`, that is with `start <= t < start + length`.
pub open spec fn sounding_at(notes: Seq<Note>, t: int) -> Seq<NoteCommand>
    decreases notes.len(),
{
    if notes.len() == 0 {
        Seq::empty()
    } else {
        sounding_at(notes.drop_last(), t) + (if notes.last().start <= t < notes.last().start
            + notes.last().length {
            seq![NoteCommand::NotePlay { voice_id: notes.last().voice_id, freq: notes.last().freq }]
        } else {
            Seq::empty()
        })
    }
}

impl Score {
    /// An empty score of duration zero.
    pub fn new() -> (r: Score)
        ensures
            r.notes@ == Seq::<Note>::empty(),
            r.size == 0,
    {
        Score { notes: Vec::new(), size: 0 }
    }

    /// The cyclic duration of the score.
    pub fn get_size(&self) -> (r: u64)
        ensures
            r == self.size,
    {
        self.size
    }

    /// The note events whose time falls in `[start, end)`.
    pub fn get_events(&self, start: u64, end: u64) -> (r: Vec<NoteCommand>)
        ensures
            r@ == events_in(self.notes@, start as int, end as int, self.size),
    {
        let mut out: Vec<NoteCommand> = Vec::new();
        let mut i: usize = 0;
        while i < self.notes.len()
            invariant
                i <= self.notes.len(),
                out@ == events_in(self.notes@.take(i as int), start as int, end as int, self.size),
            decreases self.notes.len() - i,
        {
            let n = self.notes[i];
            proof {
                assert(self.notes@.take(i as int + 1).drop_last() == self.notes@.take(i as int));
            }
            let ghost before = out@;
            if start <= n.start && n.start < end {
                out.push(NoteCommand::NotePlay { voice_id: n.voice_id, freq: n.freq });
            }
            if self.size > 0 {
                let stop = ((n.start as u128 + n.length as u128) % self.size as u128) as u64;
                if start <= stop && stop < end {
                    out.push(NoteCommand::NoteStop { voice_id: n.voice_id });
                }
            }
            proof {
                assert(out@ =~= before + note_events(n, start as int, end as int, self.size));
            }
            i = i + 1;
        }
        proof {
            assert(self.notes@.take(self.notes.len() as int) == self.notes@);
        }
        out
    }

    /// A play command for each note sounding at `t`.
    pub fn get_events_at_time(&self, t: u64) -> (r: Vec<NoteCommand>)
        ensures
            r@ == sounding_at(self.notes@, t as int),
    {
        let mut out: Vec<NoteCommand> = Vec::new();
        let mut i: usize = 0;
        while i < self.notes.len()
            invariant
                i <= self.notes.len(),
                out@ == sounding_at(self.notes@.take(i as int), t as int),
            decreases self.notes.len() - i,
        {
            let n = self.notes[i];
            proof {
                assert(self.notes@.take(i as int + 1).drop_last() == self.notes@.take(i as int));
            }
            let ghost before = out@;
            if n.start <= t && (t as u128) < n.start as u128 + n.length as u128 {
                out.push(NoteCommand::NotePlay { voice_id: n.voice_id, freq: n.freq });
            }
            proof {
                assert(out@ =~= before + (if n.start <= t < n.start + n.length {
                    seq![NoteCommand::NotePlay { voice_id: n.voice_id, freq: n.freq }]
                } else {
                    Seq::empty()
                }));
            }
            i = i + 1;
        }
        proof {
            assert(self.notes@.take(self.notes.len() as int) == self.notes@);
        }
        out
    }
}

} // verus!
