use vstd::prelude::*;

use crate::osc::{sample_of, Mode, Osc, Sample, MAX_CYCLE};

verus! {

/// A live note command. `freq` is in millihertz.
#[derive(Clone, Copy, PartialEq, Eq, Structural, Debug)]
pub enum NoteCommand {
    NotePlay { voice_id: u64, freq: u64 },
    NoteStop { voice_id: u64 },
    NoteStopAll,
}

/// One sounding note: its oscillator and its phase increment per sample.
#[derive(Clone, Copy, PartialEq, Eq, Structural, Debug)]
pub struct Voice {
    pub voice_id: u64,
    pub osc: Osc,
    pub delta: u64,
}

/// The active voices, keyed by their id, mixed into one output.
///
/// Phases count `cycle` units per period, with `cycle` a thousand times the sample
/// rate: a frequency in millihertz is then exactly the phase increment per sample.
pub struct Synth {
    pub voices: Vec<Voice>,
    pub cycle: u64,
}

pub open spec fn unique_ids(vs: Seq<Voice>) -> bool {
    forall|i: int, j: int| 0 <= i < vs.len() && 0 <= j < vs.len() && i != j ==> vs[i].voice_id != vs[j].voice_id
}

pub open spec fn has_voice(vs: Seq<Voice>, id: u64) -> bool {
    exists|i: int| 0 <= i < vs.len() && vs[i].voice_id == id
}

pub open spec fn voice_index(vs: Seq<Voice>, id: u64) -> int {
    choose|i: int| 0 <= i < vs.len() && vs[i].voice_id == id
}

/// A voice just started: a sine at phase zero.
pub open spec fn fresh_voice(id: u64, freq: u64, cycle: u64) -> Voice {
    Voice { voice_id: id, osc: Osc { mode: Mode::Sine, phase: 0, cycle }, delta: freq }
}

/// The voices after one command: a play replaces the voice of the same id (its
/// phase is dropped) or adds one at the end; a stop removes the voice if present.
pub open spec fn apply_spec(vs: Seq<Voice>, cmd: NoteCommand, cycle: u64) -> Seq<Voice> {
    match cmd {
        NoteCommand::NotePlay { voice_id, freq } => if has_voice(vs, voice_id) {
            vs.update(voice_index(vs, voice_id), fresh_voice(voice_id, freq, cycle))
        } else {
            vs.push(fresh_voice(voice_id, freq, cycle))
        },
        NoteCommand::NoteStop { voice_id } => if has_voice(vs, voice_id) {
            vs.remove(voice_index(vs, voice_id))
        } else {
            vs
        },
        NoteCommand::NoteStopAll => Seq::empty(),
    }
}

/// The voices after a sequence of commands, applied in order.
pub open spec fn apply_all(vs: Seq<Voice>, cmds: Seq<NoteCommand>, cycle: u64) -> Seq<Voice>
    decreases cmds.len(),
{
    if cmds.len() == 0 {
        vs
    } else {
        apply_spec(apply_all(vs, cmds.drop_last(), cycle), cmds.last(), cycle)
    }
}

pub open spec fn voice_wf(v: Voice, cycle: u64) -> bool {
    &&& v.osc.wf()
    &&& v.osc.cycle == cycle
    &&& (v.osc.mode == Mode::Sine || v.delta <= MAX_CYCLE)
}

pub open spec fn voices_wf(vs: Seq<Voice>, cycle: u64) -> bool {
    &&& unique_ids(vs)
    &&& forall|i: int| 0 <= i < vs.len() ==> voice_wf(#[trigger] vs[i], cycle)
}

/// A voice after one sample.
pub open spec fn advanced(v: Voice) -> Voice {
    Voice {
        osc: Osc { phase: ((v.osc.phase + v.delta) % (v.osc.cycle as int)) as u64, ..v.osc },
        ..v
    }
}

/// The sample a voice gives at its current phase.
pub open spec fn voice_sample(v: Voice) -> Sample {
    sample_of(v.osc.mode, v.osc.phase as int, v.delta as int, v.osc.cycle as int)
}

proof fn lemma_apply_keeps_wf(vs: Seq<Voice>, cmd: NoteCommand, cycle: u64)
    requires
        voices_wf(vs, cycle),
        0 < cycle <= MAX_CYCLE,
    ensures
        voices_wf(apply_spec(vs, cmd, cycle), cycle),
{
    match cmd {
        NoteCommand::NotePlay { voice_id, freq } => {
            if has_voice(vs, voice_id) {
                let k = voice_index(vs, voice_id);
                let r = vs.update(k, fresh_voice(voice_id, freq, cycle));
                assert forall|i: int, j: int| 0 <= i < r.len() && 0 <= j < r.len() && i != j implies r[i].voice_id != r[j].voice_id by {
                    if i != k && j != k {
                        assert(vs[i].voice_id != vs[j].voice_id);
                    } else if i == k {
                        assert(vs[j].voice_id != vs[k].voice_id);
                    } else {
                        assert(vs[i].voice_id != vs[k].voice_id);
                    }
                }
            }
        },
        NoteCommand::NoteStop { voice_id } => {
            if has_voice(vs, voice_id) {
                let k = voice_index(vs, voice_id);
                let r = vs.remove(k);
                assert forall|i: int| 0 <= i < r.len() implies r[i] == if i < k { vs[i] } else { vs[i + 1] } by {}
                assert forall|i: int, j: int| 0 <= i < r.len() && 0 <= j < r.len() && i != j implies r[i].voice_id != r[j].voice_id by {
                    let i2 = if i < k { i } else { i + 1 };
                    let j2 = if j < k { j } else { j + 1 };
                    assert(vs[i2].voice_id != vs[j2].voice_id);
                }
                assert forall|i: int| 0 <= i < r.len() implies voice_wf(#[trigger] r[i], cycle) by {
                    let i2 = if i < k { i } else { i + 1 };
                    assert(voice_wf(vs[i2], cycle));
                }
            }
        },
        NoteCommand::NoteStopAll => {},
    }
}

/// Stopping is idempotent: stopping an absent voice changes nothing, and a run of
/// one or more stop-all commands leaves no voice, whatever sounded before.
pub proof fn lemma_stop_idempotent(vs: Seq<Voice>, voice_id: u64, n: nat, cycle: u64)
    ensures
        !has_voice(vs, voice_id) ==> apply_spec(vs, NoteCommand::NoteStop { voice_id }, cycle) == vs,
        n > 0 ==> apply_all(vs, Seq::new(n, |i: int| NoteCommand::NoteStopAll), cycle) == Seq::<Voice>::empty(),
{
    let cmds = Seq::new(n, |i: int| NoteCommand::NoteStopAll);
    if n > 0 {
        assert(cmds.last() == NoteCommand::NoteStopAll);
    }
}

impl Synth {
    pub open spec fn wf(&self) -> bool {
        &&& 0 < self.cycle <= MAX_CYCLE
        &&& voices_wf(self.voices@, self.cycle)
    }

    /// A synth with no voices, for the given sample rate in hertz.
    pub fn new(sample_rate: u64) -> (r: Synth)
        requires
            0 < sample_rate,
            1000 * sample_rate <= MAX_CYCLE,
        ensures
            r.wf(),
            r.voices@ == Seq::<Voice>::empty(),
            r.cycle == 1000 * sample_rate,
    {
        Synth { voices: Vec::new(), cycle: 1000 * sample_rate }
    }

    fn find(&self, voice_id: u64) -> (r: Option<usize>)
        requires
            self.wf(),
        ensures
            r.is_some() <==> has_voice(self.voices@, voice_id),
            r.is_some() ==> r.unwrap() == voice_index(self.voices@, voice_id) && r.unwrap()
                < self.voices.len(),
    {
        let mut i: usize = 0;
        while i < self.voices.len()
            invariant
                i <= self.voices.len(),
                self.wf(),
                forall|j: int| 0 <= j < i ==> self.voices@[j].voice_id != voice_id,
            decreases self.voices.len() - i,
        {
            if self.voices[i].voice_id == voice_id {
                proof {
                    let k = voice_index(self.voices@, voice_id);
                    assert(has_voice(self.voices@, voice_id));
                    assert(self.voices@[k].voice_id == voice_id);
                    assert(k == i as int);
                }
                return Some(i);
            }
            i = i + 1;
        }
        None
    }

    /// Starts (or restarts) the voice `voice_id` at `freq` millihertz.
    pub fn note_on(&mut self, voice_id: u64, freq: u64)
        requires
            old(self).wf(),
        ensures
            final(self).wf(),
            final(self).cycle == old(self).cycle,
            final(self).voices@ == apply_spec(old(self).voices@, NoteCommand::NotePlay { voice_id, freq }, old(self).cycle),
    {
        proof { lemma_apply_keeps_wf(self.voices@, NoteCommand::NotePlay { voice_id, freq }, self.cycle); }
        let v = Voice { voice_id, osc: Osc::new(Mode::Sine, self.cycle), delta: freq };
        match self.find(voice_id) {
            Some(i) => self.voices.set(i, v),
            None => self.voices.push(v),
        }
    }

    /// Stops the voice `voice_id`; nothing happens if no such voice sounds.
    pub fn note_off(&mut self, voice_id: u64)
        requires
            old(self).wf(),
        ensures
            final(self).wf(),
            final(self).cycle == old(self).cycle,
            final(self).voices@ == apply_spec(old(self).voices@, NoteCommand::NoteStop { voice_id }, old(self).cycle),
    {
        proof { lemma_apply_keeps_wf(self.voices@, NoteCommand::NoteStop { voice_id }, self.cycle); }
        match self.find(voice_id) {
            Some(i) => {
                self.voices.remove(i);
            },
            None => {},
        }
    }

    /// Stops every voice.
    pub fn stop_all(&mut self)
        requires
            old(self).wf(),
        ensures
            final(self).wf(),
            final(self).cycle == old(self).cycle,
            final(self).voices@ == Seq::<Voice>::empty(),
    {
        self.voices.clear();
    }

    pub fn apply(&mut self, cmd: NoteCommand)
        requires
            old(self).wf(),
        ensures
            final(self).wf(),
            final(self).cycle == old(self).cycle,
            final(self).voices@ == apply_spec(old(self).voices@, cmd, old(self).cycle),
    {
        match cmd {
            NoteCommand::NotePlay { voice_id, freq } => self.note_on(voice_id, freq),
            NoteCommand::NoteStop { voice_id } => self.note_off(voice_id),
            NoteCommand::NoteStopAll => self.stop_all(),
        }
    }

    /// Applies the commands in order.
    pub fn process_events(&mut self, events: &[NoteCommand])
        requires
            old(self).wf(),
        ensures
            final(self).wf(),
            final(self).cycle == old(self).cycle,
            final(self).voices@ == apply_all(old(self).voices@, events@, old(self).cycle),
    {
        let ghost start = self.voices@;
        let mut i: usize = 0;
        while i < events.len()
            invariant
                i <= events.len(),
                self.wf(),
                self.cycle == old(self).cycle,
                start == old(self).voices@,
                self.voices@ == apply_all(start, events@.take(i as int), self.cycle),
            decreases events.len() - i,
        {
            proof {
                assert(events@.take(i as int + 1).drop_last() == events@.take(i as int));
            }
            self.apply(events[i]);
            i = i + 1;
        }
        proof {
            assert(events@.take(events.len() as int) == events@);
        }
    }

    /// Advances every voice by one sample and returns their samples, in voice
    /// order; the output is the sum of these (silence when there are none).
    pub fn next_sample(&mut self) -> (r: Vec<Sample>)
        requires
            old(self).wf(),
        ensures
            final(self).wf(),
            final(self).cycle == old(self).cycle,
            final(self).voices@ == old(self).voices@.map_values(|v: Voice| advanced(v)),
            r@ == old(self).voices@.map_values(|v: Voice| voice_sample(v)),
    {
        let ghost start = self.voices@;
        let mut out: Vec<Sample> = Vec::new();
        let mut i: usize = 0;
        while i < self.voices.len()
            invariant
                i <= self.voices.len(),
                self.voices.len() == start.len(),
                0 < self.cycle <= MAX_CYCLE,
                self.cycle == old(self).cycle,
                start == old(self).voices@,
                voices_wf(start, self.cycle),
                out@.len() == i,
                forall|j: int| 0 <= j < i ==> self.voices@[j] == advanced(start[j]),
                forall|j: int| 0 <= j < i ==> out@[j] == voice_sample(start[j]),
                forall|j: int| i <= j < self.voices.len() ==> self.voices@[j] == start[j],
            decreases self.voices.len() - i,
        {
            let mut v = self.voices[i];
            assert(voice_wf(start[i as int], self.cycle));
            let s = v.osc.next(v.delta);
            self.voices.set(i, v);
            out.push(s);
            i = i + 1;
        }
        proof {
            assert(self.voices@ =~= start.map_values(|v: Voice| advanced(v)));
            assert(out@ =~= start.map_values(|v: Voice| voice_sample(v)));
            assert forall|j: int| 0 <= j < self.voices.len() implies voice_wf(#[trigger] self.voices@[j], self.cycle) by {
                assert(voice_wf(start[j], self.cycle));
            }
            assert forall|a: int, b: int| 0 <= a < self.voices.len() && 0 <= b < self.voices.len() && a != b implies self.voices@[a].voice_id != self.voices@[b].voice_id by {
                assert(start[a].voice_id != start[b].voice_id);
            }
        }
        out
    }
}

} // verus!
