use vstd::prelude::*;

use crate::osc::{Sample, MAX_CYCLE};
use crate::score::{events_in, sounding_at, Note, Score};
use crate::synth::{
    advanced, apply_all, apply_spec, has_voice, voice_index, voice_sample, NoteCommand, Synth, Voice,
};

verus! {

/// Tempo of a new engine, in milli-BPM.
pub const DEFAULT_TEMPO: u64 = 140000;

/// A command from the control side to the audio engine.
///
/// Tempos are in milli-BPM, times in the engine's time units.
#[derive(Clone, Debug)]
pub enum Event {
    SetTempo(u64),
    PlayStart(Score, u64),
    PlayStop,
    SheetChanged(Score),
    ICP(NoteCommand),
    Shutdown,
}

/// The transport: a score, a playback cursor, a tempo and the synth it drives.
///
/// Musical time is counted in units of `1 / (60000 * sample_rate)` beat. With the
/// tempo in milli-BPM, a block of `n` samples then covers exactly `n * tempo` units.
pub struct Engine {
    pub sheet: Score,
    pub cursor: u64,
    pub active: bool,
    pub synth: Synth,
    pub tempo: u64,
}

/// Musical time covered by a block of `samples` samples at `tempo` milli-BPM.
pub open spec fn block_length(samples: int, tempo: int) -> int {
    samples * tempo
}

/// Where the cursor stands after a block of length `len` on a score of duration `size`.
pub open spec fn cursor_after(cursor: int, len: int, size: int) -> int {
    (cursor + len) % size
}

/// The events of a block `[cursor, cursor + len)`: when it reaches the end of the
/// score, those up to the end followed by those of the wrapped remainder.
pub open spec fn block_events(notes: Seq<Note>, cursor: int, len: int, size: u64) -> Seq<NoteCommand> {
    if cursor + len >= size {
        events_in(notes, cursor, size as int, size) + events_in(notes, 0, cursor_after(cursor, len, size as int), size)
    } else {
        events_in(notes, cursor, cursor + len, size)
    }
}

/// Tempo scaling: doubling the tempo doubles the musical time that a block covers.
pub proof fn lemma_tempo_scaling(samples: nat, tempo: nat)
    ensures
        block_length(samples as int, (2 * tempo) as int) == 2 * block_length(samples as int, tempo as int),
{
    assert(samples * (2 * tempo) == 2 * (samples * tempo)) by (nonlinear_arith);
}

/// The cursor after a run of blocks of the given lengths, from `cursor`.
pub open spec fn cursor_after_blocks(cursor: int, lens: Seq<nat>, size: int) -> int
    decreases lens.len(),
{
    if lens.len() == 0 {
        cursor
    } else {
        cursor_after(cursor_after_blocks(cursor, lens.drop_last(), size), lens.last() as int, size)
    }
}

pub open spec fn total(lens: Seq<nat>) -> int
    decreases lens.len(),
{
    if lens.len() == 0 {
        0
    } else {
        total(lens.drop_last()) + lens.last()
    }
}

/// Cursor wraparound: playing from zero through blocks of total length `L` leaves
/// the cursor at `L mod D` on a score of duration `D`.
pub proof fn lemma_cursor_wraps(lens: Seq<nat>, size: nat)
    requires
        size > 0,
        lens.len() > 0,
    ensures
        cursor_after_blocks(0, lens, size as int) == total(lens) % (size as int),
    decreases lens.len(),
{
    let rest = lens.drop_last();
    if rest.len() == 0 {
        assert(total(rest) == 0);
        assert(cursor_after_blocks(0, rest, size as int) == 0);
    } else {
        lemma_cursor_wraps(rest, size);
        lemma_total_nonneg(rest);
        vstd::arithmetic::div_mod::lemma_add_mod_noop(total(rest), lens.last() as int, size as int);
        vstd::arithmetic::div_mod::lemma_mod_twice(total(rest), size as int);
        vstd::arithmetic::div_mod::lemma_mod_bound(lens.last() as int, size as int);
        vstd::arithmetic::div_mod::lemma_add_mod_noop(total(rest) % (size as int), lens.last() as int, size as int);
    }
}

proof fn lemma_total_nonneg(lens: Seq<nat>)
    ensures
        total(lens) >= 0,
    decreases lens.len(),
{
    if lens.len() > 0 {
        lemma_total_nonneg(lens.drop_last());
    }
}

/// Cursor wraparound: a block that crosses the end of the score, once, delivers
/// the events of `[c, D)` followed by those of `[0, c + l - D)`.
pub proof fn lemma_crossing_block(notes: Seq<Note>, cursor: nat, len: nat, size: u64)
    requires
        cursor < size <= cursor + len < 2 * size,
    ensures
        cursor_after(cursor as int, len as int, size as int) == cursor + len - size,
        block_events(notes, cursor as int, len as int, size) == events_in(notes, cursor as int, size as int, size)
            + events_in(notes, 0, cursor + len - size, size),
{
    vstd::arithmetic::div_mod::lemma_mod_sub_multiples_vanish((cursor + len) as int, size as int);
    vstd::arithmetic::div_mod::lemma_small_mod((cursor + len - size) as nat, size as nat);
}

proof fn lemma_play_keeps_voices(vs: Seq<Voice>, voice_id: u64, freq: u64, cycle: u64, x: u64)
    requires
        has_voice(vs, x) || x == voice_id,
    ensures
        has_voice(apply_spec(vs, NoteCommand::NotePlay { voice_id, freq }, cycle), x),
{
    let r = apply_spec(vs, NoteCommand::NotePlay { voice_id, freq }, cycle);
    if has_voice(vs, voice_id) {
        let k = voice_index(vs, voice_id);
        if x == voice_id {
            assert(r[k].voice_id == x);
        } else {
            let j = choose|j: int| 0 <= j < vs.len() && vs[j].voice_id == x;
            assert(r[j].voice_id == x);
        }
    } else {
        if x == voice_id {
            assert(r[vs.len() as int].voice_id == x);
        } else {
            let j = choose|j: int| 0 <= j < vs.len() && vs[j].voice_id == x;
            assert(r[j].voice_id == x);
        }
    }
}

/// Mid-note start: starting playback at `t` leaves the voice of every note whose
/// interval holds `t` sounding at once, whatever voices were there before.
pub proof fn lemma_mid_note_start(vs: Seq<Voice>, notes: Seq<Note>, t: int, k: int, cycle: u64)
    requires
        0 <= k < notes.len(),
        notes[k].start <= t < notes[k].start + notes[k].length,
    ensures
        has_voice(apply_all(vs, sounding_at(notes, t), cycle), notes[k].voice_id),
    decreases notes.len(),
{
    let rest = notes.drop_last();
    let head = sounding_at(rest, t);
    let n = notes.last();
    if k < notes.len() - 1 {
        lemma_mid_note_start(vs, rest, t, k, cycle);
        assert(rest[k] == notes[k]);
    }
    if n.start <= t < n.start + n.length {
        let p = NoteCommand::NotePlay { voice_id: n.voice_id, freq: n.freq };
        assert(sounding_at(notes, t) == head + seq![p]);
        assert((head + seq![p]).drop_last() == head);
        lemma_play_keeps_voices(apply_all(vs, head, cycle), n.voice_id, n.freq, cycle, notes[k].voice_id);
    } else {
        assert(sounding_at(notes, t) == head + Seq::<NoteCommand>::empty());
        assert(head + Seq::<NoteCommand>::empty() == head);
    }
}

impl Engine {
    pub open spec fn wf(&self) -> bool {
        self.synth.wf()
    }

    /// A stopped engine with an empty score, for the given sample rate in hertz.
    pub fn new(sample_rate: u64) -> (r: Engine)
        requires
            0 < sample_rate,
            1000 * sample_rate <= MAX_CYCLE,
        ensures
            r.wf(),
            r.sheet.notes@ == Seq::<Note>::empty(),
            r.sheet.size == 0,
            r.cursor == 0,
            !r.active,
            r.tempo == DEFAULT_TEMPO,
            r.synth.voices@ == Seq::<Voice>::empty(),
            r.synth.cycle == 1000 * sample_rate,
    {
        Engine { sheet: Score::new(), cursor: 0, active: false, synth: Synth::new(sample_rate), tempo: DEFAULT_TEMPO }
    }

    /// Applies one command. `Shutdown` is handled by the stream that owns the
    /// engine and changes nothing here.
    pub fn process_event(&mut self, event: Event)
        requires
            old(self).wf(),
        ensures
            final(self).wf(),
            final(self).synth.cycle == old(self).synth.cycle,
            match event {
                Event::SetTempo(tempo) => final(self).tempo == tempo && final(self).sheet == old(self).sheet
                    && final(self).cursor == old(self).cursor && final(self).active == old(self).active
                    && final(self).synth.voices@ == old(self).synth.voices@,
                Event::PlayStart(sheet, cursor) => final(self).sheet == sheet && final(self).cursor == cursor
                    && final(self).active && final(self).tempo == old(self).tempo
                    && final(self).synth.voices@ == apply_all(old(self).synth.voices@, sounding_at(sheet.notes@, cursor as int), old(self).synth.cycle),
                Event::PlayStop => !final(self).active && final(self).synth.voices@ == Seq::<Voice>::empty()
                    && final(self).sheet == old(self).sheet && final(self).cursor == old(self).cursor
                    && final(self).tempo == old(self).tempo,
                Event::SheetChanged(sheet) => final(self).sheet == sheet && final(self).cursor == old(self).cursor
                    && final(self).active == old(self).active && final(self).tempo == old(self).tempo
                    && final(self).synth.voices@ == old(self).synth.voices@,
                Event::ICP(cmd) => final(self).sheet == old(self).sheet && final(self).cursor == old(self).cursor
                    && final(self).active == old(self).active && final(self).tempo == old(self).tempo
                    && final(self).synth.voices@ == apply_all(old(self).synth.voices@, seq![cmd], old(self).synth.cycle),
                Event::Shutdown => final(self).sheet == old(self).sheet && final(self).cursor == old(self).cursor
                    && final(self).active == old(self).active && final(self).tempo == old(self).tempo
                    && final(self).synth.voices@ == old(self).synth.voices@,
            },
    {
        match event {
            Event::SetTempo(tempo) => {
                self.tempo = tempo;
            },
            Event::PlayStart(sheet, cursor) => {
                self.cursor = cursor;
                let events = sheet.get_events_at_time(cursor);
                self.synth.process_events(events.as_slice());
                self.sheet = sheet;
                self.active = true;
            },
            Event::PlayStop => {
                self.active = false;
                self.synth.stop_all();
            },
            Event::SheetChanged(sheet) => {
                self.sheet = sheet;
            },
            Event::ICP(cmd) => {
                let cmds = vec![cmd];
                proof {
                    assert(cmds@ == seq![cmd]);
                }
                self.synth.process_events(cmds.as_slice());
            },
            Event::Shutdown => {},
        }
    }

    /// Advances playback by a block of `samples` samples: when playing a score of
    /// non-zero duration, moves the cursor by the block's tempo-scaled length,
    /// wrapping at the score's end, and hands the block's events to the synth.
    pub fn update(&mut self, samples: usize)
        requires
            old(self).wf(),
        ensures
            final(self).wf(),
            final(self).sheet == old(self).sheet,
            final(self).active == old(self).active,
            final(self).tempo == old(self).tempo,
            final(self).synth.cycle == old(self).synth.cycle,
            old(self).active && old(self).sheet.size > 0 ==> {
                let len = block_length(samples as int, old(self).tempo as int);
                &&& final(self).cursor == cursor_after(old(self).cursor as int, len, old(self).sheet.size as int)
                &&& final(self).synth.voices@ == apply_all(
                    old(self).synth.voices@,
                    block_events(old(self).sheet.notes@, old(self).cursor as int, len, old(self).sheet.size),
                    old(self).synth.cycle,
                )
            },
            !(old(self).active && old(self).sheet.size > 0) ==> final(self).cursor == old(self).cursor
                && final(self).synth.voices@ == old(self).synth.voices@,
    {
        if self.active && self.sheet.size > 0 {
            let size = self.sheet.size;
            proof {
                assert(samples as int * self.tempo as int <= 0xffff_ffff_ffff_ffffu128 * 0xffff_ffff_ffff_ffffu128) by (nonlinear_arith)
                    requires
                        samples as int <= 0xffff_ffff_ffff_ffffu128,
                        self.tempo as int <= 0xffff_ffff_ffff_ffffu128,
                ;
            }
            let len: u128 = samples as u128 * self.tempo as u128;
            let end: u128 = self.cursor as u128 + len;
            let mut events;
            if end >= size as u128 {
                let wrapped = (end % size as u128) as u64;
                events = self.sheet.get_events(self.cursor, size);
                let mut rest = self.sheet.get_events(0, wrapped);
                events.append(&mut rest);
                self.cursor = wrapped;
            } else {
                events = self.sheet.get_events(self.cursor, end as u64);
                proof {
                    vstd::arithmetic::div_mod::lemma_small_mod(end as nat, size as nat);
                }
                self.cursor = end as u64;
            }
            self.synth.process_events(events.as_slice());
        }
    }

    /// Produces the next sample of the mix: one sample per active voice.
    pub fn next_sample(&mut self) -> (r: Vec<Sample>)
        requires
            old(self).wf(),
        ensures
            final(self).wf(),
            final(self).sheet == old(self).sheet,
            final(self).cursor == old(self).cursor,
            final(self).active == old(self).active,
            final(self).tempo == old(self).tempo,
            final(self).synth.cycle == old(self).synth.cycle,
            final(self).synth.voices@ == old(self).synth.voices@.map_values(|v: Voice| advanced(v)),
            r@ == old(self).synth.voices@.map_values(|v: Voice| voice_sample(v)),
    {
        self.synth.next_sample()
    }
}

} // verus!
