use harmoxen::engine::{Engine, Event};
use harmoxen::osc::{Mode, Osc, Sample, LEVEL_ONE};
use harmoxen::score::{Note, Score};
use harmoxen::synth::{NoteCommand, Synth};

const RATE: u64 = 48000;
// one beat in engine time units: 60000 * sample rate
const BEAT: u64 = 60000 * RATE;

fn one_note_score() -> Score {
    Score {
        notes: vec![Note { voice_id: 7, freq: 440_000, start: 0, length: BEAT }],
        size: 4 * BEAT,
    }
}

fn sine_value(s: &Sample) -> f64 {
    match *s {
        Sample::Sine { phase, cycle } => (phase as f64 / cycle as f64 * std::f64::consts::TAU).sin(),
        Sample::Level(l) => l as f64 / LEVEL_ONE as f64,
    }
}

#[test]
fn end_to_end_block_at_120_bpm() {
    let mut engine = Engine::new(RATE);
    engine.process_event(Event::SetTempo(120_000));
    engine.process_event(Event::PlayStart(one_note_score(), 0));
    assert!(engine.active);
    assert_eq!(engine.synth.voices.len(), 1);
    engine.update(480);
    // 480 samples at 1/48000 s and 2 beats per second: 0.02 beat
    assert_eq!(engine.cursor, BEAT / 50);
    assert_eq!(engine.synth.voices.len(), 1);
    for k in 0..480u64 {
        let out = engine.next_sample();
        assert_eq!(out.len(), 1);
        assert_eq!(out[0], Sample::Sine { phase: (k * 440_000) % (1000 * RATE), cycle: 1000 * RATE });
        let expected = (k as f64 * 440.0 / 48000.0 * std::f64::consts::TAU).sin();
        assert!((sine_value(&out[0]) - expected).abs() < 1e-9);
    }
}

#[test]
fn cursor_wraps_at_score_end() {
    let mut engine = Engine::new(1000);
    engine.process_event(Event::SetTempo(60_000));
    let score = Score {
        notes: vec![
            Note { voice_id: 1, freq: 1000, start: 0, length: 50_000 },
            Note { voice_id: 2, freq: 2000, start: 900_000, length: 200_000 },
        ],
        size: 1_000_000,
    };
    engine.process_event(Event::PlayStart(score, 0));
    assert_eq!(engine.synth.voices.len(), 1);
    // each sample covers 60000 units; 15 samples = 900000: the first note ends,
    // the second starts with the next block
    engine.update(15);
    assert_eq!(engine.cursor, 900_000);
    assert!(engine.synth.voices.is_empty());
    // 2 samples more reach 1020000: [900000, 1000000) then [0, 20000)
    engine.update(2);
    assert_eq!(engine.cursor, 20_000);
    let ids: Vec<u64> = engine.synth.voices.iter().map(|v| v.voice_id).collect();
    assert_eq!(ids, vec![2, 1]);
    // [20000, 140000) holds the stops of both: the first at 50000, the second
    // at 1100000 mod 1000000
    engine.update(2);
    assert_eq!(engine.cursor, 140_000);
    assert!(engine.synth.voices.is_empty());
}

#[test]
fn events_across_the_wrap() {
    let score = Score {
        notes: vec![Note { voice_id: 3, freq: 5, start: 0, length: 10 }, Note { voice_id: 4, freq: 6, start: 95, length: 5 }],
        size: 100,
    };
    assert_eq!(
        score.get_events(90, 100),
        vec![NoteCommand::NotePlay { voice_id: 4, freq: 6 }]
    );
    assert_eq!(
        score.get_events(0, 10),
        vec![NoteCommand::NotePlay { voice_id: 3, freq: 5 }, NoteCommand::NoteStop { voice_id: 4 }]
    );
    assert_eq!(score.get_events_at_time(97), vec![NoteCommand::NotePlay { voice_id: 4, freq: 6 }]);
}

#[test]
fn doubling_tempo_doubles_advance() {
    let score = Score { notes: vec![], size: u64::MAX };
    let mut slow = Engine::new(44100);
    slow.process_event(Event::SetTempo(90_000));
    slow.process_event(Event::PlayStart(score.clone(), 0));
    slow.update(256);
    let mut fast = Engine::new(44100);
    fast.process_event(Event::SetTempo(180_000));
    fast.process_event(Event::PlayStart(score, 0));
    fast.update(256);
    assert_eq!(slow.cursor, 256 * 90_000);
    assert_eq!(fast.cursor, 2 * slow.cursor);
}

#[test]
fn stopped_engine_does_not_advance() {
    let mut engine = Engine::new(48000);
    engine.process_event(Event::PlayStart(one_note_score(), 5));
    engine.process_event(Event::PlayStop);
    engine.update(1000);
    assert_eq!(engine.cursor, 5);
    assert!(!engine.active);
}

#[test]
fn repeated_play_stop() {
    let mut engine = Engine::new(48000);
    engine.process_event(Event::PlayStart(one_note_score(), 0));
    engine.process_event(Event::ICP(NoteCommand::NotePlay { voice_id: 99, freq: 220_000 }));
    assert_eq!(engine.synth.voices.len(), 2);
    for _ in 0..3 {
        engine.process_event(Event::PlayStop);
        assert!(!engine.active);
        assert!(engine.synth.voices.is_empty());
        assert!(engine.next_sample().is_empty());
    }
}

#[test]
fn note_off_on_absent_voice() {
    let mut synth = Synth::new(48000);
    synth.note_off(12);
    assert!(synth.voices.is_empty());
    synth.note_on(1, 440_000);
    synth.note_off(2);
    assert_eq!(synth.voices.len(), 1);
    synth.note_off(1);
    assert!(synth.voices.is_empty());
}

#[test]
fn replayed_voice_restarts_phase() {
    let mut synth = Synth::new(1000);
    synth.note_on(1, 250_000);
    synth.note_on(2, 100_000);
    synth.next_sample();
    assert_eq!(synth.voices[0].osc.phase, 250_000);
    synth.note_on(1, 500_000);
    assert_eq!(synth.voices.len(), 2);
    assert_eq!(synth.voices[0].osc.phase, 0);
    assert_eq!(synth.voices[0].delta, 500_000);
    synth.apply(NoteCommand::NoteStopAll);
    assert!(synth.voices.is_empty());
}

#[test]
fn play_start_mid_note() {
    let mut engine = Engine::new(48000);
    let score = Score {
        notes: vec![
            Note { voice_id: 1, freq: 100_000, start: 0, length: 10 },
            Note { voice_id: 2, freq: 200_000, start: 5, length: 10 },
            Note { voice_id: 3, freq: 300_000, start: 12, length: 10 },
        ],
        size: 30,
    };
    engine.process_event(Event::PlayStart(score, 7));
    let ids: Vec<u64> = engine.synth.voices.iter().map(|v| v.voice_id).collect();
    assert_eq!(ids, vec![1, 2]);
    let out = engine.next_sample();
    assert_eq!(out.len(), 2);
}

#[test]
fn sheet_change_keeps_cursor() {
    let mut engine = Engine::new(48000);
    engine.process_event(Event::PlayStart(one_note_score(), 3));
    engine.process_event(Event::SheetChanged(Score::new()));
    assert_eq!(engine.cursor, 3);
    assert!(engine.active);
    assert_eq!(engine.synth.voices.len(), 1);
    engine.process_event(Event::Shutdown);
    assert!(engine.active);
}

#[test]
fn saw_and_square_levels() {
    let mut saw = Osc::new(Mode::Saw, 1000);
    // at the wrap: ramp -2, correction -1
    assert_eq!(saw.next(100), Sample::Level(-LEVEL_ONE));
    assert_eq!(saw.phase, 100);
    // away from the edge: plain ramp, (0.1 - 0.5) * 2 - 1 = -1.8, magnitude rounded down
    assert_eq!(saw.next(100), Sample::Level(-117964));
    let mut sq = Osc::new(Mode::Square, 1000);
    // at the rising edge the correction pulls the level to 0
    assert_eq!(sq.next(100), Sample::Level(0));
    assert_eq!(sq.next(100), Sample::Level(LEVEL_ONE));
    sq.phase = 950;
    // 50 units before the wrap: naive -1, correction (x + 1)^2 with x = -0.5
    assert_eq!(sq.next(100), Sample::Level(-LEVEL_ONE + LEVEL_ONE / 4));
    assert_eq!(sq.phase, 50);
}

#[test]
fn square_stays_bounded() {
    for delta in [1u64, 37, 250, 499] {
        let mut sq = Osc::new(Mode::Square, 1000);
        for _ in 0..3000 {
            match sq.next(delta) {
                Sample::Level(l) => assert!(-LEVEL_ONE <= l && l <= LEVEL_ONE),
                Sample::Sine { .. } => panic!("square gave a sine sample"),
            }
        }
    }
}

#[test]
fn phase_wraps_modulo_cycle() {
    let mut sine = Osc::new(Mode::Sine, 1000);
    assert_eq!(sine.next(2500), Sample::Sine { phase: 0, cycle: 1000 });
    assert_eq!(sine.phase, 500);
}

#[test]
fn saw_bounded_for_wide_increments() {
    // 2 * (1000 - d)^2 <= 1000^2 holds from d = 293 on
    for delta in [293u64, 350, 499] {
        let mut saw = Osc::new(Mode::Saw, 1000);
        for _ in 0..3000 {
            match saw.next(delta) {
                Sample::Level(l) => assert!(-3 * LEVEL_ONE / 2 <= l && l <= LEVEL_ONE),
                Sample::Sine { .. } => panic!("saw gave a sine sample"),
            }
        }
    }
}

#[test]
fn saw_ramp_goes_under_three_halves_for_narrow_increments() {
    let mut saw = Osc::new(Mode::Saw, 1000);
    saw.next(10);
    // phase 0.01, past the correction window: (0.01 - 0.5) * 2 - 1 = -1.98
    assert_eq!(saw.next(10), Sample::Level(-129761));
}
