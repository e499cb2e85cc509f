use quipu::parser::parse_script;
use quipu::playback::{segment_units, PlayStep, PlaybackEngine};
use quipu::types::Script;

fn empty_engine() -> PlaybackEngine {
    PlaybackEngine::new(Script { commands: Vec::new() })
}

#[test]
fn csi_sequence_is_one_unit_of_five_bytes() {
    let engine = empty_engine();
    assert_eq!(engine.escape_sequence_length(b"\x1b[15~"), 5);
}

#[test]
fn boundary_scan_on_other_shapes() {
    let engine = empty_engine();
    assert_eq!(engine.escape_sequence_length(b"a"), 1);
    assert_eq!(engine.escape_sequence_length(b"\x1b"), 1);
    assert_eq!(engine.escape_sequence_length(b"\x1bOP"), 3);
    assert_eq!(engine.escape_sequence_length(b"\x1bO"), 2);
    assert_eq!(engine.escape_sequence_length(b"\x1bx"), 2);
    assert_eq!(engine.escape_sequence_length(b"\x1b[15"), 4);
    assert_eq!(engine.escape_sequence_length(b"\x1b[1;5Hrest"), 6);
}

#[test]
fn segmentation_keeps_escape_sequences_whole() {
    assert_eq!(segment_units("a\x1b[15~b"), vec!["a", "\x1b[15~", "b"]);
    assert_eq!(segment_units("\x1bOPx"), vec!["\x1bOP", "x"]);
    assert_eq!(segment_units("hi"), vec!["h", "i"]);
    assert_eq!(segment_units(""), Vec::<String>::new());
}

#[test]
fn playback_walks_a_script_in_order() {
    let script = parse_script("@ speed:0.2\n$ hi<ret>\n@ wait:1.5").unwrap();
    let mut engine = PlaybackEngine::new(script);
    assert_eq!(engine.step(true), PlayStep::Continue);
    assert_eq!(engine.step(true), PlayStep::Continue);
    assert_eq!(
        engine.step(true),
        PlayStep::Send { unit: "h".to_string(), delay_ms: 200 }
    );
    assert_eq!(
        engine.step(true),
        PlayStep::Send { unit: "i".to_string(), delay_ms: 200 }
    );
    assert_eq!(
        engine.step(true),
        PlayStep::Send { unit: "\r".to_string(), delay_ms: 200 }
    );
    assert_eq!(engine.step(true), PlayStep::Pause { micros: 1_500_000 });
    assert_eq!(engine.step(true), PlayStep::Done);
    assert_eq!(engine.step(true), PlayStep::Done);
}

#[test]
fn escape_sequence_is_sent_as_one_write() {
    let script = parse_script("$ <F5>").unwrap();
    let mut engine = PlaybackEngine::new(script);
    assert_eq!(engine.step(true), PlayStep::Continue);
    assert_eq!(
        engine.step(true),
        PlayStep::Send { unit: "\x1b[15~".to_string(), delay_ms: 100 }
    );
    assert_eq!(engine.step(true), PlayStep::Done);
}

#[test]
fn cancellation_before_a_type_command_sends_nothing() {
    let script = parse_script("$ echo hi\n$ more").unwrap();
    let mut engine = PlaybackEngine::new(script);
    assert_eq!(engine.step(false), PlayStep::Done);
    assert_eq!(engine.step(false), PlayStep::Done);
}

#[test]
fn cancellation_mid_type_stops_at_a_unit_boundary() {
    let script = parse_script("$ abc").unwrap();
    let mut engine = PlaybackEngine::new(script);
    assert_eq!(engine.step(true), PlayStep::Continue);
    assert_eq!(
        engine.step(true),
        PlayStep::Send { unit: "a".to_string(), delay_ms: 100 }
    );
    assert_eq!(engine.step(false), PlayStep::Done);
}

#[test]
fn default_delay_is_one_hundred_milliseconds() {
    let engine = empty_engine();
    assert_eq!(engine.calculate_delay(), 100);
}

/// One jittered delay drawn from a fresh engine: speed 0.1 s and jitter
/// 0.5 give a base of 100 ms with a 50 ms amplitude.
fn one_jittered_delay() -> u64 {
    let script = parse_script("@ speed:0.1\n@ jitter:0.5\n$ x").unwrap();
    let mut engine = PlaybackEngine::new(script);
    assert_eq!(engine.step(true), PlayStep::Continue);
    assert_eq!(engine.step(true), PlayStep::Continue);
    assert_eq!(engine.step(true), PlayStep::Continue);
    match engine.step(true) {
        PlayStep::Send { unit, delay_ms } => {
            assert_eq!(unit, "x");
            delay_ms
        }
        other => panic!("expected a Send step, got {:?}", other),
    }
}

#[test]
fn jittered_delay_stays_within_the_band() {
    for _ in 0..50 {
        let delay_ms = one_jittered_delay();
        assert!(delay_ms >= 50 && delay_ms <= 150, "delay {} out of band", delay_ms);
    }
}

#[test]
fn jittered_delays_actually_vary() {
    let seen: Vec<u64> = (0..50).map(|_| one_jittered_delay()).collect();
    let first = seen[0];
    assert!(
        seen.iter().any(|d| *d != first),
        "fifty draws from a 101-value band came out identical"
    );
}

#[test]
fn jitter_larger_than_base_can_reach_zero_but_never_panics() {
    let script = parse_script("@ speed:0.01\n@ jitter:100\n$ x").unwrap();
    let mut engine = PlaybackEngine::new(script);
    assert_eq!(engine.step(true), PlayStep::Continue);
    assert_eq!(engine.step(true), PlayStep::Continue);
    assert_eq!(engine.step(true), PlayStep::Continue);
    match engine.step(true) {
        PlayStep::Send { unit, delay_ms } => {
            assert_eq!(unit, "x");
            // base 10 ms, amplitude 1000 ms: anything in [0, 1010]
            assert!(delay_ms <= 1010);
        }
        other => panic!("expected a Send step, got {:?}", other),
    }
}

#[test]
fn shell_and_size_are_ignored_during_playback() {
    let script = parse_script("@ shell:/bin/sh\n@ size:80:24").unwrap();
    let mut engine = PlaybackEngine::new(script);
    assert_eq!(engine.step(true), PlayStep::Continue);
    assert_eq!(engine.step(true), PlayStep::Continue);
    assert_eq!(engine.step(true), PlayStep::Done);
}
