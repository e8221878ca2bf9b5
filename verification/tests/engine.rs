use organya::bnk::SoundBank;
use organya::org::{Instrument, LoopRange, Note, Song, Timing, Track, Version};
use organya::playback::PlaybackEngine;
use organya::stuff::pan_sides;
use organya::voice::Tap;
use organya::wav::{WavFormat, WavSample};

fn note(pos: i32, key: u8, len: u8, vol: u8, pan: u8) -> Note {
    Note { pos, key, len, vol, pan }
}

fn song(wait: u16, start: i32, end: i32, pipi: u8, tracks: Vec<(usize, Vec<Note>)>) -> Song {
    let mut all: [Track; 16] = std::array::from_fn(|_| Track {
        inst: Instrument { freq: 1000, inst: 0, pipi, notes: 0 },
        notes: Vec::new(),
    });
    for (t, notes) in tracks {
        all[t].inst.notes = notes.len() as u16;
        all[t].notes = notes;
    }
    Song {
        version: Version::Main,
        time: Timing { wait, loop_range: LoopRange { start, end } },
        tracks: all,
    }
}

/// A bank whose first waveform is a square wave of signed samples, and whose
/// one drum sample is a short ramp.
fn bank() -> SoundBank {
    let mut wave100 = vec![0u8; 25600];
    for i in 0..256 {
        wave100[i] = if i < 128 { 100 } else { 156 };
    }
    let drum = WavSample {
        format: WavFormat { channels: 1, sample_rate: 22050, bit_depth: 8 },
        data: (0..64u8).map(|i| 128 + i).collect(),
    };
    SoundBank { wave100, samples: vec![drum] }
}

fn engine(s: Song) -> PlaybackEngine {
    let b = bank();
    assert!(s.is_playable());
    assert!(b.can_serve(&s));
    PlaybackEngine::new(s, b)
}

/// A kernel without arithmetic on fractions: the sample under the cursor,
/// less the bias, on both sides.
fn plain(tap: &Tap) -> (i16, i16) {
    let s = tap.window[2] as i16 - 128;
    (s, s)
}

fn centibel_to_scale(a: i32) -> f32 {
    f32::powf(10.0, a as f32 / 2000.0)
}

fn sinc(x: f32) -> f32 {
    if x.abs() <= f32::EPSILON {
        return 1.0;
    }
    let y = x * std::f32::consts::PI;
    y.sin() / y
}

fn lanczos(x: f32, a: f32) -> f32 {
    if x.abs() >= a {
        return 0.0;
    }
    sinc(x) * sinc(x / a)
}

/// The kernel of the player: six-tap Lanczos interpolation, gain from the
/// volume, and a pan that only ever turns one side down.
fn lanczos_kernel(tap: &Tap) -> (i16, i16) {
    let vol = centibel_to_scale(tap.volume);
    let (left, right) = pan_sides(tap.pan);
    let (pan_l, pan_r) = (centibel_to_scale(left), centibel_to_scale(right));
    let r = tap.fraction as f32 / 44100.0;
    let mut s = 0.0;
    for (k, byte) in tap.window.iter().enumerate() {
        let sample = (*byte as f32 - 128.0) / 128.0;
        s += sample * lanczos(r - (k as f32 - 2.0), 3.0);
    }
    ((s * pan_l * vol * 32768.0) as i16, (s * pan_r * vol * 32768.0) as i16)
}

#[test]
fn new_engine_is_at_rest() {
    let e = engine(song(50, 0, 8, 0, vec![]));
    assert_eq!(e.position(), 0);
    assert_eq!(e.frames_done(), 0);
    assert_eq!(e.frames_per_tick(), 2205);
    assert_eq!(e.loops(), 1);
    assert_eq!(e.extra(), 0);
    for t in 0..8 {
        assert_eq!(e.active_buffer(t), None);
    }
    for i in 0..136 {
        let v = e.track_buffer(i);
        assert!(!v.playing);
        assert_eq!(v.position, 0);
        assert_eq!(v.base_pos, 0);
        assert_eq!(v.len, if i < 128 { 888 } else { 64 });
        assert_eq!(v.frequency, 22050);
    }
}

#[test]
fn melodic_voices_hold_the_wave_with_the_sign_flipped() {
    let e = engine(song(50, 0, 8, 0, vec![]));
    for i in [0usize, 7, 8, 63, 64, 127] {
        let data = &e.track_buffer(i).sample.data;
        assert_eq!(data.len(), 888);
        assert_eq!(data[0], 100 ^ 128);
        assert_eq!(data[127], 100 ^ 128);
        assert_eq!(data[128], 156 ^ 128);
        assert_eq!(data[880], 100 ^ 128);
        assert_eq!(data[887], 156 ^ 128);
    }
    assert_eq!(e.track_buffer(128).sample.data[5], 133);
}

#[test]
fn frames_per_tick_is_44_1_for_each_millisecond() {
    assert_eq!(engine(song(1, 0, 8, 0, vec![])).frames_per_tick(), 44);
    assert_eq!(engine(song(10, 0, 8, 0, vec![])).frames_per_tick(), 441);
    assert_eq!(engine(song(125, 0, 8, 0, vec![])).frames_per_tick(), 5512);
    assert_eq!(engine(song(0, 0, 8, 0, vec![])).frames_per_tick(), 0);
}

#[test]
fn total_samples_counts_intro_loop_repeats_and_tail() {
    let mut e = engine(song(10, 2, 10, 0, vec![]));
    // 441 * (2 + 8 + 8 * 1)
    assert_eq!(e.get_total_samples(), 441 * 18);
    e.set_loops(0);
    assert_eq!(e.get_total_samples(), 441 * 10);
    e.set_loops(3);
    e.set_extra(2);
    assert_eq!(e.get_total_samples(), 441 * (2 + 8 + 24) + 88200);
    assert_eq!(e.checked_total_samples(), Some(441 * 34 + 88200));
}

#[test]
fn total_samples_that_do_not_fit() {
    let mut e = engine(song(1000, 0, 1_000_000, 0, vec![]));
    e.set_loops(usize::MAX);
    assert_eq!(e.checked_total_samples(), None);
    e.set_loops(0);
    // 44100 * 1_000_000 is more than 32 bits hold
    assert_eq!(e.checked_total_samples(), None);
    let mut f = engine(song(1, 0, 1_000_000, 0, vec![]));
    f.set_loops(0);
    assert_eq!(f.checked_total_samples(), Some(44_000_000));
}

#[test]
fn one_pass_lasts_the_ticks_before_the_end_of_the_loop() {
    let mut e = engine(song(10, 3, 7, 0, vec![(0, vec![note(0, 60, 2, 200, 6)])]));
    e.set_loops(0);
    let want = 441 * (3 + (7 - 3));
    assert_eq!(e.get_total_samples(), want);
    let mut played = 0usize;
    loop {
        let mut buf = vec![0u32; 500];
        let n = e.render_to(&mut buf, &plain);
        played += n;
        if n < buf.len() {
            break;
        }
    }
    assert_eq!(played as u32, want);
    assert_eq!(e.frames_done(), want);
    // the song is over: nothing more comes
    let mut buf = vec![7u32; 10];
    assert_eq!(e.render_to(&mut buf, &plain), 0);
    assert_eq!(buf, vec![7u32; 10]);
}

#[test]
fn render_fills_the_buffer_before_the_end() {
    let mut e = engine(song(10, 0, 8, 0, vec![]));
    let mut buf = vec![0u32; 1000];
    assert_eq!(e.render_to(&mut buf, &plain), 1000);
    assert_eq!(e.frames_done(), 1000);
    assert_eq!(e.position(), 2);
    let mut none: Vec<u32> = Vec::new();
    assert_eq!(e.render_to(&mut none, &plain), 0);
}

#[test]
fn render_leaves_the_rest_of_the_buffer_alone() {
    let mut e = engine(song(1, 0, 1, 0, vec![]));
    e.set_loops(0);
    let mut buf = vec![0xdead_beefu32; 100];
    assert_eq!(e.render_to(&mut buf, &plain), 44);
    for (i, word) in buf.iter().enumerate() {
        assert_eq!(*word, 0xdead_beef, "frame {}", i);
    }
}

#[test]
fn play_position_wraps_to_the_start_of_the_loop() {
    let mut e = engine(song(1, 2, 5, 0, vec![]));
    let mut buf = vec![0u32; 44 * 5 - 1];
    e.render_to(&mut buf, &plain);
    assert_eq!(e.position(), 4);
    let mut one = vec![0u32; 1];
    e.render_to(&mut one, &plain);
    assert_eq!(e.position(), 2);
}

#[test]
fn set_position_moves_playback() {
    let mut e = engine(song(1, 0, 8, 0, vec![(0, vec![note(5, 24, 1, 255, 255)])]));
    e.set_position(5);
    assert_eq!(e.position(), 5);
    let mut buf = vec![0u32; 1];
    e.render_to(&mut buf, &plain);
    assert_eq!(e.active_buffer(0), Some(2 * 8));
}

#[test]
fn rendering_in_pieces_is_rendering_in_one_go() {
    let notes = vec![note(0, 60, 2, 200, 6), note(1, 60, 3, 255, 2), note(5, 30, 1, 100, 255)];
    let drums = vec![note(0, 10, 1, 254, 6), note(3, 20, 1, 255, 255)];
    let make = || engine(song(2, 0, 8, 0, vec![(0, notes.clone()), (9, drums.clone())]));
    let mut whole = vec![0u32; 88 * 16];
    let mut a = make();
    assert_eq!(a.render_to(&mut whole, &lanczos_kernel), 88 * 16);
    let mut b = make();
    let mut pieces = Vec::new();
    for size in [1usize, 87, 88, 300, 5, 927] {
        let mut buf = vec![0u32; size];
        assert_eq!(b.render_to(&mut buf, &lanczos_kernel), size);
        pieces.extend_from_slice(&buf);
    }
    assert_eq!(pieces.len(), whole.len());
    assert_eq!(pieces, whole);
}

#[test]
fn a_note_starts_its_voice() {
    let mut e = engine(song(10, 0, 8, 0, vec![(3, vec![note(0, 61, 4, 200, 12)])]));
    let mut buf = vec![0u32; 1];
    e.render_to(&mut buf, &plain);
    // octave 5, track 3, first copy
    assert_eq!(e.active_buffer(3), Some(5 * 8 + 3));
    let v = e.track_buffer(43);
    assert!(v.playing);
    assert!(v.looping);
    assert_eq!(v.base_pos, 832);
    assert_eq!(v.len, 32);
    assert_eq!(v.frequency, 278 * 1024);
    assert_eq!(v.volume, (200 - 255) * 8);
    assert_eq!(v.pan, 2560);
    assert_eq!(v.nloops, -1);
}

#[test]
fn a_note_ends_after_its_length() {
    let mut e = engine(song(1, 0, 8, 0, vec![(0, vec![note(0, 0, 2, 255, 255)])]));
    let mut buf = vec![0u32; 44 * 2];
    e.render_to(&mut buf, &plain);
    // two ticks played: the track still sounds
    assert_eq!(e.active_buffer(0), Some(0));
    assert!(e.track_buffer(0).looping);
    let mut one = vec![0u32; 1];
    e.render_to(&mut one, &plain);
    // the third tick lets the voice go
    assert_eq!(e.active_buffer(0), None);
    assert!(!e.track_buffer(0).looping);
    assert!(e.track_buffer(0).playing);
}

#[test]
fn an_envelope_note_gets_its_count_of_passes() {
    for (key, passes) in [(0u8, 4), (13, 8), (60, 24), (95, 32)] {
        let mut e = engine(song(1, 0, 8, 1, vec![(0, vec![note(0, key, 1, 255, 255)])]));
        e.update_play_state();
        let j = e.active_buffer(0).unwrap();
        assert_eq!(j, (key as usize / 12) * 8);
        let v = e.track_buffer(j);
        assert!(v.playing);
        assert!(v.looping);
        assert_eq!(v.nloops, passes);
    }
}

#[test]
fn a_note_without_envelope_has_no_limit_of_passes() {
    let mut e = engine(song(1, 0, 8, 0, vec![(0, vec![note(0, 60, 1, 255, 255)])]));
    e.update_play_state();
    assert_eq!(e.track_buffer(40).nloops, -1);
}

#[test]
fn an_envelope_voice_stops_when_its_passes_are_used_up() {
    // octave 7: a region of 8 samples at 24 samples a frame wraps on every
    // frame, and every frame that wraps uses up one of the 32 passes
    let mut e = engine(song(10, 0, 8, 1, vec![(0, vec![note(0, 84, 200, 255, 255)])]));
    let mut buf = vec![0u32; 31];
    e.render_to(&mut buf, &plain);
    assert!(e.track_buffer(56).playing);
    assert_eq!(e.track_buffer(56).nloops, 1);
    let mut one = vec![0u32; 1];
    e.render_to(&mut one, &plain);
    assert!(!e.track_buffer(56).playing);
    // the track still counts the note down, though its voice is silent
    assert_eq!(e.active_buffer(0), Some(56));
}

#[test]
fn an_envelope_voice_decays_after_it_is_let_go() {
    // octave 0: 256 samples at 8352 Hz, four passes of about 1352 frames
    let mut e = engine(song(10, 0, 16, 1, vec![(0, vec![note(0, 0, 1, 255, 255)])]));
    let mut buf = vec![0u32; 500];
    e.render_to(&mut buf, &plain);
    // let go at the second tick: it plays and loops on
    assert_eq!(e.active_buffer(0), None);
    assert!(e.track_buffer(0).playing);
    assert!(e.track_buffer(0).looping);
    assert_eq!(e.track_buffer(0).nloops, 4);
    let mut more = vec![0u32; 4500];
    e.render_to(&mut more, &plain);
    assert!(e.track_buffer(0).playing);
    assert_eq!(e.track_buffer(0).nloops, 1);
    let mut last = vec![0u32; 1000];
    e.render_to(&mut last, &plain);
    assert!(!e.track_buffer(0).playing);
}

#[test]
fn a_voice_without_envelope_loops_until_it_is_let_go() {
    let mut e = engine(song(10, 0, 8, 0, vec![(0, vec![note(0, 84, 5, 255, 255)])]));
    let mut buf = vec![0u32; 441 * 5];
    e.render_to(&mut buf, &plain);
    assert!(e.track_buffer(56).playing);
    assert_eq!(e.track_buffer(56).nloops, -1);
    let mut tick = vec![0u32; 441];
    e.render_to(&mut tick, &plain);
    assert!(!e.track_buffer(56).playing);
}

#[test]
fn retrigger_of_the_same_key_takes_the_other_copy() {
    let notes = vec![note(0, 60, 4, 255, 255), note(1, 60, 4, 255, 255), note(2, 60, 4, 255, 255)];
    let mut e = engine(song(1, 0, 8, 0, vec![(2, notes)]));
    let mut one = vec![0u32; 1];
    e.render_to(&mut one, &plain);
    let first = e.active_buffer(2).unwrap();
    assert_eq!(first, 5 * 8 + 2);
    let mut tick = vec![0u32; 44];
    e.render_to(&mut tick, &plain);
    let second = e.active_buffer(2).unwrap();
    assert_ne!(first, second);
    assert_eq!(second, first + 64);
    // the voice that sounded is let go and plays on; the new one starts clean
    assert!(e.track_buffer(first).playing);
    assert!(!e.track_buffer(first).looping);
    assert!(e.track_buffer(second).playing);
    assert!(e.track_buffer(second).looping);
    e.render_to(&mut tick, &plain);
    assert_eq!(e.active_buffer(2), Some(first));
}

#[test]
fn retrigger_changes_nothing_of_the_old_voice_but_its_looping() {
    let notes = vec![note(0, 12, 4, 100, 2), note(1, 48, 4, 255, 255)];
    let mut e = engine(song(1, 0, 8, 0, vec![(0, notes)]));
    let mut buf = vec![0u32; 44];
    e.render_to(&mut buf, &plain);
    assert_eq!(e.active_buffer(0), Some(8));
    let (frequency, volume, pan, position, fraction) = {
        let v = e.track_buffer(8);
        assert!(v.playing && v.looping);
        assert_eq!(v.frequency, 261 * 64);
        (v.frequency, v.volume, v.pan, v.position, v.fraction)
    };
    e.update_play_state();
    assert_eq!(e.active_buffer(0), Some(4 * 8 + 64));
    let old = e.track_buffer(8);
    assert!(old.playing);
    assert!(!old.looping);
    assert_eq!(old.frequency, frequency);
    assert_eq!(old.volume, volume);
    assert_eq!(old.pan, pan);
    assert_eq!((old.position, old.fraction), (position, fraction));
    assert_eq!((old.base_pos, old.len), (256, 256));
    assert_eq!(e.track_buffer(4 * 8 + 64).frequency, 261 * 512);
}

#[test]
fn volume_and_pan_events_reach_only_a_sounding_track() {
    let notes = vec![
        note(0, 255, 1, 100, 0),
        note(1, 0, 1, 255, 255),
        note(2, 255, 1, 55, 12),
        note(4, 255, 1, 0, 0),
    ];
    let mut e = engine(song(1, 0, 8, 0, vec![(0, notes)]));
    let mut tick = vec![0u32; 44];
    e.render_to(&mut tick, &plain);
    // at rest: the event is lost
    assert_eq!(e.track_buffer(0).volume, 0);
    assert_eq!(e.track_buffer(0).pan, 0);
    e.render_to(&mut tick, &plain);
    e.render_to(&mut tick, &plain);
    // the event of the tick after the note still reaches the voice
    assert_eq!(e.track_buffer(0).volume, (55 - 255) * 8);
    assert_eq!(e.track_buffer(0).pan, 2560);
    e.render_to(&mut tick, &plain);
    e.render_to(&mut tick, &plain);
    assert_eq!(e.track_buffer(0).volume, (55 - 255) * 8);
}

#[test]
fn only_the_first_note_of_a_tick_counts() {
    let notes = vec![note(0, 24, 1, 255, 255), note(0, 48, 1, 255, 255)];
    let mut e = engine(song(1, 0, 8, 0, vec![(0, notes)]));
    let mut one = vec![0u32; 1];
    e.render_to(&mut one, &plain);
    assert_eq!(e.active_buffer(0), Some(2 * 8));
    assert!(!e.track_buffer(4 * 8).playing);
}

#[test]
fn a_drum_restarts_on_every_key() {
    let drums = vec![note(0, 27, 9, 254, 6), note(1, 255, 9, 0, 255), note(2, 1, 0, 255, 255)];
    let mut e = engine(song(1, 0, 8, 0, vec![(10, drums)]));
    let mut one = vec![0u32; 1];
    e.render_to(&mut one, &plain);
    {
        let v = e.track_buffer(130);
        assert!(v.playing);
        assert!(!v.looping);
        assert_eq!(v.frequency, 27 * 800 + 100);
        assert_eq!(v.volume, -8);
        assert_eq!(v.pan, 0);
        // one frame at 21700 Hz
        assert_eq!((v.position, v.fraction), (0, 21700));
    }
    let mut tick = vec![0u32; 44];
    e.render_to(&mut tick, &plain);
    {
        // the second event has no key: the sample plays on, more quietly
        let v = e.track_buffer(130);
        assert_eq!(v.volume, -2040);
        assert_eq!(v.frequency, 21700);
        assert!(v.position > 0);
    }
    e.render_to(&mut tick, &plain);
    {
        let v = e.track_buffer(130);
        assert_eq!(v.frequency, 900);
        assert_eq!(v.position, 0);
        assert!(v.playing);
    }
    for i in 128..136 {
        if i != 130 {
            assert!(!e.track_buffer(i).playing);
        }
    }
}

#[test]
fn a_short_note_sounds_and_then_falls_silent() {
    let s = song(50, 0, 8, 0, vec![(0, vec![note(0, 60, 4, 0, 0)])]);
    let mut e = engine(s);
    let per_tick = e.frames_per_tick();
    assert_eq!(per_tick, 2205);
    let mut buf = vec![0u32; 8 * per_tick];
    assert_eq!(e.render_to(&mut buf, &lanczos_kernel), 8 * per_tick);
    let left = |w: u32| (w & 0xffff) as u16 as i16;
    let right = |w: u32| (w >> 16) as u16 as i16;
    let sounding = &buf[..4 * per_tick];
    let heard = sounding.iter().filter(|w| left(**w) != 0).count();
    assert!(heard * 10 >= sounding.len() * 9, "only {} frames of {} sound", heard, sounding.len());
    assert!(sounding.iter().any(|w| right(*w) != 0));
    for w in sounding {
        assert!(left(*w) > i16::MIN && left(*w) < i16::MAX);
        assert!(right(*w) > i16::MIN && right(*w) < i16::MAX);
    }
    // let go at the fifth tick, the voice plays its region to the end
    let tail = 32 * 44100 / (261 * 1024) + 1;
    for (i, w) in buf[4 * per_tick + tail..].iter().enumerate() {
        assert_eq!(*w, 0, "frame {} after the note", i);
    }
    assert_eq!(e.active_buffer(0), None);
    assert!(!e.track_buffer(5 * 8).playing);
}

#[test]
fn the_same_input_gives_the_same_output() {
    let make = || {
        engine(song(
            3,
            1,
            6,
            1,
            vec![
                (0, vec![note(0, 40, 3, 254, 3), note(2, 41, 1, 255, 255)]),
                (7, vec![note(1, 95, 255, 128, 12)]),
                (15, vec![note(0, 200, 0, 254, 6)]),
            ],
        ))
    };
    let mut a = make();
    let mut b = make();
    let mut x = vec![0x8080u32; 3000];
    let mut y = vec![0x8080u32; 3000];
    assert_eq!(a.render_to(&mut x, &lanczos_kernel), b.render_to(&mut y, &lanczos_kernel));
    assert_eq!(x, y);
}

#[test]
fn a_song_with_an_empty_loop_is_played_once_through() {
    let mut e = engine(song(1, 5, 5, 0, vec![(0, vec![note(4, 24, 1, 255, 255)])]));
    e.set_loops(3);
    assert!(e.fits());
    // the loop has no ticks: only the five ticks before it count
    assert_eq!(e.get_total_samples(), 44 * 5);
    let mut buf = vec![0u32; 1000];
    assert_eq!(e.render_to(&mut buf, &plain), 44 * 5);
    assert_eq!(e.position(), 5);
    assert_eq!(e.active_buffer(0), Some(2 * 8));
    assert_eq!(e.render_to(&mut buf, &plain), 0);
}

#[test]
fn an_empty_loop_with_a_tail_counts_the_ticks_on() {
    let mut e = engine(song(100, 2, 2, 0, vec![]));
    e.set_extra(1);
    assert!(e.fits());
    assert_eq!(e.get_total_samples(), 4410 * 2 + 44100);
    let mut buf = vec![0u32; 60000];
    assert_eq!(e.render_to(&mut buf, &plain), 4410 * 12);
    assert_eq!(e.position(), 12);
}

#[test]
fn playback_moved_past_the_loop_never_comes_back() {
    let mut e = engine(song(1, 0, 4, 0, vec![]));
    e.set_position(10);
    assert!(e.fits());
    let mut buf = vec![0u32; 44 * 3];
    assert_eq!(e.render_to(&mut buf, &plain), 44 * 3);
    assert_eq!(e.position(), 13);
}

#[test]
fn playback_moved_to_the_last_tick_of_the_loop_wraps() {
    let mut e = engine(song(1, 1, 4, 0, vec![]));
    e.set_position(3);
    assert!(e.fits());
    let mut buf = vec![0u32; 44];
    e.render_to(&mut buf, &plain);
    assert_eq!(e.position(), 1);
}

#[test]
fn ticks_that_do_not_fit_their_counter() {
    let mut e = engine(song(1, 0, 4, 0, vec![]));
    assert!(e.fits());
    // eight ticks to come, and room for seven
    e.set_position(i32::MAX - 7);
    assert!(!e.fits());
    e.set_position(i32::MAX - 8);
    assert!(e.fits());
    let mut buf = vec![0u32; 1000];
    assert_eq!(e.render_to(&mut buf, &plain), 44 * 8);
    assert_eq!(e.position(), i32::MAX);
    // inside the loop every position fits
    let mut f = engine(song(1, 0, i32::MAX, 0, vec![]));
    f.set_loops(0);
    assert_eq!(f.checked_total_samples(), None);
    assert!(!f.fits());
    let mut g = engine(song(1, 0, 40_000_000, 0, vec![]));
    g.set_loops(0);
    g.set_position(39_999_999);
    assert!(g.fits());
}

#[test]
fn a_song_without_ticks_fits_wherever_it_stands() {
    let mut e = engine(song(0, 3, 3, 0, vec![]));
    e.set_extra(1);
    e.set_position(i32::MAX);
    assert!(e.fits());
    let mut buf = vec![0u32; 100];
    assert_eq!(e.render_to(&mut buf, &plain), 100);
    assert_eq!(e.position(), i32::MAX);
}
