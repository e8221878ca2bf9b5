use organya::org::{Instrument, LoadError, LoopRange, Note, Song, Timing, Track, Version};
use organya::wav::{wav_header, WAVEFORMATEX};

fn header(magic: &[u8], wait: u16, start: i32, end: i32, counts: &[u16; 16]) -> Vec<u8> {
    let mut out = Vec::new();
    out.extend_from_slice(magic);
    out.extend_from_slice(&wait.to_le_bytes());
    out.push(4);
    out.push(4);
    out.extend_from_slice(&start.to_le_bytes());
    out.extend_from_slice(&end.to_le_bytes());
    for (i, count) in counts.iter().enumerate() {
        out.extend_from_slice(&(1000 + i as u16).to_le_bytes());
        out.push(i as u8);
        out.push((i % 2) as u8);
        out.extend_from_slice(&count.to_le_bytes());
    }
    out
}

fn track_bytes(notes: &[Note]) -> Vec<u8> {
    let mut out = Vec::new();
    for n in notes {
        out.extend_from_slice(&n.pos.to_le_bytes());
    }
    for n in notes {
        out.push(n.key);
    }
    for n in notes {
        out.push(n.len);
    }
    for n in notes {
        out.push(n.vol);
    }
    for n in notes {
        out.push(n.pan);
    }
    out
}

fn note(pos: i32, key: u8, len: u8, vol: u8, pan: u8) -> Note {
    Note { pos, key, len, vol, pan }
}

fn same(a: &Note, b: &Note) -> bool {
    a.pos == b.pos && a.key == b.key && a.len == b.len && a.vol == b.vol && a.pan == b.pan
}

#[test]
fn loads_a_song_without_notes() {
    let data = header(b"Org-02", 125, 0, 64, &[0; 16]);
    assert_eq!(data.len(), 114);
    let song = Song::load_from(&data).unwrap();
    assert!(matches!(song.version, Version::Main));
    assert_eq!(song.time.wait, 125);
    assert_eq!(song.time.loop_range.start, 0);
    assert_eq!(song.time.loop_range.end, 64);
    for (i, track) in song.tracks.iter().enumerate() {
        assert_eq!(track.inst.freq, 1000 + i as u16);
        assert_eq!(track.inst.inst, i as u8);
        assert_eq!(track.inst.pipi, (i % 2) as u8);
        assert_eq!(track.inst.notes, 0);
        assert!(track.notes.is_empty());
    }
}

#[test]
fn loads_every_version() {
    for (magic, want) in [(b"Org-01", 1), (b"Org-02", 2), (b"Org-03", 3)] {
        let song = Song::load_from(&header(magic, 1, 0, 1, &[0; 16])).unwrap();
        let got = match song.version {
            Version::Beta => 1,
            Version::Main => 2,
            Version::Extended => 3,
        };
        assert_eq!(got, want);
    }
}

#[test]
fn loads_numbers_lowest_byte_first() {
    let mut data = header(b"Org-02", 0x1234, 0x0102_0304, -2, &[0; 16]);
    data[18] = 0xcd;
    data[19] = 0xab;
    let song = Song::load_from(&data).unwrap();
    assert_eq!(song.time.wait, 0x1234);
    assert_eq!(song.time.loop_range.start, 0x0102_0304);
    assert_eq!(song.time.loop_range.end, -2);
    assert_eq!(song.tracks[0].inst.freq, 0xabcd);
    assert_eq!(&data[6..8], &[0x34, 0x12]);
}

#[test]
fn loads_notes_field_by_field() {
    let first = [note(0, 60, 4, 200, 6), note(-5, 255, 1, 255, 12), note(1_000_000, 95, 255, 0, 0)];
    let last = [note(7, 1, 2, 3, 4)];
    let mut counts = [0u16; 16];
    counts[0] = 3;
    counts[15] = 1;
    let mut data = header(b"Org-03", 50, 2, 8, &counts);
    data.extend_from_slice(&track_bytes(&first));
    data.extend_from_slice(&track_bytes(&last));
    let song = Song::load_from(&data).unwrap();
    assert_eq!(song.tracks[0].notes.len(), 3);
    for (got, want) in song.tracks[0].notes.iter().zip(first.iter()) {
        assert!(same(got, want), "{:?} is not {:?}", got, want);
    }
    for t in 1..15 {
        assert!(song.tracks[t].notes.is_empty());
    }
    assert_eq!(song.tracks[15].notes.len(), 1);
    assert!(same(&song.tracks[15].notes[0], &last[0]));
}

#[test]
fn bytes_after_the_song_are_left_unread() {
    let mut data = header(b"Org-02", 50, 0, 8, &[0; 16]);
    data.extend_from_slice(&[1, 2, 3]);
    assert!(Song::load_from(&data).is_ok());
}

#[test]
fn short_input_is_an_early_end() {
    assert!(matches!(Song::load_from(&[]), Err(LoadError::UnexpectedEof)));
    assert!(matches!(Song::load_from(b"Org-0"), Err(LoadError::UnexpectedEof)));
    // a bad mark that is not whole is still an early end
    assert!(matches!(Song::load_from(b"Xrg-0"), Err(LoadError::UnexpectedEof)));
    assert!(matches!(Song::load_from(b"Org-02"), Err(LoadError::UnexpectedEof)));
    let full = header(b"Org-02", 50, 0, 8, &[0; 16]);
    assert!(matches!(Song::load_from(&full[..113]), Err(LoadError::UnexpectedEof)));
}

#[test]
fn missing_notes_are_an_early_end() {
    let mut counts = [0u16; 16];
    counts[3] = 2;
    let mut data = header(b"Org-02", 50, 0, 8, &counts);
    data.extend_from_slice(&track_bytes(&[note(0, 1, 1, 1, 1), note(1, 1, 1, 1, 1)]));
    assert!(Song::load_from(&data).is_ok());
    data.pop();
    assert!(matches!(Song::load_from(&data), Err(LoadError::UnexpectedEof)));
}

#[test]
fn wrong_mark_is_refused() {
    for magic in [b"Org-00", b"Org-04", b"org-02", b"Org_02", b"ORG-02", b"\0\0\0\0\0\0"] {
        let data = header(magic, 50, 0, 8, &[0; 16]);
        assert!(matches!(Song::load_from(&data), Err(LoadError::InvalidMagic)));
    }
    // the mark is looked at before the rest is missed
    assert!(matches!(Song::load_from(b"Nope!!"), Err(LoadError::InvalidMagic)));
}

fn empty_track() -> Track {
    Track { inst: Instrument { freq: 1000, inst: 0, pipi: 0, notes: 0 }, notes: Vec::new() }
}

fn song_with(start: i32, end: i32, melodic: Vec<Note>, drum: Vec<Note>) -> Song {
    let mut tracks: [Track; 16] = std::array::from_fn(|_| empty_track());
    tracks[0].notes = melodic;
    tracks[8].notes = drum;
    Song {
        version: Version::Main,
        time: Timing { wait: 50, loop_range: LoopRange { start, end } },
        tracks,
    }
}

#[test]
fn playable_songs() {
    assert!(song_with(0, 8, vec![], vec![]).is_playable());
    // an empty loop
    assert!(song_with(0, 0, vec![], vec![]).is_playable());
    assert!(song_with(5, 5, vec![], vec![]).is_playable());
    assert!(song_with(7, 8, vec![note(0, 95, 1, 255, 12)], vec![note(0, 254, 0, 0, 0)])
        .is_playable());
    assert!(song_with(0, 1, vec![note(0, 255, 1, 255, 255)], vec![note(0, 255, 0, 0, 255)])
        .is_playable());
}

#[test]
fn songs_that_cannot_be_played() {
    // a loop that ends before it starts, a start before the song
    assert!(!song_with(8, 4, vec![], vec![]).is_playable());
    assert!(!song_with(-1, 4, vec![], vec![]).is_playable());
    // a key above the eight octaves on a melodic track
    assert!(!song_with(0, 8, vec![note(0, 96, 1, 0, 0)], vec![]).is_playable());
    assert!(!song_with(0, 8, vec![note(0, 254, 1, 0, 0)], vec![]).is_playable());
    // a pan that is not one of the thirteen
    assert!(!song_with(0, 8, vec![note(0, 1, 1, 0, 13)], vec![]).is_playable());
    assert!(!song_with(0, 8, vec![], vec![note(0, 1, 1, 0, 13)]).is_playable());
}

#[test]
fn format_chunk_fields() {
    let f = WAVEFORMATEX::new(2, 44100, 8);
    assert_eq!(f.wFormatTag, 1);
    assert_eq!(f.nChannels, 2);
    assert_eq!(f.nSamplesPerSec, 44100);
    assert_eq!(f.nBlockAlign, 2);
    assert_eq!(f.nAvgBytesPerSec, 88200);
    assert_eq!(f.wBitsPerSample, 8);
    let g = WAVEFORMATEX::new(2, 48000, 16);
    assert_eq!(g.nBlockAlign, 4);
    assert_eq!(g.nAvgBytesPerSec, 192_000);
}

#[test]
fn format_chunk_bytes() {
    let bytes = WAVEFORMATEX::new(2, 44100, 8).to_bytes();
    let want: [u8; 24] = [
        b'f', b'm', b't', b' ', 16, 0, 0, 0, 1, 0, 2, 0, 0x44, 0xac, 0, 0, 0x88, 0x58, 1, 0, 2,
        0, 8, 0,
    ];
    assert_eq!(bytes, want);
}

#[test]
fn header_bytes() {
    let bytes = wav_header(0x0102_0304);
    assert_eq!(bytes.len(), 44);
    assert_eq!(&bytes[0..4], b"RIFF");
    // 36 + 2 * 0x01020304 = 0x0204062c
    assert_eq!(&bytes[4..8], &[0x2c, 0x06, 0x04, 0x02]);
    assert_eq!(&bytes[8..12], b"WAVE");
    assert_eq!(&bytes[12..36], &WAVEFORMATEX::new(2, 44100, 8).to_bytes()[..]);
    assert_eq!(&bytes[36..40], b"data");
    assert_eq!(&bytes[40..44], &[0x08, 0x06, 0x04, 0x02]);
}

#[test]
fn header_of_nothing() {
    let bytes = wav_header(0);
    assert_eq!(&bytes[4..8], &[36, 0, 0, 0]);
    assert_eq!(&bytes[40..44], &[0, 0, 0, 0]);
}
