use frankenstein::adsb::{decode_bits, is_preamble, louder, AdsbLiveDemod, FRAME_SPAN};

const IDENT: [u8; 14] = [
    0x8d, 0x48, 0x40, 0xd6, 0x20, 0x2c, 0xc3, 0x71, 0xc3, 0x2c, 0xe0, 0x57, 0x60, 0x98,
];

const POSITION: [u8; 14] = [
    0x8d, 0x40, 0x62, 0x1d, 0x58, 0xc3, 0x82, 0xd6, 0x90, 0xc8, 0xac, 0x28, 0x63, 0xa7,
];

fn level(magnitude: f32) -> u32 {
    magnitude.to_bits()
}

fn chips(frame: &[u8]) -> Vec<u32> {
    let mut out = Vec::new();
    for byte in frame {
        for j in 0..8 {
            if byte & (0x80 >> j) != 0 {
                out.push(level(0.9));
                out.push(level(0.1));
            } else {
                out.push(level(0.1));
                out.push(level(0.9));
            }
        }
    }
    out
}

fn burst(frame: &[u8]) -> Vec<u32> {
    let mut out = vec![level(0.1); 16];
    for slot in [0, 2, 7, 9] {
        out[slot] = level(1.0);
    }
    out.extend(chips(frame));
    out
}

fn quiet(n: usize) -> Vec<u32> {
    vec![level(0.05); n]
}

#[test]
fn louder_orders_magnitudes() {
    let falling = [f32::INFINITY, 1.5, 1.0, 0.5, f32::MIN_POSITIVE, 1.0e-45, 0.0];
    for (i, a) in falling.iter().enumerate() {
        for (j, b) in falling.iter().enumerate() {
            assert_eq!(louder(level(*a), level(*b)), a > b);
            assert_eq!(louder(level(*a), level(*b)), i < j);
        }
        assert!(!louder(level(*a), level(f32::NAN)));
        assert!(!louder(level(f32::NAN), level(*a)));
        assert!(!louder(level(-f32::NAN), level(*a)));
    }
}

#[test]
fn preamble_needs_all_four_pulses() {
    let good = burst(&IDENT);
    assert!(is_preamble(&good[..16]));
    for slot in [0, 2, 7, 9] {
        let mut bad = good.clone();
        bad[slot] = level(0.0);
        assert!(!is_preamble(&bad[..16]), "slot {}", slot);
    }
    assert!(!is_preamble(&quiet(16)));
}

#[test]
fn bits_are_read_most_significant_first() {
    assert_eq!(decode_bits(&chips(&IDENT)), Some(IDENT.to_vec()));
    assert_eq!(decode_bits(&chips(&POSITION)), Some(POSITION.to_vec()));
    let mut damaged = IDENT;
    damaged[5] ^= 4;
    assert_eq!(decode_bits(&chips(&damaged)), None);
}

#[test]
fn equal_chips_read_as_zero() {
    assert_eq!(decode_bits(&quiet(224)), Some(vec![0; 14]));
}

#[test]
fn feed_finds_frames_between_silence() {
    let mut levels = quiet(33);
    levels.extend(burst(&IDENT));
    levels.extend(quiet(7));
    levels.extend(burst(&POSITION));
    levels.extend(quiet(300));
    let mut demod = AdsbLiveDemod::new();
    assert_eq!(demod.feed(&levels), vec![IDENT.to_vec(), POSITION.to_vec()]);
    assert_eq!(demod.carry, quiet(FRAME_SPAN));
}

#[test]
fn feed_finds_frames_back_to_back() {
    let mut levels = burst(&IDENT);
    levels.extend(burst(&POSITION));
    levels.extend(burst(&IDENT));
    levels.extend(quiet(240));
    let mut demod = AdsbLiveDemod::new();
    assert_eq!(
        demod.feed(&levels),
        vec![IDENT.to_vec(), POSITION.to_vec(), IDENT.to_vec()]
    );
}

#[test]
fn feed_drops_damaged_frames() {
    let mut damaged = IDENT;
    damaged[13] ^= 1;
    let mut levels = burst(&damaged);
    levels.extend(quiet(300));
    let mut demod = AdsbLiveDemod::new();
    assert!(demod.feed(&levels).is_empty());
}

#[test]
fn a_straddling_frame_is_found_wherever_it_is_cut() {
    let mut levels = quiet(50);
    levels.extend(burst(&IDENT));
    levels.extend(quiet(500));
    for cut in 0..290 {
        let mut demod = AdsbLiveDemod::new();
        let mut frames = demod.feed(&levels[..cut]);
        frames.extend(demod.feed(&levels[cut..]));
        assert_eq!(frames, vec![IDENT.to_vec()], "cut {}", cut);
    }
}

#[test]
fn a_frame_is_found_in_tiny_chunks() {
    let mut levels = quiet(20);
    levels.extend(burst(&POSITION));
    let mut demod = AdsbLiveDemod::new();
    let mut frames = Vec::new();
    for chunk in levels.chunks(13) {
        frames.extend(demod.feed(chunk));
    }
    assert_eq!(frames, vec![POSITION.to_vec()]);
}

#[test]
fn a_used_frame_is_not_scanned_again() {
    let frame = [
        0x8d, 0x40, 0x6b, 0x90, 0x20, 0x15, 0xa6, 0x78, 0xd4, 0xd2, 0x20, 0xaa, 0x4b, 0xda,
    ];
    let mut demod = AdsbLiveDemod::new();
    assert_eq!(demod.feed(&burst(&frame)), vec![frame.to_vec()]);
    assert!(demod.carry.is_empty());
    assert!(demod.feed(&[]).is_empty());
    assert!(demod.feed(&quiet(500)).is_empty());
}

#[test]
fn without_a_frame_the_last_levels_are_kept() {
    let levels: Vec<u32> = (0..1000).collect();
    let mut demod = AdsbLiveDemod::new();
    assert!(demod.feed(&levels[..240]).is_empty());
    assert_eq!(demod.carry, levels[..240]);
    assert!(demod.feed(&levels[240..]).is_empty());
    assert_eq!(demod.carry, levels[760..]);
}

#[test]
fn a_frame_near_the_end_is_carried_past() {
    let mut levels = burst(&IDENT);
    levels.extend(quiet(30));
    let mut demod = AdsbLiveDemod::new();
    assert_eq!(demod.feed(&levels), vec![IDENT.to_vec()]);
    assert_eq!(demod.carry, quiet(30));
}

#[test]
fn any_cut_reports_the_frames_of_the_whole() {
    let mut levels = burst(&IDENT);
    levels.extend(burst(&POSITION));
    levels.extend(quiet(11));
    levels.extend(burst(&IDENT));
    levels.extend(quiet(100));
    let mut whole = AdsbLiveDemod::new();
    let all = whole.feed(&levels);
    assert_eq!(all.len(), 3);
    for cut in 0..=levels.len() {
        let mut demod = AdsbLiveDemod::new();
        let mut frames = demod.feed(&levels[..cut]);
        frames.extend(demod.feed(&levels[cut..]));
        assert_eq!(frames, all, "cut {}", cut);
        assert_eq!(demod.carry, whole.carry, "cut {}", cut);
    }
    for size in [1, 7, 100, 239, 240, 241] {
        let mut demod = AdsbLiveDemod::new();
        let mut frames = Vec::new();
        for chunk in levels.chunks(size) {
            frames.extend(demod.feed(chunk));
            assert!(demod.carry.len() <= FRAME_SPAN);
        }
        assert_eq!(frames, all, "size {}", size);
    }
}

#[test]
fn a_short_chunk_is_carried_whole() {
    let mut demod = AdsbLiveDemod::new();
    assert!(demod.feed(&quiet(239)).is_empty());
    assert_eq!(demod.carry.len(), 239);
    assert!(demod.feed(&quiet(100)).is_empty());
    assert_eq!(demod.carry.len(), 240);
}
