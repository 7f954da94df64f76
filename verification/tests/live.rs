use frankenstein::bands::{public_band, BAND_COUNT};
use frankenstein::capture::{DriverCall, LiveCapture, LiveCaptureError};
use frankenstein::fm::FmStep;
use frankenstein::live::{apt_decimation, LivePanel, LiveState, LiveWork};
use frankenstein::signal::{DecodeOutput, DecodedItem, DecoderKind, RawSignal};

const IDENT: [u8; 14] = [
    0x8d, 0x48, 0x40, 0xd6, 0x20, 0x2c, 0xc3, 0x71, 0xc3, 0x2c, 0xe0, 0x57, 0x60, 0x98,
];

fn running(band: usize) -> LiveState<f32> {
    let mut live = LiveState::new(1);
    live.enabled = true;
    live.select(band);
    live.finish_start(Ok(LiveCapture { preset: public_band(band), stop_flag: false }));
    live
}

fn lines(range: std::ops::Range<usize>) -> Vec<DecodedItem> {
    range
        .map(|k| DecodedItem { summary: format!("line {}", k), detail: String::new() })
        .collect()
}

fn levels_of(frame: &[u8]) -> Vec<u32> {
    let loud = 1.0f32.to_bits();
    let soft = 0.25f32.to_bits();
    let mut out = vec![soft; 16];
    for slot in [0, 2, 7, 9] {
        out[slot] = loud;
    }
    for byte in frame {
        for j in 0..8 {
            let one = byte & (0x80 >> j) != 0;
            out.push(if one { loud } else { soft });
            out.push(if one { soft } else { loud });
        }
    }
    out
}

#[test]
fn the_panel_starts_switched_off() {
    let mut live: LiveState<f32> = LiveState::new(2);
    assert_eq!(live.status, "Idle");
    assert_eq!((live.preset_idx, live.device_count), (0, 2));
    assert!(live.log.is_empty() && live.apt_audio.is_empty() && live.capture.is_none());
    assert!(matches!(live.panel(), LivePanel::Off { stopped: None }));
    assert!(!live.wants_repaint());
}

#[test]
fn without_a_dongle_there_is_nothing_to_start() {
    let mut live: LiveState<f32> = LiveState::new(0);
    live.enabled = true;
    assert!(matches!(live.panel(), LivePanel::NoDevice));
    live.rescan(1);
    assert!(matches!(live.panel(), LivePanel::Ready { running: false }));
}

#[test]
fn every_band_can_be_started() {
    for band in 0..BAND_COUNT {
        let mut live: LiveState<f32> = LiveState::new(1);
        live.enabled = true;
        live.select(band);
        let setup = live.start_pressed(true).unwrap();
        assert_eq!(setup.call(), DriverCall::Open(0));
        assert_eq!(setup.preset.center_freq_hz, public_band(band).center_freq_hz);
        assert_eq!(live.begin_start().preset.label, public_band(band).label);
    }
}

#[test]
fn start_counts_only_when_it_can() {
    let mut live: LiveState<f32> = LiveState::new(1);
    assert!(live.start_pressed(true).is_none());
    live.enabled = true;
    assert!(live.start_pressed(false).is_none());
    assert!(live.start_pressed(true).is_some());
    live.rescan(0);
    assert!(live.start_pressed(true).is_none());
    assert!(running(0).start_pressed(true).is_none());
    let mut live = running(0);
    live.stop_pressed();
    assert!(live.start_pressed(true).is_some());
}

/// A panel whose capture ended, with something left in every demodulator.
fn used() -> LiveState<f32> {
    let mut live = running(0);
    live.take_output(DecoderKind::Generic, DecodeOutput { items: lines(0..3), image_path: None });
    live.take_demodulated(&[0.5; 400]);
    live.take_levels(&[1, 2, 3]);
    live.route(RawSignal::Iq(vec![(1.0, 0.0)]));
    live.apt_image_path = Some("old.png".to_string());
    assert!(live.fm.prev.is_some() && !live.apt_audio.is_empty() && !live.adsb.carry.is_empty());
    live.stop_pressed();
    live
}

fn is_fresh(live: &LiveState<f32>) -> bool {
    live.fm.prev.is_none()
        && live.apt_audio.is_empty()
        && live.apt_last_decoded_len == 0
        && live.apt_image_path.is_none()
        && live.adsb.carry.is_empty()
}

#[test]
fn starting_resets_what_was_there() {
    let mut live = used();
    live.finish_start(Ok(LiveCapture { preset: public_band(5), stop_flag: false }));
    assert_eq!(live.status, "Receiving on FM broadcast");
    assert!(is_fresh(&live));
    assert!(live.log.is_empty());
    assert_eq!(live.apt_sample_rate, 62_500);
    assert!(live.wants_repaint());
}

#[test]
fn a_failed_start_resets_the_demodulators_too() {
    let mut live = used();
    live.finish_start(Err(LiveCaptureError::NoDeviceFound));
    assert_eq!(
        live.status,
        "Failed to start: No RTL-SDR dongle found. Plug one in and retry."
    );
    assert!(is_fresh(&live));
    assert_eq!(live.apt_sample_rate, 0);
    assert_eq!(live.log.len(), 3);
    assert!(live.enabled);
    live.finish_start(Err(LiveCaptureError::Driver("Timeout".to_string())));
    assert_eq!(live.status, "Failed to start: SDR driver error: Timeout");
    assert!(live.capture.is_none() && !live.wants_repaint());
}

#[test]
fn stop_and_switching_off_end_the_capture() {
    let mut live = running(2);
    assert!(matches!(live.panel(), LivePanel::Ready { running: true }));
    assert!(live.stop_pressed().unwrap().stop_flag);
    assert_eq!(live.status, "Idle");
    assert!(live.stop_pressed().is_none());

    let mut live = running(2);
    live.enabled = false;
    match live.panel() {
        LivePanel::Off { stopped: Some(capture) } => assert!(capture.stop_flag),
        other => panic!("{:?}", other),
    }
    assert_eq!(live.status, "Idle");
    assert!(live.capture.is_none());

    let mut live: LiveState<f32> = LiveState::new(1);
    live.finish_start(Err(LiveCaptureError::NoDeviceFound));
    live.panel();
    assert!(live.status.starts_with("Failed to start"));
}

#[test]
fn chunks_are_routed_by_band() {
    let iq = vec![(1.0, 0.5), (0.25, 0.0)];
    match running(4).route(RawSignal::Iq(iq.clone())) {
        LiveWork::Decode { decoder: DecoderKind::Generic, signal: RawSignal::Iq(same) } => {
            assert_eq!(same, iq)
        }
        other => panic!("{:?}", other),
    }
    match running(1).route(RawSignal::Iq(iq.clone())) {
        LiveWork::Measure(same) => assert_eq!(same, iq),
        other => panic!("{:?}", other),
    }
    let mut live = running(0);
    match live.route(RawSignal::Iq(iq.clone())) {
        LiveWork::Discriminate(steps) => assert_eq!(
            steps,
            vec![FmStep::Silence, FmStep::Turn { now: (0.25, 0.0), before: (1.0, 0.5) }]
        ),
        other => panic!("{:?}", other),
    }
    assert_eq!(live.fm.prev, Some((0.25, 0.0)));
    assert!(matches!(live.route(RawSignal::Packets(vec![])), LiveWork::Skip));
    assert!(matches!(
        live.route(RawSignal::Audio { samples: vec![], sample_rate: 1 }),
        LiveWork::Skip
    ));
}

#[test]
fn chunks_follow_the_band_they_were_captured_on() {
    let mut live = running(0);
    for selected in 0..BAND_COUNT {
        live.select(selected);
        let before = live.apt_audio.len();
        match live.route(RawSignal::Iq(vec![(0.5, 0.5); 80])) {
            LiveWork::Discriminate(steps) => assert_eq!(steps.len(), 80),
            other => panic!("{:?}", other),
        }
        live.take_demodulated(&[0.0; 80]);
        assert_eq!(live.apt_audio.len(), before + 2);
    }
    let mut live = running(2);
    live.select(1);
    assert!(matches!(
        live.route(RawSignal::Iq(vec![(0.5, 0.5)])),
        LiveWork::Decode { decoder: DecoderKind::Generic, .. }
    ));
}

#[test]
fn without_a_capture_nothing_is_routed() {
    let mut live: LiveState<f32> = LiveState::new(1);
    assert!(matches!(live.route(RawSignal::Iq(vec![(0.5, 0.5)])), LiveWork::Skip));
    assert_eq!(live.fm.prev, None);
    assert!(matches!(live.take_demodulated(&[1.0; 100]), LiveWork::Skip));
    assert!(live.apt_audio.is_empty());
}

#[test]
fn frames_go_to_the_adsb_decoder() {
    let mut live = running(1);
    let mut levels = levels_of(&IDENT);
    levels.extend(vec![0; 240]);
    match live.take_levels(&levels) {
        LiveWork::Decode { decoder: DecoderKind::Adsb, signal: RawSignal::Packets(frames) } => {
            assert_eq!(frames, vec![IDENT.to_vec()])
        }
        other => panic!("{:?}", other),
    }
    assert!(matches!(live.take_levels(&[0; 100]), LiveWork::Skip));
}

#[test]
fn apt_audio_is_decoded_every_four_seconds() {
    let mut live = running(0);
    assert_eq!(apt_decimation(2_048_000), 40);
    assert_eq!(live.apt_sample_rate, 51_200);
    let half_second = vec![0.5f32; 1_024_000];
    for chunk in 1..=16 {
        let work = live.take_demodulated(&half_second);
        assert_eq!(live.apt_audio.len(), chunk * 25_600);
        if chunk % 8 == 0 {
            match work {
                LiveWork::Decode {
                    decoder: DecoderKind::Apt,
                    signal: RawSignal::Audio { samples, sample_rate },
                } => {
                    assert_eq!(samples.len(), chunk * 25_600);
                    assert_eq!(sample_rate, 51_200);
                }
                other => panic!("{:?}", other),
            }
            assert_eq!(live.apt_last_decoded_len, chunk * 25_600);
        } else {
            assert!(matches!(work, LiveWork::Skip));
        }
    }
}

#[test]
fn audio_rates_stay_near_the_target() {
    assert_eq!(apt_decimation(250_000), 4);
    assert_eq!(apt_decimation(51_200), 1);
    assert_eq!(apt_decimation(51_199), 1);
    assert_eq!(apt_decimation(102_399), 1);
    assert_eq!(apt_decimation(102_400), 2);
    assert_eq!(apt_decimation(0), 1);
}

#[test]
fn apt_output_replaces_the_log() {
    let mut live = running(0);
    live.take_output(DecoderKind::Adsb, DecodeOutput { items: lines(0..2), image_path: None });
    live.take_output(DecoderKind::Generic, DecodeOutput { items: lines(2..3), image_path: None });
    assert_eq!(live.log.len(), 3);
    assert_eq!(live.log[2].summary, "line 2");
    assert_eq!(live.apt_image_path, None);
    live.take_output(
        DecoderKind::Apt,
        DecodeOutput { items: lines(7..8), image_path: Some("pass.png".to_string()) },
    );
    assert_eq!(live.log.len(), 1);
    assert_eq!(live.log[0].summary, "line 7");
    assert_eq!(live.apt_image_path.as_deref(), Some("pass.png"));
}

#[test]
fn the_log_keeps_the_last_lines() {
    let mut live = running(2);
    live.take_output(DecoderKind::Generic, DecodeOutput { items: lines(0..200), image_path: None });
    live.trim_log();
    assert_eq!(live.log.len(), 200);
    live.take_output(DecoderKind::Generic, DecodeOutput { items: lines(200..253), image_path: None });
    live.trim_log();
    assert_eq!(live.log.len(), 200);
    assert_eq!(live.log[0].summary, "line 53");
    assert_eq!(live.log[199].summary, "line 252");
}

#[test]
fn the_log_of_an_ended_capture_is_left_alone() {
    let mut live = running(2);
    live.take_output(DecoderKind::Generic, DecodeOutput { items: lines(0..250), image_path: None });
    live.stop_pressed();
    live.trim_log();
    assert_eq!(live.log.len(), 250);
}

#[test]
fn a_chunk_boundary_leaves_no_trace_in_the_audio() {
    let iq: Vec<(f32, f32)> = (0..400).map(|k| (k as f32, 1.0)).collect();
    let angles = |steps: Vec<FmStep<f32>>| -> Vec<f32> {
        steps
            .iter()
            .map(|step| match step {
                FmStep::Silence => 0.0,
                FmStep::Turn { now, before } => 1000.0 * now.0 + before.0,
            })
            .collect()
    };
    let audio = |cuts: &[usize]| -> Vec<f32> {
        let mut live = running(0);
        let mut from = 0;
        for to in cuts {
            match live.route(RawSignal::Iq(iq[from..*to].to_vec())) {
                LiveWork::Discriminate(steps) => live.take_demodulated(&angles(steps)),
                other => panic!("{:?}", other),
            };
            from = *to;
        }
        live.apt_audio
    };
    let whole = audio(&[400]);
    assert_eq!(whole.len(), 10);
    assert_eq!(whole[1], 40_039.0);
    assert_eq!(audio(&[40, 160, 400]), whole);
    assert_ne!(audio(&[50, 400]), whole);
}
