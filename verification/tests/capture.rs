use frankenstein::bands::{public_band, LiveKind, BAND_COUNT};
use frankenstein::capture::{
    chunk_len, device_count, reader_step, split_iq, DriverCall, LiveCapture, LiveCaptureError,
    ReaderAction, ReaderEvent, SetupProgress,
};

/// Sets up a capture, answering the calls in turn with `replies`.
fn set_up(
    band: usize,
    device: usize,
    replies: Vec<Result<(), String>>,
) -> (Vec<DriverCall>, Result<LiveCapture, LiveCaptureError>) {
    let mut setup = LiveCapture::start(public_band(band), device);
    let mut calls = Vec::new();
    for reply in replies {
        calls.push(setup.call());
        match setup.advance(reply) {
            Ok(SetupProgress::More(next)) => setup = next,
            Ok(SetupProgress::Ready(capture)) => return (calls, Ok(capture)),
            Err(e) => return (calls, Err(e)),
        }
    }
    panic!("more calls than replies");
}

#[test]
fn a_capture_is_set_up_in_order() {
    let (calls, outcome) = set_up(1, 2, vec![Ok(()), Ok(()), Ok(()), Ok(())]);
    assert_eq!(
        calls,
        vec![
            DriverCall::Open(2),
            DriverCall::SetCenterFreq(1_090_000_000),
            DriverCall::SetSampleRate(2_000_000),
            DriverCall::ResetBuffer,
        ]
    );
    let capture = outcome.unwrap();
    assert_eq!(capture.preset.label, "ADS-B aircraft transponders");
    assert!(!capture.stop_flag);
}

#[test]
fn a_device_that_does_not_open_is_absent() {
    let (calls, outcome) = set_up(0, 0, vec![Err("busy".to_string())]);
    assert_eq!(calls, vec![DriverCall::Open(0)]);
    let error = outcome.unwrap_err();
    assert!(matches!(error, LiveCaptureError::NoDeviceFound));
    assert_eq!(error.message(), "No RTL-SDR dongle found. Plug one in and retry.");
}

#[test]
fn later_failures_carry_the_words_of_the_driver() {
    for good in 1..4 {
        let mut replies: Vec<Result<(), String>> = vec![Ok(()); good];
        replies.push(Err("Usb(-5)".to_string()));
        let (calls, outcome) = set_up(5, 0, replies);
        assert_eq!(calls.len(), good + 1);
        let error = outcome.unwrap_err();
        assert!(matches!(&error, LiveCaptureError::Driver(e) if e == "Usb(-5)"));
        assert_eq!(error.message(), "SDR driver error: Usb(-5)");
    }
}

#[test]
fn stopping_sets_the_flag_for_good() {
    let (_, outcome) = set_up(3, 0, vec![Ok(()), Ok(()), Ok(()), Ok(())]);
    let mut capture = outcome.unwrap();
    capture.stop();
    assert!(capture.stop_flag);
    capture.stop();
    assert!(capture.stop_flag);
    assert_eq!(capture.preset.center_freq_hz, 146_000_000);
    let next = reader_step(ReaderEvent::Polled { stop: capture.stop_flag }, &[]);
    assert!(matches!(next, ReaderAction::Quit));
}

#[test]
fn the_reader_reads_until_it_is_told_to_stop() {
    let buf = [1, 2, 3, 4, 5, 6];
    assert!(matches!(
        reader_step(ReaderEvent::Polled { stop: false }, &buf),
        ReaderAction::Read
    ));
    match reader_step(ReaderEvent::Read { n: 5 }, &buf) {
        ReaderAction::Send(pairs) => assert_eq!(pairs, vec![(1, 2), (3, 4)]),
        other => panic!("{:?}", other),
    }
    for n in 0..2 {
        assert!(matches!(
            reader_step(ReaderEvent::Read { n }, &buf),
            ReaderAction::Sleep(20)
        ));
    }
    assert!(matches!(reader_step(ReaderEvent::ReadFailed, &buf), ReaderAction::Quit));
    assert!(matches!(
        reader_step(ReaderEvent::Sent { delivered: true }, &buf),
        ReaderAction::Poll
    ));
    assert!(matches!(
        reader_step(ReaderEvent::Sent { delivered: false }, &buf),
        ReaderAction::Quit
    ));
    assert!(matches!(reader_step(ReaderEvent::Slept, &buf), ReaderAction::Poll));
}

#[test]
fn iq_bytes_come_in_pairs() {
    assert_eq!(split_iq(&[9, 8, 7, 6], 4), vec![(9, 8), (7, 6)]);
    assert_eq!(split_iq(&[9, 8, 7, 6], 3), vec![(9, 8)]);
    assert!(split_iq(&[9, 8, 7, 6], 1).is_empty());
    assert!(split_iq(&[], 0).is_empty());
}

#[test]
fn a_chunk_is_half_a_second() {
    assert_eq!(chunk_len(&public_band(0)), 2_048_000);
    assert_eq!(chunk_len(&public_band(1)), 2_000_000);
    let mut odd = public_band(2);
    odd.sample_rate_hz = 250_001;
    assert_eq!(chunk_len(&odd), 250_000);
}

#[test]
fn devices_are_counted_as_far_as_known() {
    assert_eq!(device_count::<()>(Ok(3)), 3);
    assert_eq!(device_count(Err("no usb")), 0);
}

#[test]
fn the_bands_are_the_public_ones() {
    let bands: Vec<(&str, u32, u32, LiveKind)> = (0..BAND_COUNT)
        .map(public_band)
        .map(|b| (b.label, b.center_freq_hz, b.sample_rate_hz, b.kind))
        .collect();
    assert_eq!(
        bands,
        vec![
            ("NOAA APT weather satellites", 137_500_000, 2_048_000, LiveKind::Apt),
            ("ADS-B aircraft transponders", 1_090_000_000, 2_000_000, LiveKind::Adsb),
            ("Marine AIS", 161_975_000, 250_000, LiveKind::Generic),
            ("2 m amateur (HAM) band", 146_000_000, 250_000, LiveKind::Generic),
            ("70 cm amateur (HAM) band", 435_000_000, 250_000, LiveKind::Generic),
            ("FM broadcast", 100_000_000, 250_000, LiveKind::Generic),
            ("License-free ISM (433 MHz)", 433_920_000, 250_000, LiveKind::Generic),
        ]
    );
    assert_eq!(
        public_band(0).note,
        "137.5 MHz — public weather-satellite downlink, decodes with the APT decoder."
    );
}
