//! The state behind the live-capture panel.
//!
//! The panel offers the public bands and nothing else. Chunks of IQ samples
//! are routed to the demodulator of the band that they were captured on, and
//! what it makes of them to a decoder. Arithmetic on samples and the decoders themselves are
//! the caller's.

use vstd::prelude::*;

use crate::adsb;
use crate::adsb::AdsbLiveDemod;
use crate::bands;
use crate::bands::{public_band, LiveKind, BAND_COUNT};
use crate::capture::{CaptureSetup, LiveCapture, LiveCaptureError, SetupStage};
use crate::fm;
use crate::fm::{decimate, FmDemod, FmStep};
use crate::signal::{DecodeOutput, DecodedItem, DecoderKind, RawSignal};

verus! {

/// The audio rate that APT decimation aims at.
pub const APT_TARGET_RATE: u32 = 51_200;

/// Seconds of new audio between two runs of the APT decoder.
pub const APT_REFRESH_SECONDS: u64 = 4;

/// How many lines the live log keeps.
pub const LOG_LIMIT: usize = 200;

/// State of the live-capture panel, over samples of type `S`. `enabled` is the
/// user-facing toggle.
pub struct LiveState<S> {
    pub enabled: bool,
    pub preset_idx: usize,
    pub device_count: usize,
    pub capture: Option<LiveCapture>,
    pub log: Vec<DecodedItem>,
    pub status: String,
    // Per-protocol demodulator state, reset each time Start is pressed.
    pub fm: FmDemod<S>,
    pub apt_audio: Vec<S>,
    pub apt_sample_rate: u32,
    pub apt_last_decoded_len: usize,
    pub apt_image_path: Option<String>,
    pub adsb: AdsbLiveDemod,
}

/// What the panel shows.
#[derive(Debug)]
pub enum LivePanel {
    /// Live capture is switched off. A capture that ran until now was stopped.
    Off { stopped: Option<LiveCapture> },
    /// There is no dongle to capture from.
    NoDevice,
    /// The band list and a start or a stop button.
    Ready { running: bool },
}

/// What is to be done with a chunk next.
#[derive(Debug)]
pub enum LiveWork<S> {
    /// Nothing.
    Skip,
    /// Measure the magnitude of each sample.
    Measure(Vec<(S, S)>),
    /// Turn each step into a demodulated sample.
    Discriminate(Vec<FmStep<S>>),
    /// Decode a signal.
    Decode { decoder: DecoderKind, signal: RawSignal<S> },
}

/// The factor by which FM-demodulated samples are decimated to audio.
pub open spec fn apt_factor(sample_rate_hz: u32) -> u32 {
    if sample_rate_hz < APT_TARGET_RATE {
        1
    } else {
        sample_rate_hz / APT_TARGET_RATE
    }
}

/// The rate of the decimated audio.
pub open spec fn apt_rate(sample_rate_hz: u32) -> u32 {
    sample_rate_hz / apt_factor(sample_rate_hz)
}

/// The factor by which FM-demodulated samples are decimated to audio.
pub fn apt_decimation(sample_rate_hz: u32) -> (factor: u32)
    ensures
        factor == apt_factor(sample_rate_hz),
        factor >= 1,
{
    let quotient: u32 = sample_rate_hz / APT_TARGET_RATE;
    if quotient < 1 {
        1
    } else {
        quotient
    }
}

/// The last `limit` elements of a sequence.
pub open spec fn last_of<T>(s: Seq<T>, limit: int) -> Seq<T> {
    if s.len() <= limit {
        s
    } else {
        s.skip(s.len() - limit)
    }
}

impl<S> LiveState<S> {
    /// The selected band is on the list, the audio rate is that of the running
    /// capture, and less audio than a refresh takes waits for the APT decoder.
    pub open spec fn wf(self) -> bool {
        &&& self.preset_idx < BAND_COUNT
        &&& self.capture matches Some(c) ==> self.apt_sample_rate == apt_rate(
            c.preset.sample_rate_hz,
        )
        &&& self.apt_last_decoded_len <= self.apt_audio@.len()
        &&& self.apt_sample_rate > 0 ==> self.apt_audio@.len() - self.apt_last_decoded_len
            < APT_REFRESH_SECONDS * self.apt_sample_rate
    }

    /// The selected band.
    pub open spec fn band(self) -> bands::BandPreset {
        bands::public_bands()[self.preset_idx as int]
    }

    /// Whether a press of Start counts: live capture is switched on, there is a
    /// dongle, and nothing is being captured.
    pub open spec fn start_honoured(self) -> bool {
        self.enabled && self.device_count != 0 && self.capture is None
    }

    /// The set-up of a capture of the selected band on the first device.
    pub open spec fn start_setup(self) -> CaptureSetup {
        CaptureSetup { preset: self.band(), device_index: 0, stage: SetupStage::Opening }
    }

    /// What to set up, given whether Start was clicked.
    pub open spec fn setup_for(self, clicked: bool) -> Option<CaptureSetup> {
        if clicked && self.start_honoured() {
            Some(self.start_setup())
        } else {
            None
        }
    }

    /// The band that is being captured.
    pub open spec fn captured(self) -> bands::BandPreset {
        self.capture->0.preset
    }

    /// The factor that fits the band being captured.
    pub open spec fn captured_factor(self) -> int {
        apt_factor(self.captured().sample_rate_hz) as int
    }

    /// The audio after another stretch of demodulated samples of the running
    /// capture.
    pub open spec fn audio_with(self, demod: Seq<S>) -> Seq<S> {
        self.apt_audio@ + fm::decimated(demod, self.captured_factor())
    }

    /// Whether audio of that length is due for the APT decoder.
    pub open spec fn refresh_due(self, len: int) -> bool {
        len >= self.apt_last_decoded_len + APT_REFRESH_SECONDS * self.apt_sample_rate
    }

    /// `self` came out of `before` when Start was pressed and came out as
    /// `result`: the demodulators are fresh in any case. A capture that runs
    /// begins with an empty log; a failure shows in the status.
    pub open spec fn start_finished(
        self,
        before: Self,
        result: Result<LiveCapture, LiveCaptureError>,
    ) -> bool {
        &&& self.enabled == before.enabled
        &&& self.preset_idx == before.preset_idx
        &&& self.device_count == before.device_count
        &&& self.fm.prev is None
        &&& self.apt_audio@ == Seq::<S>::empty()
        &&& self.apt_last_decoded_len == 0
        &&& self.apt_image_path is None
        &&& self.adsb.carry@ == Seq::<u32>::empty()
        &&& match result {
            Ok(capture) => {
                &&& self.capture == Some(capture)
                &&& self.status@ == "Receiving on "@ + capture.preset.label@
                &&& self.log@ == Seq::<DecodedItem>::empty()
                &&& self.apt_sample_rate == apt_rate(capture.preset.sample_rate_hz)
            },
            Err(e) => {
                &&& self.capture == before.capture
                &&& self.status@ == "Failed to start: "@ + e.text()
                &&& self.log == before.log
                &&& self.apt_sample_rate == 0
            },
        }
    }

    /// `self` came out of `before` when a chunk was routed to `work`: by the
    /// band being captured. Without a capture, and for anything but IQ, there
    /// is nothing to do.
    pub open spec fn routed(self, before: Self, raw: RawSignal<S>, work: LiveWork<S>) -> bool {
        match (before.capture, raw) {
            (Some(capture), RawSignal::Iq(iq)) => match capture.preset.kind {
                LiveKind::Generic => {
                    &&& work == LiveWork::Decode { decoder: DecoderKind::Generic, signal: raw }
                    &&& self == before
                },
                LiveKind::Adsb => {
                    &&& work == LiveWork::Measure(iq)
                    &&& self == before
                },
                LiveKind::Apt => {
                    &&& work matches LiveWork::Discriminate(steps)
                    &&& steps@ == fm::steps_of(before.fm.prev, iq@)
                    &&& self == (LiveState {
                        fm: FmDemod {
                            prev: fm::sample_before(before.fm.prev, iq@, iq@.len() as int),
                        },
                        ..before
                    })
                },
            },
            _ => work is Skip && self == before,
        }
    }

    /// `self` came out of `before` when the levels of a chunk were taken in.
    pub open spec fn levels_taken(self, before: Self, mags: Seq<u32>, work: LiveWork<S>) -> bool {
        let buf = before.adsb.carry@ + mags;
        &&& self.adsb.carry@ == adsb::carried(buf)
        &&& self == (LiveState { adsb: self.adsb, ..before })
        &&& if adsb::frames_in(buf).len() == 0 {
            work is Skip
        } else {
            &&& work matches LiveWork::Decode {
                decoder: DecoderKind::Adsb,
                signal: RawSignal::Packets(frames),
            }
            &&& adsb::contents(frames@) == adsb::frames_in(buf)
        }
    }

    /// `self` came out of `before` when demodulated samples were taken in.
    pub open spec fn demodulated_taken(
        self,
        before: Self,
        demod: Seq<S>,
        work: LiveWork<S>,
    ) -> bool {
        let audio = before.audio_with(demod);
        if before.capture is None {
            work is Skip && self == before
        } else if before.refresh_due(audio.len() as int) {
            &&& self.apt_audio@ == audio
            &&& self.apt_last_decoded_len == audio.len()
            &&& self == (LiveState {
                apt_audio: self.apt_audio,
                apt_last_decoded_len: self.apt_last_decoded_len,
                ..before
            })
            &&& work matches LiveWork::Decode {
                decoder: DecoderKind::Apt,
                signal: RawSignal::Audio { samples, sample_rate },
            }
            &&& samples@ == audio
            &&& sample_rate == before.apt_sample_rate
        } else {
            &&& self.apt_audio@ == audio
            &&& self == (LiveState { apt_audio: self.apt_audio, ..before })
            &&& work is Skip
        }
    }

    /// `self` came out of `before` when a decoder's output was taken in: that
    /// of the APT decoder replaces the log, other output is added to it.
    pub open spec fn output_taken(
        self,
        before: Self,
        decoder: DecoderKind,
        out: DecodeOutput,
    ) -> bool {
        match decoder {
            DecoderKind::Apt => self == (LiveState {
                log: out.items,
                apt_image_path: out.image_path,
                ..before
            }),
            _ => {
                &&& self.log@ == before.log@ + out.items@
                &&& self == (LiveState { log: self.log, ..before })
            },
        }
    }

    /// `self` came out of `before` when the log of a running capture was cut
    /// down to its last lines.
    pub open spec fn log_trimmed(self, before: Self) -> bool {
        &&& self.log@ == if before.capture is Some {
            last_of(before.log@, LOG_LIMIT as int)
        } else {
            before.log@
        }
        &&& self == (LiveState { log: self.log, ..before })
    }
}

impl<S: Copy> LiveState<S> {
    /// The panel as it is first shown: switched off, on the first band.
    pub fn new(device_count: usize) -> (state: Self)
        ensures
            state.wf(),
            !state.enabled,
            state.preset_idx == 0,
            state.device_count == device_count,
            state.capture is None,
            state.log@ == Seq::<DecodedItem>::empty(),
            state.status@ == "Idle"@,
            state.fm.prev is None,
            state.apt_audio@ == Seq::<S>::empty(),
            state.apt_sample_rate == 0,
            state.apt_last_decoded_len == 0,
            state.apt_image_path is None,
            state.adsb.carry@ == Seq::<u32>::empty(),
    {
        LiveState {
            enabled: false,
            preset_idx: 0,
            device_count,
            capture: None,
            log: Vec::new(),
            status: "Idle".to_owned(),
            fm: FmDemod::new(),
            apt_audio: Vec::new(),
            apt_sample_rate: 0,
            apt_last_decoded_len: 0,
            apt_image_path: None,
            adsb: AdsbLiveDemod::new(),
        }
    }

    /// Ends the running capture, if there is one, and hands it back stopped.
    fn end_capture(&mut self) -> (stopped: Option<LiveCapture>)
        ensures
            *final(self) == (LiveState { capture: None, ..*old(self) }),
            stopped == match old(self).capture {
                Some(c) => Some(LiveCapture { preset: c.preset, stop_flag: true }),
                None => None,
            },
    {
        match self.capture.take() {
            Some(capture) => {
                let mut capture: LiveCapture = capture;
                capture.stop();
                Some(capture)
            },
            None => None,
        }
    }

    /// Decides what to show. Switching live capture off ends a running one.
    pub fn panel(&mut self) -> (panel: LivePanel)
        ensures
            old(self).wf() ==> final(self).wf(),
            final(self).status@ == if !old(self).enabled && old(self).capture is Some {
                "Idle"@
            } else {
                old(self).status@
            },
            *final(self) == (LiveState {
                capture: if old(self).enabled {
                    old(self).capture
                } else {
                    None
                },
                status: final(self).status,
                ..*old(self)
            }),
            panel == if !old(self).enabled {
                LivePanel::Off {
                    stopped: match old(self).capture {
                        Some(c) => Some(LiveCapture { preset: c.preset, stop_flag: true }),
                        None => None,
                    },
                }
            } else if old(self).device_count == 0 {
                LivePanel::NoDevice
            } else {
                LivePanel::Ready { running: old(self).capture is Some }
            },
    {
        if !self.enabled {
            let stopped: Option<LiveCapture> = self.end_capture();
            if stopped.is_some() {
                self.status = "Idle".to_owned();
            }
            LivePanel::Off { stopped }
        } else if self.device_count == 0 {
            LivePanel::NoDevice
        } else {
            LivePanel::Ready { running: self.capture.is_some() }
        }
    }

    /// Takes in the result of another look for devices.
    pub fn rescan(&mut self, device_count: usize)
        ensures
            old(self).wf() ==> final(self).wf(),
            *final(self) == (LiveState { device_count, ..*old(self) }),
    {
        self.device_count = device_count;
    }

    /// Selects a band of the list.
    pub fn select(&mut self, preset_idx: usize)
        requires
            preset_idx < BAND_COUNT,
        ensures
            old(self).wf() ==> final(self).wf(),
            *final(self) == (LiveState { preset_idx, ..*old(self) }),
    {
        self.preset_idx = preset_idx;
    }

    /// Begins to set up a capture of the selected band on the first device.
    pub fn begin_start(&self) -> (setup: CaptureSetup)
        requires
            self.wf(),
            self.enabled,
            self.device_count != 0,
            self.capture is None,
        ensures
            setup == self.start_setup(),
    {
        LiveCapture::start(public_band(self.preset_idx), 0)
    }

    /// What to set up, given whether Start was clicked: nothing unless it was,
    /// and counts.
    pub fn start_pressed(&self, clicked: bool) -> (setup: Option<CaptureSetup>)
        requires
            self.wf(),
        ensures
            setup == self.setup_for(clicked),
    {
        if clicked && self.enabled && self.device_count != 0 && self.capture.is_none() {
            Some(self.begin_start())
        } else {
            None
        }
    }

    /// Takes in how starting came out.
    pub fn finish_start(&mut self, result: Result<LiveCapture, LiveCaptureError>)
        requires
            old(self).capture is None,
        ensures
            old(self).wf() ==> final(self).wf(),
            final(self).start_finished(*old(self), result),
    {
        self.fm = FmDemod::new();
        self.apt_audio.clear();
        self.apt_sample_rate = 0;
        self.apt_last_decoded_len = 0;
        self.apt_image_path = None;
        self.adsb = AdsbLiveDemod::new();
        match result {
            Ok(capture) => {
                let mut status: String = "Receiving on ".to_owned();
                status.append(capture.preset.label);
                let rate: u32 = capture.preset.sample_rate_hz;
                self.status = status;
                self.log.clear();
                self.apt_sample_rate = rate / apt_decimation(rate);
                self.capture = Some(capture);
            },
            Err(e) => {
                let mut status: String = "Failed to start: ".to_owned();
                let text: String = e.message();
                status.append(text.as_str());
                self.status = status;
            },
        }
    }

    /// Ends the running capture at the user's wish.
    pub fn stop_pressed(&mut self) -> (stopped: Option<LiveCapture>)
        ensures
            old(self).wf() ==> final(self).wf(),
            final(self).status@ == "Idle"@,
            *final(self) == (LiveState {
                capture: None,
                status: final(self).status,
                ..*old(self)
            }),
            stopped == match old(self).capture {
                Some(c) => Some(LiveCapture { preset: c.preset, stop_flag: true }),
                None => None,
            },
    {
        let stopped: Option<LiveCapture> = self.end_capture();
        self.status = "Idle".to_owned();
        stopped
    }

    /// Routes a chunk by the band that it was captured on.
    pub fn route(&mut self, raw: RawSignal<S>) -> (work: LiveWork<S>)
        ensures
            old(self).wf() ==> final(self).wf(),
            final(self).routed(*old(self), raw, work),
    {
        let kind: LiveKind = match &self.capture {
            Some(capture) => capture.preset.kind,
            None => {
                return LiveWork::Skip;
            },
        };
        match raw {
            RawSignal::Iq(iq) => match kind {
                LiveKind::Generic => LiveWork::Decode {
                    decoder: DecoderKind::Generic,
                    signal: RawSignal::Iq(iq),
                },
                LiveKind::Adsb => LiveWork::Measure(iq),
                LiveKind::Apt => LiveWork::Discriminate(self.fm.process(iq.as_slice())),
            },
            _ => LiveWork::Skip,
        }
    }

    /// Takes in the levels of a measured chunk. Frames found in them go to the
    /// ADS-B decoder.
    pub fn take_levels(&mut self, mags: &[u32]) -> (work: LiveWork<S>)
        ensures
            old(self).wf() ==> final(self).wf(),
            final(self).levels_taken(*old(self), mags@, work),
    {
        let frames: Vec<Vec<u8>> = self.adsb.feed(mags);
        assert(adsb::contents(frames@).len() == frames@.len());
        if frames.is_empty() {
            LiveWork::Skip
        } else {
            LiveWork::Decode { decoder: DecoderKind::Adsb, signal: RawSignal::Packets(frames) }
        }
    }

    /// Takes in demodulated samples of the running capture. All audio so far
    /// goes to the APT decoder whenever another four seconds of it have come
    /// together.
    pub fn take_demodulated(&mut self, demod: &[S]) -> (work: LiveWork<S>)
        requires
            old(self).wf(),
        ensures
            final(self).wf(),
            final(self).demodulated_taken(*old(self), demod@, work),
    {
        let rate: u32 = match &self.capture {
            Some(capture) => capture.preset.sample_rate_hz,
            None => {
                return LiveWork::Skip;
            },
        };
        let mut audio: Vec<S> = decimate(demod, apt_decimation(rate) as usize);
        self.apt_audio.append(&mut audio);
        let len: usize = self.apt_audio.len();
        let refresh_every: u64 = APT_REFRESH_SECONDS * (self.apt_sample_rate as u64);
        if (len - self.apt_last_decoded_len) as u64 >= refresh_every {
            self.apt_last_decoded_len = len;
            let samples: Vec<S> = decimate(self.apt_audio.as_slice(), 1);
            LiveWork::Decode {
                decoder: DecoderKind::Apt,
                signal: RawSignal::Audio { samples, sample_rate: self.apt_sample_rate },
            }
        } else {
            LiveWork::Skip
        }
    }

    /// Takes in what a decoder made of a signal. APT output replaces the log,
    /// since it is one running image; other output is added to it.
    pub fn take_output(&mut self, decoder: DecoderKind, out: DecodeOutput)
        ensures
            old(self).wf() ==> final(self).wf(),
            final(self).output_taken(*old(self), decoder, out),
    {
        match decoder {
            DecoderKind::Apt => {
                self.apt_image_path = out.image_path;
                self.log = out.items;
            },
            _ => {
                let mut items: Vec<DecodedItem> = out.items;
                self.log.append(&mut items);
            },
        }
    }

    /// Drops the oldest log lines of a running capture once there are too many.
    pub fn trim_log(&mut self)
        ensures
            old(self).wf() ==> final(self).wf(),
            final(self).log_trimmed(*old(self)),
    {
        if self.capture.is_some() && self.log.len() > LOG_LIMIT {
            let excess: usize = self.log.len() - LOG_LIMIT;
            let kept: Vec<DecodedItem> = self.log.split_off(excess);
            self.log = kept;
        }
    }

    /// Whether the panel has to be drawn again without waiting for the user.
    pub fn wants_repaint(&self) -> (repaint: bool)
        ensures
            repaint == (self.enabled && self.capture is Some),
    {
        self.enabled && self.capture.is_some()
    }
}

} // verus!
