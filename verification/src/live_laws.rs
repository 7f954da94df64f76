//! What the live panel promises over more than one step.

use vstd::prelude::*;

use crate::adsb;
use crate::adsb_laws;
use crate::bands;
use crate::bands::{LiveKind, BAND_COUNT};
use crate::capture;
use crate::capture::{CaptureSetup, DriverCall, LiveCapture, LiveCaptureError, SetupStage};
use crate::fm;
use crate::fm::FmStep;
use crate::live;
use crate::live::{
    apt_decimation, LivePanel, LiveState, LiveWork, APT_TARGET_RATE, LOG_LIMIT,
};
use crate::parity;
use crate::signal::{DecodeOutput, DecodedItem, DecoderKind, RawSignal};

verus! {

/// Audio from a fast enough band runs at the target rate or up to twice that;
/// audio from a slow band is not decimated.
pub proof fn law_apt_rate(sample_rate_hz: u32)
    ensures
        sample_rate_hz < APT_TARGET_RATE ==> live::apt_rate(sample_rate_hz) == sample_rate_hz,
        sample_rate_hz >= APT_TARGET_RATE ==> APT_TARGET_RATE <= live::apt_rate(sample_rate_hz) < 2
            * APT_TARGET_RATE,
{
    if sample_rate_hz >= APT_TARGET_RATE {
        let n = sample_rate_hz as int;
        let f = live::apt_factor(sample_rate_hz) as int;
        let r = n / f;
        vstd::arithmetic::div_mod::lemma_fundamental_div_mod(n, f);
        vstd::arithmetic::div_mod::lemma_mod_bound(n, f);
        let m = n % f;
        assert(51_200 <= r < 102_400) by (nonlinear_arith)
            requires
                n == f * r + m,
                0 <= m < f,
                51_200 * f <= n < 51_200 * f + 51_200,
                1 <= f,
        ;
    } else {
        assert(sample_rate_hz / 1 == sample_rate_hz);
    }
}

/// Every band that is demodulated as APT gives audio at exactly the target
/// rate, and a full half-second chunk of it decimates without a seam.
pub proof fn law_apt_band(i: int)
    requires
        0 <= i < BAND_COUNT,
        bands::public_bands()[i].kind == LiveKind::Apt,
    ensures
        ({
            let rate = bands::public_bands()[i].sample_rate_hz;
            &&& live::apt_rate(rate) == APT_TARGET_RATE
            &&& (rate as int / 2) % (live::apt_factor(rate) as int) == 0
        }),
{
    assert(bands::public_bands()[i].sample_rate_hz == 2_048_000);
    assert(live::apt_factor(2_048_000) == 40);
    assert(2_048_000u32 / 40 == APT_TARGET_RATE);
    assert(1_024_000int % 40 == 0);
}

/// Demodulated samples may come in two parts or at once: the audio is the same
/// where the cut falls on a multiple of the factor of the band being captured.
pub proof fn law_audio_chunks<S>(state: LiveState<S>, a: Seq<S>, b: Seq<S>)
    requires
        state.capture is Some,
        a.len() as int % state.captured_factor() == 0,
    ensures
        state.audio_with(a + b) == state.audio_with(a) + fm::decimated(b, state.captured_factor()),
{
    let factor = state.captured_factor();
    fm::law_decimate_chunks(a, b, factor);
    assert(state.audio_with(a + b) =~= state.audio_with(a) + fm::decimated(b, factor));
}

/// A chunk boundary leaves no trace in APT audio: IQ samples that come in two
/// parts give the audio of the whole, whatever angle the steps are turned into,
/// where the cut falls on a multiple of the decimation factor.
pub proof fn law_apt_chunk_boundary<S>(
    state: LiveState<S>,
    a: Seq<(S, S)>,
    b: Seq<(S, S)>,
    angle: spec_fn(FmStep<S>) -> S,
)
    requires
        state.capture is Some,
        a.len() as int % state.captured_factor() == 0,
    ensures
        ({
            let between = fm::sample_before(state.fm.prev, a, a.len() as int);
            let first = fm::steps_of(state.fm.prev, a).map_values(angle);
            let second = fm::steps_of(between, b).map_values(angle);
            state.audio_with(fm::steps_of(state.fm.prev, a + b).map_values(angle))
                == state.audio_with(first) + fm::decimated(second, state.captured_factor())
        }),
{
    let between = fm::sample_before(state.fm.prev, a, a.len() as int);
    let first = fm::steps_of(state.fm.prev, a).map_values(angle);
    let second = fm::steps_of(between, b).map_values(angle);
    fm::law_fm_chunks(state.fm.prev, a, b);
    assert(fm::steps_of(state.fm.prev, a + b).map_values(angle) =~= first + second);
    law_audio_chunks(state, first, second);
}

/// The log keeps at most `LOG_LIMIT` lines, the most recent ones, and all of
/// them while there are no more than that.
pub proof fn law_log_recent(log: Seq<DecodedItem>)
    ensures
        live::last_of(log, LOG_LIMIT as int).len() <= LOG_LIMIT,
        live::last_of(log, LOG_LIMIT as int).is_suffix_of(log),
        log.len() <= LOG_LIMIT ==> live::last_of(log, LOG_LIMIT as int) == log,
        log.len() > LOG_LIMIT ==> live::last_of(log, LOG_LIMIT as int).len() == LOG_LIMIT,
{
    let kept = live::last_of(log, LOG_LIMIT as int);
    assert(kept =~= log.subrange(log.len() - kept.len(), log.len() as int));
}

/// Whether a band of the list is on that frequency.
pub open spec fn listed(hz: u32) -> bool {
    exists|i: int|
        0 <= i < BAND_COUNT && (#[trigger] bands::public_bands()[i]).center_freq_hz == hz
}

/// A capture is set up only if Start was clicked while live capture was
/// switched on, with a dongle and with nothing being captured. It is then set
/// up on the first device and the selected band of the list: whatever the
/// driver replies, it is asked for nothing else, and no frequency outside the
/// list is tuned. Once the capture runs, no click sets up another.
pub proof fn law_start_honoured<S>(
    state: LiveState<S>,
    clicked: bool,
    replies: Seq<Result<(), String>>,
    result: Result<LiveCapture, LiveCaptureError>,
    after: LiveState<S>,
    clicked_again: bool,
)
    requires
        state.wf(),
    ensures
        state.setup_for(clicked) is Some <==> clicked && state.enabled && state.device_count != 0
            && state.capture is None,
        state.setup_for(clicked) matches Some(setup) ==> {
            let band = bands::public_bands()[state.preset_idx as int];
            let calls = capture::run_setup(setup, replies).0;
            &&& state.preset_idx < BAND_COUNT
            &&& setup.preset == band
            &&& setup.device_index == 0
            &&& calls.is_prefix_of(capture::setup_calls(band, 0))
            &&& forall|k: int|
                0 <= k < calls.len() ==> ((#[trigger] calls[k]) matches DriverCall::SetCenterFreq(
                    hz,
                ) ==> listed(hz))
        },
        result is Ok && after.start_finished(state, result) ==> after.setup_for(clicked_again)
            is None,
{
    let setup = state.start_setup();
    let calls = capture::run_setup(setup, replies).0;
    let all = capture::setup_calls(state.band(), 0);
    capture::law_setup_calls(setup, replies);
    assert(calls =~= all.take(calls.len() as int));
    assert(listed(all[1]->SetCenterFreq_0)) by {
        assert(bands::public_bands()[state.preset_idx as int].center_freq_hz
            == all[1]->SetCenterFreq_0);
    }
    assert forall|k: int| 0 <= k < calls.len() implies ((#[trigger] calls[k]) matches
        DriverCall::SetCenterFreq(hz) ==> listed(hz)) by {
        assert(calls[k] == all[k]);
    }
}

/// Every press of Start leaves fresh demodulators, whether or not a capture
/// comes of it.
pub proof fn law_start_resets<S>(
    state: LiveState<S>,
    result: Result<LiveCapture, LiveCaptureError>,
    after: LiveState<S>,
)
    requires
        after.start_finished(state, result),
    ensures
        after.fm.prev is None,
        after.apt_audio@.len() == 0,
        after.apt_last_decoded_len == 0,
        after.apt_image_path is None,
        after.adsb.carry@.len() == 0,
{
}

/// The decoder that a band's chunks end up with.
pub open spec fn decoder_of(kind: LiveKind) -> DecoderKind {
    match kind {
        LiveKind::Apt => DecoderKind::Apt,
        LiveKind::Adsb => DecoderKind::Adsb,
        LiveKind::Generic => DecoderKind::Generic,
    }
}

/// The work `work` is carried on to `next`: samples are measured to `levels`,
/// or steps turned into `demod`.
pub open spec fn carried_on<S>(
    before: LiveState<S>,
    work: LiveWork<S>,
    levels: Seq<u32>,
    demod: Seq<S>,
    next: LiveWork<S>,
    after: LiveState<S>,
) -> bool {
    match work {
        LiveWork::Measure(_) => after.levels_taken(before, levels, next),
        LiveWork::Discriminate(_) => after.demodulated_taken(before, demod, next),
        _ => after == before && next == work,
    }
}

/// A decode that `work` asks for gives `out`, which is taken in; `out` is
/// `None` where it asks for none.
pub open spec fn decoded<S>(
    before: LiveState<S>,
    work: LiveWork<S>,
    out: Option<DecodeOutput>,
    after: LiveState<S>,
) -> bool {
    match (work, out) {
        (LiveWork::Decode { decoder, signal }, Some(output)) => after.output_taken(
            before,
            decoder,
            output,
        ),
        (LiveWork::Skip, None) => after == before,
        _ => false,
    }
}

/// What happens to one chunk of a frame: the samples `raw` are routed to
/// `first`, which measures them to `levels` or turns them into `demod`; that
/// leads to `work`, and a decode that it asks for gives `out`.
pub struct ChunkRun<S> {
    pub raw: RawSignal<S>,
    pub first: LiveWork<S>,
    pub levels: Seq<u32>,
    pub demod: Seq<S>,
    pub work: LiveWork<S>,
    pub out: Option<DecodeOutput>,
}

/// A chunk is seen all the way through: routed, measured or demodulated,
/// decoded, and its output taken in.
pub open spec fn chunk_seen_through<S>(
    before: LiveState<S>,
    run: ChunkRun<S>,
    after: LiveState<S>,
) -> bool {
    exists|s1: LiveState<S>, s2: LiveState<S>|
        {
            &&& #[trigger] s1.routed(before, run.raw, run.first)
            &&& #[trigger] carried_on(s1, run.first, run.levels, run.demod, run.work, s2)
            &&& decoded(s2, run.work, run.out, after)
        }
}

/// Whether a chunk has anything decoded, on a panel that captures.
pub open spec fn decode_due<S>(state: LiveState<S>, run: ChunkRun<S>) -> bool {
    run.raw is Iq && match state.captured().kind {
        LiveKind::Generic => true,
        LiveKind::Adsb => adsb::frames_in(state.adsb.carry@ + run.levels).len() > 0,
        LiveKind::Apt => state.refresh_due(state.audio_with(run.demod).len() as int),
    }
}

/// A log after the output for one chunk of a band.
pub open spec fn log_with(
    log: Seq<DecodedItem>,
    kind: LiveKind,
    out: Option<DecodeOutput>,
) -> Seq<DecodedItem> {
    match out {
        None => log,
        Some(output) => if kind == LiveKind::Apt {
            output.items@
        } else {
            log + output.items@
        },
    }
}

/// A chunk goes to the decoder of the band being captured, exactly when it has
/// something to decode: always on a generic band, when frames were found on an
/// ADS-B band, and when a refresh is due on an APT band. Its output replaces
/// the log on an APT band and is added to it on others. Nothing of the panel
/// that the user sets changes, whatever is selected meanwhile.
pub proof fn law_chunk<S>(before: LiveState<S>, run: ChunkRun<S>, after: LiveState<S>)
    requires
        before.wf(),
        before.capture is Some,
        chunk_seen_through(before, run, after),
    ensures
        after.wf(),
        after.capture == before.capture,
        after.enabled == before.enabled,
        after.preset_idx == before.preset_idx,
        after.device_count == before.device_count,
        after.status == before.status,
        run.out is Some <==> decode_due(before, run),
        after.log@ == log_with(before.log@, before.captured().kind, run.out),
{
}

/// A log after the output for the first `n` chunks of a frame.
pub open spec fn log_through<S>(
    log: Seq<DecodedItem>,
    kind: LiveKind,
    runs: Seq<ChunkRun<S>>,
    n: int,
) -> Seq<DecodedItem>
    decreases n,
{
    if n <= 0 {
        log
    } else {
        log_with(log_through(log, kind, runs, n - 1), kind, runs[n - 1].out)
    }
}

proof fn lemma_frame_prefix<S>(states: Seq<LiveState<S>>, runs: Seq<ChunkRun<S>>, n: int)
    requires
        states.len() == runs.len() + 1,
        states[0].wf(),
        states[0].capture is Some,
        forall|k: int|
            0 <= k < runs.len() ==> chunk_seen_through(
                states[k],
                #[trigger] runs[k],
                states[k + 1],
            ),
        0 <= n <= runs.len(),
    ensures
        states[n].wf(),
        states[n].capture == states[0].capture,
        states[n].log@ == log_through(states[0].log@, states[0].captured().kind, runs, n),
    decreases n,
{
    if n > 0 {
        lemma_frame_prefix(states, runs, n - 1);
        let run = runs[n - 1];
        law_chunk(states[n - 1], run, states[n]);
    }
}

/// A whole frame of a running capture: after any number of chunks the log holds
/// the last lines of what their outputs made of it, and never more than
/// `LOG_LIMIT` of them.
pub proof fn law_frame_log<S>(
    states: Seq<LiveState<S>>,
    runs: Seq<ChunkRun<S>>,
    end: LiveState<S>,
)
    requires
        states.len() == runs.len() + 1,
        states[0].wf(),
        states[0].capture is Some,
        forall|k: int|
            0 <= k < runs.len() ==> chunk_seen_through(
                states[k],
                #[trigger] runs[k],
                states[k + 1],
            ),
        end.log_trimmed(states.last()),
    ensures
        end.wf(),
        end.capture == states[0].capture,
        end.log@ == live::last_of(
            log_through(states[0].log@, states[0].captured().kind, runs, runs.len() as int),
            LOG_LIMIT as int,
        ),
        end.log@.len() <= LOG_LIMIT,
{
    lemma_frame_prefix(states, runs, runs.len() as int);
}

/// By how much samples at `rate` are thinned out to come near 51 200 a second.
pub open spec fn thinning(rate: u32) -> int {
    if rate < 51_200 {
        1
    } else {
        rate as int / 51_200
    }
}

/// Every `factor`-th sample, beginning with the first.
pub open spec fn every_nth<S>(samples: Seq<S>, factor: int) -> Seq<S> {
    Seq::new(((samples.len() + factor - 1) / factor) as nat, |k: int| samples[k * factor])
}

/// The factor handed to decimation is 1 below the target rate, and the number of
/// times that the target rate fits otherwise.
pub proof fn law_decimation_factor(rate: u32, factor: u32)
    requires
        call_ensures(apt_decimation, (rate,), factor),
    ensures
        factor == thinning(rate),
        rate < 51_200 ==> factor == 1,
        rate >= 51_200 ==> 51_200 * factor <= rate < 51_200 * (factor + 1),
{
}

proof fn lemma_every_nth<S>(samples: Seq<S>, rate: u32)
    ensures
        thinning(rate) >= 1,
        live::apt_factor(rate) as int == thinning(rate),
        live::apt_rate(rate) == rate as int / thinning(rate),
        fm::decimated(samples, thinning(rate)) == every_nth(samples, thinning(rate)),
{
    let factor = thinning(rate);
    if factor == 1 {
        let n = samples.len() as int;
        assert((n + 1 - 1) / 1 == n);
        assert(fm::decimated(samples, factor) =~= every_nth(samples, factor));
    }
}

/// A chunk of an APT band. Each of its samples is set against the one before
/// it, across chunk boundaries; the audio grows at its end by every `n`-th
/// demodulated sample. Once four seconds of audio have come together since the
/// last decode, and only then, the whole audio, as it is held after the chunk,
/// goes to the APT decoder at its own rate.
pub proof fn law_apt_chunk<S>(before: LiveState<S>, run: ChunkRun<S>, after: LiveState<S>)
    requires
        before.wf(),
        before.capture is Some,
        before.captured().kind == LiveKind::Apt,
        run.raw is Iq,
        chunk_seen_through(before, run, after),
    ensures
        ({
            let rate = before.captured().sample_rate_hz;
            let factor = thinning(rate);
            let iq = run.raw->Iq_0@;
            let old_len = before.apt_audio@.len() as int;
            let len = after.apt_audio@.len() as int;
            let due = len - before.apt_last_decoded_len >= 4 * (rate as int / factor);
            &&& run.first matches LiveWork::Discriminate(steps)
            &&& steps@.len() == iq.len()
            &&& forall|k: int|
                0 < k < iq.len() ==> #[trigger] steps@[k] == (FmStep::Turn {
                    now: iq[k],
                    before: iq[k - 1],
                })
            &&& iq.len() > 0 ==> steps@[0] == match before.fm.prev {
                Some(last) => FmStep::Turn { now: iq[0], before: last },
                None => FmStep::Silence,
            }
            &&& after.fm.prev == if iq.len() == 0 {
                before.fm.prev
            } else {
                Some(iq[iq.len() - 1])
            }
            &&& after.apt_audio@ == before.apt_audio@ + every_nth(run.demod, factor)
            &&& len == old_len + (run.demod.len() + factor - 1) / factor
            &&& forall|k: int|
                0 <= k < old_len ==> #[trigger] after.apt_audio@[k] == before.apt_audio@[k]
            &&& forall|k: int|
                old_len <= k < len ==> #[trigger] after.apt_audio@[k] == run.demod[(k - old_len)
                    * factor]
            &&& run.work is Decode <==> due
            &&& run.work is Skip <==> !due
            &&& run.work matches LiveWork::Decode { decoder, signal } ==> {
                &&& decoder == DecoderKind::Apt
                &&& signal matches RawSignal::Audio { samples, sample_rate }
                &&& samples@ == after.apt_audio@
                &&& sample_rate == rate as int / factor
            }
            &&& after.apt_last_decoded_len == if due {
                len
            } else {
                before.apt_last_decoded_len as int
            }
            &&& after.apt_sample_rate == before.apt_sample_rate
            &&& after.adsb == before.adsb
        }),
{
    lemma_every_nth(run.demod, before.captured().sample_rate_hz);
    let factor = thinning(before.captured().sample_rate_hz);
    assert((run.demod.len() + factor - 1) / factor >= 0) by {
        vstd::arithmetic::div_mod::lemma_div_pos_is_pos(run.demod.len() + factor - 1, factor);
    }
}

/// The audio of the first `n` chunks, oldest first.
pub open spec fn audio_through<S>(runs: Seq<ChunkRun<S>>, factor: int, n: int) -> Seq<S>
    decreases n,
{
    if n <= 0 {
        Seq::empty()
    } else {
        audio_through(runs, factor, n - 1) + every_nth(runs[n - 1].demod, factor)
    }
}

/// Every step of a run over chunks of IQ samples is seen through.
pub open spec fn seen_through<S>(states: Seq<LiveState<S>>, runs: Seq<ChunkRun<S>>) -> bool {
    &&& states.len() == runs.len() + 1
    &&& states[0].wf()
    &&& states[0].capture is Some
    &&& forall|k: int| 0 <= k < runs.len() ==> (#[trigger] runs[k]).raw is Iq
    &&& forall|k: int|
        0 <= k < runs.len() ==> chunk_seen_through(states[k], #[trigger] runs[k], states[k + 1])
}

/// Over a run of chunks of an APT band since Start, the audio held is the
/// thinned-out demodulated chunks, oldest first; whenever a chunk asks for a
/// decode, that is what the APT decoder is handed.
pub proof fn law_apt_run<S>(states: Seq<LiveState<S>>, runs: Seq<ChunkRun<S>>, n: int)
    requires
        seen_through(states, runs),
        states[0].captured().kind == LiveKind::Apt,
        states[0].apt_audio@.len() == 0,
        0 <= n <= runs.len(),
    ensures
        states[n].wf(),
        states[n].capture == states[0].capture,
        ({
            let rate = states[0].captured().sample_rate_hz;
            let audio = audio_through(runs, thinning(rate), n);
            &&& states[n].apt_audio@ == audio
            &&& n > 0 ==> (runs[n - 1].work matches LiveWork::Decode { decoder, signal } ==> {
                &&& decoder == DecoderKind::Apt
                &&& signal matches RawSignal::Audio { samples, sample_rate }
                &&& samples@ == audio
                &&& sample_rate == rate as int / thinning(rate)
            })
        }),
    decreases n,
{
    if n > 0 {
        law_apt_run(states, runs, n - 1);
        let run = runs[n - 1];
        law_chunk(states[n - 1], run, states[n]);
        law_apt_chunk(states[n - 1], run, states[n]);
    } else {
        assert(states[0].apt_audio@ =~= Seq::<S>::empty());
    }
}

/// The IQ samples of the first `n` chunks, one after the other.
pub open spec fn iq_through<S>(runs: Seq<ChunkRun<S>>, n: int) -> Seq<(S, S)>
    decreases n,
{
    if n <= 0 {
        Seq::empty()
    } else {
        iq_through(runs, n - 1) + runs[n - 1].raw->Iq_0@
    }
}

/// The steps that the first `n` chunks of an APT band were routed to, one after
/// the other.
pub open spec fn steps_through<S>(runs: Seq<ChunkRun<S>>, n: int) -> Seq<FmStep<S>>
    decreases n,
{
    if n <= 0 {
        Seq::empty()
    } else {
        steps_through(runs, n - 1) + runs[n - 1].first->Discriminate_0@
    }
}

/// Over a run of chunks of an APT band since Start, there is one step for each
/// sample: the first is silent, and every other one goes from the sample before
/// to its own, whether or not a chunk ends between the two.
pub proof fn law_steps_run<S>(states: Seq<LiveState<S>>, runs: Seq<ChunkRun<S>>, n: int)
    requires
        seen_through(states, runs),
        states[0].captured().kind == LiveKind::Apt,
        states[0].fm.prev is None,
        0 <= n <= runs.len(),
    ensures
        states[n].wf(),
        states[n].capture == states[0].capture,
        steps_through(runs, n).len() == iq_through(runs, n).len(),
        iq_through(runs, n).len() > 0 ==> steps_through(runs, n)[0] is Silence,
        forall|k: int|
            0 < k < iq_through(runs, n).len() ==> #[trigger] steps_through(runs, n)[k] == (
            FmStep::Turn { now: iq_through(runs, n)[k], before: iq_through(runs, n)[k - 1] }),
        states[n].fm.prev == if iq_through(runs, n).len() == 0 {
            None
        } else {
            Some(iq_through(runs, n).last())
        },
    decreases n,
{
    if n > 0 {
        law_steps_run(states, runs, n - 1);
        let run = runs[n - 1];
        law_chunk(states[n - 1], run, states[n]);
        law_apt_chunk(states[n - 1], run, states[n]);
        let a = iq_through(runs, n - 1);
        let b = run.raw->Iq_0@;
        let s = steps_through(runs, n - 1);
        let t = run.first->Discriminate_0@;
        let all = iq_through(runs, n);
        let steps = steps_through(runs, n);
        assert forall|k: int| 0 < k < all.len() implies #[trigger] steps[k] == (FmStep::Turn {
            now: all[k],
            before: all[k - 1],
        }) by {
            if k < a.len() {
                assert(steps[k] == s[k]);
            } else {
                assert(steps[k] == t[k - a.len()]);
            }
        }
    }
}

/// The packets that some work hands to the ADS-B decoder.
pub open spec fn packets_of<S>(work: LiveWork<S>) -> Seq<Seq<u8>> {
    match work {
        LiveWork::Decode { decoder: DecoderKind::Adsb, signal: RawSignal::Packets(packets) } => {
            Seq::new(packets@.len(), |i: int| packets@[i]@)
        },
        _ => Seq::empty(),
    }
}

/// A chunk of an ADS-B band. All of its samples are measured; the frames found
/// in what was kept and the levels of the chunk go to the ADS-B decoder, all of
/// them and in order, and without any there is nothing to decode.
pub proof fn law_adsb_chunk<S>(before: LiveState<S>, run: ChunkRun<S>, after: LiveState<S>)
    requires
        before.wf(),
        before.capture is Some,
        before.captured().kind == LiveKind::Adsb,
        run.raw is Iq,
        chunk_seen_through(before, run, after),
    ensures
        run.first == LiveWork::Measure(run.raw->Iq_0),
        packets_of(run.work) == adsb::frames_in(before.adsb.carry@ + run.levels),
        run.work is Decode <==> packets_of(run.work).len() > 0,
        run.work is Skip <==> packets_of(run.work).len() == 0,
        after.adsb.carry@ == adsb::carried(before.adsb.carry@ + run.levels),
        after.fm == before.fm,
        after.apt_audio == before.apt_audio,
        after.apt_last_decoded_len == before.apt_last_decoded_len,
        after.apt_image_path == before.apt_image_path,
{
    let want = adsb::frames_in(before.adsb.carry@ + run.levels);
    if want.len() > 0 {
        let packets = run.work->signal->Packets_0;
        assert(adsb::contents(packets@) =~= Seq::new(packets@.len(), |i: int| packets@[i]@));
    }
    assert(packets_of(run.work) =~= want);
}

/// The packets that the first `n` chunks hand to the ADS-B decoder, in order.
pub open spec fn packets_through<S>(runs: Seq<ChunkRun<S>>, n: int) -> Seq<Seq<u8>>
    decreases n,
{
    if n <= 0 {
        Seq::empty()
    } else {
        packets_through(runs, n - 1) + packets_of(runs[n - 1].work)
    }
}

/// The levels of every chunk of a run.
pub open spec fn levels_of<S>(runs: Seq<ChunkRun<S>>) -> Seq<Seq<u32>> {
    Seq::new(runs.len(), |k: int| runs[k].levels)
}

proof fn lemma_adsb_run<S>(states: Seq<LiveState<S>>, runs: Seq<ChunkRun<S>>, n: int)
    requires
        seen_through(states, runs),
        states[0].captured().kind == LiveKind::Adsb,
        0 <= n <= runs.len(),
    ensures
        states[n].wf(),
        states[n].capture == states[0].capture,
        packets_through(runs, n) + adsb_laws::reported(
            states[n].adsb.carry@,
            levels_of(runs).skip(n),
        ) == adsb_laws::reported(states[0].adsb.carry@, levels_of(runs)),
    decreases n,
{
    let levels = levels_of(runs);
    if n > 0 {
        lemma_adsb_run(states, runs, n - 1);
        let run = runs[n - 1];
        law_chunk(states[n - 1], run, states[n]);
        law_adsb_chunk(states[n - 1], run, states[n]);
        let left = levels.skip(n - 1);
        assert(left[0] == run.levels);
        assert(left.drop_first() =~= levels.skip(n));
        let a = packets_through(runs, n - 1);
        let b = packets_of(run.work);
        let c = adsb_laws::reported(states[n].adsb.carry@, levels.skip(n));
        assert(a + (b + c) =~= (a + b) + c);
    } else {
        let all = adsb_laws::reported(states[0].adsb.carry@, levels);
        assert(levels.skip(0) =~= levels);
        assert(Seq::<Seq<u8>>::empty() + all =~= all);
    }
}

/// Over a run of chunks of an ADS-B band, the packets handed to the ADS-B
/// decoder, put one after the other, are the frames reported for the whole
/// stream of levels: each of them once, and in order, wherever the chunks were
/// cut.
pub proof fn law_adsb_run<S>(states: Seq<LiveState<S>>, runs: Seq<ChunkRun<S>>)
    requires
        seen_through(states, runs),
        states[0].captured().kind == LiveKind::Adsb,
    ensures
        packets_through(runs, runs.len() as int) == adsb_laws::reported(
            states[0].adsb.carry@,
            levels_of(runs),
        ),
        states[0].adsb.carry@.len() == 0 ==> packets_through(runs, runs.len() as int)
            == adsb::frames_in(levels_of(runs).flatten()),
{
    let n = runs.len() as int;
    let levels = levels_of(runs);
    let carry = states[0].adsb.carry@;
    lemma_adsb_run(states, runs, n);
    let rest = adsb_laws::reported(states[n].adsb.carry@, levels.skip(n));
    assert(rest =~= Seq::<Seq<u8>>::empty());
    assert(packets_through(runs, n) + rest =~= packets_through(runs, n));
    if carry.len() == 0 {
        assert(carry =~= Seq::<u32>::empty());
        assert(adsb::frames_in(carry) =~= Seq::<Seq<u8>>::empty());
        adsb_laws::law_chunks_report_the_whole(carry, levels);
        adsb_laws::law_stream_flat(carry, levels);
        assert(carry + levels.flatten() =~= levels.flatten());
    }
}

/// From the air to the decoder: when frames with sound parity are sent in any
/// two levels, with any pauses, and the samples reach a panel that was just
/// started on an ADS-B band in chunks of any size, then the ADS-B decoder is
/// handed exactly those frames, in order.
pub proof fn law_adsb_heard<S>(
    states: Seq<LiveState<S>>,
    runs: Seq<ChunkRun<S>>,
    frames: Seq<Seq<u8>>,
    gaps: Seq<nat>,
    lo: u32,
    hi: u32,
)
    requires
        seen_through(states, runs),
        states[0].captured().kind == LiveKind::Adsb,
        states[0].adsb.carry@.len() == 0,
        gaps.len() == frames.len() + 1,
        forall|i: int|
            0 <= i < frames.len() ==> (#[trigger] frames[i]).len() == 14 && parity::parity_holds(
                frames[i],
            ),
        lo < hi <= 0x7f80_0000,
        levels_of(runs).flatten() == adsb_laws::all_on_air(frames, gaps, lo, hi),
    ensures
        packets_through(runs, runs.len() as int) == frames,
{
    law_adsb_run(states, runs);
    adsb_laws::law_all_on_air_found(frames, gaps, lo, hi);
}

/// A chunk of a generic band goes to the generic decoder as it is, and leaves
/// the demodulators alone.
pub proof fn law_generic_chunk<S>(before: LiveState<S>, run: ChunkRun<S>, after: LiveState<S>)
    requires
        before.wf(),
        before.capture is Some,
        before.captured().kind == LiveKind::Generic,
        run.raw is Iq,
        chunk_seen_through(before, run, after),
    ensures
        run.work == (LiveWork::Decode { decoder: DecoderKind::Generic, signal: run.raw }),
        run.first == run.work,
        after.fm == before.fm,
        after.apt_audio == before.apt_audio,
        after.apt_last_decoded_len == before.apt_last_decoded_len,
        after.apt_image_path == before.apt_image_path,
        after.adsb == before.adsb,
{
}

/// Anything but IQ samples, and anything at all while nothing is captured, is
/// passed over without a trace.
pub proof fn law_chunk_passed_over<S>(before: LiveState<S>, run: ChunkRun<S>, after: LiveState<S>)
    requires
        before.capture is None || run.raw !is Iq,
        chunk_seen_through(before, run, after),
    ensures
        run.first is Skip,
        run.work is Skip,
        run.out is None,
        after == before,
{
}

/// The output for a chunk: on an APT band its lines take the place of the log
/// and its image that of the one shown; on others its lines follow the log, and
/// the image stays. Without output both stay.
pub proof fn law_output_shown<S>(before: LiveState<S>, run: ChunkRun<S>, after: LiveState<S>)
    requires
        before.wf(),
        before.capture is Some,
        chunk_seen_through(before, run, after),
    ensures
        run.out is None <==> run.work is Skip,
        run.out is None ==> after.log@ == before.log@ && after.apt_image_path
            == before.apt_image_path,
        run.out matches Some(out) ==> if before.captured().kind == LiveKind::Apt {
            &&& after.log@ == out.items@
            &&& after.apt_image_path == out.image_path
        } else {
            let n = before.log@.len();
            &&& after.apt_image_path == before.apt_image_path
            &&& after.log@.len() == n + out.items@.len()
            &&& forall|k: int| 0 <= k < n ==> #[trigger] after.log@[k] == before.log@[k]
            &&& forall|k: int|
                n <= k < after.log@.len() ==> #[trigger] after.log@[k] == out.items@[k - n]
        },
{
}

/// The calls that see a chunk through are the steps of `chunk_seen_through`:
/// routing it is the first.
pub proof fn law_route_is_a_step<S: Copy>(
    state: &mut LiveState<S>,
    raw: RawSignal<S>,
    work: LiveWork<S>,
)
    requires
        call_ensures(LiveState::<S>::route, (state, raw), work),
    ensures
        final(state).routed(*old(state), raw, work),
        old(state).wf() ==> final(state).wf(),
{
}

/// Taking in the levels that `first` asked for carries the chunk on.
pub proof fn law_levels_are_a_step<S: Copy>(
    state: &mut LiveState<S>,
    first: LiveWork<S>,
    mags: &[u32],
    work: LiveWork<S>,
)
    requires
        first is Measure,
        call_ensures(LiveState::<S>::take_levels, (state, mags), work),
    ensures
        carried_on(*old(state), first, mags@, Seq::empty(), work, *final(state)),
        packets_of(work) == adsb::frames_in(old(state).adsb.carry@ + mags@),
        work is Skip <==> packets_of(work).len() == 0,
        work is Decode <==> packets_of(work).len() > 0,
        *final(state) == (LiveState { adsb: final(state).adsb, ..*old(state) }),
{
    let want = adsb::frames_in(old(state).adsb.carry@ + mags@);
    if want.len() > 0 {
        let packets = work->signal->Packets_0;
        assert(adsb::contents(packets@) =~= Seq::new(packets@.len(), |i: int| packets@[i]@));
    }
    assert(packets_of(work) =~= want);
}

/// Taking in the samples that `first` asked for carries the chunk on.
pub proof fn law_demodulated_is_a_step<S: Copy>(
    state: &mut LiveState<S>,
    first: LiveWork<S>,
    demod: &[S],
    work: LiveWork<S>,
)
    requires
        first is Discriminate,
        old(state).wf(),
        call_ensures(LiveState::<S>::take_demodulated, (state, demod), work),
    ensures
        carried_on(*old(state), first, Seq::empty(), demod@, work, *final(state)),
        final(state).wf(),
        work matches LiveWork::Decode { decoder, signal } ==> {
            &&& decoder == DecoderKind::Apt
            &&& signal matches RawSignal::Audio { samples, sample_rate }
            &&& samples@ == final(state).apt_audio@
            &&& sample_rate == old(state).apt_sample_rate
        },
        old(state).capture is None ==> work is Skip && *final(state) == *old(state),
        *final(state) == (LiveState {
            apt_audio: final(state).apt_audio,
            apt_last_decoded_len: final(state).apt_last_decoded_len,
            ..*old(state)
        }),
{
}

/// Taking in the output of a decoder ends what there is to do for a chunk.
pub proof fn law_output_is_a_step<S: Copy>(
    state: &mut LiveState<S>,
    decoder: DecoderKind,
    signal: RawSignal<S>,
    out: DecodeOutput,
    done: (),
)
    requires
        call_ensures(LiveState::<S>::take_output, (state, decoder, out), done),
    ensures
        decoded(
            *old(state),
            LiveWork::Decode { decoder, signal },
            Some(out),
            *final(state),
        ),
        old(state).wf() ==> final(state).wf(),
        if decoder == DecoderKind::Apt {
            final(state).log@ == out.items@ && final(state).apt_image_path == out.image_path
        } else {
            final(state).log@ == old(state).log@ + out.items@ && final(state).apt_image_path
                == old(state).apt_image_path
        },
{
}

/// The log of a running capture is cut down to its 200 most recent lines; a
/// shorter one, and that of an ended capture, is left as it is.
pub proof fn law_log_trimmed<S: Copy>(state: &mut LiveState<S>, done: ())
    requires
        call_ensures(LiveState::<S>::trim_log, (state,), done),
    ensures
        ({
            let log = old(state).log@;
            let kept = final(state).log@;
            &&& old(state).capture is None || log.len() <= 200 ==> kept == log
            &&& old(state).capture is Some && log.len() > 200 ==> kept.len() == 200 && (forall|
                k: int,
            |
                0 <= k < 200 ==> #[trigger] kept[k] == log[log.len() - 200 + k])
        }),
        *final(state) == (LiveState { log: final(state).log, ..*old(state) }),
{
}

/// A panel is first shown switched off, on the first band and with nothing in
/// it.
pub proof fn law_new_panel<S: Copy>(device_count: usize, state: LiveState<S>)
    requires
        call_ensures(LiveState::<S>::new, (device_count,), state),
    ensures
        state.wf(),
        !state.enabled,
        state.preset_idx == 0,
        state.device_count == device_count,
        state.capture is None,
        state.log@.len() == 0,
        state.status@ == "Idle"@,
        state.fm.prev is None,
        state.apt_audio@.len() == 0,
        state.apt_sample_rate == 0,
        state.apt_last_decoded_len == 0,
        state.apt_image_path is None,
        state.adsb.carry@.len() == 0,
{
}

/// What the panel shows follows from whether live capture is switched on,
/// whether there is a dongle and whether a capture runs. Only switching it off
/// changes anything: a capture that ran is handed back, stopped and on its own
/// band, and the panel is idle.
pub proof fn law_panel_shown<S: Copy>(state: &mut LiveState<S>, panel: LivePanel)
    requires
        call_ensures(LiveState::<S>::panel, (state,), panel),
    ensures
        !old(state).enabled ==> {
            &&& panel matches LivePanel::Off { stopped }
            &&& stopped is Some <==> old(state).capture is Some
            &&& stopped matches Some(capture) ==> capture.stop_flag && capture.preset
                == old(state).captured()
            &&& final(state).capture is None
            &&& final(state).status@ == if old(state).capture is Some {
                "Idle"@
            } else {
                old(state).status@
            }
        },
        old(state).enabled ==> {
            &&& panel is NoDevice <==> old(state).device_count == 0
            &&& panel !is NoDevice ==> panel == (LivePanel::Ready {
                running: old(state).capture is Some,
            })
            &&& *final(state) == (LiveState { status: final(state).status, ..*old(state) })
            &&& final(state).status@ == old(state).status@
        },
        *final(state) == (LiveState {
            capture: final(state).capture,
            status: final(state).status,
            ..*old(state)
        }),
{
}

/// Stop ends the capture that runs and hands it back stopped, on its own band.
/// Nothing else but the status changes.
pub proof fn law_stopped<S: Copy>(state: &mut LiveState<S>, stopped: Option<LiveCapture>)
    requires
        call_ensures(LiveState::<S>::stop_pressed, (state,), stopped),
    ensures
        stopped is Some <==> old(state).capture is Some,
        stopped matches Some(capture) ==> capture.stop_flag && capture.preset
            == old(state).captured(),
        final(state).capture is None,
        final(state).status@ == "Idle"@,
        *final(state) == (LiveState {
            capture: None,
            status: final(state).status,
            ..*old(state)
        }),
{
}

/// Looking for devices again changes their number and nothing else; selecting a
/// band changes the selection and nothing else, so that a running capture stays
/// on its band.
pub proof fn law_rescan_and_select<S: Copy>(
    scanned: &mut LiveState<S>,
    device_count: usize,
    selected: &mut LiveState<S>,
    preset_idx: usize,
    done: (),
)
    requires
        preset_idx < 7,
        call_ensures(LiveState::<S>::rescan, (scanned, device_count), done),
        call_ensures(LiveState::<S>::select, (selected, preset_idx), done),
    ensures
        *final(scanned) == (LiveState { device_count, ..*old(scanned) }),
        *final(selected) == (LiveState { preset_idx, ..*old(selected) }),
        final(selected).capture == old(selected).capture,
{
}

/// Start sets up the selected band on the first device if it was clicked while
/// live capture was switched on, with a dongle and with nothing being captured,
/// and nothing otherwise. The set-up begins with opening the device.
pub proof fn law_start_pressed<S: Copy>(
    state: LiveState<S>,
    clicked: bool,
    setup: Option<CaptureSetup>,
)
    requires
        state.wf(),
        call_ensures(LiveState::<S>::start_pressed, (&state, clicked), setup),
    ensures
        setup is Some <==> clicked && state.enabled && state.device_count > 0 && state.capture
            is None,
        setup matches Some(s) ==> {
            &&& s.preset == bands::public_bands()[state.preset_idx as int]
            &&& s.device_index == 0
            &&& s.stage == SetupStage::Opening
        },
{
}

/// Beginning a start sets up what a click on Start does.
pub proof fn law_start_begun<S: Copy>(
    state: LiveState<S>,
    setup: CaptureSetup,
    clicked: Option<CaptureSetup>,
)
    requires
        state.wf(),
        state.enabled,
        state.device_count != 0,
        state.capture is None,
        call_ensures(LiveState::<S>::begin_start, (&state,), setup),
        call_ensures(LiveState::<S>::start_pressed, (&state, true), clicked),
    ensures
        clicked == Some(setup),
        setup.preset == bands::public_bands()[state.preset_idx as int],
        setup.device_index == 0,
        setup.stage == SetupStage::Opening,
{
}

/// A start that goes well shows the band's name and an empty log, and audio
/// will run at the band's rate thinned out. One that fails shows why. Either
/// way the demodulators are fresh, and what the user set stays.
pub proof fn law_start_taken_in<S: Copy>(
    state: &mut LiveState<S>,
    result: Result<LiveCapture, LiveCaptureError>,
    done: (),
)
    requires
        old(state).capture is None,
        call_ensures(LiveState::<S>::finish_start, (state, result), done),
    ensures
        final(state).start_finished(*old(state), result),
        final(state).fm.prev is None,
        final(state).apt_audio@.len() == 0,
        final(state).apt_last_decoded_len == 0,
        final(state).apt_image_path is None,
        final(state).adsb.carry@.len() == 0,
        final(state).enabled == old(state).enabled,
        final(state).preset_idx == old(state).preset_idx,
        final(state).device_count == old(state).device_count,
        result matches Ok(capture) ==> {
            let rate = capture.preset.sample_rate_hz;
            &&& final(state).capture == Some(capture)
            &&& final(state).status@ == "Receiving on "@ + capture.preset.label@
            &&& final(state).log@.len() == 0
            &&& final(state).apt_sample_rate == rate as int / thinning(rate)
        },
        result matches Err(e) ==> {
            &&& final(state).capture is None
            &&& final(state).log == old(state).log
            &&& final(state).apt_sample_rate == 0
            &&& final(state).status@ == match e {
                LiveCaptureError::NoDeviceFound => "Failed to start: "@
                    + "No RTL-SDR dongle found. Plug one in and retry."@,
                LiveCaptureError::Driver(words) => "Failed to start: "@ + ("SDR driver error: "@
                    + words@),
            }
        },
{
    if let Ok(capture) = result {
        lemma_every_nth(Seq::<S>::empty(), capture.preset.sample_rate_hz);
    }
}

/// The panel is drawn again by itself exactly while a capture runs and is shown.
pub proof fn law_repaint<S: Copy>(state: LiveState<S>, repaint: bool)
    requires
        call_ensures(LiveState::<S>::wants_repaint, (&state,), repaint),
    ensures
        repaint <==> state.enabled && state.capture is Some,
{
}

} // verus!
