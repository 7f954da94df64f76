//! Live capture from an RTL-SDR dongle.
//!
//! The driver is only ever asked to receive. Talking to it is left to the
//! caller: what to ask next, and what to make of the reply, is decided here.

use vstd::prelude::*;

use crate::bands::BandPreset;

verus! {

/// Why a capture could not be started.
#[derive(Debug)]
pub enum LiveCaptureError {
    NoDeviceFound,
    Driver(String),
}

impl LiveCaptureError {
    /// The text of an error, for people.
    pub open spec fn text(self) -> Seq<char> {
        match self {
            LiveCaptureError::NoDeviceFound => "No RTL-SDR dongle found. Plug one in and retry."@,
            LiveCaptureError::Driver(e) => "SDR driver error: "@ + e@,
        }
    }

    /// The text of the error, for people.
    pub fn message(&self) -> (text: String)
        ensures
            text@ == self.text(),
    {
        match self {
            LiveCaptureError::NoDeviceFound => {
                "No RTL-SDR dongle found. Plug one in and retry.".to_owned()
            },
            LiveCaptureError::Driver(e) => {
                let mut text: String = "SDR driver error: ".to_owned();
                text.append(e.as_str());
                text
            },
        }
    }
}

/// What can be asked of the driver on the way to a running capture. All of it
/// serves reception.
#[derive(Debug, Clone, Copy, PartialEq, Eq, Structural)]
pub enum DriverCall {
    Open(usize),
    SetCenterFreq(u32),
    SetSampleRate(u32),
    ResetBuffer,
}

/// How far a capture has been set up.
#[derive(Debug, Clone, Copy, PartialEq, Eq, Structural)]
pub enum SetupStage {
    Opening,
    Tuning,
    SettingRate,
    Resetting,
}

/// A capture that is being set up.
#[derive(Debug)]
pub struct CaptureSetup {
    pub preset: BandPreset,
    pub device_index: usize,
    pub stage: SetupStage,
}

/// A capture that was set up and runs until it is stopped.
#[derive(Debug)]
pub struct LiveCapture {
    pub preset: BandPreset,
    pub stop_flag: bool,
}

/// Where the set-up stands after a call that went well.
#[derive(Debug)]
pub enum SetupProgress {
    /// There is another call to make.
    More(CaptureSetup),
    /// The device is ready, and reading can begin.
    Ready(LiveCapture),
}

impl LiveCapture {
    /// Begins to set up a capture tuned to `preset`.
    pub fn start(preset: BandPreset, device_index: usize) -> (setup: CaptureSetup)
        ensures
            setup == (CaptureSetup { preset, device_index, stage: SetupStage::Opening }),
    {
        CaptureSetup { preset, device_index, stage: SetupStage::Opening }
    }

    /// Asks the capture to end.
    pub fn stop(&mut self)
        ensures
            *final(self) == (LiveCapture { preset: old(self).preset, stop_flag: true }),
    {
        self.stop_flag = true;
    }
}

impl CaptureSetup {
    /// The call to make at this stage.
    pub open spec fn next_call(self) -> DriverCall {
        match self.stage {
            SetupStage::Opening => DriverCall::Open(self.device_index),
            SetupStage::Tuning => DriverCall::SetCenterFreq(self.preset.center_freq_hz),
            SetupStage::SettingRate => DriverCall::SetSampleRate(self.preset.sample_rate_hz),
            SetupStage::Resetting => DriverCall::ResetBuffer,
        }
    }

    /// What the reply to that call leads to.
    pub open spec fn after(self, reply: Result<(), String>) -> Result<
        SetupProgress,
        LiveCaptureError,
    > {
        match reply {
            Err(e) => if self.stage == SetupStage::Opening {
                Err(LiveCaptureError::NoDeviceFound)
            } else {
                Err(LiveCaptureError::Driver(e))
            },
            Ok(_) => Ok(
                match self.stage {
                    SetupStage::Opening => SetupProgress::More(
                        CaptureSetup { stage: SetupStage::Tuning, ..self },
                    ),
                    SetupStage::Tuning => SetupProgress::More(
                        CaptureSetup { stage: SetupStage::SettingRate, ..self },
                    ),
                    SetupStage::SettingRate => SetupProgress::More(
                        CaptureSetup { stage: SetupStage::Resetting, ..self },
                    ),
                    SetupStage::Resetting => SetupProgress::Ready(
                        LiveCapture { preset: self.preset, stop_flag: false },
                    ),
                },
            ),
        }
    }

    /// The call to make at this stage.
    pub fn call(&self) -> (call: DriverCall)
        ensures
            call == self.next_call(),
    {
        match self.stage {
            SetupStage::Opening => DriverCall::Open(self.device_index),
            SetupStage::Tuning => DriverCall::SetCenterFreq(self.preset.center_freq_hz),
            SetupStage::SettingRate => DriverCall::SetSampleRate(self.preset.sample_rate_hz),
            SetupStage::Resetting => DriverCall::ResetBuffer,
        }
    }

    /// Takes in the reply to that call. A device that does not open counts as
    /// absent, whatever the driver says; later failures are passed on.
    pub fn advance(self, reply: Result<(), String>) -> (next: Result<
        SetupProgress,
        LiveCaptureError,
    >)
        ensures
            next == self.after(reply),
    {
        match reply {
            Err(e) => match self.stage {
                SetupStage::Opening => Err(LiveCaptureError::NoDeviceFound),
                _ => Err(LiveCaptureError::Driver(e)),
            },
            Ok(_) => {
                let next: SetupStage = match self.stage {
                    SetupStage::Opening => SetupStage::Tuning,
                    SetupStage::Tuning => SetupStage::SettingRate,
                    SetupStage::SettingRate => SetupStage::Resetting,
                    SetupStage::Resetting => {
                        return Ok(
                            SetupProgress::Ready(
                                LiveCapture { preset: self.preset, stop_flag: false },
                            ),
                        );
                    },
                };
                Ok(
                    SetupProgress::More(
                        CaptureSetup {
                            preset: self.preset,
                            device_index: self.device_index,
                            stage: next,
                        },
                    ),
                )
            },
        }
    }
}

/// Best-effort device count: a driver that cannot tell has no devices.
pub fn device_count<E>(reply: Result<usize, E>) -> (count: usize)
    ensures
        count == match reply {
            Ok(n) => n,
            Err(_) => 0,
        },
{
    match reply {
        Ok(n) => n,
        Err(_) => 0,
    }
}

/// The bytes in half a second of interleaved 8-bit I and Q samples.
pub open spec fn half_second_bytes(sample_rate_hz: int) -> int {
    2 * (sample_rate_hz / 2)
}

/// How many bytes to read at a time.
pub fn chunk_len(preset: &BandPreset) -> (len: usize)
    ensures
        len == half_second_bytes(preset.sample_rate_hz as int),
{
    (preset.sample_rate_hz as usize / 2) * 2
}

/// The I and Q bytes of the first `n` bytes read. An odd last byte is half a
/// sample and is left out.
pub open spec fn byte_pairs(buf: Seq<u8>, n: int) -> Seq<(u8, u8)> {
    Seq::new((n / 2) as nat, |k: int| (buf[2 * k], buf[2 * k + 1]))
}

/// Splits the first `n` bytes of a buffer into I and Q.
pub fn split_iq(buf: &[u8], n: usize) -> (pairs: Vec<(u8, u8)>)
    requires
        n <= buf@.len(),
    ensures
        pairs@ == byte_pairs(buf@, n as int),
{
    let count: usize = n / 2;
    let mut pairs: Vec<(u8, u8)> = Vec::with_capacity(count);
    let mut k: usize = 0;
    while k < count
        invariant
            count == n / 2,
            n <= buf@.len(),
            k <= count,
            pairs@.len() == k,
            forall|i: int|
                0 <= i < k ==> #[trigger] pairs@[i] == (buf@[2 * i], buf@[2 * i + 1]),
        decreases count - k,
    {
        pairs.push((buf[2 * k], buf[2 * k + 1]));
        k += 1;
    }
    assert(pairs@ =~= byte_pairs(buf@, n as int));
    pairs
}

/// What happens to a running reader.
#[derive(Debug, Clone, Copy, PartialEq, Eq, Structural)]
pub enum ReaderEvent {
    /// The stop flag was looked at.
    Polled { stop: bool },
    /// That many bytes were read.
    Read { n: usize },
    /// The driver could not read.
    ReadFailed,
    /// A chunk was handed over, or nobody was there to take it.
    Sent { delivered: bool },
    /// A pause is over.
    Slept,
}

/// What a running reader does next.
#[derive(Debug)]
pub enum ReaderAction {
    /// Look at the stop flag.
    Poll,
    /// Read a chunk.
    Read,
    /// Hand over these I and Q bytes.
    Send(Vec<(u8, u8)>),
    /// Pause for that many milliseconds.
    Sleep(u64),
    /// End.
    Quit,
}

/// How long to pause when the driver had nothing to give.
pub const IDLE_PAUSE_MS: u64 = 20;

/// What a running reader does upon an event, with `buf` read last.
pub open spec fn reader_does(event: ReaderEvent, buf: Seq<u8>, action: ReaderAction) -> bool {
    match event {
        ReaderEvent::Polled { stop } => if stop {
            action is Quit
        } else {
            action is Read
        },
        ReaderEvent::Read { n } => if n >= 2 {
            action matches ReaderAction::Send(pairs) && pairs@ == byte_pairs(buf, n as int)
        } else {
            action == ReaderAction::Sleep(IDLE_PAUSE_MS)
        },
        ReaderEvent::ReadFailed => action is Quit,
        ReaderEvent::Sent { delivered } => if delivered {
            action is Poll
        } else {
            action is Quit
        },
        ReaderEvent::Slept => action is Poll,
    }
}

/// Decides what a running reader does next. `buf` holds what was read last.
pub fn reader_step(event: ReaderEvent, buf: &[u8]) -> (action: ReaderAction)
    requires
        event matches ReaderEvent::Read { n } ==> n <= buf@.len(),
    ensures
        reader_does(event, buf@, action),
{
    match event {
        ReaderEvent::Polled { stop } => {
            if stop {
                ReaderAction::Quit
            } else {
                ReaderAction::Read
            }
        },
        ReaderEvent::Read { n } => {
            if n >= 2 {
                ReaderAction::Send(split_iq(buf, n))
            } else {
                ReaderAction::Sleep(IDLE_PAUSE_MS)
            }
        },
        ReaderEvent::ReadFailed => ReaderAction::Quit,
        ReaderEvent::Sent { delivered } => {
            if delivered {
                ReaderAction::Poll
            } else {
                ReaderAction::Quit
            }
        },
        ReaderEvent::Slept => ReaderAction::Poll,
    }
}

/// A set-up run to its end: the calls made, and how it came out if the replies
/// were enough to tell.
pub open spec fn run_setup(setup: CaptureSetup, replies: Seq<Result<(), String>>) -> (
    Seq<DriverCall>,
    Option<Result<LiveCapture, LiveCaptureError>>,
)
    decreases replies.len(),
{
    if replies.len() == 0 {
        (Seq::empty(), None)
    } else {
        match setup.after(replies[0]) {
            Err(e) => (seq![setup.next_call()], Some(Err(e))),
            Ok(SetupProgress::Ready(capture)) => (seq![setup.next_call()], Some(Ok(capture))),
            Ok(SetupProgress::More(next)) => {
                let (calls, outcome) = run_setup(next, replies.drop_first());
                (seq![setup.next_call()] + calls, outcome)
            },
        }
    }
}

/// The calls of a set-up that goes well, in order.
pub open spec fn setup_calls(preset: BandPreset, device_index: usize) -> Seq<DriverCall> {
    seq![
        DriverCall::Open(device_index),
        DriverCall::SetCenterFreq(preset.center_freq_hz),
        DriverCall::SetSampleRate(preset.sample_rate_hz),
        DriverCall::ResetBuffer,
    ]
}

/// How many calls have been made at a stage.
pub open spec fn stage_index(stage: SetupStage) -> int {
    match stage {
        SetupStage::Opening => 0,
        SetupStage::Tuning => 1,
        SetupStage::SettingRate => 2,
        SetupStage::Resetting => 3,
    }
}

/// Whatever the driver replies, a set-up makes the calls from its stage on, in
/// order, and no others.
pub proof fn law_setup_calls(setup: CaptureSetup, replies: Seq<Result<(), String>>)
    ensures
        ({
            let calls = run_setup(setup, replies).0;
            let done = stage_index(setup.stage);
            &&& done + calls.len() <= 4
            &&& calls == setup_calls(setup.preset, setup.device_index).subrange(
                done,
                done + calls.len(),
            )
        }),
    decreases replies.len(),
{
    let all = setup_calls(setup.preset, setup.device_index);
    let done = stage_index(setup.stage);
    let calls = run_setup(setup, replies).0;
    if replies.len() > 0 {
        assert(setup.next_call() == all[done]);
        match setup.after(replies[0]) {
            Ok(SetupProgress::More(next)) => {
                law_setup_calls(next, replies.drop_first());
                assert(calls =~= seq![setup.next_call()] + run_setup(
                    next,
                    replies.drop_first(),
                ).0);
            },
            _ => {},
        }
    }
    assert(calls =~= all.subrange(done, done + calls.len()));
}

/// Starting a capture opens the device, tunes it, sets the sample rate and
/// resets the buffer, in that order and up to the first failure. It fails with
/// "no device" if the first call does, with the driver's words if a later one
/// does, and otherwise gives a capture on that band that nobody has stopped.
pub proof fn law_start(
    preset: BandPreset,
    device_index: usize,
    open: Result<(), String>,
    tune: Result<(), String>,
    rate: Result<(), String>,
    reset: Result<(), String>,
)
    ensures
        ({
            let setup = CaptureSetup { preset, device_index, stage: SetupStage::Opening };
            let (calls, outcome) = run_setup(setup, seq![open, tune, rate, reset]);
            let all = setup_calls(preset, device_index);
            if open is Err {
                calls == all.take(1) && outcome == Some(
                    Err::<LiveCapture, LiveCaptureError>(LiveCaptureError::NoDeviceFound),
                )
            } else if tune is Err {
                calls == all.take(2) && outcome == Some(
                    Err::<LiveCapture, LiveCaptureError>(LiveCaptureError::Driver(tune->Err_0)),
                )
            } else if rate is Err {
                calls == all.take(3) && outcome == Some(
                    Err::<LiveCapture, LiveCaptureError>(LiveCaptureError::Driver(rate->Err_0)),
                )
            } else if reset is Err {
                calls == all && outcome == Some(
                    Err::<LiveCapture, LiveCaptureError>(LiveCaptureError::Driver(reset->Err_0)),
                )
            } else {
                calls == all && outcome == Some(
                    Ok::<LiveCapture, LiveCaptureError>(LiveCapture { preset, stop_flag: false }),
                )
            }
        }),
{
    let replies = seq![open, tune, rate, reset];
    let r1 = replies.drop_first();
    let r2 = r1.drop_first();
    let r3 = r2.drop_first();
    assert(replies[0] == open && r1[0] == tune && r2[0] == rate && r3[0] == reset);
    let all = setup_calls(preset, device_index);
    let s0 = CaptureSetup { preset, device_index, stage: SetupStage::Opening };
    let s1 = CaptureSetup { preset, device_index, stage: SetupStage::Tuning };
    let s2 = CaptureSetup { preset, device_index, stage: SetupStage::SettingRate };
    let s3 = CaptureSetup { preset, device_index, stage: SetupStage::Resetting };
    let c3 = run_setup(s3, r3).0;
    let c2 = run_setup(s2, r2).0;
    let c1 = run_setup(s1, r1).0;
    let c0 = run_setup(s0, replies).0;
    assert(c3 =~= all.skip(3));
    if rate is Ok {
        assert(c2 =~= all.skip(2));
    } else {
        assert(c2 =~= all.subrange(2, 3));
    }
    if tune is Ok {
        assert(c1 =~= seq![all[1]] + c2);
    } else {
        assert(c1 =~= all.subrange(1, 2));
    }
    if open is Err {
        assert(c0 =~= all.take(1));
    } else if tune is Err {
        assert(c0 =~= all.take(2));
    } else if rate is Err {
        assert(c0 =~= all.take(3));
    } else {
        assert(c0 =~= all);
    }
}

/// From the moment a capture is stopped, its reader starts no further read, and
/// ends as soon as it looks at the flag.
pub proof fn law_stopped_reader_ends(
    capture: LiveCapture,
    events: Seq<ReaderEvent>,
    bufs: Seq<Seq<u8>>,
    actions: Seq<ReaderAction>,
    i: int,
)
    requires
        capture.stop_flag,
        0 <= i < events.len(),
        events.len() == bufs.len(),
        events.len() == actions.len(),
        forall|k: int|
            0 <= k < events.len() ==> reader_does(#[trigger] events[k], bufs[k], actions[k]),
        forall|k: int|
            0 <= k < events.len() ==> ((#[trigger] events[k]) matches ReaderEvent::Polled { stop }
                ==> stop == capture.stop_flag),
    ensures
        actions[i] !is Read,
        events[i] is Polled ==> actions[i] is Quit,
{
    assert(reader_does(events[i], bufs[i], actions[i]));
}

/// A full read holds half a second of whole samples: `sample_rate_hz / 2` of
/// them.
pub proof fn law_full_chunk(preset: BandPreset, buf: Seq<u8>)
    requires
        buf.len() == half_second_bytes(preset.sample_rate_hz as int),
    ensures
        byte_pairs(buf, buf.len() as int).len() == preset.sample_rate_hz as int / 2,
{
}

/// What a running reader does next, for every event. A read of two bytes or
/// more, a full buffer included, is handed over as whole I and Q pairs, `n / 2`
/// of them, pair `k` being bytes `2k` and `2k + 1`. A read of fewer is followed
/// by a pause of 20 milliseconds. The reader ends when it was told to stop, when
/// a read failed or when nobody took a chunk; in any other case it looks at the
/// flag, and reads if that is not set.
pub proof fn law_reader_step(event: ReaderEvent, buf: &[u8], action: ReaderAction)
    requires
        event matches ReaderEvent::Read { n } ==> n <= buf@.len(),
        call_ensures(reader_step, (event, buf), action),
    ensures
        reader_does(event, buf@, action),
        event matches ReaderEvent::Read { n } ==> if 2 <= n {
            &&& action matches ReaderAction::Send(pairs)
            &&& pairs@.len() == n as int / 2
            &&& forall|k: int|
                0 <= k < n as int / 2 ==> #[trigger] pairs@[k] == (buf@[2 * k], buf@[2 * k + 1])
        } else {
            action == ReaderAction::Sleep(20)
        },
        action is Quit <==> event == (ReaderEvent::Polled { stop: true }) || event is ReadFailed
            || event == (ReaderEvent::Sent { delivered: false }),
        action is Read <==> event == (ReaderEvent::Polled { stop: false }),
        action is Poll <==> event == (ReaderEvent::Sent { delivered: true }) || event is Slept,
{
}

/// The I and Q pairs in the first `n` bytes of a buffer.
pub open spec fn pairs_read(buf: Seq<u8>, n: int) -> Seq<(u8, u8)> {
    Seq::new((n / 2) as nat, |k: int| (buf[2 * k], buf[2 * k + 1]))
}

/// The chunks that the first `m` actions hand over, in order.
pub open spec fn sent_through(actions: Seq<ReaderAction>, m: int) -> Seq<Seq<(u8, u8)>>
    decreases m,
{
    if m <= 0 {
        Seq::empty()
    } else {
        match actions[m - 1] {
            ReaderAction::Send(pairs) => sent_through(actions, m - 1).push(pairs@),
            _ => sent_through(actions, m - 1),
        }
    }
}

/// The pairs of every read of two bytes or more among the first `m` events, in
/// order.
pub open spec fn read_through(events: Seq<ReaderEvent>, bufs: Seq<Seq<u8>>, m: int) -> Seq<
    Seq<(u8, u8)>,
>
    decreases m,
{
    if m <= 0 {
        Seq::empty()
    } else {
        match events[m - 1] {
            ReaderEvent::Read { n } => if n >= 2 {
                read_through(events, bufs, m - 1).push(pairs_read(bufs[m - 1], n as int))
            } else {
                read_through(events, bufs, m - 1)
            },
            _ => read_through(events, bufs, m - 1),
        }
    }
}

/// Over a run of a reader, the chunks handed over are, in order, the pairs of
/// every read of two bytes or more: none is lost, cut short or sent twice.
pub proof fn law_reader_run(
    events: Seq<ReaderEvent>,
    bufs: Seq<Seq<u8>>,
    actions: Seq<ReaderAction>,
    m: int,
)
    requires
        events.len() == bufs.len(),
        events.len() == actions.len(),
        forall|k: int|
            0 <= k < events.len() ==> ((#[trigger] events[k]) matches ReaderEvent::Read { n } ==> n
                <= bufs[k].len()),
        forall|k: int|
            0 <= k < events.len() ==> reader_does(#[trigger] events[k], bufs[k], actions[k]),
        0 <= m <= events.len(),
    ensures
        sent_through(actions, m) == read_through(events, bufs, m),
    decreases m,
{
    if m > 0 {
        law_reader_run(events, bufs, actions, m - 1);
        assert(reader_does(events[m - 1], bufs[m - 1], actions[m - 1]));
        if let ReaderEvent::Read { n } = events[m - 1] {
            if n >= 2 {
                assert(actions[m - 1]->Send_0@ =~= pairs_read(bufs[m - 1], n as int));
            }
        }
    }
}

/// Over a run of a reader, a pause follows a read of fewer than two bytes and
/// nothing else, and it always lasts 20 milliseconds.
pub proof fn law_reader_pauses(
    events: Seq<ReaderEvent>,
    bufs: Seq<Seq<u8>>,
    actions: Seq<ReaderAction>,
    i: int,
)
    requires
        events.len() == bufs.len(),
        events.len() == actions.len(),
        forall|k: int|
            0 <= k < events.len() ==> reader_does(#[trigger] events[k], bufs[k], actions[k]),
        0 <= i < events.len(),
    ensures
        actions[i] is Sleep <==> (events[i] matches ReaderEvent::Read { n } && n < 2),
        actions[i] matches ReaderAction::Sleep(ms) ==> ms == 20,
        actions[i] is Send <==> (events[i] matches ReaderEvent::Read { n } && n >= 2),
{
    assert(reader_does(events[i], bufs[i], actions[i]));
}

/// Splitting bytes leaves every one of them in its place: I first, then Q, and
/// an odd last byte left out.
pub proof fn law_split(buf: &[u8], n: usize, pairs: Vec<(u8, u8)>)
    requires
        n <= buf@.len(),
        call_ensures(split_iq, (buf, n), pairs),
    ensures
        pairs@.len() == n as int / 2,
        forall|k: int|
            0 <= k < pairs@.len() ==> (#[trigger] pairs@[k]).0 == buf@[2 * k] && pairs@[k].1
                == buf@[2 * k + 1],
{
}

/// The call made at each stage: open the device, tune it to the band's
/// frequency, set the band's sample rate, reset the buffer.
pub proof fn law_stage_call(setup: CaptureSetup, call: DriverCall)
    requires
        call_ensures(CaptureSetup::call, (&setup,), call),
    ensures
        call == setup.next_call(),
        setup.stage is Opening ==> call == DriverCall::Open(setup.device_index),
        setup.stage is Tuning ==> call == DriverCall::SetCenterFreq(setup.preset.center_freq_hz),
        setup.stage is SettingRate ==> call == DriverCall::SetSampleRate(
            setup.preset.sample_rate_hz,
        ),
        setup.stage is Resetting ==> call == DriverCall::ResetBuffer,
{
}

/// A call that goes well leads to the next stage of the same band and device,
/// and the last one to a capture of that band that nobody has stopped. A device
/// that does not open is absent, whatever the driver says; any later failure
/// carries its words.
pub proof fn law_stage_reply(
    setup: CaptureSetup,
    reply: Result<(), String>,
    next: Result<SetupProgress, LiveCaptureError>,
)
    requires
        call_ensures(CaptureSetup::advance, (setup, reply), next),
    ensures
        next == setup.after(reply),
        next is Ok <==> reply is Ok,
        reply matches Err(words) ==> if setup.stage is Opening {
            next->Err_0 is NoDeviceFound
        } else {
            next->Err_0 == LiveCaptureError::Driver(words)
        },
        next matches Ok(SetupProgress::More(s)) ==> {
            &&& s.preset == setup.preset
            &&& s.device_index == setup.device_index
            &&& setup.stage is Opening ==> s.stage is Tuning
            &&& setup.stage is Tuning ==> s.stage is SettingRate
            &&& setup.stage is SettingRate ==> s.stage is Resetting
        },
        next matches Ok(SetupProgress::Ready(capture)) ==> capture.preset == setup.preset
            && !capture.stop_flag,
        reply is Ok ==> (setup.stage is Resetting <==> next->Ok_0 is Ready),
{
}

/// The calls of a set-up that goes well: four of them, in this order.
pub proof fn law_setup_order(preset: BandPreset, device_index: usize)
    ensures
        setup_calls(preset, device_index).len() == 4,
        setup_calls(preset, device_index)[0] == DriverCall::Open(device_index),
        setup_calls(preset, device_index)[1] == DriverCall::SetCenterFreq(preset.center_freq_hz),
        setup_calls(preset, device_index)[2] == DriverCall::SetSampleRate(preset.sample_rate_hz),
        setup_calls(preset, device_index)[3] == DriverCall::ResetBuffer,
{
}

/// A capture starts by opening the device asked for, on the band asked for; to
/// stop it sets its flag, for good, and leaves it on its band.
pub proof fn law_start_and_stop(
    preset: BandPreset,
    device_index: usize,
    setup: CaptureSetup,
    capture: &mut LiveCapture,
    done: (),
)
    requires
        call_ensures(LiveCapture::start, (preset, device_index), setup),
        call_ensures(LiveCapture::stop, (capture,), done),
    ensures
        setup.preset == preset,
        setup.device_index == device_index,
        setup.stage is Opening,
        final(capture).stop_flag,
        final(capture).preset == old(capture).preset,
{
}

/// What people are told of an error.
pub proof fn law_error_text(error: LiveCaptureError, text: String)
    requires
        call_ensures(LiveCaptureError::message, (&error,), text),
    ensures
        text@ == error.text(),
        error is NoDeviceFound ==> text@ == "No RTL-SDR dongle found. Plug one in and retry."@,
        error matches LiveCaptureError::Driver(words) ==> text@ == "SDR driver error: "@ + words@,
{
}

/// As many devices as the driver counts, and none if it cannot tell.
pub proof fn law_devices_counted<E>(reply: Result<usize, E>, count: usize)
    requires
        call_ensures(device_count::<E>, (reply,), count),
    ensures
        reply matches Ok(n) ==> count == n,
        reply is Err ==> count == 0,
{
}

/// A chunk is half a second of whole samples of two bytes each: as many bytes as
/// there are samples in a second, or one fewer if that is odd.
pub proof fn law_chunk_bytes(preset: BandPreset, len: usize)
    requires
        call_ensures(chunk_len, (&preset,), len),
    ensures
        len % 2 == 0,
        len <= preset.sample_rate_hz < len + 2,
        len == half_second_bytes(preset.sample_rate_hz as int),
{
}

} // verus!
