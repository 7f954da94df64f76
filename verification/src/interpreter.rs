//! The whole workbench: the file channels and the live panel.

use vstd::prelude::*;

use crate::channel;
use crate::channel::{load_and_decode, ChannelState, LoadJob, SourceKind};
use crate::live::LiveState;
use crate::signal::DecodeOutput;

verus! {

/// The state of the workbench, over samples of type `S`.
pub struct SignalInterpreterApp<S> {
    pub channels: Vec<ChannelState>,
    pub live: LiveState<S>,
}

/// A channel as it is at first: enabled, with nothing loaded.
pub open spec fn idle_channel(channel: ChannelState, kind: SourceKind) -> bool {
    &&& channel.kind == kind
    &&& channel.enabled
    &&& channel.path@ == Seq::<char>::empty()
    &&& channel.output is None
    &&& channel.error is None
}

impl<S> SignalInterpreterApp<S> {
    /// There is one channel of each kind, and every channel and the live panel
    /// are in order.
    pub open spec fn wf(self) -> bool {
        &&& self.live.wf()
        &&& self.channels@.len() == 3
        &&& self.channels@[0].kind == SourceKind::Iq
        &&& self.channels@[1].kind == SourceKind::Audio
        &&& self.channels@[2].kind == SourceKind::Packet
        &&& forall|i: int|
            0 <= i < self.channels@.len() ==> (#[trigger] self.channels@[i]).wf()
    }
}

impl<S: Copy> SignalInterpreterApp<S> {
    /// The workbench as it is first shown: one enabled channel of each kind,
    /// and live capture switched off.
    pub fn new(device_count: usize) -> (app: Self)
        ensures
            app.wf(),
            app.channels@.len() == 3,
            idle_channel(app.channels@[0], SourceKind::Iq),
            idle_channel(app.channels@[1], SourceKind::Audio),
            idle_channel(app.channels@[2], SourceKind::Packet),
            !app.live.enabled,
            app.live.preset_idx == 0,
            app.live.device_count == device_count,
            app.live.capture is None,
            app.live.status@ == "Idle"@,
            app.live.log@.len() == 0,
            app.live.fm.prev is None,
            app.live.apt_audio@.len() == 0,
            app.live.apt_sample_rate == 0,
            app.live.apt_last_decoded_len == 0,
            app.live.apt_image_path is None,
            app.live.adsb.carry@.len() == 0,
    {
        let mut channels: Vec<ChannelState> = Vec::new();
        channels.push(ChannelState::new(SourceKind::Iq, true));
        channels.push(ChannelState::new(SourceKind::Audio, true));
        channels.push(ChannelState::new(SourceKind::Packet, true));
        SignalInterpreterApp { channels, live: LiveState::new(device_count) }
    }

    /// Begins a run of channel `i`, of its own kind and over its own path. A
    /// channel that is disabled does not run.
    pub fn begin_decode(&self, i: usize) -> (job: Option<Result<LoadJob, String>>)
        requires
            i < self.channels@.len(),
        ensures
            job is None <==> !self.channels@[i as int].enabled,
            job matches Some(j) ==> channel::begun(
                self.channels@[i as int].kind,
                self.channels@[i as int].path@,
                j,
            ),
    {
        let channel: &ChannelState = &self.channels[i];
        if channel.enabled {
            Some(load_and_decode(channel.kind, channel.path.as_str()))
        } else {
            None
        }
    }

    /// Takes in the outcome of a run of channel `i`. The channels are
    /// independent of each other and of live capture.
    pub fn finish_decode(&mut self, i: usize, result: Result<DecodeOutput, String>)
        requires
            i < old(self).channels@.len(),
        ensures
            old(self).wf() ==> final(self).wf(),
            final(self).live == old(self).live,
            final(self).channels@ == old(self).channels@.update(
                i as int,
                match result {
                    Ok(output) => ChannelState {
                        output: Some(output),
                        error: None,
                        ..old(self).channels@[i as int]
                    },
                    Err(e) => ChannelState {
                        output: None,
                        error: Some(e),
                        ..old(self).channels@[i as int]
                    },
                },
            ),
    {
        let channel: &mut ChannelState = &mut self.channels[i];
        channel.store(result);
    }
}

/// An enabled channel runs on its own file: it asks for a path if its own holds
/// nothing but white space, and otherwise loads that very path by its own kind.
/// A disabled channel does not run.
pub proof fn law_channel_runs<S: Copy>(
    app: SignalInterpreterApp<S>,
    i: usize,
    job: Option<Result<LoadJob, String>>,
)
    requires
        i < app.channels@.len(),
        call_ensures(SignalInterpreterApp::<S>::begin_decode, (&app, i), job),
    ensures
        ({
            let channel = app.channels@[i as int];
            &&& job is Some <==> channel.enabled
            &&& job matches Some(Ok(j)) ==> j.kind == channel.kind && j.path@ == channel.path@
            &&& job matches Some(Err(e)) ==> e@ == "Enter a file path first."@
            &&& job matches Some(begun) ==> (begun is Ok <==> exists|k: int|
                0 <= k < channel.path@.len() && !channel::unicode_space(
                    #[trigger] channel.path@[k],
                ))
        }),
{
    if let Some(begun) = job {
        channel::law_begun(app.channels@[i as int].kind, app.channels@[i as int].path@, begun);
    }
}

/// The outcome of a run shows on its channel, and on no other; the live panel
/// does not notice.
pub proof fn law_channel_finishes<S: Copy>(
    app: &mut SignalInterpreterApp<S>,
    i: usize,
    result: Result<DecodeOutput, String>,
    done: (),
)
    requires
        i < old(app).channels@.len(),
        call_ensures(SignalInterpreterApp::<S>::finish_decode, (app, i, result), done),
    ensures
        final(app).live == old(app).live,
        final(app).channels@.len() == old(app).channels@.len(),
        forall|k: int|
            0 <= k < old(app).channels@.len() && k != i ==> #[trigger] final(app).channels@[k]
                == old(app).channels@[k],
        ({
            let before = old(app).channels@[i as int];
            let after = final(app).channels@[i as int];
            &&& result matches Ok(out) ==> after.output == Some(out) && after.error is None
            &&& result matches Err(e) ==> after.error == Some(e) && after.output is None
            &&& after.kind == before.kind
            &&& after.enabled == before.enabled
            &&& after.path == before.path
        }),
{
}

/// A new workbench has one enabled, empty channel for IQ, audio and packets
/// each, and a live panel that is switched off.
pub proof fn law_new_workbench<S: Copy>(device_count: usize, app: SignalInterpreterApp<S>)
    requires
        call_ensures(SignalInterpreterApp::<S>::new, (device_count,), app),
    ensures
        app.wf(),
        app.channels@.len() == 3,
        app.channels@[0].kind == SourceKind::Iq,
        app.channels@[1].kind == SourceKind::Audio,
        app.channels@[2].kind == SourceKind::Packet,
        forall|k: int|
            0 <= k < 3 ==> {
                let channel = #[trigger] app.channels@[k];
                &&& channel.enabled
                &&& channel.path@.len() == 0
                &&& channel.output is None
                &&& channel.error is None
            },
        !app.live.enabled,
        app.live.capture is None,
        app.live.device_count == device_count,
        app.live.preset_idx == 0,
        app.live.status@ == "Idle"@,
        app.live.log@.len() == 0,
        app.live.apt_audio@.len() == 0,
        app.live.adsb.carry@.len() == 0,
        app.live.fm.prev is None,
{
    assert forall|k: int| 0 <= k < 3 implies {
        let channel = #[trigger] app.channels@[k];
        &&& channel.enabled
        &&& channel.path@.len() == 0
        &&& channel.output is None
        &&& channel.error is None
    } by {
        assert(k == 0 || k == 1 || k == 2);
    }
}

} // verus!
