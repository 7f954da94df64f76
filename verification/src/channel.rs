//! The file channels: a path, a source to read it with, and what was decoded.

use vstd::prelude::*;

use crate::signal::{DecodeOutput, DecoderKind, RawSignal};

verus! {

/// What a channel reads.
#[derive(Debug, Clone, Copy, PartialEq, Eq, Structural)]
pub enum SourceKind {
    Iq,
    Audio,
    Packet,
}

/// One file channel.
pub struct ChannelState {
    pub kind: SourceKind,
    pub enabled: bool,
    pub path: String,
    pub output: Option<DecodeOutput>,
    pub error: Option<String>,
}

/// The caption of a channel.
pub open spec fn caption(kind: SourceKind) -> Seq<char> {
    match kind {
        SourceKind::Iq => "IQ / SDR raw file  (.cu8 / .cf32)"@,
        SourceKind::Audio => "Audio (WAV) file  — e.g. NOAA APT pass"@,
        SourceKind::Packet => "Packet / data stream  — hex frames, e.g. ADS-B"@,
    }
}

impl ChannelState {
    /// A channel shows the outcome of its last run: output or an error, never
    /// both.
    pub open spec fn wf(self) -> bool {
        self.output is None || self.error is None
    }

    /// A channel that nothing was loaded into yet.
    pub fn new(kind: SourceKind, enabled: bool) -> (channel: Self)
        ensures
            channel.wf(),
            channel.kind == kind,
            channel.enabled == enabled,
            channel.path@ == Seq::<char>::empty(),
            channel.output is None,
            channel.error is None,
    {
        ChannelState { kind, enabled, path: String::new(), output: None, error: None }
    }

    /// The caption of the channel.
    pub fn label(&self) -> (label: &'static str)
        ensures
            label@ == caption(self.kind),
    {
        match self.kind {
            SourceKind::Iq => "IQ / SDR raw file  (.cu8 / .cf32)",
            SourceKind::Audio => "Audio (WAV) file  — e.g. NOAA APT pass",
            SourceKind::Packet => "Packet / data stream  — hex frames, e.g. ADS-B",
        }
    }

    /// Takes in the outcome of a run, in place of the one before.
    pub fn store(&mut self, result: Result<DecodeOutput, String>)
        ensures
            final(self).wf(),
            *final(self) == (match result {
                Ok(output) => ChannelState { output: Some(output), error: None, ..*old(self) },
                Err(e) => ChannelState { output: None, error: Some(e), ..*old(self) },
            }),
    {
        match result {
            Ok(output) => {
                self.output = Some(output);
                self.error = None;
            },
            Err(e) => {
                self.output = None;
                self.error = Some(e);
            },
        }
    }
}

/// Whether a character is white space, as Unicode has it.
pub open spec fn white_space(c: char) -> bool {
    let u = c as u32;
    ||| 0x09 <= u <= 0x0d
    ||| u == 0x20
    ||| u == 0x85
    ||| u == 0xa0
    ||| u == 0x1680
    ||| 0x2000 <= u <= 0x200a
    ||| u == 0x2028
    ||| u == 0x2029
    ||| u == 0x202f
    ||| u == 0x205f
    ||| u == 0x3000
}

/// Whether a text holds white space only.
pub open spec fn blank(text: Seq<char>) -> bool {
    forall|i: int| 0 <= i < text.len() ==> white_space(#[trigger] text[i])
}

/// Whether a character is white space, as Unicode has it.
pub fn is_white_space(c: char) -> (r: bool)
    ensures
        r == white_space(c),
{
    let u: u32 = c as u32;
    (0x09 <= u && u <= 0x0d) || u == 0x20 || u == 0x85 || u == 0xa0 || u == 0x1680 || (0x2000 <= u
        && u <= 0x200a) || u == 0x2028 || u == 0x2029 || u == 0x202f || u == 0x205f || u == 0x3000
}

/// Whether a text holds white space only.
pub fn is_blank(text: &str) -> (r: bool)
    ensures
        r == blank(text@),
{
    let mut all: bool = true;
    for c in iter: text.chars()
        invariant
            iter.seq() == text@,
            all == forall|i: int| 0 <= i < iter.index() ==> white_space(#[trigger] text@[i]),
    {
        all = all && is_white_space(c);
    }
    all
}

/// A file that is to be loaded, with the source of that kind, and decoded.
#[derive(Debug)]
pub struct LoadJob {
    pub kind: SourceKind,
    pub path: String,
}

/// A run of a decoder over a loaded signal.
#[derive(Debug)]
pub struct DecodePass<S> {
    pub decoder: DecoderKind,
    pub raw: RawSignal<S>,
}

/// What becomes of a decoder's output.
#[derive(Debug)]
pub enum PassOutcome<S> {
    /// It is the result.
    Done(DecodeOutput),
    /// Another decoder has to try.
    Again(DecodePass<S>),
}

/// The decoder that is tried first.
pub open spec fn first_decoder(kind: SourceKind) -> DecoderKind {
    match kind {
        SourceKind::Iq => DecoderKind::Generic,
        SourceKind::Audio => DecoderKind::Apt,
        SourceKind::Packet => DecoderKind::Adsb,
    }
}

/// How loading and decoding the file at `path` begins: with a job for that
/// kind and that very path, unless the path is blank.
pub open spec fn begun(kind: SourceKind, path: Seq<char>, job: Result<LoadJob, String>) -> bool {
    if blank(path) {
        job matches Err(e) && e@ == "Enter a file path first."@
    } else {
        job matches Ok(j) && j.kind == kind && j.path@ == path
    }
}

/// Begins to load and decode the file at `path`: reading it with the source of
/// `kind` is next. There has to be a path.
pub fn load_and_decode(kind: SourceKind, path: &str) -> (job: Result<LoadJob, String>)
    ensures
        begun(kind, path@, job),
{
    if is_blank(path) {
        return Err("Enter a file path first.".to_owned());
    }
    Ok(LoadJob { kind, path: path.to_owned() })
}

impl LoadJob {
    /// Takes in what reading the file gave.
    pub fn loaded<S>(self, raw: Result<RawSignal<S>, String>) -> (pass: Result<
        DecodePass<S>,
        String,
    >)
        ensures
            pass == match raw {
                Ok(raw) => Ok(DecodePass { decoder: first_decoder(self.kind), raw }),
                Err(e) => Err(e),
            },
    {
        match raw {
            Ok(raw) => {
                let decoder: DecoderKind = match self.kind {
                    SourceKind::Iq => DecoderKind::Generic,
                    SourceKind::Audio => DecoderKind::Apt,
                    SourceKind::Packet => DecoderKind::Adsb,
                };
                Ok(DecodePass { decoder, raw })
            },
            Err(e) => Err(e),
        }
    }
}

impl<S> DecodePass<S> {
    /// What becomes of the output of this run.
    pub open spec fn outcome(self, out: DecodeOutput) -> PassOutcome<S> {
        if self.decoder == DecoderKind::Apt && out.image_path is None {
            PassOutcome::Again(DecodePass { decoder: DecoderKind::Generic, raw: self.raw })
        } else {
            PassOutcome::Done(out)
        }
    }

    /// Takes in the output of this run. Audio that holds no APT image is handed
    /// to the generic decoder instead.
    pub fn decoded(self, out: DecodeOutput) -> (outcome: PassOutcome<S>)
        ensures
            outcome == self.outcome(out),
    {
        match self.decoder {
            DecoderKind::Apt => {
                if out.image_path.is_some() {
                    PassOutcome::Done(out)
                } else {
                    PassOutcome::Again(
                        DecodePass { decoder: DecoderKind::Generic, raw: self.raw },
                    )
                }
            },
            _ => PassOutcome::Done(out),
        }
    }
}

/// What the runs from `pass` on come to, when the decoders behave as `decode`.
pub open spec fn run_passes<S>(
    pass: DecodePass<S>,
    decode: spec_fn(DecoderKind, RawSignal<S>) -> DecodeOutput,
) -> DecodeOutput
    decreases (if pass.decoder == DecoderKind::Apt { 1int } else { 0int }),
{
    match pass.outcome(decode(pass.decoder, pass.raw)) {
        PassOutcome::Done(out) => out,
        PassOutcome::Again(next) => run_passes(next, decode),
    }
}

/// IQ files are given to the generic decoder, packets to the ADS-B decoder, and
/// audio to the APT decoder, or to the generic one if that makes no image.
pub proof fn law_decoder_choice<S>(
    kind: SourceKind,
    raw: RawSignal<S>,
    decode: spec_fn(DecoderKind, RawSignal<S>) -> DecodeOutput,
)
    ensures
        run_passes(DecodePass { decoder: first_decoder(kind), raw }, decode) == match kind {
            SourceKind::Iq => decode(DecoderKind::Generic, raw),
            SourceKind::Packet => decode(DecoderKind::Adsb, raw),
            SourceKind::Audio => if decode(DecoderKind::Apt, raw).image_path is Some {
                decode(DecoderKind::Apt, raw)
            } else {
                decode(DecoderKind::Generic, raw)
            },
        },
{
    reveal_with_fuel(run_passes, 2);
}

/// A job begins exactly when the path holds at least one character that is not
/// white space. It is then for that kind and that very path; otherwise there is
/// an error that asks for a path.
pub proof fn law_any_path_loads(kind: SourceKind, path: &str, job: Result<LoadJob, String>)
    requires
        call_ensures(load_and_decode, (kind, path), job),
    ensures
        begun(kind, path@, job),
        job is Ok <==> exists|i: int| 0 <= i < path@.len() && !unicode_space(#[trigger] path@[i]),
        job matches Ok(j) ==> j.kind == kind && j.path@ == path@,
        job matches Err(e) ==> e@ == "Enter a file path first."@,
{
    law_begun(kind, path@, job);
}

/// How a load begins depends on nothing but whether some character of the path
/// is not white space.
pub proof fn law_begun(kind: SourceKind, path: Seq<char>, job: Result<LoadJob, String>)
    requires
        begun(kind, path, job),
    ensures
        job is Ok <==> exists|i: int| 0 <= i < path.len() && !unicode_space(#[trigger] path[i]),
        job is Err <==> forall|i: int| 0 <= i < path.len() ==> unicode_space(#[trigger] path[i]),
        job matches Ok(j) ==> j.kind == kind && j.path@ == path,
        job matches Err(e) ==> e@ == "Enter a file path first."@,
{
    assert forall|c: char| white_space(c) == #[trigger] unicode_space(c) by {
        law_white_space(c);
    }
}

/// The characters with the Unicode property `White_Space`, by code point.
pub open spec fn unicode_space(c: char) -> bool {
    let u = c as int;
    ||| 9 <= u <= 13
    ||| u == 32
    ||| u == 133
    ||| u == 160
    ||| u == 5760
    ||| 8192 <= u <= 8202
    ||| u == 8232
    ||| u == 8233
    ||| u == 8239
    ||| u == 8287
    ||| u == 12288
}

/// White space is what Unicode calls so.
pub proof fn law_white_space(c: char)
    ensures
        white_space(c) == unicode_space(c),
{
}

/// A character is told to be white space, and a text to be blank, exactly when
/// it is.
pub proof fn law_blank_text(c: char, space: bool, text: &str, blank: bool)
    requires
        call_ensures(is_white_space, (c,), space),
        call_ensures(is_blank, (text,), blank),
    ensures
        space == unicode_space(c),
        blank <==> forall|i: int| 0 <= i < text@.len() ==> unicode_space(#[trigger] text@[i]),
{
    assert forall|c: char| white_space(c) == #[trigger] unicode_space(c) by {
        law_white_space(c);
    }
}

/// White space around a path does not keep it from loading, and is not taken
/// off: whatever stands before and after a path that loads, the whole of it
/// loads as it is.
pub proof fn law_padded_path_loads(
    kind: SourceKind,
    before: Seq<char>,
    path: Seq<char>,
    after: Seq<char>,
    alone: Result<LoadJob, String>,
    padded: Result<LoadJob, String>,
)
    requires
        begun(kind, path, alone),
        begun(kind, before + path + after, padded),
        alone is Ok,
    ensures
        padded matches Ok(j) && j.kind == kind && j.path@ == before + path + after,
{
    law_begun(kind, path, alone);
    let i = choose|i: int| 0 <= i < path.len() && !unicode_space(#[trigger] path[i]);
    let whole = before + path + after;
    assert(whole[before.len() + i] == path[i]);
    law_begun(kind, whole, padded);
}

/// A file that was read goes to the decoder of its kind, as it was read; one
/// that was not ends in the words of the failure.
pub proof fn law_loaded<S>(
    job: LoadJob,
    raw: Result<RawSignal<S>, String>,
    pass: Result<DecodePass<S>, String>,
)
    requires
        call_ensures(LoadJob::loaded::<S>, (job, raw), pass),
    ensures
        raw matches Err(e) ==> pass == Err::<DecodePass<S>, String>(e),
        raw matches Ok(signal) ==> {
            &&& pass matches Ok(p)
            &&& p.raw == signal
            &&& p.decoder == first_decoder(job.kind)
            &&& job.kind == SourceKind::Iq ==> p.decoder == DecoderKind::Generic
            &&& job.kind == SourceKind::Audio ==> p.decoder == DecoderKind::Apt
            &&& job.kind == SourceKind::Packet ==> p.decoder == DecoderKind::Adsb
        },
{
}

/// The output of a run is the result as it is, except where the APT decoder
/// made no image: then the same signal goes to the generic decoder.
pub proof fn law_decoded<S>(pass: DecodePass<S>, out: DecodeOutput, outcome: PassOutcome<S>)
    requires
        call_ensures(DecodePass::<S>::decoded, (pass, out), outcome),
    ensures
        outcome == pass.outcome(out),
        outcome is Again <==> pass.decoder == DecoderKind::Apt && out.image_path is None,
        outcome matches PassOutcome::Done(o) ==> o == out,
        outcome matches PassOutcome::Again(next) ==> next.raw == pass.raw && next.decoder
            == DecoderKind::Generic,
{
}

/// A new channel is of the kind asked for and empty; its caption says what it
/// reads.
pub proof fn law_new_channel(
    kind: SourceKind,
    enabled: bool,
    channel: ChannelState,
    label: &'static str,
)
    requires
        call_ensures(ChannelState::new, (kind, enabled), channel),
        call_ensures(ChannelState::label, (&channel,), label),
    ensures
        channel.kind == kind,
        channel.enabled == enabled,
        channel.path@.len() == 0,
        channel.output is None,
        channel.error is None,
        label@ == match kind {
            SourceKind::Iq => "IQ / SDR raw file  (.cu8 / .cf32)"@,
            SourceKind::Audio => "Audio (WAV) file  — e.g. NOAA APT pass"@,
            SourceKind::Packet => "Packet / data stream  — hex frames, e.g. ADS-B"@,
        },
{
}

/// A channel shows its last outcome, output or error, and nothing of the one
/// before; what the user set stays.
pub proof fn law_stored(
    channel: &mut ChannelState,
    result: Result<DecodeOutput, String>,
    done: (),
)
    requires
        call_ensures(ChannelState::store, (channel, result), done),
    ensures
        result matches Ok(out) ==> final(channel).output == Some(out) && final(channel).error
            is None,
        result matches Err(e) ==> final(channel).error == Some(e) && final(channel).output is None,
        final(channel).kind == old(channel).kind,
        final(channel).enabled == old(channel).enabled,
        final(channel).path == old(channel).path,
{
}

} // verus!
