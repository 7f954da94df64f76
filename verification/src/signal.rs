//! What passes between sources, demodulators and decoders.

use vstd::prelude::*;

verus! {

/// A signal as a source delivers it, over samples of type `S`.
#[derive(Debug)]
pub enum RawSignal<S> {
    /// Raw IQ samples.
    Iq(Vec<(S, S)>),
    /// Demodulated audio.
    Audio { samples: Vec<S>, sample_rate: u32 },
    /// Byte frames.
    Packets(Vec<Vec<u8>>),
}

/// One line of decoder output.
#[derive(Debug)]
pub struct DecodedItem {
    pub summary: String,
    pub detail: String,
}

/// Everything that a decoder made of a signal.
#[derive(Debug)]
pub struct DecodeOutput {
    pub items: Vec<DecodedItem>,
    pub image_path: Option<String>,
}

/// The decoders there are.
#[derive(Debug, Clone, Copy, PartialEq, Eq, Structural)]
pub enum DecoderKind {
    /// NOAA APT images from audio.
    Apt,
    /// ADS-B messages from Mode S frames.
    Adsb,
    /// Signal-strength statistics of anything.
    Generic,
}

} // verus!
