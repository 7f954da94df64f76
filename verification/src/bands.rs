//! The bands that live capture can be tuned to.

use vstd::prelude::*;

verus! {

/// Which live demodulation path a band uses. Kept separate from the label so
/// that routing never has to compare strings.
#[derive(Debug, Clone, Copy, PartialEq, Eq, Structural)]
pub enum LiveKind {
    /// FM-demodulate to audio and run the APT image decoder.
    Apt,
    /// PPM-demodulate to Mode S frames and run the ADS-B decoder.
    Adsb,
    /// No protocol-specific live path: show signal-strength statistics.
    Generic,
}

/// A single legally-receivable band.
#[derive(Debug, Clone, Copy)]
pub struct BandPreset {
    pub label: &'static str,
    pub center_freq_hz: u32,
    pub sample_rate_hz: u32,
    pub note: &'static str,
    pub kind: LiveKind,
}

/// The bands on offer, in the order in which they are shown.
///
/// This list is intentionally the only way to pick a frequency. Every entry is
/// a band that the general public may receive nearly everywhere. Trunked or
/// encrypted public-safety radio, cellular, satellite phones and any other
/// traffic not meant for public reception are deliberately absent.
pub open spec fn public_bands() -> Seq<BandPreset> {
    seq![
        BandPreset {
            label: "NOAA APT weather satellites",
            center_freq_hz: 137_500_000,
            sample_rate_hz: 2_048_000,
            note: "137.5 MHz — public weather-satellite downlink, decodes with the APT decoder.",
            kind: LiveKind::Apt,
        },
        BandPreset {
            label: "ADS-B aircraft transponders",
            center_freq_hz: 1_090_000_000,
            sample_rate_hz: 2_000_000,
            note: "1090 MHz — public aircraft position broadcasts (same signal flight trackers use).",
            kind: LiveKind::Adsb,
        },
        BandPreset {
            label: "Marine AIS",
            center_freq_hz: 161_975_000,
            sample_rate_hz: 250_000,
            note: "AIS ch. A, 161.975 MHz — public vessel-tracking broadcasts.",
            kind: LiveKind::Generic,
        },
        BandPreset {
            label: "2 m amateur (HAM) band",
            center_freq_hz: 146_000_000,
            sample_rate_hz: 250_000,
            note: "144–148 MHz — general amateur-radio activity, open to any listener.",
            kind: LiveKind::Generic,
        },
        BandPreset {
            label: "70 cm amateur (HAM) band",
            center_freq_hz: 435_000_000,
            sample_rate_hz: 250_000,
            note: "420–450 MHz — amateur satellite / repeater segment.",
            kind: LiveKind::Generic,
        },
        BandPreset {
            label: "FM broadcast",
            center_freq_hz: 100_000_000,
            sample_rate_hz: 250_000,
            note: "88–108 MHz — commercial FM radio, useful for a quick smoke-test of the dongle.",
            kind: LiveKind::Generic,
        },
        BandPreset {
            label: "License-free ISM (433 MHz)",
            center_freq_hz: 433_920_000,
            sample_rate_hz: 250_000,
            note: "433.05–434.79 MHz — weather stations, doorbells, sensors: unlicensed by design.",
            kind: LiveKind::Generic,
        },
    ]
}

/// How many bands there are.
pub const BAND_COUNT: usize = 7;

/// Band number `idx` of the list.
pub fn public_band(idx: usize) -> (preset: BandPreset)
    requires
        idx < BAND_COUNT,
    ensures
        preset == public_bands()[idx as int],
{
    if idx == 0 {
        BandPreset {
            label: "NOAA APT weather satellites",
            center_freq_hz: 137_500_000,
            sample_rate_hz: 2_048_000,
            note: "137.5 MHz — public weather-satellite downlink, decodes with the APT decoder.",
            kind: LiveKind::Apt,
        }
    } else if idx == 1 {
        // The demodulator assumes exactly 2 samples per bit, so this is pinned
        // to 2.0 Msps rather than the 2.4 Msps that needs a fractional-sample
        // correlator.
        BandPreset {
            label: "ADS-B aircraft transponders",
            center_freq_hz: 1_090_000_000,
            sample_rate_hz: 2_000_000,
            note: "1090 MHz — public aircraft position broadcasts (same signal flight trackers use).",
            kind: LiveKind::Adsb,
        }
    } else if idx == 2 {
        BandPreset {
            label: "Marine AIS",
            center_freq_hz: 161_975_000,
            sample_rate_hz: 250_000,
            note: "AIS ch. A, 161.975 MHz — public vessel-tracking broadcasts.",
            kind: LiveKind::Generic,
        }
    } else if idx == 3 {
        BandPreset {
            label: "2 m amateur (HAM) band",
            center_freq_hz: 146_000_000,
            sample_rate_hz: 250_000,
            note: "144–148 MHz — general amateur-radio activity, open to any listener.",
            kind: LiveKind::Generic,
        }
    } else if idx == 4 {
        BandPreset {
            label: "70 cm amateur (HAM) band",
            center_freq_hz: 435_000_000,
            sample_rate_hz: 250_000,
            note: "420–450 MHz — amateur satellite / repeater segment.",
            kind: LiveKind::Generic,
        }
    } else if idx == 5 {
        BandPreset {
            label: "FM broadcast",
            center_freq_hz: 100_000_000,
            sample_rate_hz: 250_000,
            note: "88–108 MHz — commercial FM radio, useful for a quick smoke-test of the dongle.",
            kind: LiveKind::Generic,
        }
    } else {
        BandPreset {
            label: "License-free ISM (433 MHz)",
            center_freq_hz: 433_920_000,
            sample_rate_hz: 250_000,
            note: "433.05–434.79 MHz — weather stations, doorbells, sensors: unlicensed by design.",
            kind: LiveKind::Generic,
        }
    }
}

/// The band list holds exactly `BAND_COUNT` entries, no two of them on the
/// same frequency.
pub proof fn law_bands_distinct(i: int, j: int)
    requires
        0 <= i < j < BAND_COUNT,
    ensures
        public_bands().len() == BAND_COUNT,
        public_bands()[i].center_freq_hz != public_bands()[j].center_freq_hz,
{
}

/// Every band that is demodulated as ADS-B is sampled at 2.0 Msps: two samples
/// per bit of a 1 Mbit/s signal.
pub proof fn law_adsb_two_samples_per_bit(i: int)
    requires
        0 <= i < BAND_COUNT,
        public_bands()[i].kind == LiveKind::Adsb,
    ensures
        public_bands()[i].sample_rate_hz == 2_000_000,
{
}

/// The bands on offer: these frequencies, at these sample rates, demodulated
/// this way, and no others.
pub proof fn law_bands_on_offer(idx: usize, preset: BandPreset)
    requires
        idx < 7,
        call_ensures(public_band, (idx,), preset),
    ensures
        BAND_COUNT == 7,
        public_bands().len() == 7,
        preset == public_bands()[idx as int],
        preset.center_freq_hz == if idx == 0 {
            137_500_000
        } else if idx == 1 {
            1_090_000_000
        } else if idx == 2 {
            161_975_000
        } else if idx == 3 {
            146_000_000
        } else if idx == 4 {
            435_000_000
        } else if idx == 5 {
            100_000_000
        } else {
            433_920_000u32
        },
        preset.sample_rate_hz == if idx == 0 {
            2_048_000
        } else if idx == 1 {
            2_000_000
        } else {
            250_000u32
        },
        preset.kind == LiveKind::Apt <==> idx == 0,
        preset.kind == LiveKind::Adsb <==> idx == 1,
        preset.kind == LiveKind::Generic <==> idx >= 2,
        preset.label@ == if idx == 0 {
            "NOAA APT weather satellites"@
        } else if idx == 1 {
            "ADS-B aircraft transponders"@
        } else if idx == 2 {
            "Marine AIS"@
        } else if idx == 3 {
            "2 m amateur (HAM) band"@
        } else if idx == 4 {
            "70 cm amateur (HAM) band"@
        } else if idx == 5 {
            "FM broadcast"@
        } else {
            "License-free ISM (433 MHz)"@
        },
        preset.note@ == if idx == 0 {
            "137.5 MHz — public weather-satellite downlink, decodes with the APT decoder."@
        } else if idx == 1 {
            "1090 MHz — public aircraft position broadcasts (same signal flight trackers use)."@
        } else if idx == 2 {
            "AIS ch. A, 161.975 MHz — public vessel-tracking broadcasts."@
        } else if idx == 3 {
            "144–148 MHz — general amateur-radio activity, open to any listener."@
        } else if idx == 4 {
            "420–450 MHz — amateur satellite / repeater segment."@
        } else if idx == 5 {
            "88–108 MHz — commercial FM radio, useful for a quick smoke-test of the dongle."@
        } else {
            "433.05–434.79 MHz — weather stations, doorbells, sensors: unlicensed by design."@
        },
{
}

} // verus!
