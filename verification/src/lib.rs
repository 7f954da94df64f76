//! The signal-handling core of a receive-only radio workbench: live band
//! presets, the capture protocol, FM and Mode S demodulation, and the state
//! behind the live panel and the file channels.

pub mod adsb;
pub mod adsb_laws;
pub mod bands;
pub mod capture;
pub mod channel;
pub mod fm;
pub mod icon;
pub mod interpreter;
pub mod live;
pub mod live_laws;
pub mod parity;
pub mod signal;
pub mod theme;
