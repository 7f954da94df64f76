# Frankenstein

The core of a receive-only radio workbench, written and verified in Verus.

- `src/bands.rs`: the public bands that live capture can be tuned to.
- `src/capture.rs`: setting a capture up, reading from it, stopping it.
- `src/fm.rs`: the bookkeeping of the FM discriminator, and decimation.
- `src/parity.rs`: the Mode S parity check.
- `src/adsb.rs`, `src/adsb_laws.rs`: the ADS-B demodulator, and what it
  promises of a whole stream however it is cut into chunks.
- `src/live.rs`, `src/live_laws.rs`: the state behind the live panel, and what
  it promises of a chunk, a frame and a press of Start.
- `src/channel.rs`, `src/interpreter.rs`: the file channels and the workbench.
- `src/signal.rs`, `src/theme.rs`, `src/icon.rs`: shared types, colours, icon.
- `app/`: the desktop program. It draws, talks to the dongle, and does the
  floating-point arithmetic on samples.

Live demodulation is deliberately simple: ADS-B is read at exactly two samples
per bit and long frames only, and audio is decimated without a filter. However
a stream is cut into chunks, the ADS-B frames reported are those of the whole.

File readers and protocol decoders are plugged into `app/toolkit.rs`.
