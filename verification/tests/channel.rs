use frankenstein::channel::{
    is_blank, is_white_space, load_and_decode, ChannelState, DecodePass, PassOutcome, SourceKind,
};
use frankenstein::interpreter::SignalInterpreterApp;
use frankenstein::signal::{DecodeOutput, DecodedItem, DecoderKind, RawSignal};
use frankenstein::theme::{theme, Rgb};

fn output(summary: &str, image: Option<&str>) -> DecodeOutput {
    DecodeOutput {
        items: vec![DecodedItem { summary: summary.to_string(), detail: String::new() }],
        image_path: image.map(|p| p.to_string()),
    }
}

fn first_pass(kind: SourceKind) -> DecodePass<f32> {
    let job = load_and_decode(kind, "capture.bin").unwrap();
    job.loaded(Ok(RawSignal::Packets(vec![vec![1, 2]]))).unwrap()
}

#[test]
fn white_space_is_what_unicode_calls_so() {
    for u in 0..=0x10ffffu32 {
        if let Some(c) = char::from_u32(u) {
            assert_eq!(is_white_space(c), c.is_whitespace(), "{:x}", u);
        }
    }
}

#[test]
fn blank_texts_trim_to_nothing() {
    for text in ["", " ", " \t\r\n", "\u{3000}\u{a0}", "a", "  x ", " é", "\u{200b}"] {
        assert_eq!(is_blank(text), text.trim().is_empty(), "{:?}", text);
    }
}

#[test]
fn a_path_is_needed() {
    for path in ["", "   ", "\t\n"] {
        assert_eq!(
            load_and_decode(SourceKind::Audio, path).unwrap_err(),
            "Enter a file path first."
        );
    }
    let job = load_and_decode(SourceKind::Packet, " a ").unwrap();
    assert_eq!(job.kind, SourceKind::Packet);
    assert_eq!(job.path, " a ");
}

#[test]
fn a_file_that_does_not_load_is_an_error() {
    let job = load_and_decode(SourceKind::Iq, "missing.cu8").unwrap();
    let failed = job.loaded::<f32>(Err("not found".to_string()));
    assert_eq!(failed.unwrap_err(), "not found");
}

#[test]
fn each_kind_has_its_decoder() {
    assert_eq!(first_pass(SourceKind::Iq).decoder, DecoderKind::Generic);
    assert_eq!(first_pass(SourceKind::Audio).decoder, DecoderKind::Apt);
    assert_eq!(first_pass(SourceKind::Packet).decoder, DecoderKind::Adsb);
    for kind in [SourceKind::Iq, SourceKind::Packet] {
        match first_pass(kind).decoded(output("seen", None)) {
            PassOutcome::Done(out) => assert_eq!(out.items[0].summary, "seen"),
            PassOutcome::Again(_) => panic!("decoded twice"),
        }
    }
}

#[test]
fn audio_without_an_image_is_decoded_generically() {
    match first_pass(SourceKind::Audio).decoded(output("apt", Some("pass.png"))) {
        PassOutcome::Done(out) => assert_eq!(out.image_path.as_deref(), Some("pass.png")),
        PassOutcome::Again(_) => panic!("decoded twice"),
    }
    let again = match first_pass(SourceKind::Audio).decoded(output("apt", None)) {
        PassOutcome::Again(pass) => pass,
        PassOutcome::Done(_) => panic!("took an empty image"),
    };
    assert_eq!(again.decoder, DecoderKind::Generic);
    assert!(matches!(&again.raw, RawSignal::Packets(p) if *p == vec![vec![1, 2]]));
    match again.decoded(output("stats", None)) {
        PassOutcome::Done(out) => assert_eq!(out.items[0].summary, "stats"),
        PassOutcome::Again(_) => panic!("decoded three times"),
    }
}

#[test]
fn a_channel_shows_output_or_an_error() {
    let mut channel = ChannelState::new(SourceKind::Iq, false);
    assert!(!channel.enabled && channel.path.is_empty());
    assert!(channel.output.is_none() && channel.error.is_none());
    channel.store(Err("broken".to_string()));
    assert_eq!(channel.error.as_deref(), Some("broken"));
    channel.store(Ok(output("fine", None)));
    assert!(channel.error.is_none());
    assert_eq!(channel.output.as_ref().unwrap().items[0].summary, "fine");
    channel.store(Err("broken again".to_string()));
    assert!(channel.output.is_none());
}

#[test]
fn channels_have_captions() {
    assert_eq!(
        ChannelState::new(SourceKind::Iq, true).label(),
        "IQ / SDR raw file  (.cu8 / .cf32)"
    );
    assert_eq!(
        ChannelState::new(SourceKind::Audio, true).label(),
        "Audio (WAV) file  — e.g. NOAA APT pass"
    );
    assert_eq!(
        ChannelState::new(SourceKind::Packet, true).label(),
        "Packet / data stream  — hex frames, e.g. ADS-B"
    );
}

#[test]
fn channels_are_independent() {
    let mut app: SignalInterpreterApp<f32> = SignalInterpreterApp::new(1);
    let kinds: Vec<SourceKind> = app.channels.iter().map(|c| c.kind).collect();
    assert_eq!(kinds, vec![SourceKind::Iq, SourceKind::Audio, SourceKind::Packet]);
    assert!(app.channels.iter().all(|c| c.enabled));
    assert_eq!(app.live.device_count, 1);
    app.finish_decode(1, Ok(output("heard", None)));
    app.finish_decode(2, Err("no frames".to_string()));
    assert!(app.channels[0].output.is_none() && app.channels[0].error.is_none());
    assert_eq!(app.channels[1].output.as_ref().unwrap().items[0].summary, "heard");
    assert!(app.channels[1].error.is_none());
    assert_eq!(app.channels[2].error.as_deref(), Some("no frames"));
    assert_eq!(app.live.status, "Idle");
}

#[test]
fn a_channel_decodes_its_own_file_if_enabled() {
    let mut app: SignalInterpreterApp<f32> = SignalInterpreterApp::new(0);
    app.channels[1].path = "pass.wav".to_string();
    let job = app.begin_decode(1).unwrap().unwrap();
    assert_eq!(job.kind, SourceKind::Audio);
    assert_eq!(job.path, "pass.wav");
    assert_eq!(app.begin_decode(2).unwrap().unwrap_err(), "Enter a file path first.");
    app.channels[1].enabled = false;
    assert!(app.begin_decode(1).is_none());
    app.channels[2].enabled = false;
    assert!(app.begin_decode(2).is_none());
}

#[test]
fn the_theme_is_green_on_black() {
    let theme = theme();
    assert_eq!(theme.panel_fill, Rgb { r: 13, g: 15, b: 11 });
    assert_eq!(theme.window_fill, Rgb { r: 20, g: 24, b: 18 });
    assert_eq!(theme.extreme_bg, theme.window_fill);
    assert_eq!(theme.inactive_fill, theme.window_fill);
    assert_eq!(theme.text, Rgb { r: 214, g: 222, b: 209 });
    assert_eq!(theme.noninteractive_stroke, theme.text);
    assert_eq!(theme.hovered_fill, Rgb { r: 30, g: 140, b: 20 });
    assert_eq!(theme.active_fill, theme.hovered_fill);
    assert_eq!(theme.selection_fill, theme.hovered_fill);
    assert_eq!(theme.hyperlink, Rgb { r: 57, g: 255, b: 20 });
    assert_eq!(theme.accent, theme.hyperlink);
    assert_eq!(theme.warning, Rgb { r: 193, g: 68, b: 14 });
}
