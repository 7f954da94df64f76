use frankenstein::fm::{decimate, FmDemod, FmStep};

#[test]
fn one_step_per_sample_from_the_one_before() {
    let mut fm: FmDemod<f32> = FmDemod::new();
    let steps = fm.process(&[(1.0, 0.0), (0.0, 1.0), (-1.0, 0.0)]);
    assert_eq!(
        steps,
        vec![
            FmStep::Silence,
            FmStep::Turn { now: (0.0, 1.0), before: (1.0, 0.0) },
            FmStep::Turn { now: (-1.0, 0.0), before: (0.0, 1.0) },
        ]
    );
    assert_eq!(fm.prev, Some((-1.0, 0.0)));
}

#[test]
fn the_last_sample_is_kept_across_calls() {
    let mut fm: FmDemod<f32> = FmDemod::new();
    assert!(fm.process(&[]).is_empty());
    assert_eq!(fm.prev, None);
    assert_eq!(fm.process(&[(1.0, 2.0)]), vec![FmStep::Silence]);
    assert!(fm.process(&[]).is_empty());
    assert_eq!(
        fm.process(&[(3.0, 4.0)]),
        vec![FmStep::Turn { now: (3.0, 4.0), before: (1.0, 2.0) }]
    );
}

#[test]
fn chunks_demodulate_like_the_whole() {
    let iq: Vec<(i32, i32)> = (0..20).map(|k| (k, 100 - k)).collect();
    let mut whole: FmDemod<i32> = FmDemod::new();
    let all = whole.process(&iq);
    for cut in 0..20 {
        let mut fm: FmDemod<i32> = FmDemod::new();
        let mut parts = fm.process(&iq[..cut]);
        parts.extend(fm.process(&iq[cut..]));
        assert_eq!(parts, all);
        assert_eq!(fm.prev, whole.prev);
    }
}

#[test]
fn decimation_keeps_every_nth_sample() {
    let samples: Vec<f32> = (0..7).map(|k| k as f32).collect();
    assert_eq!(decimate(&samples, 0), samples);
    assert_eq!(decimate(&samples, 1), samples);
    assert_eq!(decimate(&samples, 2), vec![0.0, 2.0, 4.0, 6.0]);
    assert_eq!(decimate(&samples, 3), vec![0.0, 3.0, 6.0]);
    assert_eq!(decimate(&samples, 6), vec![0.0, 6.0]);
    assert_eq!(decimate(&samples, 7), vec![0.0]);
    assert_eq!(decimate(&samples, usize::MAX), vec![0.0]);
    assert!(decimate::<f32>(&[], 5).is_empty());
}

#[test]
fn decimation_in_chunks_and_in_turns() {
    let samples: Vec<u32> = (0..101).collect();
    for factor in 1..10 {
        let cut = 5 * factor;
        let mut parts = decimate(&samples[..cut], factor);
        parts.extend(decimate(&samples[cut..], factor));
        assert_eq!(parts, decimate(&samples, factor));
        for again in 1..6 {
            assert_eq!(
                decimate(&decimate(&samples, factor), again),
                decimate(&samples, factor * again)
            );
        }
    }
}

#[test]
fn decimation_off_a_multiple_shifts() {
    let samples: Vec<u32> = (0..6).collect();
    let mut parts = decimate(&samples[..3], 2);
    parts.extend(decimate(&samples[3..], 2));
    assert_eq!(parts, vec![0, 2, 3, 5]);
    assert_eq!(decimate(&samples, 2), vec![0, 2, 4]);
}
