use gonk_core::resample::{gcd, OutSample, SampleRateConverter};

fn drain(c: &mut SampleRateConverter) -> Vec<OutSample> {
    let mut out = Vec::new();
    while let Some(s) = c.next() {
        out.push(s);
    }
    out
}

#[test]
fn gcd_of_common_rates() {
    assert_eq!(gcd(44100, 48000), 300);
    assert_eq!(gcd(8, 12), 4);
    assert_eq!(gcd(7, 0), 7);
}

#[test]
fn pass_through_is_bit_identical() {
    let input: Vec<u32> = vec![1, 2, 3, 4, 5, 6];
    let mut c = SampleRateConverter::new(input.clone(), 2, 44100, 44100);
    let out = drain(&mut c);
    assert_eq!(out.len(), input.len());
    for (i, s) in out.iter().enumerate() {
        assert_eq!(*s, OutSample::Copy { word: input[i] });
    }
}

#[test]
fn output_count_is_floor_of_ratio() {
    // 3 stereo frames at ratio 2 -> 3 yield floor(3 * 3 / 2) = 4 frames
    let input: Vec<u32> = vec![10, 11, 20, 21, 30, 31];
    let mut c = SampleRateConverter::new(input, 2, 2, 3);
    assert_eq!(c.output_len(), 8);
    let out = drain(&mut c);
    assert_eq!(out.len(), 8);
}

#[test]
fn downsampling_never_exceeds_floor() {
    // 4 mono frames at ratio 4 -> 1 yield exactly 1 sample
    let input: Vec<u32> = vec![5, 6, 7, 8];
    let mut c = SampleRateConverter::new(input, 1, 4, 1);
    assert_eq!(c.output_len(), 1);
    let out = drain(&mut c);
    assert_eq!(out, vec![OutSample::Copy { word: 5 }]);
}

#[test]
fn upsampling_blends_adjacent_frames() {
    // 2 mono frames at ratio 1 -> 2: positions 0, 1/2, 1, 3/2
    let input: Vec<u32> = vec![100, 200];
    let mut c = SampleRateConverter::new(input, 1, 1, 2);
    let out = drain(&mut c);
    assert_eq!(
        out,
        vec![
            OutSample::Copy { word: 100 },
            OutSample::Mix { first: 100, second: 200, num: 1, den: 2 },
            OutSample::Copy { word: 200 },
            // past the last pair the stream drains unblended
            OutSample::Copy { word: 200 },
        ]
    );
}

#[test]
fn update_resets_positions() {
    let mut c = SampleRateConverter::new(vec![1, 2, 3, 4], 1, 1, 2);
    let _ = c.next();
    let _ = c.next();
    c.update(vec![9, 9]);
    let out = drain(&mut c);
    assert_eq!(out.len(), 4);
    assert_eq!(out[0], OutSample::Copy { word: 9 });
}

#[test]
fn empty_input_yields_nothing() {
    let mut c = SampleRateConverter::new(Vec::new(), 2, 44100, 48000);
    assert_eq!(c.output_len(), 0);
    assert_eq!(c.next(), None);
}
