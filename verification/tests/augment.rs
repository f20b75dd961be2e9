use rt_voice_wasm::augment;
use rt_voice_wasm::augment::{pause, reverse_segment, stutter};

#[test]
fn pause_at_start() {
    let samples = vec![100i16, 200, 300];
    let out = pause(&samples, 0, 100, 16000);
    assert_eq!(out.len(), samples.len() + 1600);
    assert!(out[..1600].iter().all(|&s| s == 0));
    assert_eq!(&out[1600..], &[100, 200, 300]);
}

#[test]
fn pause_at_end() {
    let samples = vec![100i16, 200, 300];
    let out = pause(&samples, 3, 100, 16000);
    assert_eq!(out.len(), samples.len() + 1600);
    assert_eq!(&out[..3], &[100, 200, 300]);
    assert!(out[3..].iter().all(|&s| s == 0));
}

#[test]
fn stutter_basic() {
    let samples = vec![1i16, 2, 3, 4, 5];
    let out = stutter(&samples, 1, 2, 2);
    // [1, then 2-rep of [2,3], then rest from pos 1 onward: 2,3,4,5]
    assert_eq!(out, vec![1, 2, 3, 2, 3, 2, 3, 4, 5]);
}

#[test]
fn stutter_empty() {
    let samples = vec![1i16, 2, 3];
    let out = stutter(&samples, 0, 0, 5);
    assert_eq!(out, samples);
}

#[test]
fn reverse_segment_middle() {
    let samples = vec![1i16, 2, 3, 4, 5];
    let out = reverse_segment(&samples, 1, 4);
    assert_eq!(out, vec![1, 4, 3, 2, 5]);
}

#[test]
fn pause_position_past_end_appends() {
    let out = pause(&[7, 8], 10, 1, 2000);
    assert_eq!(out, vec![7, 8, 0, 0]);
    // the silence length rounds down: 999 ms at 1 Hz is no sample
    assert_eq!(pause(&[7, 8], 1, 999, 1), vec![7, 8]);
}

#[test]
fn stutter_segment_clipped_at_end() {
    let out = stutter(&[1, 2, 3], 2, 5, 3);
    assert_eq!(out, vec![1, 2, 3, 3, 3, 3]);
    assert_eq!(stutter(&[1, 2, 3], 3, 1, 1), vec![1, 2, 3]);
}

#[test]
fn reverse_segment_twice_is_identity() {
    let samples = vec![5i16, -4, 3, -2, 1, 0];
    let once = reverse_segment(&samples, 1, 100);
    assert_eq!(once, vec![5, 0, 1, -2, 3, -4]);
    assert_eq!(reverse_segment(&once, 1, 100), samples);
    assert_eq!(reverse_segment(&samples, 4, 2), samples);
}

#[test]
fn concat_joins() {
    assert_eq!(augment::concat(&[1, 2], &[3]), vec![1, 2, 3]);
    assert!(augment::concat(&[], &[]).is_empty());
}
