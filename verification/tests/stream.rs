use rt_voice_wasm::stream::{OverlapMerger, WindowBuffer};

#[test]
fn overlap_merge_dedupes() {
    let mut merger = OverlapMerger::new();
    let r1 = merger.merge_overlap("hello world this is");
    assert_eq!(r1, "hello world this is");
    let r2 = merger.merge_overlap("this is a test now");
    assert_eq!(r2, "a test now");
}

#[test]
fn overlap_merge_no_overlap() {
    let mut merger = OverlapMerger::new();
    merger.merge_overlap("hello world");
    let r2 = merger.merge_overlap("completely different");
    assert_eq!(r2, "completely different");
}

#[test]
fn overlap_merge_empty_is_ignored() {
    let mut merger = OverlapMerger::new();
    merger.merge_overlap("one two");
    assert_eq!(merger.merge_overlap(""), "");
    assert_eq!(merger.last_output(), "one two");
    assert_eq!(merger.merge_overlap("two  three"), "three");
    assert_eq!(merger.last_output(), "two  three");
}

#[test]
fn overlap_merge_whole_repeat_emits_nothing_new() {
    let mut merger = OverlapMerger::new();
    merger.merge_overlap("a b c");
    assert_eq!(merger.merge_overlap("b c"), "");
}

#[test]
fn window_needs_two_seconds() {
    let mut wb = WindowBuffer::new(16000);
    assert!(wb.push_frame(&vec![16000i16; 16000]).is_none());
    assert_eq!(wb.buffer_len(), 16000);
    let w = wb.push_frame(&vec![16000i16; 16000]).unwrap();
    assert_eq!(w.len(), 32000);
}

#[test]
fn window_is_most_recent_samples() {
    let mut wb = WindowBuffer::new(2);
    assert!(wb.push_frame(&[1, 2, 3]).is_none());
    assert_eq!(wb.push_frame(&[4, 5]).unwrap(), vec![2, 3, 4, 5]);
    assert_eq!(wb.buffer_len(), 5);
}

#[test]
fn windows_slide_by_one_second() {
    let mut wb = WindowBuffer::new(16000);
    assert_eq!(wb.push_frame(&vec![16000i16; 32000]).unwrap().len(), 32000);
    // 0.1 s after a window: no new window
    assert!(wb.push_frame(&vec![1i16; 1600]).is_none());
    assert!(wb.push_frame(&vec![2i16; 14000]).is_none());
    // a whole second since the last window: the next one
    let w = wb.push_frame(&vec![3i16; 400]).unwrap();
    assert_eq!(w.len(), 32000);
    assert_eq!(&w[32000 - 400..], &vec![3i16; 400][..]);
    assert!(wb.push_frame(&[4]).is_none());
}
