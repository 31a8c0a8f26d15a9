use std::sync::Arc;

use raw_workbench::outline::{Clip, ClipRef};
use raw_workbench::samplearray::SampleArray;
use raw_workbench::track::Track;

fn array(rate: u32, samples: &[i16]) -> ClipRef {
    ClipRef::Samples(Arc::new(SampleArray::new(rate, samples.to_vec())))
}

fn left(track: &Track) -> Vec<i16> {
    let c = track.left_channel_as_clip();
    (0..c.duration()).map(|i| c.get(i)).collect()
}

fn right(track: &Track) -> Vec<i16> {
    let c = track.right_channel_as_clip();
    (0..c.duration()).map(|i| c.get(i)).collect()
}

#[test]
fn new_track_is_empty() {
    let track = Track::new("my_track".to_owned(), 44100);
    assert_eq!(track.name(), "my_track");
    assert_eq!(track.sample_rate(), 44100);
    assert_eq!(track.duration(), 0);
    assert_eq!(left(&track), Vec::<i16>::new());
}

#[test]
fn insert_into_empty_track() {
    let mut track = Track::new("t".to_owned(), 10);
    assert!(track.insert_mono(array(10, &[1, 2, 3]), 0));
    assert_eq!(track.duration(), 3);
    assert_eq!(left(&track), vec![1, 2, 3]);
    assert_eq!(right(&track), vec![1, 2, 3]);
}

#[test]
fn insert_past_the_end_leaves_silence() {
    let mut track = Track::new("t".to_owned(), 10);
    assert!(track.insert_mono(array(10, &[1, 2]), 0));
    assert!(track.insert_mono(array(10, &[7]), 4));
    assert_eq!(track.duration(), 5);
    assert_eq!(left(&track), vec![1, 2, 0, 0, 7]);
}

#[test]
fn insert_at_the_start_pushes_everything_back() {
    let mut track = Track::new("t".to_owned(), 10);
    assert!(track.insert_mono(array(10, &[1, 2]), 0));
    assert!(track.insert_mono(array(10, &[8, 9]), 0));
    assert_eq!(track.duration(), 4);
    assert_eq!(left(&track), vec![8, 9, 1, 2]);
}

#[test]
fn insert_inside_a_clip_splits_it() {
    let mut track = Track::new("t".to_owned(), 10);
    assert!(track.insert_mono(array(10, &[1, 2, 3, 4]), 0));
    assert!(track.insert_mono(array(10, &[8, 9]), 1));
    assert_eq!(track.duration(), 6);
    assert_eq!(left(&track), vec![1, 8, 9, 2, 3, 4]);
    assert_eq!(right(&track), vec![1, 8, 9, 2, 3, 4]);
}

#[test]
fn insert_at_a_clip_boundary_does_not_split() {
    let mut track = Track::new("t".to_owned(), 10);
    assert!(track.insert_mono(array(10, &[1, 2]), 0));
    assert!(track.insert_mono(array(10, &[3, 4]), 2));
    assert!(track.insert_mono(array(10, &[5]), 2));
    assert_eq!(left(&track), vec![1, 2, 5, 3, 4]);
}

#[test]
fn insert_in_a_gap_moves_later_clips() {
    let mut track = Track::new("t".to_owned(), 10);
    assert!(track.insert_mono(array(10, &[1]), 0));
    assert!(track.insert_mono(array(10, &[2]), 3));
    assert!(track.insert_mono(array(10, &[9, 9]), 2));
    assert_eq!(track.duration(), 6);
    assert_eq!(left(&track), vec![1, 0, 9, 9, 0, 2]);
}

#[test]
fn insert_with_another_rate_is_refused() {
    let mut track = Track::new("t".to_owned(), 10);
    assert!(track.insert_mono(array(10, &[1, 2]), 0));
    assert!(!track.insert_mono(array(11, &[5]), 0));
    assert_eq!(track.duration(), 2);
    assert_eq!(left(&track), vec![1, 2]);
}

#[test]
fn channel_clip_reads_silence_after_the_track() {
    let mut track = Track::new("t".to_owned(), 10);
    assert!(track.insert_mono(array(10, &[4, 5]), 1));
    let c = track.left_channel_as_clip();
    assert_eq!(c.sample_rate(), 10);
    assert_eq!(c.duration(), 3);
    assert_eq!(c.get(0), 0);
    assert_eq!(c.get(1), 4);
    assert_eq!(c.get(2), 5);
    assert_eq!(c.get(3), 0);
}

#[test]
fn a_track_channel_can_be_inserted_into_another_track() {
    let mut a = Track::new("a".to_owned(), 10);
    assert!(a.insert_mono(array(10, &[1, 2]), 0));
    let mut b = Track::new("b".to_owned(), 10);
    assert!(b.insert_mono(array(10, &[7, 8]), 0));
    assert!(b.insert_mono(a.left_channel_as_clip(), 1));
    assert_eq!(left(&b), vec![7, 1, 2, 8]);
}
