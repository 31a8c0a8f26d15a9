use std::sync::Arc;

use raw_workbench::compounds::{Concat, Reverse, Subclip};
use raw_workbench::outline::{interpolation_points, Clip, ClipRef, InterpolationPoints, Time};
use raw_workbench::samplearray::SampleArray;

fn array(rate: u32, samples: &[i16]) -> ClipRef {
    ClipRef::Samples(Arc::new(SampleArray::new(rate, samples.to_vec())))
}

fn all_samples<C: Clip>(clip: &C) -> Vec<i16> {
    (0..clip.duration()).map(|i| clip.get(i)).collect()
}

#[test]
fn sample_array_reports_samples_and_silence() {
    let a = SampleArray::new(44100, vec![5, -6, 7]);
    assert_eq!(a.duration(), 3);
    assert_eq!(a.sample_rate(), 44100);
    assert_eq!(a.get(0), 5);
    assert_eq!(a.get(1), -6);
    assert_eq!(a.get(2), 7);
    assert_eq!(a.get(3), 0);
    assert_eq!(a.get(u64::MAX), 0);
}

#[test]
fn u64_time_is_a_sample_count() {
    assert_eq!(17u64.to_samples(44100), 17);
    assert_eq!(17u64.from_samples(9, 44100), 9);
}

#[test]
fn subclip_is_a_window_of_its_source() {
    let src = array(8000, &[1, 2, 3, 4, 5, 6]);
    let sub = Subclip::new(src, 2u64, 3u64).expect("within bounds");
    assert_eq!(sub.duration(), 3);
    assert_eq!(sub.sample_rate(), 8000);
    assert_eq!(all_samples(sub.as_ref()), vec![3, 4, 5]);
    assert_eq!(sub.get(3), 0);
}

#[test]
fn subclip_reaching_the_end_exactly_is_allowed() {
    let src = array(8000, &[1, 2, 3]);
    let sub = Subclip::new(src, 1u64, 2u64).expect("ends at the end");
    assert_eq!(all_samples(sub.as_ref()), vec![2, 3]);
}

#[test]
fn subclip_past_the_end_is_none() {
    let src = array(8000, &[1, 2, 3]);
    assert!(Subclip::new(src.share(), 2u64, 2u64).is_none());
    assert!(Subclip::new(src, u64::MAX, 1u64).is_none());
}

#[test]
fn subclip_from_start_and_to_end() {
    let src = array(100, &[9, 8, 7, 6]);
    let head = Subclip::from_start(src.share(), 1u64).unwrap();
    assert_eq!(all_samples(head.as_ref()), vec![9]);
    let tail = Subclip::to_end(src.share(), 1u64).unwrap();
    assert_eq!(all_samples(tail.as_ref()), vec![8, 7, 6]);
    assert!(Subclip::to_end(src.share(), 4u64).unwrap().duration() == 0);
    assert!(Subclip::to_end(src.share(), 5u64).is_none());
    assert!(Subclip::from_start(src, 5u64).is_none());
}

#[test]
fn split_halves_join_to_the_source() {
    let src = array(100, &[1, 2, 3, 4, 5]);
    let (a, b) = Subclip::split(src.share(), 2u64).unwrap();
    assert_eq!(all_samples(a.as_ref()), vec![1, 2]);
    assert_eq!(all_samples(b.as_ref()), vec![3, 4, 5]);
    let joined = Concat::new(ClipRef::Sub(a), ClipRef::Sub(b)).unwrap();
    assert_eq!(all_samples(joined.as_ref()), all_samples(&src));
}

#[test]
fn split_at_the_ends_and_past_them() {
    let src = array(100, &[1, 2, 3]);
    let (a, b) = Subclip::split(src.share(), 0u64).unwrap();
    assert_eq!(a.duration(), 0);
    assert_eq!(all_samples(b.as_ref()), vec![1, 2, 3]);
    let (c, d) = Subclip::split(src.share(), 3u64).unwrap();
    assert_eq!(all_samples(c.as_ref()), vec![1, 2, 3]);
    assert_eq!(d.duration(), 0);
    assert!(Subclip::split(src, 4u64).is_none());
}

#[test]
fn concat_plays_left_then_right() {
    let c = Concat::new(array(10, &[1, 2]), array(10, &[3, 4, 5])).unwrap();
    assert_eq!(c.duration(), 5);
    assert_eq!(c.sample_rate(), 10);
    assert_eq!(c.get(1), 2);
    assert_eq!(c.get(2), 3);
    assert_eq!(all_samples(c.as_ref()), vec![1, 2, 3, 4, 5]);
    assert_eq!(c.get(5), 0);
}

#[test]
fn concat_of_different_rates_is_none() {
    assert!(Concat::new(array(10, &[1]), array(11, &[2])).is_none());
}

#[test]
fn reverse_plays_backwards() {
    let r = Reverse::new(array(10, &[1, 2, 3]));
    assert_eq!(r.duration(), 3);
    assert_eq!(r.sample_rate(), 10);
    assert_eq!(all_samples(&r), vec![3, 2, 1]);
    assert_eq!(r.get(3), 0);
    assert_eq!(r.get(u64::MAX), 0);
}

#[test]
fn reverse_twice_restores_the_clip() {
    let src = array(10, &[4, -2, 9, 0]);
    let twice = Reverse::new(ClipRef::Rev(Arc::new(Reverse::new(src.share()))));
    assert_eq!(all_samples(&twice), all_samples(&src));
}

#[test]
fn compounds_nest() {
    let src = array(10, &[1, 2, 3, 4]);
    let sub = Subclip::new(src.share(), 1u64, 2u64).unwrap();
    let rev = ClipRef::Rev(Arc::new(Reverse::new(ClipRef::Sub(sub))));
    let cat = Concat::new(rev, src).unwrap();
    assert_eq!(all_samples(cat.as_ref()), vec![3, 2, 1, 2, 3, 4]);
}

#[test]
fn interpolation_points_follow_the_range() {
    let a = SampleArray::new(10, vec![10, 20, 30]);
    assert!(matches!(interpolation_points(&a, 0), InterpolationPoints::Pair(10, 20)));
    assert!(matches!(interpolation_points(&a, 3), InterpolationPoints::OutOfRange));
    assert!(matches!(interpolation_points(&a, 1), InterpolationPoints::Pair(20, 30)));
    assert!(matches!(interpolation_points(&a, 2), InterpolationPoints::Single(30)));
}
