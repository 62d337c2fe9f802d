//! Tests of palette discovery: scenarios, boundaries, strategy agreement,
//! determinism, and error reporting.

use quantise::{Error, GreyImage};
use quantise::palette::{Buckets, Palette, V1, V2};
use quantise::palette::v1;
use quantise::palette::v2;

fn img(width: usize, height: usize, data: Vec<u8>) -> GreyImage {
    GreyImage::new(width, height, data).expect("dimensions match data")
}

#[test]
fn palette_two_clusters() {
    let image = img(2, 2, vec![10, 10, 200, 200]);
    let p1 = V1::palette(&image, 2).unwrap();
    let p2 = V2::palette(&image, 2).unwrap();
    assert_eq!(p1, vec![10, 200]);
    assert_eq!(p2, vec![10, 200]);
}

#[test]
fn palette_surplus_levels() {
    let image = img(3, 1, vec![100, 100, 100]);
    let p1 = V1::palette(&image, 5).unwrap();
    let p2 = V2::palette(&image, 5).unwrap();
    assert_eq!(p1, vec![0, 0, 0, 0, 100]);
    assert_eq!(p2, vec![0, 0, 0, 0, 100]);
}

#[test]
fn palette_single_colour_one_level() {
    let image = img(2, 2, vec![77, 77, 77, 77]);
    assert_eq!(V1::palette(&image, 1).unwrap(), vec![77]);
    assert_eq!(V2::palette(&image, 1).unwrap(), vec![77]);
}

#[test]
fn palette_empty_image() {
    let image = img(0, 5, vec![]);
    assert_eq!(V1::palette(&image, 3).unwrap(), vec![0, 0, 0]);
    assert_eq!(V2::palette(&image, 3).unwrap(), vec![0, 0, 0]);
}

#[test]
fn palette_one_level_is_overall_mean() {
    let image = img(3, 1, vec![100, 104, 100]);
    assert_eq!(V1::palette(&image, 1).unwrap(), vec![101]);
    assert_eq!(V2::palette(&image, 1).unwrap(), vec![101]);
}

#[test]
fn strategies_agree() {
    let image = img(3, 2, vec![0, 10, 20, 200, 250, 130]);
    for m in 1..=6 {
        let p1 = V1::palette(&image, m).unwrap();
        let p2 = V2::palette(&image, m).unwrap();
        assert_eq!(p1, p2);
    }
}

#[test]
fn palette_deterministic() {
    let image = img(2, 2, vec![3, 90, 180, 255]);
    let first = V2::palette(&image, 3).unwrap();
    let second = V2::palette(&image, 3).unwrap();
    assert_eq!(first, second);
    let first = V1::palette(&image, 3).unwrap();
    let second = V1::palette(&image, 3).unwrap();
    assert_eq!(first, second);
}

#[test]
fn palette_rejects_zero_levels() {
    let image = img(1, 1, vec![42]);
    assert_eq!(V1::palette(&image, 0), Err(Error::InvalidArgument));
    assert_eq!(V2::palette(&image, 0), Err(Error::InvalidArgument));
}

#[test]
fn sparse_histogram_mean() {
    let mut h = <v1::Histogram as Buckets>::empty();
    assert_eq!(h.mean(), 0);
    h.increment(5);
    h.increment(5);
    h.increment(10);
    assert_eq!(h.mean(), 6);
    let mut h = <v1::Histogram as Buckets>::empty();
    h.set(200, 3);
    h.set(100, 1);
    assert_eq!(h.mean(), 175);
}

#[test]
fn dense_histogram_mean() {
    let mut h = <v2::Histogram as Buckets>::empty();
    assert_eq!(h.mean(), 0);
    h.increment(5);
    h.increment(5);
    h.increment(10);
    assert_eq!(h.mean(), 6);
    let mut h = <v2::Histogram as Buckets>::empty();
    h.set(200, 3);
    h.set(100, 1);
    assert_eq!(h.mean(), 175);
}

#[test]
fn solve_thresholds_are_ordered_with_fixed_ends() {
    let mut h = <v1::Histogram as Buckets>::empty();
    h.increment(10);
    h.increment(10);
    h.increment(200);
    h.increment(200);
    let (t, a) = quantise::palette::solver::solve(&h, 2).unwrap();
    assert_eq!(t, vec![0, 105, 256]);
    assert_eq!(a, vec![10, 200]);
    assert_eq!(*t.first().unwrap(), 0);
    assert_eq!(*t.last().unwrap(), 256);
    assert!(t.windows(2).all(|w| w[0] <= w[1]));
}

#[test]
fn histogram_count_reads_back() {
    let mut h = <v1::Histogram as Buckets>::empty();
    assert_eq!(h.count(9), 0);
    h.increment(9);
    h.set(11, 7);
    assert_eq!(h.count(9), 1);
    assert_eq!(h.count(11), 7);
    let mut h = <v2::Histogram as Buckets>::empty();
    assert_eq!(h.count(9), 0);
    h.increment(9);
    h.set(11, 7);
    assert_eq!(h.count(9), 1);
    assert_eq!(h.count(11), 7);
}
