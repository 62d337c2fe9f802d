//! Tests of full-image quantisation: remapping, dimensions, idempotence,
//! and error reporting.

use quantise::{quantise, Error, GreyImage};
use quantise::palette::{V1, V2};

fn img(width: usize, height: usize, data: Vec<u8>) -> GreyImage {
    GreyImage::new(width, height, data).expect("dimensions match data")
}

#[test]
fn quantise_remaps_to_nearest() {
    let image = img(3, 1, vec![0, 255, 100]);
    let q = quantise::<V2>(&image, 2).unwrap();
    assert_eq!(q.width(), 3);
    assert_eq!(q.height(), 1);
    assert_eq!(q.luminances().clone(), vec![50, 255, 50]);
}

#[test]
fn quantise_keeps_palette_values() {
    let image = img(2, 2, vec![10, 10, 200, 200]);
    let q = quantise::<V1>(&image, 2).unwrap();
    assert_eq!(q.luminances().clone(), vec![10, 10, 200, 200]);
}

#[test]
fn quantise_idempotent() {
    let image = img(4, 1, vec![0, 1, 2, 255]);
    let once = quantise::<V2>(&image, 2).unwrap();
    assert_eq!(once.luminances().clone(), vec![1, 1, 1, 255]);
    let twice = quantise::<V2>(&once, 2).unwrap();
    assert_eq!(once.luminances(), twice.luminances());

    let image = img(2, 2, vec![10, 10, 200, 200]);
    let once = quantise::<V1>(&image, 2).unwrap();
    let twice = quantise::<V1>(&once, 2).unwrap();
    assert_eq!(once.luminances(), twice.luminances());
}

#[test]
fn quantise_empty_image() {
    let image = img(0, 5, vec![]);
    let q = quantise::<V2>(&image, 4).unwrap();
    assert_eq!(q.width(), 0);
    assert_eq!(q.height(), 5);
    assert!(q.luminances().is_empty());
}

#[test]
fn quantise_rejects_zero_levels() {
    let image = img(1, 1, vec![42]);
    assert_eq!(
        quantise::<V2>(&image, 0).map(|q| q.luminances().clone()),
        Err(Error::InvalidArgument)
    );
}

#[test]
fn grey_image_rejects_mismatched_data() {
    assert!(GreyImage::new(2, 2, vec![1, 2, 3]).is_none());
    assert!(GreyImage::new(2, 2, vec![1, 2, 3, 4]).is_some());
}
