use fractal_atlas::encode::SinkError;
use fractal_atlas::pixels::{
    intensity, intensity_range, pixel_at, render_tile, write_data, Image, Resolution,
};

#[test]
fn intensity_values() {
    assert_eq!(intensity(None, 10), 0);
    assert_eq!(intensity(Some(0), 10), 255);
    assert_eq!(intensity(Some(1), 10), 230);
    assert_eq!(intensity(Some(9), 10), 26);
    assert_eq!(intensity(Some(255), 256), 1);
    assert_eq!(intensity(Some(1), 256), 255);
    assert_eq!(intensity(Some(10), 10), 0);
    assert_eq!(intensity(Some(u16::MAX), 1), 0);
}

#[test]
fn new_image_is_black() {
    let img = Image::new(&Resolution { width: 3, height: 2 });
    assert_eq!(img.data, vec![0u8; 6]);
    assert_eq!(img.resolution, Resolution { width: 3, height: 2 });
}

#[test]
fn pixel_enumeration_is_column_major() {
    let res = Resolution { width: 3, height: 2 };
    let all: Vec<(u32, u32)> = (0..6u64).map(|k| pixel_at(&res, k)).collect();
    assert_eq!(all, vec![(0, 0), (0, 1), (1, 0), (1, 1), (2, 0), (2, 1)]);
}

#[test]
fn writes_land_row_major_and_out_of_bounds_are_ignored() {
    let mut img = Image::new(&Resolution { width: 3, height: 2 });
    let entries = vec![((2, 1), Some(0)), ((1, 0), Some(5)), ((3, 1), Some(0)), ((0, 2), Some(0)), ((u32::MAX, u32::MAX), Some(0))];
    write_data(&mut img, &entries, 10);
    assert_eq!(img.data, vec![0, 128, 0, 0, 0, 255]);
}

#[test]
fn later_writes_win() {
    let mut img = Image::new(&Resolution { width: 2, height: 2 });
    write_data(&mut img, &vec![((1, 1), Some(0)), ((1, 1), None)], 4);
    assert_eq!(img.data, vec![0, 0, 0, 0]);
}

#[test]
fn rendering_twice_gives_identical_bytes() {
    let res = Resolution { width: 5, height: 3 };
    let entries: Vec<((u32, u32), Option<u16>)> = (0..15u64)
        .map(|k| (pixel_at(&res, k), if k % 4 == 0 { None } else { Some((k % 7) as u16) }))
        .collect();
    let a = render_tile(&res, &entries, 7);
    let b = render_tile(&res, &entries, 7);
    assert_eq!(a.data, b.data);
    assert_eq!(a.data.len(), 15);
}

#[test]
fn uniform_buffer_is_not_persisted() {
    let data = vec![100u8; 64];
    assert_eq!(intensity_range(&data), 0);
    let img = Image { resolution: Resolution { width: 8, height: 8 }, data };
    assert!(!img.is_worth_persisting(20));
}

#[test]
fn full_range_buffer_is_persisted() {
    let data: Vec<u8> = (0..=255u8).collect();
    assert_eq!(intensity_range(&data), 255);
    let img = Image { resolution: Resolution { width: 16, height: 16 }, data };
    assert!(img.is_worth_persisting(20));
}

#[test]
fn threshold_is_exclusive() {
    let img = Image { resolution: Resolution { width: 2, height: 1 }, data: vec![10, 30] };
    assert!(!img.is_worth_persisting(20));
    let img = Image { resolution: Resolution { width: 2, height: 1 }, data: vec![10, 31] };
    assert!(img.is_worth_persisting(20));
}

#[test]
fn png_encoding_round_trips_grey_levels() {
    let img = Image { resolution: Resolution { width: 3, height: 2 }, data: vec![0, 17, 255, 100, 3, 200] };
    let bytes: Result<Vec<u8>, SinkError> = img.encode_png();
    let bytes = bytes.unwrap();
    assert_eq!(&bytes[..8], &[137, 80, 78, 71, 13, 10, 26, 10]);
    assert_ne!(bytes, img.data);
    let decoded = image::load_from_memory(&bytes).unwrap().to_luma8();
    assert_eq!((decoded.width(), decoded.height()), (3, 2));
    assert_eq!(decoded.into_raw(), img.data);
}
