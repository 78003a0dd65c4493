use image::{DynamicImage, GrayImage, Rgb, RgbImage, RgbaImage};
use minmax_codec::{
    decode, decode_image, encode, encode_image, flatten, get_largest_image, get_minmax, img_to_rgb,
    rgb_to_img, MinMaxImg, TransformError,
};

fn rgb(width: u32, height: u32, pixels: &[[u8; 3]]) -> DynamicImage {
    let mut img = RgbImage::new(width, height);
    for (i, p) in pixels.iter().enumerate() {
        img.put_pixel(i as u32 % width, i as u32 / width, Rgb(*p));
    }
    DynamicImage::ImageRgb8(img)
}

#[test]
fn img_to_rgb_reads_row_by_row() {
    let mut img = RgbImage::new(3, 2);
    img.put_pixel(0, 0, Rgb([1, 2, 3]));
    img.put_pixel(1, 0, Rgb([4, 5, 6]));
    img.put_pixel(2, 0, Rgb([7, 8, 9]));
    img.put_pixel(0, 1, Rgb([10, 11, 12]));
    img.put_pixel(1, 1, Rgb([13, 14, 15]));
    img.put_pixel(2, 1, Rgb([16, 17, 18]));
    assert_eq!(
        img_to_rgb(&DynamicImage::ImageRgb8(img)),
        vec![[1, 2, 3], [4, 5, 6], [7, 8, 9], [10, 11, 12], [13, 14, 15], [16, 17, 18]]
    );
}

#[test]
fn img_to_rgb_drops_alpha() {
    let img = RgbaImage::from_raw(2, 1, vec![1, 2, 3, 0, 4, 5, 6, 255]).unwrap();
    assert_eq!(img_to_rgb(&DynamicImage::ImageRgba8(img)), vec![[1, 2, 3], [4, 5, 6]]);
}

#[test]
fn img_to_rgb_spreads_grey() {
    let img = GrayImage::from_raw(1, 2, vec![7, 200]).unwrap();
    assert_eq!(img_to_rgb(&DynamicImage::ImageLuma8(img)), vec![[7, 7, 7], [200, 200, 200]]);
}

#[test]
fn img_to_rgb_of_an_image_without_pixels() {
    assert!(img_to_rgb(&DynamicImage::ImageRgb8(RgbImage::new(0, 0))).is_empty());
    assert!(img_to_rgb(&DynamicImage::ImageRgb8(RgbImage::new(0, 4))).is_empty());
    assert!(img_to_rgb(&DynamicImage::ImageRgb8(RgbImage::new(4, 0))).is_empty());
}

#[test]
fn flatten_writes_three_bytes_to_a_pixel() {
    assert_eq!(flatten(&vec![[1, 2, 3], [4, 5, 6]]), vec![1, 2, 3, 4, 5, 6]);
    assert!(flatten(&vec![]).is_empty());
}

#[test]
fn rgb_to_img_builds_an_rgb8_image() {
    let pixels = vec![[1, 2, 3], [4, 5, 6], [7, 8, 9], [10, 11, 12]];
    let img = rgb_to_img(1, 4, &pixels).unwrap();
    assert_eq!((img.width(), img.height()), (1, 4));
    let inner = img.as_rgb8().unwrap();
    assert_eq!(inner.as_raw(), &vec![1, 2, 3, 4, 5, 6, 7, 8, 9, 10, 11, 12]);
    assert_eq!(inner.get_pixel(0, 2).0, [7, 8, 9]);
    assert_eq!(img_to_rgb(&img), pixels);
}

#[test]
fn largest_image_is_the_first_of_the_largest() {
    let images = vec![
        DynamicImage::ImageRgb8(RgbImage::new(2, 2)),
        DynamicImage::ImageRgb8(RgbImage::new(3, 4)),
        DynamicImage::ImageRgb8(RgbImage::new(4, 3)),
        DynamicImage::ImageRgb8(RgbImage::new(6, 2)),
        DynamicImage::ImageRgb8(RgbImage::new(1, 1)),
    ];
    assert_eq!(get_largest_image(&images), (3, 4));
}

#[test]
fn largest_image_of_nothing_is_zero_by_zero() {
    assert_eq!(get_largest_image(&vec![]), (0, 0));
    let images = vec![DynamicImage::ImageRgb8(RgbImage::new(0, 7)), DynamicImage::ImageRgb8(RgbImage::new(7, 0))];
    assert_eq!(get_largest_image(&images), (0, 0));
}

#[test]
fn scenario_extrema_of_two_single_pixel_images() {
    let images = vec![rgb(1, 1, &[[10, 10, 10]]), rgb(1, 1, &[[200, 200, 200]])];
    let (min, max) = get_minmax(&images, 1).ok().unwrap();
    assert_eq!(min.rgb(), &vec![[10u8, 10, 10]]);
    assert_eq!(max.rgb(), &vec![[200u8, 200, 200]]);
    let encoded = encode(&min, &max, &images).unwrap();
    assert_eq!(img_to_rgb(&encoded[0]), vec![[0, 0, 0]]);
    assert_eq!(img_to_rgb(&encoded[1]), vec![[190, 190, 190]]);
    let decoded = decode(min.rgb(), max.rgb(), &encoded).unwrap();
    assert_eq!(decoded, images);
}

#[test]
fn extrema_enclose_every_image_of_the_batch() {
    let images = vec![
        rgb(2, 2, &[[10, 200, 30], [0, 0, 0], [255, 255, 255], [9, 8, 7]]),
        rgb(1, 2, &[[20, 100, 30], [5, 5, 5]]),
        rgb(3, 1, &[[15, 150, 31], [1, 2, 3], [100, 100, 100]]),
    ];
    let (min, max) = get_minmax(&images, 4).ok().unwrap();
    assert_eq!(min.rgb(), &vec![[10u8, 100, 30], [0, 0, 0], [100, 100, 100], [9, 8, 7]]);
    assert_eq!(max.rgb(), &vec![[20u8, 200, 31], [5, 5, 5], [255, 255, 255], [9, 8, 7]]);
    for img in &images {
        for (i, p) in img_to_rgb(img).iter().enumerate() {
            for c in 0..3 {
                assert!(min.rgb()[i][c] <= p[c] && p[c] <= max.rgb()[i][c]);
            }
        }
    }
}

#[test]
fn extrema_of_an_empty_batch_are_neutral() {
    let (min, max) = get_minmax(&vec![], 2).ok().unwrap();
    assert_eq!(min.rgb(), &vec![[255u8, 255, 255]; 2]);
    assert_eq!(max.rgb(), &vec![[0u8, 0, 0]; 2]);
}

#[test]
fn get_minmax_refuses_an_image_that_does_not_fit() {
    let images = vec![rgb(1, 1, &[[1, 1, 1]]), rgb(2, 2, &[[1, 1, 1]; 4])];
    assert!(matches!(get_minmax(&images, 3), Err(TransformError::ExtremaTooShort)));
    assert!(get_minmax(&images, 4).is_ok());
}

#[test]
fn batch_round_trip_with_accumulated_extrema() {
    let images = vec![
        rgb(2, 2, &[[10, 200, 30], [0, 0, 0], [255, 255, 255], [9, 8, 7]]),
        rgb(2, 2, &[[200, 10, 31], [255, 255, 255], [0, 0, 0], [9, 8, 7]]),
        rgb(1, 3, &[[100, 100, 30], [128, 127, 126], [1, 254, 77]]),
        rgb(2, 1, &[[10, 10, 31], [0, 255, 0]]),
    ];
    let (w, h) = get_largest_image(&images);
    assert_eq!((w, h), (2, 2));
    let (min, max) = get_minmax(&images, w * h).ok().unwrap();
    let encoded = encode(&min, &max, &images).unwrap();
    assert_eq!(encoded.len(), images.len());
    for (e, s) in encoded.iter().zip(images.iter()) {
        assert_eq!((e.width(), e.height()), (s.width(), s.height()));
    }
    assert_ne!(encoded, images);
    let min_img = min.save(w as u32, h as u32).unwrap();
    let max_img = max.save(w as u32, h as u32).unwrap();
    let decoded = decode(&img_to_rgb(&min_img), &img_to_rgb(&max_img), &encoded).unwrap();
    assert_eq!(decoded, images);
}

#[test]
fn encode_image_keeps_the_dimensions() {
    let min = MinMaxImg::from_pixels(vec![[10, 0, 0]; 6]);
    let max = MinMaxImg::from_pixels(vec![[200, 0, 0]; 6]);
    let src = rgb(3, 2, &[[200, 0, 0], [190, 0, 0], [20, 0, 0], [15, 0, 0], [10, 0, 0], [200, 0, 0]]);
    let out = encode_image(&min, &max, &src).unwrap();
    assert_eq!((out.width(), out.height()), (3, 2));
    assert_eq!(
        img_to_rgb(&out),
        vec![[190, 0, 0], [10, 0, 0], [180, 0, 0], [5, 0, 0], [0, 0, 0], [190, 0, 0]]
    );
    assert_eq!(decode_image(min.rgb(), max.rgb(), &out), Ok(src));
}

#[test]
fn each_image_of_a_batch_starts_fresh() {
    let min = MinMaxImg::from_pixels(vec![[10, 0, 0]; 2]);
    let max = MinMaxImg::from_pixels(vec![[200, 0, 0]; 2]);
    let one = rgb(1, 1, &[[200, 0, 0]]);
    let two = rgb(2, 1, &[[200, 0, 0], [200, 0, 0]]);
    let out = encode(&min, &max, &vec![one.clone(), two.clone(), one.clone()]).unwrap();
    assert_eq!(img_to_rgb(&out[0]), vec![[190, 0, 0]]);
    assert_eq!(img_to_rgb(&out[1]), vec![[190, 0, 0], [0, 0, 0]]);
    assert_eq!(img_to_rgb(&out[2]), vec![[190, 0, 0]]);
    assert_eq!(out[0], encode_image(&min, &max, &one).unwrap());
    assert_eq!(out[1], encode_image(&min, &max, &two).unwrap());
}

#[test]
fn image_larger_than_the_extrema_is_refused() {
    let min = MinMaxImg::from_pixels(vec![[0, 0, 0]; 3]);
    let max = MinMaxImg::from_pixels(vec![[255, 255, 255]; 4]);
    let img = rgb(2, 2, &[[1, 1, 1]; 4]);
    assert_eq!(encode_image(&min, &max, &img), Err(TransformError::ExtremaTooShort));
    assert_eq!(decode_image(max.rgb(), min.rgb(), &img), Err(TransformError::ExtremaTooShort));
    assert_eq!(encode(&min, &max, &vec![img]), Err(TransformError::ExtremaTooShort));
}

#[test]
fn too_short_is_reported_before_inverted() {
    let min = MinMaxImg::from_pixels(vec![[9, 9, 9]; 1]);
    let max = MinMaxImg::from_pixels(vec![[0, 0, 0]; 1]);
    let small = rgb(1, 1, &[[1, 1, 1]]);
    let large = rgb(2, 1, &[[1, 1, 1]; 2]);
    assert_eq!(encode_image(&min, &max, &small), Err(TransformError::InvertedExtrema));
    assert_eq!(encode_image(&min, &max, &large), Err(TransformError::ExtremaTooShort));
    assert_eq!(decode_image(min.rgb(), max.rgb(), &small), Err(TransformError::InvertedExtrema));
}

#[test]
fn batch_ends_with_the_error_of_its_first_refused_image() {
    let min = MinMaxImg::from_pixels(vec![[0, 0, 0], [9, 9, 9]]);
    let max = MinMaxImg::from_pixels(vec![[255, 255, 255], [0, 0, 0]]);
    let fine = rgb(1, 1, &[[1, 1, 1]]);
    let inverted = rgb(2, 1, &[[1, 1, 1]; 2]);
    let long = rgb(3, 1, &[[1, 1, 1]; 3]);
    assert_eq!(
        encode(&min, &max, &vec![fine.clone(), inverted.clone(), long.clone()]),
        Err(TransformError::InvertedExtrema)
    );
    assert_eq!(
        decode(min.rgb(), max.rgb(), &vec![fine.clone(), long, inverted]),
        Err(TransformError::ExtremaTooShort)
    );
    assert_eq!(encode(&min, &max, &vec![fine.clone()]).unwrap().len(), 1);
    assert_eq!(encode(&min, &max, &vec![]), Ok(vec![]));
}

#[test]
fn image_without_pixels_passes_through() {
    let min = MinMaxImg::from_pixels(vec![]);
    let max = MinMaxImg::from_pixels(vec![]);
    let empty = DynamicImage::ImageRgb8(RgbImage::new(0, 3));
    let out = encode_image(&min, &max, &empty).unwrap();
    assert_eq!((out.width(), out.height()), (0, 3));
    let back = decode_image(min.rgb(), max.rgb(), &out).unwrap();
    assert_eq!((back.width(), back.height()), (0, 3));
}
