use bevy_terrain::error::HeightMapError;
use bevy_terrain::heightmap::{has_number_luma, is_nan_pattern, load_height_map, HeightMap};
use image::{DynamicImage, ImageBuffer, ImageFormat, ImageOutputFormat, Luma, Rgb, Rgba};
use std::io::Cursor;

fn encode(image: DynamicImage, format: ImageOutputFormat) -> Vec<u8> {
    let mut bytes: Vec<u8> = Vec::new();
    image.write_to(&mut Cursor::new(&mut bytes), format).unwrap();
    bytes
}

/// Encodes the pixels as a 16-bit greyscale PNG file and decodes that file.
fn grey16_png(width: u32, height: u32, pixels: Vec<u16>) -> DynamicImage {
    let buffer: ImageBuffer<Luma<u16>, Vec<u16>> = ImageBuffer::from_raw(width, height, pixels).unwrap();
    let data = encode(DynamicImage::ImageLuma16(buffer), ImageOutputFormat::Png);
    image::load_from_memory_with_format(&data, ImageFormat::Png).unwrap()
}

fn elevations(map: &HeightMap) -> Vec<f64> {
    map.map.iter().map(|&s| s as f64 / map.resolution as f64).collect()
}

/// A decoded square image of the given side whose pixels are all `fill`, but
/// for the chosen ones.
fn image_with(side: u32, fill: u16, chosen: &[(usize, u16)]) -> DynamicImage {
    let mut pixels: Vec<u16> = vec![fill; (side * side) as usize];
    for &(at, value) in chosen {
        pixels[at] = value;
    }
    grey16_png(side, side, pixels)
}

fn rgb_float(width: u32, height: u32, samples: Vec<f32>) -> DynamicImage {
    let buffer: ImageBuffer<Rgb<f32>, Vec<f32>> = ImageBuffer::from_raw(width, height, samples).unwrap();
    DynamicImage::ImageRgb32F(buffer)
}

fn rgba_float(width: u32, height: u32, samples: Vec<f32>) -> DynamicImage {
    let buffer: ImageBuffer<Rgba<f32>, Vec<f32>> = ImageBuffer::from_raw(width, height, samples).unwrap();
    DynamicImage::ImageRgba32F(buffer)
}

#[test]
fn terrain_from_file_402() {
    let image = image_with(256, 30000, &[(0, 34695), (200, 39321), (4000, 42405), (65535, 27242)]);
    if let Ok(height_map) = load_height_map(image) {
        assert_eq!(height_map.width, 256);
        assert_eq!(height_map.max_height as f64, 42405.);
        assert_eq!(height_map.min_height as f64, 27242.);
        assert_eq!(height_map.map[0] as f64, 34695.);
        assert_eq!(height_map.map[200] as f64, 39321.);
        assert_eq!(height_map.resolution, 1);
    } else {
        panic!("Unable to load test image map");
    }
}

#[test]
fn terrain_from_file_svanesund() {
    let image = image_with(1700, 9000, &[(0, 15420), (1000, 4626), (77, 65535), (2_889_999, 0)]);
    if let Ok(height_map) = load_height_map(image) {
        assert_eq!(height_map.width, 1700);
        assert_eq!(height_map.max_height as f64, 65535.);
        assert_eq!(height_map.min_height as f64, 0.);
        assert_eq!(height_map.map[0] as f64, 15420.);
        assert_eq!(height_map.map[1000] as f64, 4626.);
    } else {
        panic!("Unable to load test image map");
    }
}

#[test]
fn scale_file_terrain() {
    let image = image_with(256, 30000, &[(0, 34695), (200, 39321), (4000, 42405), (65535, 27242)]);
    if let Ok(height_map) = load_height_map(image) {
        let map = height_map.transform(1, 0).unwrap();
        assert_eq!(map.width, 256);
        assert_eq!(map.max_height as f64 / map.resolution as f64, 1.);
        assert_eq!(map.min_height as f64 / map.resolution as f64, 0.);
        let heights = elevations(&map);
        assert!((heights[0] - 0.4915254237288135).abs() < 1.0e-6);
        assert!((heights[200] - 0.7966101694915254).abs() < 1.0e-6);
        assert_eq!(map.resolution, 15163);
        assert_eq!(map.map[0], 7453);
        assert_eq!(map.map[200], 12079);
    } else {
        panic!("Unable to load test image map");
    }
}

#[test]
fn load_keeps_the_order_of_the_pixels() {
    let image = grey16_png(3, 3, vec![10, 20, 30, 40, 50, 60, 70, 80, 65535]);
    let map = load_height_map(image).unwrap();
    assert_eq!(map.width, 3);
    assert_eq!(map.map, vec![10, 20, 30, 40, 50, 60, 70, 80, 65535]);
    assert_eq!(map.max_height, 65535);
    assert_eq!(map.min_height, 10);
    assert_eq!(map.resolution, 1);
    assert!(map.is_square());
}

#[test]
fn load_finds_the_extremes_wherever_they_are() {
    let image = grey16_png(2, 2, vec![500, 3, 500, 499]);
    let map = load_height_map(image).unwrap();
    assert_eq!(map.max_height, 500);
    assert_eq!(map.min_height, 3);
    let rescanned = HeightMap::from_vec(map.map.clone()).unwrap();
    assert_eq!(rescanned.max_height, map.max_height);
    assert_eq!(rescanned.min_height, map.min_height);
    assert_eq!(map.map.len(), (map.width as usize) * (map.width as usize));
}

#[test]
fn load_single_pixel() {
    let map = load_height_map(grey16_png(1, 1, vec![1234])).unwrap();
    assert_eq!(map.width, 1);
    assert_eq!(map.map, vec![1234]);
    assert_eq!(map.max_height, 1234);
    assert_eq!(map.min_height, 1234);
}

#[test]
fn load_widens_eight_bit_grey() {
    let buffer: ImageBuffer<Luma<u8>, Vec<u8>> = ImageBuffer::from_raw(2, 2, vec![0, 1, 128, 255]).unwrap();
    let map = load_height_map(DynamicImage::ImageLuma8(buffer)).unwrap();
    assert_eq!(map.map, vec![0, 257, 32896, 65535]);
    assert_eq!(map.max_height, 65535);
    assert_eq!(map.min_height, 0);
}

#[test]
fn load_reads_every_integer_format() {
    let colour: ImageBuffer<Rgb<u8>, Vec<u8>> = ImageBuffer::from_raw(1, 1, vec![255, 255, 255]).unwrap();
    assert_eq!(load_height_map(DynamicImage::ImageRgb8(colour)).unwrap().map, vec![65535]);
    let deep: ImageBuffer<Rgba<u16>, Vec<u16>> = ImageBuffer::from_raw(1, 1, vec![0, 0, 0, 65535]).unwrap();
    assert_eq!(load_height_map(DynamicImage::ImageRgba16(deep)).unwrap().map, vec![0]);
    let grey: ImageBuffer<Luma<u16>, Vec<u16>> = ImageBuffer::from_raw(2, 2, vec![11, 65535, 0, 13]).unwrap();
    let map = load_height_map(DynamicImage::ImageLuma16(grey)).unwrap();
    assert_eq!(map.map, vec![11, 65535, 0, 13]);
    assert_eq!(map.width, 2);
}

#[test]
fn load_rejects_an_image_that_is_not_square() {
    assert_eq!(load_height_map(grey16_png(3, 2, vec![1, 2, 3, 4, 5, 6])), Err(HeightMapError::NotSquare));
    assert_eq!(load_height_map(grey16_png(1, 2, vec![1, 2])), Err(HeightMapError::NotSquare));
}

#[test]
fn load_rejects_an_image_without_pixels() {
    let none: ImageBuffer<Luma<u16>, Vec<u16>> = ImageBuffer::from_raw(0, 0, vec![]).unwrap();
    assert_eq!(load_height_map(DynamicImage::ImageLuma16(none)), Err(HeightMapError::Empty));
    let flat: ImageBuffer<Luma<u16>, Vec<u16>> = ImageBuffer::from_raw(0, 3, vec![]).unwrap();
    assert_eq!(load_height_map(DynamicImage::ImageLuma16(flat)), Err(HeightMapError::NotSquare));
}

#[test]
fn load_reads_floating_point_samples() {
    let image = rgb_float(
        2,
        2,
        vec![0.5, 0.5, 0.5, 1.0, 1.0, 1.0, 0.0, 0.0, 0.0, 1.0, 0.0, 0.0],
    );
    let map = load_height_map(image).unwrap();
    assert_eq!(map.width, 2);
    assert_eq!(map.map, vec![32768, 65535, 0, 13933]);
    assert_eq!(map.max_height, 65535);
    assert_eq!(map.min_height, 0);
    let image = rgba_float(1, 1, vec![1.0, 1.0, 1.0, 0.25]);
    assert_eq!(load_height_map(image).unwrap().map, vec![65535]);
}

#[test]
fn load_clamps_floating_point_samples_out_of_range() {
    let image = rgb_float(
        2,
        2,
        vec![
            7.0,
            7.0,
            7.0,
            -3.0,
            -3.0,
            -3.0,
            f32::INFINITY,
            0.0,
            f32::MAX,
            f32::NEG_INFINITY,
            f32::MIN,
            0.0,
        ],
    );
    assert_eq!(load_height_map(image).unwrap().map, vec![65535, 0, 65535, 0]);
    // what is no number in the fourth channel does no harm
    let image = rgba_float(1, 1, vec![0.0, 0.0, 0.0, f32::NAN]);
    assert_eq!(load_height_map(image).unwrap().map, vec![0]);
}

#[test]
fn load_rejects_grey_values_that_are_no_numbers() {
    let image = rgb_float(1, 1, vec![f32::NAN, 0.5, 0.5]);
    assert_eq!(load_height_map(image), Err(HeightMapError::Undecodable));
    let image = rgba_float(1, 1, vec![0.5, 0.5, -f32::NAN, 1.0]);
    assert_eq!(load_height_map(image), Err(HeightMapError::Undecodable));
    let image = rgb_float(1, 1, vec![f32::INFINITY, 0.5, f32::NEG_INFINITY]);
    assert_eq!(load_height_map(image), Err(HeightMapError::Undecodable));
    let image = rgb_float(
        2,
        2,
        vec![0.1, 0.2, 0.3, 0.1, 0.2, 0.3, 0.1, 0.2, 0.3, 0.1, f32::NAN, 0.3],
    );
    assert_eq!(load_height_map(image), Err(HeightMapError::Undecodable));
}

#[test]
fn load_reports_the_shape_before_the_samples() {
    let image = rgb_float(2, 1, vec![f32::NAN; 6]);
    assert_eq!(load_height_map(image), Err(HeightMapError::NotSquare));
    let image = rgba_float(1, 3, vec![0.5; 12]);
    assert_eq!(load_height_map(image), Err(HeightMapError::NotSquare));
}

#[test]
fn load_reads_a_buffer_with_spare_samples() {
    let buffer: ImageBuffer<Rgb<f32>, Vec<f32>> =
        ImageBuffer::from_raw(1, 1, vec![1.0, 1.0, 1.0, f32::NAN, f32::NAN]).unwrap();
    let map = load_height_map(DynamicImage::ImageRgb32F(buffer)).unwrap();
    assert_eq!(map.map, vec![65535]);
}

#[test]
fn load_reads_a_decoded_floating_point_file() {
    let image = rgb_float(2, 2, vec![1.0; 12]);
    let data = encode(image, ImageOutputFormat::OpenExr);
    let decoded = image::load_from_memory_with_format(&data, ImageFormat::OpenExr).unwrap();
    assert_eq!(load_height_map(decoded).unwrap().map, vec![65535; 4]);
    let image = rgb_float(2, 2, vec![f32::NAN; 12]);
    let data = encode(image, ImageOutputFormat::OpenExr);
    let decoded = image::load_from_memory_with_format(&data, ImageFormat::OpenExr).unwrap();
    assert_eq!(load_height_map(decoded), Err(HeightMapError::Undecodable));
}

#[test]
fn bit_patterns_that_are_no_numbers() {
    assert!(is_nan_pattern(f32::NAN.to_bits()));
    assert!(is_nan_pattern((-f32::NAN).to_bits()));
    assert!(is_nan_pattern(0x7f80_0001));
    assert!(is_nan_pattern(0x7fff_ffff));
    assert!(is_nan_pattern(0xff80_0001));
    assert!(is_nan_pattern(0xffff_ffff));
    assert!(!is_nan_pattern(f32::INFINITY.to_bits()));
    assert!(!is_nan_pattern(f32::NEG_INFINITY.to_bits()));
    assert!(!is_nan_pattern(f32::MAX.to_bits()));
    assert!(!is_nan_pattern(f32::MIN.to_bits()));
    assert!(!is_nan_pattern(0));
    assert!(!is_nan_pattern(0x8000_0000));
    let mut bits: u32 = 0;
    while bits < 0xffff_0000 {
        assert_eq!(is_nan_pattern(bits), f32::from_bits(bits).is_nan());
        bits += 0x0000_ffff;
    }
}

#[test]
fn grey_values_that_are_numbers() {
    let one = 1.0f32.to_bits();
    let up = f32::INFINITY.to_bits();
    let down = f32::NEG_INFINITY.to_bits();
    let none = f32::NAN.to_bits();
    assert!(has_number_luma(one, one, one));
    assert!(has_number_luma(up, one, up));
    assert!(has_number_luma(down, down, one));
    assert!(!has_number_luma(up, one, down));
    assert!(!has_number_luma(down, up, one));
    assert!(!has_number_luma(none, one, one));
    assert!(!has_number_luma(one, none, one));
    assert!(!has_number_luma(one, one, none));
}

#[test]
fn from_pixels_builds_the_grid() {
    let map = HeightMap::from_pixels(2, 2, vec![7, 65535, 0, 9]).unwrap();
    assert_eq!(map.width, 2);
    assert_eq!(map.map, vec![7, 65535, 0, 9]);
    assert_eq!(map.max_height, 65535);
    assert_eq!(map.min_height, 0);
    assert_eq!(map.resolution, 1);
}

#[test]
fn from_pixels_errors() {
    assert_eq!(HeightMap::from_pixels(2, 3, vec![0; 6]), Err(HeightMapError::NotSquare));
    assert_eq!(HeightMap::from_pixels(2, 3, vec![0; 4]), Err(HeightMapError::NotSquare));
    assert_eq!(HeightMap::from_pixels(2, 2, vec![0; 3]), Err(HeightMapError::Undecodable));
    assert_eq!(HeightMap::from_pixels(2, 2, vec![0; 5]), Err(HeightMapError::Undecodable));
    assert_eq!(HeightMap::from_pixels(0, 0, vec![]), Err(HeightMapError::Empty));
    assert_eq!(HeightMap::from_pixels(0, 0, vec![1]), Err(HeightMapError::Undecodable));
    assert_eq!(HeightMap::from_pixels(65_536, 65_536, vec![]), Err(HeightMapError::TooLarge));
    assert_eq!(HeightMap::from_pixels(65_535, 65_535, vec![]), Err(HeightMapError::Undecodable));
    assert_eq!(HeightMap::from_pixels(70_000, 3, vec![]), Err(HeightMapError::NotSquare));
}

