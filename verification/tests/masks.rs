use bit_vec::BitVec;
use mimesis::{generate_binary_mask, BinaryImage, Error, MaskMethod};

fn pixels(image: &BinaryImage) -> Vec<bool> {
    let mut all = Vec::new();
    for y in 0..image.height() {
        for x in 0..image.width() {
            all.push(image.get_pixel(x, y));
        }
    }
    all
}

#[test]
fn new_image_is_all_background() {
    let image = BinaryImage::new(3, 2);
    assert_eq!(image.width(), 3);
    assert_eq!(image.height(), 2);
    assert_eq!(pixels(&image), vec![false; 6]);
}

#[test]
fn new_image_may_be_empty() {
    let image = BinaryImage::new(0, 5);
    assert_eq!(image.width(), 0);
    assert_eq!(image.height(), 5);
    assert!(pixels(&image).is_empty());
}

#[test]
fn from_raw_reads_one_byte_per_pixel() {
    let image = BinaryImage::from_raw(3, 2, &[0, 1, 0, 255, 0, 7]).unwrap();
    assert_eq!(image.width(), 3);
    assert_eq!(image.height(), 2);
    assert_eq!(pixels(&image), vec![false, true, false, true, false, true]);
    assert!(image.get_pixel(0, 1));
    assert!(!image.get_pixel(1, 1));
    assert!(image.get_pixel(2, 1));
}

#[test]
fn from_raw_combines_the_bytes_of_a_pixel() {
    // Four bytes for each of two pixels: a pixel is set when any byte is.
    let image = BinaryImage::from_raw(2, 1, &[0, 0, 0, 0, 0, 0, 9, 0]).unwrap();
    assert_eq!(pixels(&image), vec![false, true]);
    let image = BinaryImage::from_raw(2, 1, &[0, 0, 0, 1, 0, 0, 0, 0]).unwrap();
    assert_eq!(pixels(&image), vec![true, false]);
}

#[test]
fn from_raw_ignores_bytes_past_the_last_whole_pixel() {
    // Five bytes for two pixels: two bytes each, the fifth is left over.
    let image = BinaryImage::from_raw(2, 1, &[0, 0, 0, 3, 1]).unwrap();
    assert_eq!(pixels(&image), vec![false, true]);
}

#[test]
fn from_raw_refuses_a_short_buffer() {
    assert!(matches!(BinaryImage::from_raw(2, 2, &[1, 1, 1]), Err(Error::InvalidDimensions)));
}

#[test]
fn from_raw_refuses_an_empty_image() {
    assert!(matches!(BinaryImage::from_raw(0, 4, &[1, 1, 1]), Err(Error::InvalidDimensions)));
    assert!(matches!(BinaryImage::from_raw(0, 0, &[]), Err(Error::InvalidDimensions)));
}

#[test]
fn from_mask_takes_only_full_white() {
    let image = BinaryImage::from_mask(2, 2, &[255, 254, 0, 255]).unwrap();
    assert_eq!(pixels(&image), vec![true, false, false, true]);
}

#[test]
fn from_mask_refuses_a_short_buffer() {
    assert!(matches!(BinaryImage::from_mask(2, 2, &[255, 255, 255]), Err(Error::InvalidDimensions)));
}

#[test]
fn from_bitvec_keeps_the_bits() {
    let mut bits = BitVec::from_elem(6, false);
    bits.set(1, true);
    bits.set(5, true);
    let image = BinaryImage::from_bitvec(3, 2, bits).unwrap();
    assert_eq!(pixels(&image), vec![false, true, false, false, false, true]);
}

#[test]
fn from_bitvec_reads_the_first_bits() {
    let mut bits = BitVec::from_elem(9, true);
    bits.set(0, false);
    let image = BinaryImage::from_bitvec(2, 2, bits).unwrap();
    assert_eq!(pixels(&image), vec![false, true, true, true]);
}

#[test]
fn from_bitvec_refuses_too_few_bits() {
    let bits = BitVec::from_elem(5, true);
    assert!(matches!(BinaryImage::from_bitvec(3, 2, bits), Err(Error::InvalidDimensions)));
}

#[test]
fn clone_has_the_same_pixels() {
    let image = BinaryImage::from_raw(2, 2, &[1, 0, 0, 1]).unwrap();
    let copy = image.clone();
    assert_eq!(copy.width(), 2);
    assert_eq!(copy.height(), 2);
    assert_eq!(pixels(&copy), vec![true, false, false, true]);
}

#[test]
fn default_method_is_alpha() {
    assert_eq!(MaskMethod::default(), MaskMethod::Alpha);
}

#[test]
fn methods_read_their_layout() {
    assert_eq!(MaskMethod::Luminance.stride(), 1);
    assert_eq!(MaskMethod::Luminance.offset(), 0);
    assert_eq!(MaskMethod::Alpha.stride(), 4);
    assert_eq!(MaskMethod::Alpha.offset(), 3);
    assert_eq!(MaskMethod::Red.stride(), 3);
    assert_eq!(MaskMethod::Red.offset(), 0);
    assert_eq!(MaskMethod::Green.stride(), 3);
    assert_eq!(MaskMethod::Green.offset(), 1);
    assert_eq!(MaskMethod::Blue.stride(), 3);
    assert_eq!(MaskMethod::Blue.offset(), 2);
}

#[test]
fn threshold_is_strict() {
    let luma = [127u8, 128, 129, 0];
    let image = generate_binary_mask(2, 2, &luma, MaskMethod::Luminance, 128).unwrap();
    assert_eq!(pixels(&image), vec![false, false, true, false]);
    let image = generate_binary_mask(2, 2, &luma, MaskMethod::Luminance, 0).unwrap();
    assert_eq!(pixels(&image), vec![true, true, true, false]);
    let image = generate_binary_mask(2, 2, &luma, MaskMethod::Luminance, 255).unwrap();
    assert_eq!(pixels(&image), vec![false; 4]);
}

#[test]
fn alpha_reads_the_fourth_byte() {
    let rgba = [255u8, 255, 255, 0, 0, 0, 0, 200];
    let image = generate_binary_mask(2, 1, &rgba, MaskMethod::Alpha, 128).unwrap();
    assert_eq!(pixels(&image), vec![false, true]);
}

#[test]
fn colour_channels_read_their_byte() {
    let rgb = [200u8, 10, 20, 10, 200, 20, 10, 20, 200];
    let red = generate_binary_mask(3, 1, &rgb, MaskMethod::Red, 100).unwrap();
    assert_eq!(pixels(&red), vec![true, false, false]);
    let green = generate_binary_mask(3, 1, &rgb, MaskMethod::Green, 100).unwrap();
    assert_eq!(pixels(&green), vec![false, true, false]);
    let blue = generate_binary_mask(3, 1, &rgb, MaskMethod::Blue, 100).unwrap();
    assert_eq!(pixels(&blue), vec![false, false, true]);
}

#[test]
fn every_pixel_follows_its_channel() {
    let width = 5u32;
    let height = 4u32;
    let mut rgba = Vec::new();
    for i in 0..(width * height) {
        rgba.extend_from_slice(&[(i * 7 % 256) as u8, (i * 13 % 256) as u8, 3, (i * 29 % 256) as u8]);
    }
    for threshold in [0u8, 50, 128, 254, 255] {
        let image = generate_binary_mask(width, height, &rgba, MaskMethod::Alpha, threshold).unwrap();
        for y in 0..height {
            for x in 0..width {
                let alpha = rgba[((y * width + x) * 4 + 3) as usize];
                assert_eq!(image.get_pixel(x, y), alpha > threshold);
            }
        }
    }
}

#[test]
fn mask_refuses_a_buffer_of_another_layout() {
    let rgb = [0u8; 12];
    assert!(matches!(
        generate_binary_mask(2, 2, &rgb, MaskMethod::Alpha, 10),
        Err(Error::InvalidDimensions)
    ));
    assert!(generate_binary_mask(2, 2, &rgb, MaskMethod::Red, 10).is_ok());
    assert!(matches!(
        generate_binary_mask(2, 2, &rgb, MaskMethod::Luminance, 10),
        Err(Error::InvalidDimensions)
    ));
}

#[test]
fn mask_refuses_an_empty_image() {
    assert!(matches!(
        generate_binary_mask(0, 0, &[], MaskMethod::Luminance, 10),
        Err(Error::InvalidDimensions)
    ));
}

#[test]
fn errors_have_messages() {
    assert_eq!(Error::InvalidBoundingBox.message(), "Invalid bounding box");
    assert_eq!(Error::NotEnoughPoints.message(), "Not enough points to form a polygon");
    assert_eq!(Error::TriangulationFailed.message(), "Triangulation failed");
    assert_eq!(Error::InvalidDimensions.message(), "Buffer does not match image dimensions");
    assert_eq!(Error::custom("disk full").message(), "disk full");
    assert!(matches!(Error::custom("x"), Error::Custom(_)));
}
