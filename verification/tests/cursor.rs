use starfall_dominion::cursor::{resize, Image, HEIGHT};

#[test]
fn downscale_weights_colour_by_alpha() {
    let mut rgba = vec![0; 16];
    rgba[..4].copy_from_slice(&[255, 0, 0, 255]);
    // Three fully transparent pixels hiding bright green.
    for pixel in rgba[4..].chunks_exact_mut(4) {
        pixel.copy_from_slice(&[0, 255, 0, 0]);
    }
    let small = resize(&Image::new(2, 2, rgba), 1, 1);
    assert_eq!(small.pixel(0, 0), [255, 0, 0, 64]);
}

#[test]
fn a_plain_picture_keeps_its_colour_at_any_size() {
    let rgba: Vec<u8> = [10u8, 20, 30, 255].repeat(6 * 4);
    let image = Image::new(6, 4, rgba);
    let small = resize(&image, 3, 2);
    assert_eq!((small.width, small.height), (3, 2));
    assert_eq!(small.rgba.len(), 3 * 2 * 4);
    for y in 0..2 {
        for x in 0..3 {
            assert_eq!(small.pixel(x, y), [10, 20, 30, 255]);
        }
    }
    let same = resize(&image, 6, 4);
    assert_eq!(same, image);
    assert_eq!(HEIGHT, 96);
}

#[test]
fn a_fully_clear_block_stays_clear_and_black() {
    let image = Image::new(2, 1, vec![200, 100, 50, 0, 10, 10, 10, 0]);
    let small = resize(&image, 1, 1);
    assert_eq!(small.pixel(0, 0), [0, 0, 0, 0]);
    let nothing = resize(&image, 0, 3);
    assert!(nothing.rgba.is_empty());
}
