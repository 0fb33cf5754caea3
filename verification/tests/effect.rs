use bitmap::BitMap;
use bitmap::EdgeDetection;
use bitmap::Effect;
use bitmap::Image;
use bitmap::Pixel;

fn filled(width: u32, height: u32, p: Pixel) -> Image {
    let mut img = Image::with_size(width, height);
    for y in 0..height {
        for x in 0..width {
            assert!(img.set_pixel(x, y, p));
        }
    }
    img
}

#[test]
fn edge_white_interior_is_black_opaque() {
    // A 4x4 all-white image has zero gradient everywhere in its interior:
    // the 2x2 interior must be (0, 0, 0, 255), the border (0, 0, 0, 0).
    let img = filled(4, 4, Pixel::new(255, 255, 255, 255));
    let out = EdgeDetection::default().apply(&img);
    assert_eq!(out.get_size(), (4, 4));
    for y in 0..4u32 {
        for x in 0..4u32 {
            let p = out.get_pixel(x, y).unwrap();
            if (1..3).contains(&x) && (1..3).contains(&y) {
                assert_eq!(p, Pixel::new(0, 0, 0, 255));
            } else {
                assert_eq!(p, Pixel::new(0, 0, 0, 0));
            }
        }
    }
}

#[test]
fn edge_border_is_transparent_black() {
    // Whatever the input, the one-pixel border of the output is (0,0,0,0).
    let mut img = Image::with_size(5, 4);
    let mut k: u8 = 3;
    for y in 0..4u32 {
        for x in 0..5u32 {
            assert!(img.set_pixel(x, y, Pixel::new(k, k.wrapping_mul(7), k.wrapping_add(91), 255)));
            k = k.wrapping_mul(31).wrapping_add(17);
        }
    }
    let out = EdgeDetection::default().apply(&img);
    for y in 0..4u32 {
        for x in 0..5u32 {
            if x == 0 || x == 4 || y == 0 || y == 3 {
                assert_eq!(out.get_pixel(x, y).unwrap(), Pixel::new(0, 0, 0, 0));
            }
        }
    }
}

#[test]
fn edge_determinism() {
    let mut img = Image::with_size(4, 4);
    let mut k: u8 = 0;
    for y in 0..4u32 {
        for x in 0..4u32 {
            assert!(img.set_pixel(x, y, Pixel::new(k, 255 - k, k / 2, 200)));
            k = k.wrapping_add(23);
        }
    }
    let e = EdgeDetection::default();
    let out1 = e.apply(&img);
    let out2 = e.apply(&img);
    assert_eq!(out1.get_size(), out2.get_size());
    assert_eq!(out1.as_bytes(), out2.as_bytes());
}

#[test]
fn edge_small_images_stay_zero() {
    for (w, h) in [(0u32, 0u32), (1, 3), (3, 1), (2, 2)] {
        let img = filled(w, h, Pixel::new(200, 100, 50, 255));
        let out = EdgeDetection::default().apply(&img);
        assert_eq!(out.get_size(), (w, h));
        for y in 0..h {
            for x in 0..w {
                assert_eq!(out.get_pixel(x, y).unwrap(), Pixel::new(0, 0, 0, 0));
            }
        }
    }
}

#[test]
fn edge_known_gradient_truncates() {
    // West column luma 127, east column luma -128 (averages of 128 and above
    // wrap negative), middle column luma 0 above and below the center.
    // Gx = (-128 - 256 - 128) - (127 + 254 + 127) = -1020, Gy = 0, so the
    // magnitude 1020 truncates to 1020 mod 256 = 252; alpha is the center's.
    let mut img = Image::with_size(3, 3);
    for y in 0..3u32 {
        assert!(img.set_pixel(0, y, Pixel::new(127, 127, 127, 255)));
        assert!(img.set_pixel(2, y, Pixel::new(128, 128, 128, 255)));
    }
    assert!(img.set_pixel(1, 0, Pixel::new(0, 0, 0, 255)));
    assert!(img.set_pixel(1, 2, Pixel::new(0, 0, 0, 255)));
    assert!(img.set_pixel(1, 1, Pixel::new(9, 9, 9, 7)));

    let out = EdgeDetection::default().apply(&img);
    assert_eq!(out.get_pixel(1, 1).unwrap(), Pixel::new(252, 252, 252, 7));
}

#[test]
fn edge_magnitude_rounds_down() {
    // Only the east neighbor (luma 1) and south neighbor (luma 1) are set:
    // Gx = 2, Gy = 2, magnitude floor(sqrt(8)) = 2.
    let mut img = Image::with_size(3, 3);
    assert!(img.set_pixel(2, 1, Pixel::new(1, 1, 1, 0)));
    assert!(img.set_pixel(1, 2, Pixel::new(1, 1, 1, 0)));
    let out = EdgeDetection::default().apply(&img);
    assert_eq!(out.get_pixel(1, 1).unwrap(), Pixel::new(2, 2, 2, 0));
}

#[test]
fn bitmap_apply_effect() {
    let img = filled(4, 3, Pixel::new(255, 255, 255, 255));
    let bm = BitMap::with_image(img);
    let out = bm.apply_effect(EdgeDetection::default());
    assert_eq!(out.get_size(), (4, 3));
    assert_eq!(out.get_pixel(1, 1).unwrap(), Pixel::new(0, 0, 0, 255));
    assert_eq!(out.get_pixel(0, 0).unwrap(), Pixel::new(0, 0, 0, 0));
}

#[test]
fn pixel_bounds_checked() {
    let mut img = Image::with_size(3, 2);
    assert!(img.get_pixel(3, 0).is_none());
    assert!(img.get_pixel(0, 2).is_none());
    assert!(img.get_pixel(u32::MAX, u32::MAX).is_none());
    assert!(!img.set_pixel(3, 0, Pixel::new(1, 2, 3, 4)));
    assert!(!img.set_pixel(0, 2, Pixel::new(1, 2, 3, 4)));
    // Failed writes leave the image untouched.
    assert_eq!(img.as_bytes(), &vec![0u8; 24]);
    assert!(img.set_pixel(2, 1, Pixel::new(1, 2, 3, 4)));
    assert_eq!(img.get_pixel(2, 1), Some(Pixel::new(1, 2, 3, 4)));
}

#[test]
fn image_zero_sized_and_zero_filled() {
    let empty = Image::new();
    assert_eq!(empty.get_size(), (0, 0));
    assert!(empty.get_pixel(0, 0).is_none());

    let img = Image::with_size(2, 5);
    assert_eq!(img.get_size(), (2, 5));
    assert_eq!(img.as_bytes(), &vec![0u8; 40]);
}

#[test]
fn pixel_from_tuple() {
    let p = Pixel::from((1u8, 2u8, 3u8, 4u8));
    assert_eq!(p, Pixel::new(1, 2, 3, 4));
}
