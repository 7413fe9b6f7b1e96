use raytracing::config::RenderConfig;
use raytracing::image::{Image, Pixel, CHANNEL_SCALE_BITS};
use raytracing::scalar::Scalar;
use raytracing::vector::Vector3;

fn s(x: f32) -> Scalar {
    Scalar::from_bits(x.to_bits())
}

fn px(r: u8, g: u8, b: u8) -> Pixel {
    Pixel { r, g, b }
}

#[test]
fn channel_scale_is_the_bits_of_its_number() {
    assert_eq!(CHANNEL_SCALE_BITS, 255.999f32.to_bits());
}

#[test]
fn a_new_image_is_black() {
    let image = Image::new(&RenderConfig::new(3, 2, 1).unwrap());
    assert_eq!(image.width(), 3);
    assert_eq!(image.height(), 2);
    assert_eq!(image.len(), 6);
    for k in 0..6 {
        assert_eq!(image.nth(k), Some(px(0, 0, 0)));
    }
    assert_eq!(image.nth(6), None);
}

#[test]
fn the_top_row_comes_first() {
    let mut image = Image::new(&RenderConfig::new(3, 2, 1).unwrap());
    // Row 1 is the top row of a two-row image, row 0 the bottom one.
    assert!(image.set(0, 1, px(1, 0, 0)));
    assert!(image.set(1, 1, px(2, 0, 0)));
    assert!(image.set(2, 1, px(3, 0, 0)));
    assert!(image.set(0, 0, px(4, 0, 0)));
    assert!(image.set(1, 0, px(5, 0, 0)));
    assert!(image.set(2, 0, px(6, 0, 0)));
    for k in 0..6 {
        assert_eq!(image.nth(k), Some(px(k as u8 + 1, 0, 0)));
    }
}

#[test]
fn coordinates_walk_the_rows_from_the_top_down() {
    let image = Image::new(&RenderConfig::new(3, 2, 1).unwrap());
    let places: Vec<Option<(u32, u32)>> = (0..7).map(|k| image.coordinates(k)).collect();
    assert_eq!(
        places,
        vec![
            Some((0, 1)),
            Some((1, 1)),
            Some((2, 1)),
            Some((0, 0)),
            Some((1, 0)),
            Some((2, 0)),
            None
        ]
    );
}

#[test]
fn get_returns_what_set_stored_and_nothing_else_changes() {
    let mut image = Image::new(&RenderConfig::new(4, 3, 1).unwrap());
    assert!(image.set(2, 1, px(9, 8, 7)));
    for j in 0..3 {
        for i in 0..4 {
            let expected = if (i, j) == (2, 1) { px(9, 8, 7) } else { px(0, 0, 0) };
            assert_eq!(image.get(i, j), Some(expected));
        }
    }
    assert_eq!(image.nth(1 * 4 + 2), Some(px(9, 8, 7)));
}

#[test]
fn outside_the_image_nothing_is_stored_or_found() {
    let mut image = Image::new(&RenderConfig::new(4, 3, 1).unwrap());
    assert!(!image.contains(4, 0));
    assert!(!image.contains(0, 3));
    assert!(image.contains(3, 2));
    assert!(!image.set(4, 0, px(1, 1, 1)));
    assert!(!image.set(0, 3, px(1, 1, 1)));
    assert_eq!(image.get(4, 0), None);
    assert_eq!(image.get(0, 3), None);
    for k in 0..12 {
        assert_eq!(image.nth(k), Some(px(0, 0, 0)));
    }
}

#[test]
fn every_place_has_its_own_coordinates() {
    let image = Image::new(&RenderConfig::new(5, 4, 1).unwrap());
    let mut seen = vec![false; 20];
    for k in 0..20 {
        let (i, j) = image.coordinates(k).unwrap();
        let place = ((3 - j) * 5 + i) as usize;
        assert_eq!(place, k);
        assert!(!seen[place]);
        seen[place] = true;
    }
}

#[test]
fn a_scaled_colour_is_cut_and_clamped() {
    let color = Vector3::new(s(221.7), s(236.02), s(255.999));
    assert_eq!(Pixel::from_color(color), px(221, 236, 255));
    let out_of_range = Vector3::new(s(-4.0), s(300.5), s(f32::NAN));
    assert_eq!(Pixel::from_color(out_of_range), px(0, 255, 0));
}

#[test]
fn gamma_corrected_half_grey_is_181() {
    let scale = f32::from_bits(CHANNEL_SCALE_BITS);
    let channel = scale * 0.5f32.sqrt();
    assert_eq!(Pixel::from_color(Vector3::new(s(channel), s(channel), s(channel))), px(181, 181, 181));
}
