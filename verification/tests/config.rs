use raytracing::config::{check_camera_basis, ConfigError, RenderConfig};
use raytracing::vector::has_direction;
use raytracing::scalar::Scalar;

fn s(x: f32) -> Scalar {
    Scalar::from_bits(x.to_bits())
}

#[test]
fn a_valid_configuration_keeps_its_numbers() {
    let config = RenderConfig::new(200, 100, 5).unwrap();
    assert_eq!(config.width(), 200);
    assert_eq!(config.height(), 100);
    assert_eq!(config.samples_per_pixel(), 5);
    assert_eq!(config.pixel_count(), 20_000);
}

#[test]
fn zero_width_is_rejected() {
    assert_eq!(RenderConfig::new(0, 100, 5), Err(ConfigError::ZeroWidth));
}

#[test]
fn zero_height_is_rejected() {
    assert_eq!(RenderConfig::new(200, 0, 5), Err(ConfigError::ZeroHeight));
}

#[test]
fn zero_samples_are_rejected() {
    assert_eq!(RenderConfig::new(200, 100, 0), Err(ConfigError::ZeroSamples));
}

#[test]
fn the_first_fault_is_reported() {
    assert_eq!(RenderConfig::new(0, 0, 0), Err(ConfigError::ZeroWidth));
    assert_eq!(RenderConfig::new(3, 0, 0), Err(ConfigError::ZeroHeight));
}

#[test]
fn an_image_that_does_not_fit_one_allocation_is_rejected() {
    assert_eq!(RenderConfig::new(u32::MAX, u32::MAX, 1), Err(ConfigError::ImageTooLarge));
    // The largest pixel count whose bytes still fit, and the first that does not.
    let most = (isize::MAX as u128 / 3).min(u32::MAX as u128 * u32::MAX as u128);
    let rows = (most / u32::MAX as u128).min(u32::MAX as u128) as u32;
    if rows >= 1 {
        assert!(RenderConfig::new(u32::MAX, rows, 1).is_ok());
    }
    if (rows as u128 + 1) * u32::MAX as u128 * 3 > isize::MAX as u128 && rows < u32::MAX {
        assert_eq!(RenderConfig::new(u32::MAX, rows + 1, 1), Err(ConfigError::ImageTooLarge));
    }
}

#[test]
fn the_size_is_looked_at_last() {
    assert_eq!(RenderConfig::new(u32::MAX, u32::MAX, 0), Err(ConfigError::ZeroSamples));
}

#[test]
fn every_error_has_its_message() {
    assert_eq!(ConfigError::ZeroWidth.message(), "image width must be at least 1");
    assert_eq!(ConfigError::ZeroHeight.message(), "image height must be at least 1");
    assert_eq!(ConfigError::ZeroSamples.message(), "samples per pixel must be at least 1");
    assert_eq!(
        ConfigError::ImageTooLarge.message(),
        "image is too large to be held in memory"
    );
    assert_eq!(
        ConfigError::DegenerateCamera.message(),
        "camera basis is degenerate: look_from, look_at and v_up must span a plane"
    );
}

#[test]
fn only_finite_positive_lengths_have_a_direction() {
    assert!(has_direction(s(1.0)));
    assert!(has_direction(s(1.0e-30)));
    assert!(has_direction(s(f32::MAX)));
    assert!(!has_direction(s(0.0)));
    assert!(!has_direction(s(-0.0)));
    assert!(!has_direction(s(-1.0)));
    assert!(!has_direction(s(f32::INFINITY)));
    assert!(!has_direction(s(f32::NAN)));
}

#[test]
fn a_camera_that_spans_a_plane_is_accepted() {
    assert_eq!(check_camera_basis(s(13.3), s(0.98)), Ok(()));
}

#[test]
fn a_camera_at_its_own_target_is_degenerate() {
    // look_from == look_at: the backward vector has length 0 and nothing can be made of it.
    assert_eq!(check_camera_basis(s(0.0), s(f32::NAN)), Err(ConfigError::DegenerateCamera));
}

#[test]
fn a_camera_looking_along_its_up_vector_is_degenerate() {
    assert_eq!(check_camera_basis(s(5.0), s(0.0)), Err(ConfigError::DegenerateCamera));
}
