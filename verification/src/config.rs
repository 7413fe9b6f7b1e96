//! Render parameters, checked before any ray is traced.

use vstd::prelude::*;
use crate::scalar::Scalar;
use crate::vector::has_direction;

verus! {

/// Why a configuration was turned down.
#[derive(Clone, Copy, Debug, PartialEq, Eq, Structural)]
pub enum ConfigError {
    /// The image has no columns.
    ZeroWidth,
    /// The image has no rows.
    ZeroHeight,
    /// No sample would be taken per pixel.
    ZeroSamples,
    /// The pixels of the image, at three bytes each, would not fit one allocation.
    ImageTooLarge,
    /// The camera looks at its own position, or straight along its up vector, or was
    /// given a coordinate that is not a finite number.
    DegenerateCamera,
}

impl ConfigError {
    /// The text of `message`.
    pub open spec fn text(self) -> Seq<char> {
        match self {
            ConfigError::ZeroWidth => "image width must be at least 1"@,
            ConfigError::ZeroHeight => "image height must be at least 1"@,
            ConfigError::ZeroSamples => "samples per pixel must be at least 1"@,
            ConfigError::ImageTooLarge => "image is too large to be held in memory"@,
            ConfigError::DegenerateCamera =>
                "camera basis is degenerate: look_from, look_at and v_up must span a plane"@,
        }
    }

    /// A sentence that says what is wrong.
    pub fn message(&self) -> (msg: &'static str)
        ensures
            msg@ == self.text(),
    {
        match self {
            ConfigError::ZeroWidth => "image width must be at least 1",
            ConfigError::ZeroHeight => "image height must be at least 1",
            ConfigError::ZeroSamples => "samples per pixel must be at least 1",
            ConfigError::ImageTooLarge => "image is too large to be held in memory",
            ConfigError::DegenerateCamera =>
                "camera basis is degenerate: look_from, look_at and v_up must span a plane",
        }
    }
}

/// Bytes that one pixel takes in memory.
pub const BYTES_PER_PIXEL: u32 = 3;

/// Image size and sample count of a render. A value of this type is always valid: all
/// three numbers are at least 1 and the pixels fit one allocation.
#[derive(Clone, Copy, Debug, PartialEq, Eq)]
pub struct RenderConfig {
    width: u32,
    height: u32,
    samples_per_pixel: u32,
}

/// What `RenderConfig::new` answers for the given numbers.
pub open spec fn checked(width: u32, height: u32, samples_per_pixel: u32) -> Result<
    (),
    ConfigError,
> {
    if width == 0 {
        Err(ConfigError::ZeroWidth)
    } else if height == 0 {
        Err(ConfigError::ZeroHeight)
    } else if samples_per_pixel == 0 {
        Err(ConfigError::ZeroSamples)
    } else if BYTES_PER_PIXEL * (width * height) > isize::MAX {
        Err(ConfigError::ImageTooLarge)
    } else {
        Ok(())
    }
}

/// `width * height`, which always fits 64 bits.
fn product(width: u32, height: u32) -> (cells: u64)
    ensures
        cells == width * height,
{
    assert(width * height <= 0xffff_ffff * 0xffff_ffff) by (nonlinear_arith)
        requires
            0 <= width <= 0xffff_ffff,
            0 <= height <= 0xffff_ffff,
    ;
    width as u64 * height as u64
}

impl RenderConfig {
    #[verifier::type_invariant]
    closed spec fn valid(self) -> bool {
        checked(self.width, self.height, self.samples_per_pixel) is Ok
    }

    /// Number of columns.
    pub closed spec fn spec_width(&self) -> u32 {
        self.width
    }

    /// Number of rows.
    pub closed spec fn spec_height(&self) -> u32 {
        self.height
    }

    /// Number of samples averaged per pixel.
    pub closed spec fn spec_samples_per_pixel(&self) -> u32 {
        self.samples_per_pixel
    }

    /// Checks the parameters. The first thing found wrong, in the order width, height,
    /// samples, size in memory, is the error; if nothing is wrong the configuration holds
    /// the three numbers as given.
    pub fn new(width: u32, height: u32, samples_per_pixel: u32) -> (config: Result<
        RenderConfig,
        ConfigError,
    >)
        ensures
            match config {
                Ok(c) => {
                    &&& checked(width, height, samples_per_pixel) is Ok
                    &&& c.spec_width() == width
                    &&& c.spec_height() == height
                    &&& c.spec_samples_per_pixel() == samples_per_pixel
                },
                Err(e) => checked(width, height, samples_per_pixel) == Err::<(), ConfigError>(e),
            },
    {
        if width == 0 {
            return Err(ConfigError::ZeroWidth);
        }
        if height == 0 {
            return Err(ConfigError::ZeroHeight);
        }
        if samples_per_pixel == 0 {
            return Err(ConfigError::ZeroSamples);
        }
        let bytes: u128 = BYTES_PER_PIXEL as u128 * product(width, height) as u128;
        if bytes > isize::MAX as u128 {
            return Err(ConfigError::ImageTooLarge);
        }
        Ok(RenderConfig { width, height, samples_per_pixel })
    }

    #[verifier::when_used_as_spec(spec_width)]
    pub fn width(&self) -> (w: u32)
        ensures
            w == self.width(),
            w >= 1,
    {
        proof {
            use_type_invariant(self);
        }
        self.width
    }

    #[verifier::when_used_as_spec(spec_height)]
    pub fn height(&self) -> (h: u32)
        ensures
            h == self.height(),
            h >= 1,
    {
        proof {
            use_type_invariant(self);
        }
        self.height
    }

    #[verifier::when_used_as_spec(spec_samples_per_pixel)]
    pub fn samples_per_pixel(&self) -> (n: u32)
        ensures
            n == self.samples_per_pixel(),
            n >= 1,
    {
        proof {
            use_type_invariant(self);
        }
        self.samples_per_pixel
    }

    /// Number of pixels, `width * height`.
    pub fn pixel_count(&self) -> (n: usize)
        ensures
            n == self.width() * self.height(),
            n >= 1,
    {
        proof {
            use_type_invariant(self);
            assert(self.width * self.height >= 1) by (nonlinear_arith)
                requires
                    self.width >= 1,
                    self.height >= 1,
            ;
        }
        let cells: u64 = product(self.width, self.height);
        cells as usize
    }
}

/// Checks the two vectors from which the camera's axes are made by normalising:
/// `look_from - look_at`, of length `backward_length`, and the cross product of `v_up`
/// with the normalised first, of length `right_length`. The camera is degenerate unless
/// both can be normalised.
pub fn check_camera_basis(backward_length: Scalar, right_length: Scalar) -> (checked: Result<
    (),
    ConfigError,
>)
    ensures
        checked is Ok <==> has_direction(backward_length) && has_direction(right_length),
        checked is Err ==> checked == Err::<(), ConfigError>(ConfigError::DegenerateCamera),
{
    if has_direction(backward_length) && has_direction(right_length) {
        Ok(())
    } else {
        Err(ConfigError::DegenerateCamera)
    }
}

} // verus!
