use crate::color::Srgb8;
use crate::text::{append_decimal, decimal};
use vstd::prelude::*;
use vstd::string::*;

verus! {

#[verifier::external_type_specification]
#[verifier::external_body]
pub struct ExImageError(image::ImageError);

/// What the `image` crate decodes from `bytes` read as a JPEG and converted to 8-bit RGB:
/// the width, the height and the row-major RGB bytes, or nothing when decoding fails.
pub uninterp spec fn decoded_jpeg_rgb8(bytes: Seq<u8>) -> Option<(u32, u32, Seq<u8>)>;

/// Calls `image::load_from_memory_with_format` with `ImageFormat::Jpeg`, then converts the
/// decoded image with `DynamicImage::into_rgb8` and hands out its dimensions and raw bytes.
/// The contract claims that the outcome is a function of the bytes alone: success carries
/// exactly `decoded_jpeg_rgb8(bytes)`, and failure comes exactly when that is `None`. Nothing
/// is stated of the error value, nor of how the crate decodes.
#[verifier::external_body]
fn decode_jpeg_rgb8(bytes: &[u8]) -> (decoded: Result<(u32, u32, Vec<u8>), image::ImageError>)
    ensures
        match decoded {
            Ok((width, height, pixels)) => decoded_jpeg_rgb8(bytes@) == Some(
                (width, height, pixels@),
            ),
            Err(_) => decoded_jpeg_rgb8(bytes@) is None,
        },
{
    match image::load_from_memory_with_format(bytes, image::ImageFormat::Jpeg) {
        Ok(decoded) => {
            let rgb = decoded.into_rgb8();
            let (width, height) = rgb.dimensions();
            Ok((width, height, rgb.into_raw()))
        },
        Err(error) => Err(error),
    }
}

/// Whether `width` by `height` RGB pixels need more bytes than memory can address.
pub open spec fn rgb_exceeds_memory(width: u32, height: u32) -> bool {
    width * height * 3 > usize::MAX
}

/// Whether an RGB image of the given size may be stored in `pixel_bytes` bytes.
pub open spec fn valid_srgb_layout(width: u32, height: u32, pixel_bytes: int) -> bool {
    &&& width > 0
    &&& height > 0
    &&& !rgb_exceeds_memory(width, height)
    &&& pixel_bytes == width * height * 3
}

/// An RGB image is valid exactly when it has at least one row and one column and exactly
/// three bytes for each pixel, no more and no fewer.
pub proof fn law_valid_layout_is_three_bytes_per_pixel(width: u32, height: u32, pixel_bytes: int)
    requires
        0 <= pixel_bytes <= usize::MAX,
    ensures
        valid_srgb_layout(width, height, pixel_bytes) <==> width > 0 && height > 0 && pixel_bytes
            == width * height * 3,
{
}

/// Where the pixel at column `x` and row `y` starts in a row-major RGB buffer.
pub open spec fn rgb_offset(width: int, x: int, y: int) -> int {
    (y * width + x) * 3
}

/// The number of bytes that `width` by `height` RGB pixels occupy, unless it exceeds memory.
fn expected_rgb_bytes(width: u32, height: u32) -> (bytes: Option<usize>)
    ensures
        rgb_exceeds_memory(width, height) ==> bytes is None,
        !rgb_exceeds_memory(width, height) ==> bytes == Some((width * height * 3) as usize),
{
    match (width as usize).checked_mul(height as usize) {
        Some(pixels) => pixels.checked_mul(3),
        None => {
            assert(width * height * 3 > usize::MAX) by (nonlinear_arith)
                requires
                    width * height > usize::MAX,
            ;
            None
        },
    }
}

/// An image of opaque sRGB pixels, three bytes each, stored row by row.
#[derive(Debug, PartialEq, Eq)]
pub struct SrgbImage {
    width: u32,
    height: u32,
    pixels: Vec<u8>,
}

impl SrgbImage {
    pub closed spec fn spec_width(&self) -> u32 {
        self.width
    }

    pub closed spec fn spec_height(&self) -> u32 {
        self.height
    }

    pub closed spec fn spec_pixels(&self) -> Seq<u8> {
        self.pixels@
    }

    /// Every image is non-empty and holds three bytes for each of its pixels.
    #[verifier::type_invariant]
    spec fn well_formed(self) -> bool {
        valid_srgb_layout(self.width, self.height, self.pixels@.len() as int)
    }

    /// Takes ownership of `pixels` as a `width` by `height` image, if their sizes agree.
    pub fn new(width: u32, height: u32, pixels: Vec<u8>) -> (image: Result<Self, InvalidSrgbImage>)
        ensures
            valid_srgb_layout(width, height, pixels@.len() as int) ==> (image matches Ok(image)
                && image.spec_width() == width && image.spec_height() == height
                && image.spec_pixels() == pixels@),
            !valid_srgb_layout(width, height, pixels@.len() as int) ==> (image matches Err(error)
                && error.spec_width() == width && error.spec_height() == height
                && error.spec_pixel_bytes() == pixels@.len()),
            image is Ok <==> width > 0 && height > 0 && pixels@.len() == width * height * 3,
    {
        let expected_length = expected_rgb_bytes(width, height);
        let pixel_bytes = pixels.len();
        let matches_length = match expected_length {
            Some(expected) => expected == pixel_bytes,
            None => false,
        };
        if width == 0 || height == 0 || !matches_length {
            return Err(InvalidSrgbImage { width, height, pixel_bytes });
        }
        Ok(Self { width, height, pixels })
    }

    pub fn width(&self) -> (width: u32)
        ensures
            width == self.spec_width(),
            valid_srgb_layout(self.spec_width(), self.spec_height(), self.spec_pixels().len() as int),
            self.spec_width() > 0 && self.spec_height() > 0,
            self.spec_pixels().len() == self.spec_width() * self.spec_height() * 3,
    {
        proof {
            use_type_invariant(self);
        }
        self.width
    }

    pub fn height(&self) -> (height: u32)
        ensures
            height == self.spec_height(),
            valid_srgb_layout(self.spec_width(), self.spec_height(), self.spec_pixels().len() as int),
            self.spec_width() > 0 && self.spec_height() > 0,
            self.spec_pixels().len() == self.spec_width() * self.spec_height() * 3,
    {
        proof {
            use_type_invariant(self);
        }
        self.height
    }

    /// The color of the pixel at column `x` and row `y`.
    pub fn pixel(&self, x: u32, y: u32) -> (color: Srgb8)
        requires
            x < self.spec_width(),
            y < self.spec_height(),
        ensures
            color.spec_channels() == self.spec_pixels().subrange(
                rgb_offset(self.spec_width() as int, x as int, y as int),
                rgb_offset(self.spec_width() as int, x as int, y as int) + 3,
            ),
    {
        proof {
            use_type_invariant(self);
            assert(y * self.width + x < self.width * self.height) by (nonlinear_arith)
                requires
                    x < self.width,
                    y < self.height,
            ;
            assert(0 <= y * self.width) by (nonlinear_arith);
        }
        let length = self.pixels.len();
        let offset = (y as usize * self.width as usize + x as usize) * 3;
        assert(offset + 3 <= length);
        let color = Srgb8::from_channels(
            [self.pixels[offset], self.pixels[offset + 1], self.pixels[offset + 2]],
        );
        assert(color.spec_channels() =~= self.spec_pixels().subrange(offset as int, offset + 3));
        color
    }
}

impl Clone for SrgbImage {
    fn clone(&self) -> (copy: Self)
        ensures
            copy.spec_width() == self.spec_width(),
            copy.spec_height() == self.spec_height(),
            copy.spec_pixels() == self.spec_pixels(),
    {
        proof {
            use_type_invariant(self);
        }
        let pixels = self.pixels.clone();
        assert(pixels@ =~= self.pixels@);
        Self { width: self.width, height: self.height, pixels }
    }
}

/// Dimensions and a byte count that do not describe an RGB image.
#[derive(Debug, Clone, Copy, PartialEq, Eq, Structural)]
pub struct InvalidSrgbImage {
    width: u32,
    height: u32,
    pixel_bytes: usize,
}

/// What an invalid sRGB image reports of itself.
pub open spec fn invalid_srgb_image_message(width: u32, height: u32, pixel_bytes: usize) -> Seq<
    char,
> {
    let dimensions = "sRGB image dimensions "@ + decimal(width as nat) + "x"@ + decimal(
        height as nat,
    );
    if rgb_exceeds_memory(width, height) {
        dimensions + " exceed the addressable RGB size"@
    } else {
        dimensions + " require "@ + decimal((width * height * 3) as nat) + " RGB bytes, received "@
            + decimal(pixel_bytes as nat)
    }
}

impl InvalidSrgbImage {
    pub closed spec fn spec_width(&self) -> u32 {
        self.width
    }

    pub closed spec fn spec_height(&self) -> u32 {
        self.height
    }

    pub closed spec fn spec_pixel_bytes(&self) -> usize {
        self.pixel_bytes
    }

    pub fn to_string(&self) -> (message: String)
        ensures
            message@ == invalid_srgb_image_message(
                self.spec_width(),
                self.spec_height(),
                self.spec_pixel_bytes(),
            ),
    {
        let mut message = String::from_str("sRGB image dimensions ");
        append_decimal(&mut message, self.width as u64);
        message.append("x");
        append_decimal(&mut message, self.height as u64);
        match expected_rgb_bytes(self.width, self.height) {
            Some(expected) => {
                message.append(" require ");
                append_decimal(&mut message, expected as u64);
                message.append(" RGB bytes, received ");
                append_decimal(&mut message, self.pixel_bytes as u64);
            },
            None => {
                message.append(" exceed the addressable RGB size");
            },
        }
        message
    }
}

#[derive(Debug)]
enum JpegFailure {
    Codec(image::ImageError),
    InconsistentImage(InvalidSrgbImage),
}

/// Why JPEG bytes did not yield an sRGB image.
#[derive(Debug)]
pub struct JpegDecodeError {
    failure: JpegFailure,
}

impl JpegDecodeError {
    /// The codec's own error, where the JPEG codec itself rejected the bytes.
    pub closed spec fn codec_error(&self) -> Option<image::ImageError> {
        match self.failure {
            JpegFailure::Codec(error) => Some(error),
            JpegFailure::InconsistentImage(_) => None,
        }
    }

    /// The mismatch found when the decoded pixels did not form a valid image.
    pub closed spec fn inconsistent_image(&self) -> Option<InvalidSrgbImage> {
        match self.failure {
            JpegFailure::InconsistentImage(invalid) => Some(invalid),
            JpegFailure::Codec(_) => None,
        }
    }

    /// The codec's own error, where the codec failed.
    pub fn source(&self) -> (source: Option<&image::ImageError>)
        ensures
            source is Some <==> self.codec_error() is Some,
            source matches Some(error) ==> self.codec_error() == Some(*error),
    {
        match &self.failure {
            JpegFailure::Codec(error) => Some(error),
            JpegFailure::InconsistentImage(_) => None,
        }
    }

    pub fn to_string(&self) -> (message: String)
        ensures
            message@.len() >= "JPEG decoding failed: "@.len(),
            message@.subrange(0, "JPEG decoding failed: "@.len() as int) == "JPEG decoding failed: "@,
            self.inconsistent_image() matches Some(invalid) ==> message@ == "JPEG decoding failed: "@
                + invalid_srgb_image_message(
                invalid.spec_width(),
                invalid.spec_height(),
                invalid.spec_pixel_bytes(),
            ),
            self.codec_error() matches Some(codec) ==> exists|detail: String|
                to_string_from_display_ensures::<image::ImageError>(&codec, detail) && message@
                    == "JPEG decoding failed: "@ + detail@,
    {
        let mut message = String::from_str("JPEG decoding failed: ");
        let ghost prefix = message@;
        match &self.failure {
            JpegFailure::Codec(error) => {
                let detail = error.to_string();
                message.append(detail.as_str());
                assert(message@ == prefix + detail@);
                let ghost codec = self.codec_error().unwrap();
                assert(codec == *error);
                assert(to_string_from_display_ensures::<image::ImageError>(&codec, detail));
            },
            JpegFailure::InconsistentImage(invalid) => {
                let detail = invalid.to_string();
                message.append(detail.as_str());
            },
        }
        assert(message@.subrange(0, prefix.len() as int) =~= prefix);
        message
    }
}

/// The image that a JPEG decoding yields: the decoded width, height and RGB bytes when they
/// describe a valid image, a codec failure when decoding failed, and the mismatch otherwise.
pub fn srgb_image_from_decoding(decoded: Result<(u32, u32, Vec<u8>), image::ImageError>) -> (image:
    Result<SrgbImage, JpegDecodeError>)
    ensures
        decoded matches Err(codec_error) ==> (image matches Err(error) && error.codec_error()
            == Some(codec_error)),
        decoded matches Ok((width, height, pixels)) ==> {
            &&& valid_srgb_layout(width, height, pixels@.len() as int) ==> (image matches Ok(image)
                && image.spec_width() == width && image.spec_height() == height
                && image.spec_pixels() == pixels@)
            &&& !valid_srgb_layout(width, height, pixels@.len() as int) ==> (image matches Err(
                error,
            ) && error.inconsistent_image() matches Some(invalid) && invalid.spec_width() == width
                && invalid.spec_height() == height && invalid.spec_pixel_bytes()
                == pixels@.len())
        },
{
    match decoded {
        Ok((width, height, pixels)) => match SrgbImage::new(width, height, pixels) {
            Ok(image) => Ok(image),
            Err(invalid) => Err(
                JpegDecodeError { failure: JpegFailure::InconsistentImage(invalid) },
            ),
        },
        Err(error) => Err(JpegDecodeError { failure: JpegFailure::Codec(error) }),
    }
}

/// Decodes JPEG bytes into an owned sRGB image.
pub fn decode_jpeg(bytes: &[u8]) -> (image: Result<SrgbImage, JpegDecodeError>)
    ensures
        decoded_jpeg_rgb8(bytes@) is None ==> (image matches Err(error)
            && error.codec_error() is Some),
        decoded_jpeg_rgb8(bytes@) matches Some((width, height, pixels)) ==> {
            &&& valid_srgb_layout(width, height, pixels.len() as int) ==> (image matches Ok(image)
                && image.spec_width() == width && image.spec_height() == height
                && image.spec_pixels() == pixels)
            &&& !valid_srgb_layout(width, height, pixels.len() as int) ==> (image matches Err(
                error,
            ) && error.inconsistent_image() matches Some(invalid) && invalid.spec_width() == width
                && invalid.spec_height() == height && invalid.spec_pixel_bytes() == pixels.len())
        },
{
    srgb_image_from_decoding(decode_jpeg_rgb8(bytes))
}

} // verus!
