use vstd::prelude::*;

verus! {

#[verifier::external_type_specification]
#[verifier::external_body]
pub struct ExImageError(image::ImageError);

#[verifier::external_type_specification]
#[verifier::external_body]
pub struct ExImageBufferError(fast_image_resize::ImageBufferError);

#[verifier::external_type_specification]
#[verifier::external_body]
pub struct ExMulDivImageError(fast_image_resize::MulDivImageError);

/// Why one image could not be transcoded.
#[derive(Debug)]
pub enum ImageikaError {
    /// The bytes could not be decoded, or the result could not be encoded.
    ImageError(image::ImageError),
    /// A pixel buffer did not fit the image it was meant to hold.
    ImageBufferError(fast_image_resize::ImageBufferError),
    /// Multiplying or dividing the color channels by alpha failed.
    MulDivImageError(fast_image_resize::MulDivImageError),
    /// The image, or its scaled size, has a side of zero pixels.
    ZeroDimension,
    /// The image has more pixels than a pixel buffer can address.
    Oversized,
}

impl From<image::ImageError> for ImageikaError {
    fn from(e: image::ImageError) -> (r: Self) {
        ImageikaError::ImageError(e)
    }
}

impl vstd::std_specs::convert::FromSpecImpl<image::ImageError> for ImageikaError {
    open spec fn obeys_from_spec() -> bool {
        true
    }

    open spec fn from_spec(e: image::ImageError) -> Self {
        ImageikaError::ImageError(e)
    }
}

impl From<fast_image_resize::ImageBufferError> for ImageikaError {
    fn from(e: fast_image_resize::ImageBufferError) -> (r: Self) {
        ImageikaError::ImageBufferError(e)
    }
}

impl vstd::std_specs::convert::FromSpecImpl<fast_image_resize::ImageBufferError> for ImageikaError {
    open spec fn obeys_from_spec() -> bool {
        true
    }

    open spec fn from_spec(e: fast_image_resize::ImageBufferError) -> Self {
        ImageikaError::ImageBufferError(e)
    }
}

impl From<fast_image_resize::MulDivImageError> for ImageikaError {
    fn from(e: fast_image_resize::MulDivImageError) -> (r: Self) {
        ImageikaError::MulDivImageError(e)
    }
}

impl vstd::std_specs::convert::FromSpecImpl<fast_image_resize::MulDivImageError> for ImageikaError {
    open spec fn obeys_from_spec() -> bool {
        true
    }

    open spec fn from_spec(e: fast_image_resize::MulDivImageError) -> Self {
        ImageikaError::MulDivImageError(e)
    }
}

} // verus!
