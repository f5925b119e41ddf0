//! Input checks for building a pinhole camera model.
use vstd::prelude::*;

use crate::layout::{ElementKind, Layout};

verus! {

/// Why a camera model could not be built.
#[derive(Clone, Copy, Debug, PartialEq, Eq, Structural)]
pub enum CameraError {
    /// The intrinsic matrix is not a 3x3 single-channel matrix of 64-bit floats.
    InvalidIntrinsics,
    /// The image width or height is not positive.
    InvalidDimensions { width: i32, height: i32 },
}

/// Width and height of a camera's images, in pixels, both positive.
#[derive(Clone, Copy, Debug, PartialEq, Eq, Structural)]
pub struct ImageSize {
    pub width: i32,
    pub height: i32,
}

/// Whether an intrinsic matrix has the expected shape and representation.
pub open spec fn intrinsics_usable(matrix: Layout) -> bool {
    matrix.is_single(ElementKind::Float64) && matrix.rows == 3 && matrix.cols == 3
}

/// The outcome of checking image dimensions.
pub open spec fn size_result(width: i32, height: i32) -> Result<ImageSize, CameraError> {
    if width <= 0 || height <= 0 {
        Err(CameraError::InvalidDimensions { width, height })
    } else {
        Ok(ImageSize { width, height })
    }
}

/// Checks image dimensions given with focal lengths and principal point.
pub fn check_image_size(width: i32, height: i32) -> (r: Result<ImageSize, CameraError>)
    ensures
        r == size_result(width, height),
{
    if width <= 0 || height <= 0 {
        Err(CameraError::InvalidDimensions { width, height })
    } else {
        Ok(ImageSize { width, height })
    }
}

/// Checks the inputs of a camera model built from an intrinsic matrix: first
/// the matrix (3x3, 64-bit floats), then the image dimensions.
pub fn check_camera_inputs(matrix: &Layout, width: i32, height: i32) -> (r: Result<
    ImageSize,
    CameraError,
>)
    ensures
        r == if !intrinsics_usable(*matrix) {
            Err(CameraError::InvalidIntrinsics)
        } else {
            size_result(width, height)
        },
{
    if !matrix.single_channel_of(ElementKind::Float64) || matrix.rows != 3 || matrix.cols != 3 {
        return Err(CameraError::InvalidIntrinsics);
    }
    check_image_size(width, height)
}

} // verus!
