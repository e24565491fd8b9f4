//! What surrounds the age and gender model: the input it is fed and the
//! pair of values read from what it returns.
use crate::metadata::DecodedImage;
use crate::preprocessing::{image_to_resnet, image_to_resnet_spec, input_view};
use vstd::prelude::*;

verus! {

/// Number of values the age and gender model reports for a face.
pub const AGE_AND_GENDER_LENGTH: usize = 2;

/// Prepares faces for the age and gender model and reads its output.
#[derive(Clone, Copy, Debug)]
pub struct FaceAgeAndGenderEstimator;

impl FaceAgeAndGenderEstimator {
    pub fn new() -> (estimator: Self) {
        FaceAgeAndGenderEstimator
    }

    /// The estimate for a face from what the model returned for it: the
    /// age first, the gender second, both untouched. An output of another
    /// length is no estimate.
    pub fn embed(&self, output: &Vec<i32>) -> (estimate: Option<(i32, i32)>)
        ensures
            estimate.is_some() == (output@.len() == AGE_AND_GENDER_LENGTH),
            estimate.is_some() ==> estimate.unwrap() == (output@[0], output@[1]),
    {
        if output.len() != AGE_AND_GENDER_LENGTH {
            None
        } else {
            Some((output[0], output[1]))
        }
    }

    /// The model's input for an image: the image resized to the model's
    /// input size, one plane per colour, each value standardised for its
    /// channel. Nothing for an image that cannot be resized.
    pub fn preprocess_clip(img: &DecodedImage) -> (data: Option<Vec<i32>>)
        ensures
            input_view(data) == image_to_resnet_spec(*img),
    {
        image_to_resnet(img)
    }
}

} // verus!
