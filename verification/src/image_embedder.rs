//! What surrounds the image embedding model: the input it is fed and the
//! unit vector made of what it returns.
use crate::embedding::IMAGE_EMBEDDING_LENGTH;
use crate::face_embedder::{embed_output, embedding_spec, embedding_view, EmbedError};
use crate::metadata::DecodedImage;
use crate::preprocessing::{image_to_resnet, image_to_resnet_spec, input_view};
use vstd::prelude::*;

verus! {

/// Prepares images for the image embedding model and finishes its output.
#[derive(Clone, Copy, Debug)]
pub struct ImageEmbedder;

impl ImageEmbedder {
    pub fn new() -> (embedder: Self) {
        ImageEmbedder
    }

    /// The embedding of an image from what the model returned for it: the
    /// `IMAGE_EMBEDDING_LENGTH` values at unit length.
    pub fn embed(&self, output: &Vec<i32>) -> (made: Result<Vec<i32>, EmbedError>)
        ensures
            embedding_view(made) == embedding_spec(output@, IMAGE_EMBEDDING_LENGTH as int),
    {
        embed_output(output, IMAGE_EMBEDDING_LENGTH)
    }

    /// The model's input for an image: the image resized to the model's
    /// input size, one plane per colour, each value standardised for its
    /// channel. Nothing for an image that cannot be resized.
    pub fn preprocess_clip(img: &DecodedImage) -> (data: Option<Vec<i32>>)
        ensures
            input_view(data) == image_to_resnet_spec(*img),
    {
        image_to_resnet(img)
    }
}

} // verus!
