//! What surrounds the face embedding model: the input it is fed and the
//! unit vector made of what it returns.
use crate::embedding::{l2_normalize, sum_of_squares, unit_vector, FACE_EMBEDDING_LENGTH};
use crate::metadata::DecodedImage;
use crate::preprocessing::{input_view, preprocess_arcface_spec};
use vstd::prelude::*;

verus! {

/// Why a model output could not be made into an embedding.
#[derive(Clone, Copy, Debug, PartialEq, Eq, Structural)]
pub enum EmbedError {
    /// The output does not have the length the model is known to give.
    WrongLength,
    /// The output is the zero vector, which has no direction.
    NoDirection,
}

/// The embedding made of a model output that must have `length` values:
/// the output at unit length.
pub open spec fn embedding_spec(output: Seq<i32>, length: int) -> Result<Seq<i32>, EmbedError> {
    if output.len() != length {
        Err(EmbedError::WrongLength)
    } else if sum_of_squares(output) <= 0 {
        Err(EmbedError::NoDirection)
    } else {
        Ok(unit_vector(output))
    }
}

/// What `made` says of a model output, with the vector taken by its view.
pub open spec fn embedding_view(made: Result<Vec<i32>, EmbedError>) -> Result<Seq<i32>, EmbedError> {
    match made {
        Ok(v) => Ok(v@),
        Err(e) => Err(e),
    }
}

/// Brings a model output of the expected length to unit length.
pub fn embed_output(output: &Vec<i32>, length: usize) -> (made: Result<Vec<i32>, EmbedError>)
    ensures
        embedding_view(made) == embedding_spec(output@, length as int),
{
    if output.len() != length {
        return Err(EmbedError::WrongLength);
    }
    proof {
        crate::embedding::lemma_sum_of_squares_bounds(output@);
    }
    match l2_normalize(output) {
        Some(unit) => Ok(unit),
        None => Err(EmbedError::NoDirection),
    }
}

/// Prepares faces for the face embedding model and finishes its output.
#[derive(Clone, Copy, Debug)]
pub struct FaceEmbedder;

impl FaceEmbedder {
    pub fn new() -> (embedder: Self) {
        FaceEmbedder
    }

    /// The embedding of a face from what the model returned for it: the
    /// `FACE_EMBEDDING_LENGTH` values at unit length.
    pub fn embed(&self, output: &Vec<i32>) -> (made: Result<Vec<i32>, EmbedError>)
        ensures
            embedding_view(made) == embedding_spec(output@, FACE_EMBEDDING_LENGTH as int),
    {
        embed_output(output, FACE_EMBEDDING_LENGTH)
    }

    /// The model's input for a face: the face resized to the model's input
    /// size, pixel by pixel, colour by colour, each byte centred on 127.5
    /// and divided by 128. Nothing for a face that cannot be resized.
    pub fn preprocess_arcface(img: &DecodedImage) -> (data: Option<Vec<i32>>)
        ensures
            input_view(data) == preprocess_arcface_spec(*img),
    {
        crate::preprocessing::preprocess_arcface(img)
    }
}

} // verus!
