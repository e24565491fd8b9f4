//! Reading back everything that hangs from one image.
use crate::age_and_gender::FaceAgeAndGender;
use crate::basic_metadata::BasicMetadata;
use crate::face_recognition::FaceInPictureVector;
use crate::image_embedding::ImageEmbedding;
use crate::image_hash::ImageHashMetadata;
use crate::metadata::{BaseImage, RecordKey};
use vstd::prelude::*;

verus! {

/// Reads images with all their metadata.
#[derive(Clone, Copy, Debug)]
pub struct MetadataQueryEngine;

/// A face with what hangs from it.
#[derive(Debug)]
pub struct FaceInPictureWithMetadata {
    pub top_left_x: i32,
    pub top_left_y: i32,
    pub bottom_right_x: i32,
    pub bottom_right_y: i32,
    pub confidence: u32,
    pub embedding: Vec<FaceInPictureVector>,
    pub age_and_gender: Vec<FaceAgeAndGender>,
}

/// An image with what hangs from it.
#[derive(Debug)]
pub struct BaseImageWithMetadata {
    pub id: Option<RecordKey>,
    pub path: String,
    pub basic_metadata: Vec<BasicMetadata>,
    pub faces: Vec<FaceInPictureWithMetadata>,
    pub image_embedding: Vec<ImageEmbedding>,
    pub image_hash: Vec<ImageHashMetadata>,
}

/// Why an image could not be read back.
#[derive(Clone, Copy, Debug, PartialEq, Eq, Structural)]
pub enum QueryError {
    /// The image has never been stored, so there is nothing to ask for.
    MissingId,
    /// The store returned this many images where one was expected.
    NotExactlyOne { found: usize },
}

impl MetadataQueryEngine {
    pub fn new() -> (engine: Self) {
        MetadataQueryEngine
    }

    /// The key to ask the store for, or the reason that there is none.
    pub fn query_key<'a>(&self, base_image: &'a BaseImage) -> (key: Result<&'a RecordKey, QueryError>)
        ensures
            key.is_ok() == base_image.id.is_some(),
            key.is_ok() ==> *key.unwrap() == base_image.id.unwrap(),
            key.is_err() ==> key.unwrap_err() == QueryError::MissingId,
    {
        match &base_image.id {
            Some(id) => Ok(id),
            None => Err(QueryError::MissingId),
        }
    }

    /// The image with all its metadata, out of what the store returned for
    /// its key. An image without a key is an error whatever was returned;
    /// so is any number of rows but one.
    pub fn get_all_metadata_attached_to_base_image(
        &self,
        base_image: &BaseImage,
        rows: Vec<BaseImageWithMetadata>,
    ) -> (found: Result<BaseImageWithMetadata, QueryError>)
        ensures
            found.is_ok() == (base_image.id.is_some() && rows@.len() == 1),
            found.is_ok() ==> found.unwrap() == rows@[0],
            base_image.id.is_none() ==> found == Err::<BaseImageWithMetadata, QueryError>(
                QueryError::MissingId,
            ),
            base_image.id.is_some() && rows@.len() != 1 ==> found == Err::<
                BaseImageWithMetadata,
                QueryError,
            >(QueryError::NotExactlyOne { found: rows@.len() as usize }),
    {
        if base_image.id.is_none() {
            return Err(QueryError::MissingId);
        }
        let mut rows = rows;
        if rows.len() != 1 {
            return Err(QueryError::NotExactlyOne { found: rows.len() });
        }
        match rows.pop() {
            Some(row) => Ok(row),
            None => Err(QueryError::NotExactlyOne { found: 0 }),
        }
    }
}

} // verus!
