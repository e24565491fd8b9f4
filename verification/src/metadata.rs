//! Records of the property graph: the image a file stands for, and the
//! envelope that ties one piece of metadata to the record that owns it.
use vstd::prelude::*;

verus! {

/// Key of a stored record. The store assigns it; the library only carries
/// it along.
#[derive(Debug)]
pub struct RecordKey {
    pub value: String,
}

impl Clone for RecordKey {
    fn clone(&self) -> (copy: Self)
        ensures
            copy == *self,
    {
        RecordKey { value: self.value.clone() }
    }
}

/// Copy of an optional key.
pub fn clone_key(key: &Option<RecordKey>) -> (copy: Option<RecordKey>)
    ensures
        copy == *key,
{
    match key {
        Some(k) => Some(k.clone()),
        None => None,
    }
}

/// The record of one indexed file path.
#[derive(Debug)]
pub struct BaseImage {
    pub id: Option<RecordKey>,
    pub path: String,
}

impl Clone for BaseImage {
    fn clone(&self) -> (copy: Self)
        ensures
            copy == *self,
    {
        BaseImage { id: clone_key(&self.id), path: self.path.clone() }
    }
}

impl BaseImage {
    /// A record for `image_path` that the store has not seen yet.
    pub fn new(image_path: String) -> (image: Self)
        ensures
            image.id.is_none(),
            image.path == image_path,
    {
        BaseImage { id: None, path: image_path }
    }
}

/// Decoded pixels of an image: `width * height` pixels, row by row, three
/// bytes (red, green, blue) each.
#[derive(Debug)]
pub struct DecodedImage {
    pub width: u32,
    pub height: u32,
    pub pixels: Vec<u8>,
}

impl DecodedImage {
    /// The buffer holds three bytes for every pixel.
    pub open spec fn well_formed(&self) -> bool {
        self.pixels@.len() == 3 * self.width * self.height
    }
}

/// A record together with the decoded image behind its path.
#[derive(Debug)]
pub struct BaseImageWithImage {
    pub base_image: BaseImage,
    pub image: DecodedImage,
}

/// One node of metadata of kind `M`: its own key once stored, the payload,
/// and the key of the record it hangs from.
#[derive(Debug)]
pub struct Metadata<M> {
    pub id: Option<RecordKey>,
    pub metadata: Option<M>,
    pub base: Option<RecordKey>,
}

/// Why an extraction as a whole was given up.
#[derive(Clone, Copy, Debug, PartialEq, Eq, Structural)]
pub enum ExtractError {
    /// The model output at this position has the wrong number of values.
    DimensionMismatch { index: usize },
}

/// Extracts metadata of kind `M` from a batch of inputs of kind `B`.
pub trait MetadataProvider<B, M> {
    fn extract(&self, base_data_elements: &Vec<B>) -> Result<Vec<Metadata<M>>, ExtractError>;
}

} // verus!
