//! The embedding of a whole image, stored at unit length so that cosine
//! similarity is a dot product.
use crate::embedding::{sum_of_squares, unit_vector, IMAGE_EMBEDDING_LENGTH};
use crate::face_embedder::EmbedError;
use crate::image_embedder::ImageEmbedder;
use crate::metadata::{clone_key, BaseImage, ExtractError, Metadata, MetadataProvider};
use vstd::prelude::*;

verus! {

/// Runs image embeddings into metadata records.
#[derive(Clone, Copy, Debug)]
pub struct ImageEmbeddingMetadataProvider {
    pub image_embedder: ImageEmbedder,
}

impl ImageEmbeddingMetadataProvider {
    pub fn new() -> (provider: Self) {
        Self { image_embedder: ImageEmbedder::new() }
    }
}

/// The embedding of a whole image.
#[derive(Debug)]
pub struct ImageEmbedding {
    pub vector: Vec<i32>,
}

/// The record of an image next to what the embedding model made of it.
#[derive(Debug)]
pub struct ImageWithOutput {
    pub base_image: BaseImage,
    pub output: Vec<i32>,
}

/// Whether the embedding of an item is stored: the store has given the
/// image a key and the model output has a direction.
pub open spec fn yields_image_vector(item: ImageWithOutput) -> bool {
    item.base_image.id.is_some() && sum_of_squares(item.output@) > 0
}

/// Whether the model output of a stored image has the wrong length.
pub open spec fn image_output_misfits(item: ImageWithOutput) -> bool {
    item.base_image.id.is_some() && item.output@.len() != IMAGE_EMBEDDING_LENGTH
}

/// What the embedding record of an item holds: no key of its own yet, the
/// key of the image as base, and the model output at unit length.
pub open spec fn is_image_vector_record(record: Metadata<ImageEmbedding>, item: ImageWithOutput)
    -> bool {
    &&& record.id.is_none()
    &&& record.base == item.base_image.id
    &&& record.metadata.is_some()
    &&& record.metadata.unwrap().vector@ == unit_vector(item.output@)
}

impl MetadataProvider<ImageWithOutput, ImageEmbedding> for ImageEmbeddingMetadataProvider {
    /// One unit-length vector per image that has a key and whose model
    /// output is not zero, in the order of the images; the other images
    /// are left out. An image with a key whose output does not have
    /// `IMAGE_EMBEDDING_LENGTH` values fails the whole extraction, with the
    /// position of the first such image.
    fn extract(&self, images: &Vec<ImageWithOutput>) -> (results: Result<
        Vec<Metadata<ImageEmbedding>>,
        ExtractError,
    >)
        ensures
            results.is_err() == (exists|i: int|
                0 <= i < images@.len() && image_output_misfits(#[trigger] images@[i])),
            results.is_err() ==> {
                let index = results.unwrap_err()->DimensionMismatch_index as int;
                &&& 0 <= index < images@.len()
                &&& image_output_misfits(images@[index])
                &&& forall|j: int| 0 <= j < index ==> !image_output_misfits(images@[j])
            },
            results.is_ok() ==> {
                let stored = images@.filter(|item: ImageWithOutput| yields_image_vector(item));
                &&& results.unwrap()@.len() == stored.len()
                &&& forall|k: int|
                    0 <= k < stored.len() ==> is_image_vector_record(
                        #[trigger] results.unwrap()@[k],
                        stored[k],
                    )
            },
    {
        let ghost yields = |item: ImageWithOutput| yields_image_vector(item);
        let mut results: Vec<Metadata<ImageEmbedding>> = Vec::new();
        let mut i: usize = 0;
        proof {
            assert(images@.take(0).filter(yields) =~= Seq::<ImageWithOutput>::empty()) by {
                reveal(Seq::filter);
            }
        }
        while i < images.len()
            invariant
                i <= images.len(),
                yields == (|item: ImageWithOutput| yields_image_vector(item)),
                forall|j: int| 0 <= j < i ==> !image_output_misfits(images@[j]),
                results@.len() == images@.take(i as int).filter(yields).len(),
                forall|k: int|
                    0 <= k < results@.len() ==> is_image_vector_record(
                        #[trigger] results@[k],
                        images@.take(i as int).filter(yields)[k],
                    ),
            decreases images.len() - i,
        {
            let item = &images[i];
            proof {
                assert(images@.take(i + 1) =~= images@.take(i as int).push(*item));
                images@.take(i as int).lemma_filter_push(*item, yields);
            }
            if item.base_image.id.is_some() {
                match self.image_embedder.embed(&item.output) {
                    Ok(embedding) => {
                        results.push(
                            Metadata {
                                id: None,
                                metadata: Some(ImageEmbedding { vector: embedding }),
                                base: clone_key(&item.base_image.id),
                            },
                        );
                    },
                    Err(EmbedError::WrongLength) => {
                        return Err(ExtractError::DimensionMismatch { index: i });
                    },
                    Err(EmbedError::NoDirection) => {},
                }
            }
            i += 1;
        }
        proof {
            assert(images@.take(images.len() as int) =~= images@);
        }
        Ok(results)
    }
}

/// Pairs the images of a batch with what the model returned for the batch,
/// position by position. Outputs that are not as many as the images belong
/// to no image and yield nothing.
pub fn pair_with_outputs(base_images: &Vec<BaseImage>, outputs: Vec<Vec<i32>>) -> (paired: Option<
    Vec<ImageWithOutput>,
>)
    ensures
        paired.is_some() == (outputs@.len() == base_images@.len()),
        paired.is_some() ==> {
            &&& paired.unwrap()@.len() == base_images@.len()
            &&& forall|i: int|
                0 <= i < base_images@.len() ==> (#[trigger] paired.unwrap()@[i]).base_image
                    == base_images@[i] && paired.unwrap()@[i].output == outputs@[i]
        },
{
    if outputs.len() != base_images.len() {
        return None;
    }
    let mut outputs = outputs;
    let ghost given = outputs@;
    let count = base_images.len();
    let mut backwards: Vec<ImageWithOutput> = Vec::new();
    let mut i: usize = count;
    while i > 0
        invariant
            i <= count,
            count == base_images@.len(),
            count == given.len(),
            outputs@ == given.take(i as int),
            backwards@.len() == count - i,
            forall|j: int|
                0 <= j < backwards@.len() ==> (#[trigger] backwards@[j]).base_image
                    == base_images@[count - 1 - j] && backwards@[j].output == given[count - 1 - j],
        decreases i,
    {
        let output = outputs.pop().unwrap();
        i -= 1;
        backwards.push(ImageWithOutput { base_image: base_images[i].clone(), output });
        proof {
            assert(outputs@ =~= given.take(i as int));
        }
    }
    let mut paired: Vec<ImageWithOutput> = Vec::new();
    while backwards.len() > 0
        invariant
            backwards@.len() + paired@.len() == count,
            count == base_images@.len(),
            forall|j: int|
                0 <= j < backwards@.len() ==> (#[trigger] backwards@[j]).base_image
                    == base_images@[count - 1 - j] && backwards@[j].output == given[count - 1 - j],
            forall|j: int|
                0 <= j < paired@.len() ==> (#[trigger] paired@[j]).base_image == base_images@[j]
                    && paired@[j].output == given[j],
        decreases backwards@.len(),
    {
        let item = backwards.pop().unwrap();
        paired.push(item);
    }
    Some(paired)
}

} // verus!
