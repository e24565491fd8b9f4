//! The parts of a search that are decided here: which stored paths the
//! references name, what vector is looked for, and how the images found
//! are shown.
use crate::data::{ImageReference, SearchResponse};
use crate::media_paths::{media_prefix, replaced, to_media_path};
use crate::metadata::RecordKey;
use crate::search::{compose_query_vector, query_vector_spec, references_match, rows};
use vstd::prelude::*;

verus! {

/// A stored image with its embedding.
#[derive(Debug)]
pub struct ImageType {
    pub id: Option<RecordKey>,
    pub image_path: String,
    pub embedding: Vec<i32>,
}

/// An image as the nearest-neighbour query returns it.
#[derive(Debug)]
pub struct DbImage {
    pub id: RecordKey,
    pub image_path: String,
}

/// Why no query vector could be made.
#[derive(Clone, Copy, Debug, PartialEq, Eq, Structural)]
pub enum SearchError {
    /// The stored embedding at this position does not have as many
    /// components as the text vector.
    DimensionMismatch { index: usize },
}

/// The embeddings of the images, in their order.
pub open spec fn embeddings_of(images: Seq<ImageType>) -> Seq<Seq<i32>> {
    images.map_values(|image: ImageType| image.embedding@)
}

/// The vector to look for: the text vector blended with the embeddings of
/// the reference images that the store holds. References that the store
/// does not hold are simply not among `marked_image`. A stored embedding
/// of another length than the text vector fails the search, with the
/// position of the first such image.
pub fn query_vector(text: &Vec<i32>, marked_image: &Vec<ImageType>) -> (query: Result<
    Vec<i32>,
    SearchError,
>)
    ensures
        query.is_ok() == references_match(text@, embeddings_of(marked_image@)),
        query.is_ok() ==> query.unwrap()@ == query_vector_spec(
            text@,
            embeddings_of(marked_image@),
        ),
        query.is_err() ==> {
            let index = query.unwrap_err()->DimensionMismatch_index as int;
            &&& 0 <= index < marked_image@.len()
            &&& marked_image@[index].embedding@.len() != text@.len()
            &&& forall|j: int|
                0 <= j < index ==> marked_image@[j].embedding@.len() == text@.len()
        },
{
    let mut slices: Vec<&Vec<i32>> = Vec::new();
    let mut i: usize = 0;
    while i < marked_image.len()
        invariant
            i <= marked_image.len(),
            rows(slices@) == embeddings_of(marked_image@).take(i as int),
            forall|j: int| 0 <= j < i ==> marked_image@[j].embedding@.len() == text@.len(),
        decreases marked_image.len() - i,
    {
        if marked_image[i].embedding.len() != text.len() {
            proof {
                assert(embeddings_of(marked_image@)[i as int].len() != text@.len());
            }
            return Err(SearchError::DimensionMismatch { index: i });
        }
        let ghost held = slices@;
        slices.push(&marked_image[i].embedding);
        proof {
            assert(rows(slices@) =~= rows(held).push(marked_image@[i as int].embedding@));
            assert(embeddings_of(marked_image@).take(i + 1) =~= embeddings_of(marked_image@).take(
                i as int,
            ).push(marked_image@[i as int].embedding@));
        }
        i += 1;
    }
    proof {
        assert(embeddings_of(marked_image@).take(marked_image.len() as int) =~= embeddings_of(
            marked_image@,
        ));
        assert forall|k: int| 0 <= k < embeddings_of(marked_image@).len() implies (
        #[trigger] embeddings_of(marked_image@)[k]).len() == text@.len() by {
            assert(marked_image@[k].embedding@.len() == text@.len());
        }
    }
    Ok(compose_query_vector(text, &slices))
}

/// What the response shows for one image found: its key, and its path
/// with the media directory exchanged for `media/`.
pub open spec fn is_shown(reference: ImageReference, found: DbImage, media_dir: Seq<char>) -> bool {
    &&& reference.id@ == found.id.value@
    &&& reference.image_path@ == replaced(found.image_path@, media_dir, media_prefix())
}

/// The response for the images found, in the order in which the store
/// returned them, nearest first.
pub fn search_response(db_images: &Vec<DbImage>, media_dir: &str) -> (response: SearchResponse)
    ensures
        response.images@.len() == db_images@.len(),
        forall|i: int|
            0 <= i < db_images@.len() ==> is_shown(
                #[trigger] response.images@[i],
                db_images@[i],
                media_dir@,
            ),
{
    let mut images: Vec<ImageReference> = Vec::new();
    let mut i: usize = 0;
    while i < db_images.len()
        invariant
            i <= db_images.len(),
            images@.len() == i,
            forall|j: int| 0 <= j < i ==> is_shown(#[trigger] images@[j], db_images@[j], media_dir@),
        decreases db_images.len() - i,
    {
        let img = &db_images[i];
        images.push(
            ImageReference {
                id: img.id.value.clone(),
                image_path: to_media_path(img.image_path.as_str(), media_dir),
            },
        );
        i += 1;
    }
    SearchResponse { images }
}

} // verus!
