//! Basic attributes of an image file: extension, pixel size, byte size and
//! creation time.
use crate::metadata::{clone_key, BaseImage, ExtractError, Metadata, MetadataProvider};
use vstd::prelude::*;

verus! {

/// A point in time, counted from the Unix epoch.
#[derive(Clone, Copy, Debug, PartialEq, Eq, Structural)]
pub struct Timestamp {
    pub seconds: i64,
    pub nanoseconds: u32,
}

/// What the filesystem says about a file.
#[derive(Debug)]
pub struct FileFacts {
    pub file_extension: Option<String>,
    pub size_in_bytes: u64,
    pub created: Option<Timestamp>,
}

/// The record and decoded size of an image with the facts about its file,
/// or without them when the file could not be examined.
#[derive(Debug)]
pub struct ExaminedImage {
    pub base_image: BaseImage,
    pub width: u32,
    pub height: u32,
    pub facts: Option<FileFacts>,
}

/// Extracts the basic attributes of image files.
#[derive(Clone, Copy, Debug)]
pub struct BasicMetadataProvider;

#[derive(Debug)]
pub struct BasicMetadata {
    pub file_extension: Option<String>,
    pub height: u32,
    pub width: u32,
    pub size_in_bytes: u64,
    pub created: Option<Timestamp>,
}

/// The record of an examined image: no key of its own yet, the file facts
/// next to the decoded size, and the key of the image as base.
pub open spec fn basic_record(item: ExaminedImage) -> Metadata<BasicMetadata> {
    Metadata {
        id: None,
        metadata: Some(
            BasicMetadata {
                file_extension: item.facts.unwrap().file_extension,
                height: item.height,
                width: item.width,
                size_in_bytes: item.facts.unwrap().size_in_bytes,
                created: item.facts.unwrap().created,
            },
        ),
        base: item.base_image.id,
    }
}

/// The records of the images whose files could be examined, in the order
/// of the images.
pub open spec fn basic_records(items: Seq<ExaminedImage>) -> Seq<Metadata<BasicMetadata>> {
    items.filter(|item: ExaminedImage| item.facts.is_some()).map_values(
        |item: ExaminedImage| basic_record(item),
    )
}

fn clone_text(text: &Option<String>) -> (copy: Option<String>)
    ensures
        copy == *text,
{
    match text {
        Some(t) => Some(t.clone()),
        None => None,
    }
}

impl MetadataProvider<ExaminedImage, BasicMetadata> for BasicMetadataProvider {
    /// One record per image whose file could be examined; an image without
    /// file facts is left out and the others are not affected. Never fails.
    fn extract(&self, base_images: &Vec<ExaminedImage>) -> (results: Result<
        Vec<Metadata<BasicMetadata>>,
        ExtractError,
    >)
        ensures
            results.is_ok(),
            results.unwrap()@ == basic_records(base_images@),
    {
        let ghost examined = |item: ExaminedImage| item.facts.is_some();
        let ghost record = |item: ExaminedImage| basic_record(item);
        let mut results: Vec<Metadata<BasicMetadata>> = Vec::new();
        let mut i: usize = 0;
        proof {
            assert(base_images@.take(0).filter(examined) =~= Seq::<ExaminedImage>::empty()) by {
                reveal(Seq::filter);
            }
            assert(results@ =~= base_images@.take(0).filter(examined).map_values(record));
        }
        while i < base_images.len()
            invariant
                i <= base_images.len(),
                examined == (|item: ExaminedImage| item.facts.is_some()),
                record == (|item: ExaminedImage| basic_record(item)),
                results@ == base_images@.take(i as int).filter(examined).map_values(record),
            decreases base_images.len() - i,
        {
            let item = &base_images[i];
            proof {
                assert(base_images@.take(i + 1) =~= base_images@.take(i as int).push(*item));
                base_images@.take(i as int).lemma_filter_push(*item, examined);
            }
            match &item.facts {
                Some(facts) => {
                    let ghost before = base_images@.take(i as int).filter(examined);
                    results.push(
                        Metadata {
                            id: None,
                            metadata: Some(
                                BasicMetadata {
                                    file_extension: clone_text(&facts.file_extension),
                                    height: item.height,
                                    width: item.width,
                                    size_in_bytes: facts.size_in_bytes,
                                    created: facts.created,
                                },
                            ),
                            base: clone_key(&item.base_image.id),
                        },
                    );
                    proof {
                        assert(before.push(*item).map_values(record) =~= before.map_values(
                            record,
                        ).push(basic_record(*item)));
                    }
                },
                None => {},
            }
            i += 1;
        }
        proof {
            assert(base_images@.take(base_images.len() as int) =~= base_images@);
        }
        Ok(results)
    }
}

} // verus!
