//! Faces as metadata: where they are in a picture, and the vector that
//! identifies each of them.
use crate::embedding::{sum_of_squares, unit_vector, FACE_EMBEDDING_LENGTH};
use crate::face_detector::{
    detect_spec, scale_image, CropRegion, DetectedFace, FaceDetector, ResizedImage,
    ANCHOR_ATTRIBUTES, MODEL_INPUT_SIZE, UNITS_PER_PIXEL,
};
use crate::face_embedder::{EmbedError, FaceEmbedder};
use crate::fixed_point::{clamp_i32, floor_div, saturate_i32};
use crate::metadata::{clone_key, BaseImage, ExtractError, Metadata, MetadataProvider};
use vstd::prelude::*;

verus! {

/// Runs face detection results and face embeddings into metadata records.
#[derive(Clone, Copy, Debug)]
pub struct FaceRecognitionMetadataProvider {
    pub face_detector: FaceDetector,
    pub face_embedder: FaceEmbedder,
}

impl FaceRecognitionMetadataProvider {
    pub fn new() -> (provider: Self)
        ensures
            provider.face_detector.anchors == crate::face_detector::MODEL_ANCHORS,
    {
        Self { face_detector: FaceDetector::new(), face_embedder: FaceEmbedder::new() }
    }
}

/// A face in a picture. The corners are fractions of the picture's width
/// and height, in millionths; `face` is the rectangle of the source image
/// that shows the face, as long as the cut-out is at hand.
#[derive(Clone, Copy, Debug, PartialEq, Eq, Structural)]
pub struct FaceInPicture {
    pub top_left_x: i32,
    pub top_left_y: i32,
    pub bottom_right_x: i32,
    pub bottom_right_y: i32,
    pub confidence: u32,
    pub face: Option<CropRegion>,
}

/// The vector that identifies a face.
#[derive(Debug)]
pub struct FaceInPictureVector {
    pub vector: Vec<i32>,
}

/// The record and pixel size of an image, next to what the detection
/// model returned for its resized copy.
#[derive(Debug)]
pub struct ImageDetections {
    pub base_image: BaseImage,
    pub width: u32,
    pub height: u32,
    pub output: Vec<i32>,
}

/// A coordinate in thousandths of a pixel as a fraction of an extent in
/// pixels, in millionths, rounded down and saturated.
pub open spec fn normalised_coordinate(units: i32, extent: u32) -> int {
    clamp_i32(((units as int) * (UNITS_PER_PIXEL as int)) / (extent as int))
}

/// The record of one detected face of an image.
pub open spec fn face_record(item: ImageDetections, face: DetectedFace) -> Metadata<FaceInPicture> {
    Metadata {
        id: item.base_image.id,
        metadata: Some(
            FaceInPicture {
                top_left_x: normalised_coordinate(face.bbox.xmin, item.width) as i32,
                top_left_y: normalised_coordinate(face.bbox.ymin, item.height) as i32,
                bottom_right_x: normalised_coordinate(face.bbox.xmax, item.width) as i32,
                bottom_right_y: normalised_coordinate(face.bbox.ymax, item.height) as i32,
                confidence: face.bbox.score,
                face: Some(face.region),
            },
        ),
        base: item.base_image.id,
    }
}

/// The resize that the detector's input went through.
pub open spec fn detector_resize(item: ImageDetections) -> ResizedImage {
    ResizedImage {
        scaled_width: MODEL_INPUT_SIZE,
        scaled_height: MODEL_INPUT_SIZE,
        base_x: item.width,
        base_y: item.height,
    }
}

/// The records of the faces of one image, in keep order. An image without
/// width or height has no place for a face and yields none.
pub open spec fn face_records_of(item: ImageDetections, anchors: int) -> Seq<
    Metadata<FaceInPicture>,
> {
    if item.width == 0 || item.height == 0 {
        Seq::empty()
    } else {
        detect_spec(item.output@, anchors, detector_resize(item)).map_values(
            |face: DetectedFace| face_record(item, face),
        )
    }
}

/// The records of the faces of all images, image by image.
pub open spec fn face_records(items: Seq<ImageDetections>, anchors: int) -> Seq<
    Metadata<FaceInPicture>,
>
    decreases items.len(),
{
    if items.len() == 0 {
        Seq::empty()
    } else {
        face_records(items.drop_last(), anchors) + face_records_of(items.last(), anchors)
    }
}

/// Whether the detector output of an image has the wrong length.
pub open spec fn detection_misfits(item: ImageDetections, anchors: int) -> bool {
    item.output@.len() != ANCHOR_ATTRIBUTES * anchors
}

fn normalise_coordinate(units: i32, extent: u32) -> (fraction: i32)
    requires
        extent > 0,
    ensures
        fraction == normalised_coordinate(units, extent),
{
    saturate_i32(floor_div((units as i128) * 1000, extent as i128))
}

impl MetadataProvider<ImageDetections, FaceInPicture> for FaceRecognitionMetadataProvider {
    /// One record per face that detection keeps, image by image and in
    /// keep order, with the corners as fractions of the image size. An
    /// image whose detector output does not hold five values per anchor
    /// fails the whole extraction, with the position of the first such
    /// image.
    fn extract(&self, base_images: &Vec<ImageDetections>) -> (results: Result<
        Vec<Metadata<FaceInPicture>>,
        ExtractError,
    >)
        ensures
            results.is_err() == (exists|i: int|
                0 <= i < base_images@.len() && detection_misfits(
                    #[trigger] base_images@[i],
                    self.face_detector.anchors as int,
                )),
            results.is_err() ==> {
                let index = results.unwrap_err()->DimensionMismatch_index as int;
                &&& 0 <= index < base_images@.len()
                &&& detection_misfits(base_images@[index], self.face_detector.anchors as int)
                &&& forall|j: int|
                    0 <= j < index ==> !detection_misfits(
                        base_images@[j],
                        self.face_detector.anchors as int,
                    )
            },
            results.is_ok() ==> results.unwrap()@ == face_records(
                base_images@,
                self.face_detector.anchors as int,
            ),
    {
        let anchors = self.face_detector.anchors;
        let mut results: Vec<Metadata<FaceInPicture>> = Vec::new();
        let mut i: usize = 0;
        while i < base_images.len()
            invariant
                i <= base_images.len(),
                anchors == self.face_detector.anchors,
                forall|j: int| 0 <= j < i ==> !detection_misfits(base_images@[j], anchors as int),
                results@ == face_records(base_images@.take(i as int), anchors as int),
            decreases base_images.len() - i,
        {
            let item = &base_images[i];
            let ghost before = results@;
            proof {
                assert(base_images@.take(i + 1).drop_last() =~= base_images@.take(i as int));
                assert(base_images@.take(i + 1).last() == *item);
            }
            if item.output.len() % 5 != 0 || item.output.len() / 5 != anchors {
                return Err(ExtractError::DimensionMismatch { index: i });
            }
            if item.width != 0 && item.height != 0 {
                let resized = scale_image::<640, 640>(item.width, item.height);
                let faces = self.face_detector.detect(&resized, &item.output);
                let ghost to_record = |face: DetectedFace| face_record(*item, face);
                let mut k: usize = 0;
                while k < faces.len()
                    invariant
                        k <= faces.len(),
                        item.width > 0,
                        item.height > 0,
                        to_record == (|face: DetectedFace| face_record(*item, face)),
                        results@ == before + faces@.take(k as int).map_values(to_record),
                    decreases faces.len() - k,
                {
                    let face = faces[k];
                    proof {
                        assert(faces@.take(k + 1).map_values(to_record) =~= faces@.take(
                            k as int,
                        ).map_values(to_record).push(face_record(*item, face)));
                    }
                    results.push(
                        Metadata {
                            id: clone_key(&item.base_image.id),
                            metadata: Some(
                                FaceInPicture {
                                    top_left_x: normalise_coordinate(face.bbox.xmin, item.width),
                                    top_left_y: normalise_coordinate(face.bbox.ymin, item.height),
                                    bottom_right_x: normalise_coordinate(
                                        face.bbox.xmax,
                                        item.width,
                                    ),
                                    bottom_right_y: normalise_coordinate(
                                        face.bbox.ymax,
                                        item.height,
                                    ),
                                    confidence: face.bbox.score,
                                    face: Some(face.region),
                                },
                            ),
                            base: clone_key(&item.base_image.id),
                        },
                    );
                    k += 1;
                }
                proof {
                    assert(faces@.take(faces.len() as int) =~= faces@);
                }
            } else {
                proof {
                    assert(results@ =~= before + face_records_of(*item, anchors as int));
                }
            }
            i += 1;
        }
        proof {
            assert(base_images@.take(base_images.len() as int) =~= base_images@);
        }
        Ok(results)
    }
}

/// A stored face next to what a model made of its cut-out.
#[derive(Debug)]
pub struct FaceWithOutput {
    pub face: Metadata<FaceInPicture>,
    pub output: Vec<i32>,
}

/// Whether a face can be handed to a model: it has a payload, the cut-out
/// is at hand, and the store has given it a key.
pub open spec fn usable_face(face: Metadata<FaceInPicture>) -> bool {
    face.metadata.is_some() && face.metadata.unwrap().face.is_some() && face.id.is_some()
}

/// Whether a face can be handed to a model.
pub fn is_usable_face(face: &Metadata<FaceInPicture>) -> (usable: bool)
    ensures
        usable == usable_face(*face),
{
    match &face.metadata {
        Some(metadata) => metadata.face.is_some() && face.id.is_some(),
        None => false,
    }
}

/// Whether the face embedding of an item is stored: the face is usable and
/// the model output has a direction.
pub open spec fn yields_face_vector(item: FaceWithOutput) -> bool {
    usable_face(item.face) && sum_of_squares(item.output@) > 0
}

/// Whether the model output of a usable face has the wrong length.
pub open spec fn face_output_misfits(item: FaceWithOutput) -> bool {
    usable_face(item.face) && item.output@.len() != FACE_EMBEDDING_LENGTH
}

/// What the vector record of an item holds: no key of its own yet, the key
/// of the face as base, and the model output at unit length.
pub open spec fn is_face_vector_record(
    record: Metadata<FaceInPictureVector>,
    item: FaceWithOutput,
) -> bool {
    &&& record.id.is_none()
    &&& record.base == item.face.id
    &&& record.metadata.is_some()
    &&& record.metadata.unwrap().vector@ == unit_vector(item.output@)
}

impl MetadataProvider<FaceWithOutput, FaceInPictureVector> for FaceRecognitionMetadataProvider {
    /// One unit-length vector per usable face whose model output is not
    /// zero, in the order of the faces; the other faces are left out. A
    /// usable face whose output does not have `FACE_EMBEDDING_LENGTH`
    /// values fails the whole extraction, with the position of the first
    /// such face.
    fn extract(&self, face_in_picture: &Vec<FaceWithOutput>) -> (results: Result<
        Vec<Metadata<FaceInPictureVector>>,
        ExtractError,
    >)
        ensures
            results.is_err() == (exists|i: int|
                0 <= i < face_in_picture@.len() && face_output_misfits(
                    #[trigger] face_in_picture@[i],
                )),
            results.is_err() ==> {
                let index = results.unwrap_err()->DimensionMismatch_index as int;
                &&& 0 <= index < face_in_picture@.len()
                &&& face_output_misfits(face_in_picture@[index])
                &&& forall|j: int| 0 <= j < index ==> !face_output_misfits(face_in_picture@[j])
            },
            results.is_ok() ==> {
                let stored = face_in_picture@.filter(|item: FaceWithOutput| yields_face_vector(item));
                &&& results.unwrap()@.len() == stored.len()
                &&& forall|k: int|
                    0 <= k < stored.len() ==> is_face_vector_record(
                        #[trigger] results.unwrap()@[k],
                        stored[k],
                    )
            },
    {
        let ghost yields = |item: FaceWithOutput| yields_face_vector(item);
        let mut results: Vec<Metadata<FaceInPictureVector>> = Vec::new();
        let mut i: usize = 0;
        proof {
            assert(face_in_picture@.take(0).filter(yields) =~= Seq::<FaceWithOutput>::empty()) by {
                reveal(Seq::filter);
            }
        }
        while i < face_in_picture.len()
            invariant
                i <= face_in_picture.len(),
                yields == (|item: FaceWithOutput| yields_face_vector(item)),
                forall|j: int| 0 <= j < i ==> !face_output_misfits(face_in_picture@[j]),
                results@.len() == face_in_picture@.take(i as int).filter(yields).len(),
                forall|k: int|
                    0 <= k < results@.len() ==> is_face_vector_record(
                        #[trigger] results@[k],
                        face_in_picture@.take(i as int).filter(yields)[k],
                    ),
            decreases face_in_picture.len() - i,
        {
            let item = &face_in_picture[i];
            let ghost stored = face_in_picture@.take(i as int).filter(yields);
            proof {
                assert(face_in_picture@.take(i + 1) =~= face_in_picture@.take(i as int).push(
                    *item,
                ));
                face_in_picture@.take(i as int).lemma_filter_push(*item, yields);
            }
            if is_usable_face(&item.face) {
                match self.face_embedder.embed(&item.output) {
                    Ok(embedding) => {
                        results.push(
                            Metadata {
                                id: None,
                                metadata: Some(FaceInPictureVector { vector: embedding }),
                                base: clone_key(&item.face.id),
                            },
                        );
                    },
                    Err(EmbedError::WrongLength) => {
                        return Err(ExtractError::DimensionMismatch { index: i });
                    },
                    Err(EmbedError::NoDirection) => {},
                }
            }
            i += 1;
        }
        proof {
            assert(face_in_picture@.take(face_in_picture.len() as int) =~= face_in_picture@);
        }
        Ok(results)
    }
}

} // verus!
