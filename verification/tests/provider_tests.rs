use media_indexer::age_and_gender::{AgeAndGenderMetadataProvider, FaceAgeAndGender};
use media_indexer::basic_metadata::{BasicMetadataProvider, ExaminedImage, FileFacts, Timestamp};
use media_indexer::embedding::EMBEDDING_ONE;
use media_indexer::face_detector::{CropRegion, FaceDetector};
use media_indexer::face_embedder::FaceEmbedder;
use media_indexer::face_recognition::{
    is_usable_face, FaceInPicture, FaceInPictureVector, FaceRecognitionMetadataProvider, FaceWithOutput,
    ImageDetections,
};
use media_indexer::image_embedding::{
    pair_with_outputs, ImageEmbedding, ImageEmbeddingMetadataProvider, ImageWithOutput,
};
use media_indexer::image_hash::{hash_image, ImageHashMetadata, ImageHashMetadataProvider};
use media_indexer::metadata::{
    BaseImage, BaseImageWithImage, DecodedImage, ExtractError, Metadata, MetadataProvider, RecordKey,
};

fn key(value: &str) -> Option<RecordKey> {
    Some(RecordKey { value: value.to_string() })
}

fn key_of(record: &Option<RecordKey>) -> Option<String> {
    record.as_ref().map(|k| k.value.clone())
}

fn blank(path: &str, id: Option<RecordKey>, width: u32, height: u32) -> BaseImageWithImage {
    BaseImageWithImage {
        base_image: BaseImage { id, path: String::from(path) },
        image: DecodedImage { width, height, pixels: vec![0; (3 * width * height) as usize] },
    }
}

fn stored_face(id: Option<RecordKey>, with_payload: bool, with_cutout: bool) -> Metadata<FaceInPicture> {
    let payload = FaceInPicture {
        top_left_x: 100_000,
        top_left_y: 200_000,
        bottom_right_x: 300_000,
        bottom_right_y: 400_000,
        confidence: 900_000,
        face: if with_cutout { Some(CropRegion { x: 1, y: 2, width: 3, height: 4 }) } else { None },
    };
    Metadata { id, metadata: if with_payload { Some(payload) } else { None }, base: key("base_image:1") }
}

#[test]
fn test_image_hash_metadata_provider() {
    let images = vec![
        blank("/test1.jpg", None, 10, 10),
        blank("/test2.jpg", None, 10, 10),
        blank("/test3.jpg", None, 20, 10),
    ];
    let hash_provider = ImageHashMetadataProvider {};
    let results = hash_provider.extract(&images).unwrap();
    assert_eq!(results.len(), 3);
    assert!(&results[0].metadata.is_some());
    assert!(&results[1].metadata.is_some());
    assert!(&results[2].metadata.is_some());
}

#[test]
fn hash_is_the_sha256_of_the_pixels() {
    let images = vec![
        blank("/test1.jpg", key("base_image:1"), 10, 10),
        blank("/copy-of-test1.png", key("base_image:2"), 10, 10),
        blank("/test3.jpg", None, 20, 10),
    ];
    let results = ImageHashMetadataProvider.extract(&images).unwrap();
    let first: &ImageHashMetadata = results[0].metadata.as_ref().unwrap();
    assert_eq!(first.hash_type, "SHA256");
    assert_eq!(
        first.hash,
        [
            209, 61, 74, 139, 59, 138, 221, 25, 181, 151, 1, 87, 240, 157, 0, 193, 44, 189, 164, 254, 212,
            215, 77, 132, 147, 21, 101, 35, 247, 6, 155, 102
        ]
    );
    assert_eq!(results[1].metadata.as_ref().unwrap().hash, first.hash);
    assert_eq!(
        results[2].metadata.as_ref().unwrap().hash,
        [
            189, 80, 225, 44, 85, 221, 163, 238, 68, 60, 28, 182, 215, 28, 123, 207, 99, 81, 196, 236, 150,
            247, 188, 141, 106, 222, 192, 21, 209, 25, 46, 234
        ]
    );
    assert_eq!(key_of(&results[0].base), Some("base_image:1".to_string()));
    assert_eq!(key_of(&results[1].base), Some("base_image:2".to_string()));
    assert!(results[2].base.is_none());
    assert!(results.iter().all(|r| r.id.is_none()));
}

#[test]
fn hash_of_the_same_pixels_is_the_same_twice() {
    let mut image = blank("/a.jpg", None, 1, 1);
    image.image.pixels = vec![1, 2, 3];
    let once = hash_image(&image).metadata.unwrap().hash;
    let twice = hash_image(&image).metadata.unwrap().hash;
    assert_eq!(once, twice);
    assert_eq!(
        once,
        [
            3, 144, 88, 198, 242, 192, 203, 73, 44, 83, 59, 10, 77, 20, 239, 119, 204, 15, 120, 171, 204,
            206, 213, 40, 125, 132, 161, 162, 1, 28, 251, 129
        ]
    );
    image.image.pixels = vec![1, 2, 4];
    assert_ne!(hash_image(&image).metadata.unwrap().hash, once);
}

#[test]
fn basic_metadata_leaves_out_files_that_could_not_be_examined() {
    let items = vec![
        ExaminedImage {
            base_image: BaseImage { id: key("base_image:1"), path: "/a.JPG".to_string() },
            width: 4,
            height: 3,
            facts: Some(FileFacts {
                file_extension: Some("JPG".to_string()),
                size_in_bytes: 12_345,
                created: Some(Timestamp { seconds: 1_700_000_000, nanoseconds: 5 }),
            }),
        },
        ExaminedImage {
            base_image: BaseImage { id: key("base_image:2"), path: "/gone.png".to_string() },
            width: 1,
            height: 1,
            facts: None,
        },
        ExaminedImage {
            base_image: BaseImage { id: None, path: "/noext".to_string() },
            width: 7,
            height: 9,
            facts: Some(FileFacts { file_extension: None, size_in_bytes: 0, created: None }),
        },
    ];
    let results = BasicMetadataProvider.extract(&items).unwrap();
    assert_eq!(results.len(), 2);
    let first = results[0].metadata.as_ref().unwrap();
    assert_eq!(first.file_extension, Some("JPG".to_string()));
    assert_eq!((first.width, first.height, first.size_in_bytes), (4, 3, 12_345));
    assert_eq!(first.created, Some(Timestamp { seconds: 1_700_000_000, nanoseconds: 5 }));
    assert_eq!(key_of(&results[0].base), Some("base_image:1".to_string()));
    assert!(results[0].id.is_none());
    let second = results[1].metadata.as_ref().unwrap();
    assert_eq!(second.file_extension, None);
    assert_eq!((second.width, second.height, second.size_in_bytes), (7, 9, 0));
    assert_eq!(second.created, None);
    assert!(results[1].base.is_none());
    assert_eq!(BasicMetadataProvider.extract(&vec![]).unwrap().len(), 0);
}

fn detections(id: Option<RecordKey>, width: u32, height: u32, found: &[(i32, i32, i32, i32, i32)]) -> ImageDetections {
    let anchors = 4;
    let mut output = vec![0; 5 * anchors];
    for (anchor, (cx, cy, w, h, confidence)) in found.iter().enumerate() {
        output[anchor] = cx * 1000;
        output[anchors + anchor] = cy * 1000;
        output[2 * anchors + anchor] = w * 1000;
        output[3 * anchors + anchor] = h * 1000;
        output[4 * anchors + anchor] = *confidence;
    }
    ImageDetections { base_image: BaseImage { id, path: "/p.jpg".to_string() }, width, height, output }
}

fn small_provider() -> FaceRecognitionMetadataProvider {
    FaceRecognitionMetadataProvider { face_detector: FaceDetector { anchors: 4 }, face_embedder: FaceEmbedder::new() }
}

#[test]
fn faces_are_recorded_as_fractions_of_the_picture() {
    let items = vec![
        detections(key("base_image:1"), 1280, 640, &[(160, 320, 64, 128, 900_000), (480, 160, 32, 32, 600_000)]),
        detections(key("base_image:2"), 640, 640, &[]),
        detections(None, 640, 640, &[(320, 320, 640, 640, 700_000)]),
    ];
    let results: Vec<Metadata<FaceInPicture>> = small_provider().extract(&items).unwrap();
    assert_eq!(results.len(), 3);
    assert_eq!(
        results[0].metadata,
        Some(FaceInPicture {
            top_left_x: 200_000,
            top_left_y: 400_000,
            bottom_right_x: 300_000,
            bottom_right_y: 600_000,
            confidence: 900_000,
            face: Some(CropRegion { x: 256, y: 256, width: 128, height: 128 }),
        })
    );
    assert_eq!(key_of(&results[0].id), Some("base_image:1".to_string()));
    assert_eq!(key_of(&results[0].base), Some("base_image:1".to_string()));
    assert_eq!(
        results[1].metadata,
        Some(FaceInPicture {
            top_left_x: 725_000,
            top_left_y: 225_000,
            bottom_right_x: 775_000,
            bottom_right_y: 275_000,
            confidence: 600_000,
            face: Some(CropRegion { x: 928, y: 144, width: 64, height: 32 }),
        })
    );
    assert_eq!(
        results[2].metadata,
        Some(FaceInPicture {
            top_left_x: 0,
            top_left_y: 0,
            bottom_right_x: 1_000_000,
            bottom_right_y: 1_000_000,
            confidence: 700_000,
            face: Some(CropRegion { x: 0, y: 0, width: 640, height: 640 }),
        })
    );
    assert!(results[2].id.is_none() && results[2].base.is_none());
}

#[test]
fn an_image_without_extent_has_no_faces() {
    let items = vec![
        detections(key("base_image:1"), 0, 640, &[(160, 320, 64, 128, 900_000)]),
        detections(key("base_image:2"), 640, 0, &[(160, 320, 64, 128, 900_000)]),
    ];
    let results: Vec<Metadata<FaceInPicture>> = small_provider().extract(&items).unwrap();
    assert!(results.is_empty());
}

#[test]
fn a_detector_output_of_the_wrong_length_fails_the_extraction() {
    let mut short = detections(key("base_image:2"), 640, 640, &[]);
    short.output.pop();
    let items = vec![detections(key("base_image:1"), 640, 640, &[(160, 320, 64, 128, 900_000)]), short];
    let results: Result<Vec<Metadata<FaceInPicture>>, ExtractError> = small_provider().extract(&items);
    assert_eq!(results.unwrap_err(), ExtractError::DimensionMismatch { index: 1 });
    let full = FaceRecognitionMetadataProvider::new();
    assert_eq!(full.face_detector.anchors, 8400);
    let results: Result<Vec<Metadata<FaceInPicture>>, ExtractError> = full.extract(&items);
    assert_eq!(results.unwrap_err(), ExtractError::DimensionMismatch { index: 0 });
}

#[test]
fn usable_faces_have_payload_cutout_and_key() {
    assert!(is_usable_face(&stored_face(key("face_in_picture:1"), true, true)));
    assert!(!is_usable_face(&stored_face(None, true, true)));
    assert!(!is_usable_face(&stored_face(key("face_in_picture:1"), false, true)));
    assert!(!is_usable_face(&stored_face(key("face_in_picture:1"), true, false)));
}

fn face_output(first: i32, second: i32) -> Vec<i32> {
    let mut output = vec![0; 512];
    output[0] = first;
    output[1] = second;
    output
}

#[test]
fn seven_usable_faces_give_seven_vectors() {
    let faces: Vec<FaceWithOutput> = (0..7)
        .map(|i| FaceWithOutput {
            face: stored_face(key(&format!("face_in_picture:{}", i)), true, true),
            output: face_output(3 + i, 4),
        })
        .collect();
    let embeddings: Vec<Metadata<FaceInPictureVector>> = small_provider().extract(&faces).unwrap();
    assert_eq!(embeddings.len(), 7);
}

#[test]
fn face_vectors_are_unit_vectors_hung_from_the_face() {
    let faces = vec![
        FaceWithOutput { face: stored_face(key("face_in_picture:1"), true, true), output: face_output(3, 4) },
        FaceWithOutput { face: stored_face(None, true, true), output: face_output(1, 0) },
        FaceWithOutput { face: stored_face(key("face_in_picture:3"), false, true), output: vec![] },
        FaceWithOutput { face: stored_face(key("face_in_picture:4"), true, false), output: vec![1] },
        FaceWithOutput { face: stored_face(key("face_in_picture:5"), true, true), output: face_output(0, 0) },
        FaceWithOutput { face: stored_face(key("face_in_picture:6"), true, true), output: face_output(0, -2) },
    ];
    let results: Vec<Metadata<FaceInPictureVector>> = small_provider().extract(&faces).unwrap();
    assert_eq!(results.len(), 2);
    assert_eq!(key_of(&results[0].base), Some("face_in_picture:1".to_string()));
    assert!(results[0].id.is_none());
    let vector = &results[0].metadata.as_ref().unwrap().vector;
    assert_eq!(vector.len(), 512);
    assert_eq!((vector[0], vector[1], vector[2]), (644_245_094, 858_993_459, 0));
    assert_eq!(key_of(&results[1].base), Some("face_in_picture:6".to_string()));
    assert_eq!(results[1].metadata.as_ref().unwrap().vector[1], -EMBEDDING_ONE);
}

#[test]
fn a_face_output_of_the_wrong_length_fails_the_extraction() {
    let faces = vec![
        FaceWithOutput { face: stored_face(None, true, true), output: vec![1, 2, 3] },
        FaceWithOutput { face: stored_face(key("face_in_picture:1"), true, true), output: face_output(3, 4) },
        FaceWithOutput { face: stored_face(key("face_in_picture:2"), true, true), output: vec![0; 768] },
        FaceWithOutput { face: stored_face(key("face_in_picture:3"), true, true), output: vec![] },
    ];
    let results: Result<Vec<Metadata<FaceInPictureVector>>, ExtractError> = small_provider().extract(&faces);
    assert_eq!(results.unwrap_err(), ExtractError::DimensionMismatch { index: 2 });
}

#[test]
fn age_and_gender_are_recorded_as_the_model_gave_them() {
    let faces = vec![
        FaceWithOutput { face: stored_face(key("face_in_picture:1"), true, true), output: vec![31_500, 870] },
        FaceWithOutput { face: stored_face(None, true, true), output: vec![1, 2] },
        FaceWithOutput { face: stored_face(key("face_in_picture:3"), true, true), output: vec![-4, 0] },
    ];
    let results = AgeAndGenderMetadataProvider::new().extract(&faces).unwrap();
    assert_eq!(results.len(), 2);
    assert_eq!(results[0].metadata, Some(FaceAgeAndGender { age: 31_500, gender: 870 }));
    assert_eq!(key_of(&results[0].base), Some("face_in_picture:1".to_string()));
    assert!(results[0].id.is_none());
    assert_eq!(results[1].metadata, Some(FaceAgeAndGender { age: -4, gender: 0 }));
    assert_eq!(key_of(&results[1].base), Some("face_in_picture:3".to_string()));
}

#[test]
fn an_estimate_of_the_wrong_length_fails_the_extraction() {
    let faces = vec![
        FaceWithOutput { face: stored_face(None, true, true), output: vec![] },
        FaceWithOutput { face: stored_face(key("face_in_picture:1"), true, true), output: vec![1, 2, 3] },
    ];
    let results = AgeAndGenderMetadataProvider::new().extract(&faces);
    assert_eq!(results.unwrap_err(), ExtractError::DimensionMismatch { index: 1 });
}

fn image_output(first: i32, second: i32) -> Vec<i32> {
    let mut output = vec![0; 768];
    output[0] = first;
    output[767] = second;
    output
}

#[test]
fn image_embeddings_are_unit_vectors_hung_from_the_image() {
    let images = vec![
        ImageWithOutput {
            base_image: BaseImage { id: key("base_image:1"), path: "/a.jpg".to_string() },
            output: image_output(-3, 4),
        },
        ImageWithOutput { base_image: BaseImage { id: None, path: "/b.jpg".to_string() }, output: vec![1] },
        ImageWithOutput {
            base_image: BaseImage { id: key("base_image:3"), path: "/c.jpg".to_string() },
            output: image_output(0, 0),
        },
    ];
    let results: Vec<Metadata<ImageEmbedding>> = ImageEmbeddingMetadataProvider::new().extract(&images).unwrap();
    assert_eq!(results.len(), 1);
    assert!(results[0].id.is_none());
    assert_eq!(key_of(&results[0].base), Some("base_image:1".to_string()));
    let vector = &results[0].metadata.as_ref().unwrap().vector;
    assert_eq!(vector.len(), 768);
    assert_eq!((vector[0], vector[1], vector[767]), (-644_245_094, 0, 858_993_459));
}

#[test]
fn an_image_output_of_the_wrong_length_fails_the_extraction() {
    let images = vec![
        ImageWithOutput {
            base_image: BaseImage { id: key("base_image:1"), path: "/a.jpg".to_string() },
            output: vec![0; 512],
        },
    ];
    let results = ImageEmbeddingMetadataProvider::new().extract(&images);
    assert_eq!(results.unwrap_err(), ExtractError::DimensionMismatch { index: 0 });
}

#[test]
fn a_new_base_image_has_no_key() {
    let image = BaseImage::new("/pictures/a.jpg".to_string());
    assert!(image.id.is_none());
    assert_eq!(image.path, "/pictures/a.jpg");
    let copy = image.clone();
    assert_eq!(copy.path, image.path);
    let keyed = BaseImage { id: key("base_image:9"), path: "/x".to_string() };
    assert_eq!(key_of(&keyed.clone().id), Some("base_image:9".to_string()));
}

#[test]
fn outputs_are_paired_with_images_position_by_position() {
    let images = vec![
        BaseImage { id: key("base_image:1"), path: "/a.jpg".to_string() },
        BaseImage { id: None, path: "/b.jpg".to_string() },
    ];
    let paired = pair_with_outputs(&images, vec![vec![1, 2], vec![3]]).unwrap();
    assert_eq!(paired.len(), 2);
    assert_eq!((paired[0].base_image.path.as_str(), &paired[0].output), ("/a.jpg", &vec![1, 2]));
    assert_eq!(key_of(&paired[0].base_image.id), Some("base_image:1".to_string()));
    assert_eq!((paired[1].base_image.path.as_str(), &paired[1].output), ("/b.jpg", &vec![3]));
    assert!(pair_with_outputs(&images, vec![vec![1, 2]]).is_none());
    assert!(pair_with_outputs(&images, vec![vec![1], vec![2], vec![3]]).is_none());
    assert!(pair_with_outputs(&vec![], vec![vec![1]]).is_none());
    assert_eq!(pair_with_outputs(&vec![], vec![]).unwrap().len(), 0);
}
