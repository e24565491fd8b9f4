use media_indexer::face_detector::{CropRegion, DetectedFace, FaceBox};
use media_indexer::face_embedder::{EmbedError, FaceEmbedder};
use media_indexer::face_recognition::FaceInPicture;
use media_indexer::chunking::split_embeddings;
use media_indexer::embedding::{EMBEDDING_ONE, IMAGE_EMBEDDING_LENGTH};
use media_indexer::image_indexing::{
    face_embedding, image_records, needs_face_detection, ImageFaceEmbeddingCheckResult, RecordsError,
};
use media_indexer::metadata::{BaseImage, Metadata, RecordKey};
use media_indexer::metadata_query_engine::{BaseImageWithMetadata, MetadataQueryEngine, QueryError};
use media_indexer::repository::{face_upsert_candidates, stored_face, upsert_candidates};

fn key(value: &str) -> Option<RecordKey> {
    Some(RecordKey { value: value.to_string() })
}

fn record(base: Option<RecordKey>, payload: Option<u8>) -> Metadata<u8> {
    Metadata { id: None, metadata: payload, base }
}

fn face_payload() -> FaceInPicture {
    FaceInPicture {
        top_left_x: 1,
        top_left_y: 2,
        bottom_right_x: 3,
        bottom_right_y: 4,
        confidence: 5,
        face: Some(CropRegion { x: 6, y: 7, width: 8, height: 9 }),
    }
}

#[test]
fn records_without_base_or_payload_are_not_written() {
    let items = vec![
        record(key("base_image:1"), Some(1)),
        record(None, Some(2)),
        record(key("base_image:3"), None),
        record(None, None),
        record(key("base_image:5"), Some(5)),
    ];
    assert_eq!(upsert_candidates(&items), vec![0, 4]);
    assert_eq!(upsert_candidates(&Vec::<Metadata<u8>>::new()), Vec::<usize>::new());
}

#[test]
fn faces_are_written_under_the_key_they_carry() {
    let items = vec![
        Metadata { id: None, metadata: Some(face_payload()), base: key("base_image:1") },
        Metadata { id: key("base_image:1"), metadata: Some(face_payload()), base: None },
        Metadata { id: key("base_image:2"), metadata: None, base: key("base_image:2") },
        Metadata { id: key("base_image:3"), metadata: Some(face_payload()), base: key("base_image:3") },
    ];
    assert_eq!(face_upsert_candidates(&items), vec![1, 3]);
}

#[test]
fn a_stored_face_keeps_its_payload_and_takes_the_keys_of_the_row() {
    let item = Metadata { id: key("base_image:1"), metadata: Some(face_payload()), base: key("base_image:1") };
    let row = Metadata { id: key("face_in_picture:7"), metadata: None, base: key("base_image:1") };
    let stored = stored_face(&row, &item);
    assert_eq!(stored.id.unwrap().value, "face_in_picture:7");
    assert_eq!(stored.base.unwrap().value, "base_image:1");
    assert_eq!(stored.metadata, Some(face_payload()));
}

#[test]
fn faces_are_pending_for_an_image_stored_once_and_not_done() {
    let row = |done: Option<bool>| ImageFaceEmbeddingCheckResult {
        id: RecordKey { value: "image:1".to_string() },
        face_detection_done: done,
    };
    assert!(needs_face_detection(&vec![row(None)]));
    assert!(needs_face_detection(&vec![row(Some(false))]));
    assert!(!needs_face_detection(&vec![row(Some(true))]));
    assert!(!needs_face_detection(&vec![]));
    assert!(!needs_face_detection(&vec![row(None), row(None)]));
}

#[test]
fn a_face_embedding_holds_corner_size_and_unit_vector() {
    let face = DetectedFace {
        bbox: FaceBox { xmin: 10_000, ymin: 20_000, xmax: 50_000, ymax: 80_000, score: 870_000 },
        region: CropRegion { x: 10, y: 20, width: 40, height: 60 },
    };
    let mut output = vec![0; 512];
    output[3] = -6;
    output[4] = 8;
    let made = face_embedding(&face, &output, &FaceEmbedder::new()).unwrap();
    assert!(made.id.is_none());
    assert_eq!(made.score, 870_000);
    assert_eq!(made.bbox, [10_000, 20_000, 40_000, 60_000]);
    assert_eq!((made.embedding[3], made.embedding[4]), (-644_245_094, 858_993_459));
    assert_eq!(face_embedding(&face, &vec![1], &FaceEmbedder::new()).unwrap_err(), EmbedError::WrongLength);
    assert_eq!(face_embedding(&face, &vec![0; 512], &FaceEmbedder::new()).unwrap_err(), EmbedError::NoDirection);
    let vast = DetectedFace {
        bbox: FaceBox { xmin: i32::MIN, ymin: 5, xmax: i32::MAX, ymax: 2, score: 1 },
        region: CropRegion { x: 0, y: 0, width: 0, height: 0 },
    };
    assert_eq!(face_embedding(&vast, &output, &FaceEmbedder::new()).unwrap().bbox, [i32::MIN, 5, i32::MAX, -3]);
}

fn image_output(first: i32, second: i32) -> Vec<i32> {
    let mut output = vec![0; 768];
    output[0] = first;
    output[767] = second;
    output
}

fn squared_length(v: &[i32]) -> i128 {
    v.iter().map(|c| (*c as i128) * (*c as i128)).sum()
}

#[test]
fn image_records_hold_each_path_with_its_own_unit_vector() {
    let paths = vec!["/a.jpg".to_string(), "/b.jpg".to_string(), "/c.jpg".to_string()];
    let outputs = vec![image_output(3_000_000, 4_000_000), image_output(0, -9), image_output(-5, 12)];
    let records = image_records(&paths, outputs).unwrap();
    assert_eq!(records.len(), 3);
    let one = (EMBEDDING_ONE as i128) * (EMBEDDING_ONE as i128);
    for (i, r) in records.iter().enumerate() {
        assert!(r.id.is_none());
        assert_eq!(r.image_path, paths[i]);
        assert_eq!(r.embedding.len(), 768);
        let length = squared_length(&r.embedding);
        assert!(length <= one && length >= one - 768 * (2 * (EMBEDDING_ONE as i128) + 1));
        let norm = (length as f64).sqrt() / (EMBEDDING_ONE as f64);
        assert!((norm - 1.0).abs() < 1e-4);
    }
    assert_eq!((records[0].embedding[0], records[0].embedding[767]), (644_245_094, 858_993_459));
    assert_eq!((records[1].embedding[0], records[1].embedding[767]), (0, -EMBEDDING_ONE));
    assert_eq!((records[2].embedding[0], records[2].embedding[767]), (-412_977_624, 991_146_299));
    assert!(image_records(&vec![], vec![]).unwrap().is_empty());
}

#[test]
fn a_chunk_gets_rows_for_the_images_that_decoded() {
    // of the new paths p1, p2, p3 the first did not decode: the model saw p2 and p3
    let decoded = vec!["/p2.jpg".to_string(), "/p3.jpg".to_string()];
    let mut flat = image_output(6, 8);
    flat.extend(image_output(-2, 0));
    let records = image_records(&decoded, split_embeddings(&flat, IMAGE_EMBEDDING_LENGTH)).unwrap();
    assert_eq!(records.len(), 2);
    assert_eq!(records[0].image_path, "/p2.jpg");
    assert_eq!((records[0].embedding[0], records[0].embedding[767]), (644_245_094, 858_993_459));
    assert_eq!(records[1].image_path, "/p3.jpg");
    assert_eq!((records[1].embedding[0], records[1].embedding[767]), (-EMBEDDING_ONE, 0));
}

#[test]
fn an_output_without_direction_gets_no_row() {
    let paths = vec!["/a.jpg".to_string(), "/b.jpg".to_string(), "/c.jpg".to_string()];
    let outputs = vec![image_output(1, 0), image_output(0, 0), image_output(0, 1)];
    let records = image_records(&paths, outputs).unwrap();
    assert_eq!(records.len(), 2);
    assert_eq!(records[0].image_path, "/a.jpg");
    assert_eq!(records[1].image_path, "/c.jpg");
    assert_eq!(records[1].embedding[767], EMBEDDING_ONE);
}

#[test]
fn outputs_that_do_not_fit_the_paths_fail_the_chunk() {
    let paths = vec!["/a.jpg".to_string(), "/b.jpg".to_string(), "/c.jpg".to_string()];
    assert_eq!(
        image_records(&paths, vec![image_output(1, 1)]).unwrap_err(),
        RecordsError::CountMismatch { paths: 3, outputs: 1 }
    );
    assert_eq!(
        image_records(&paths[..1].to_vec(), vec![image_output(1, 1), image_output(1, 1)]).unwrap_err(),
        RecordsError::CountMismatch { paths: 1, outputs: 2 }
    );
    assert_eq!(
        image_records(&paths, vec![image_output(1, 1), vec![1; 767], vec![]]).unwrap_err(),
        RecordsError::DimensionMismatch { index: 1 }
    );
    // a batch output that is cut short leaves a short last run
    let mut flat = image_output(1, 1);
    flat.extend(vec![5; 100]);
    assert_eq!(
        image_records(&paths[..2].to_vec(), split_embeddings(&flat, IMAGE_EMBEDDING_LENGTH)).unwrap_err(),
        RecordsError::DimensionMismatch { index: 1 }
    );
    // a zero output of the wrong length is an error too, not a row left out
    assert_eq!(
        image_records(&paths[..1].to_vec(), vec![vec![0; 5]]).unwrap_err(),
        RecordsError::DimensionMismatch { index: 0 }
    );
}

fn row(path: &str) -> BaseImageWithMetadata {
    BaseImageWithMetadata {
        id: key("base_image:1"),
        path: path.to_string(),
        basic_metadata: vec![],
        faces: vec![],
        image_embedding: vec![],
        image_hash: vec![],
    }
}

#[test]
fn reading_back_needs_a_key_and_exactly_one_row() {
    let engine = MetadataQueryEngine::new();
    let stored = BaseImage { id: key("base_image:1"), path: "/a.jpg".to_string() };
    let unstored = BaseImage { id: None, path: "/a.jpg".to_string() };
    assert_eq!(engine.query_key(&stored).unwrap().value, "base_image:1");
    assert_eq!(engine.query_key(&unstored).unwrap_err(), QueryError::MissingId);
    let found = engine.get_all_metadata_attached_to_base_image(&stored, vec![row("/a.jpg")]).unwrap();
    assert_eq!(found.path, "/a.jpg");
    assert_eq!(
        engine.get_all_metadata_attached_to_base_image(&stored, vec![]).unwrap_err(),
        QueryError::NotExactlyOne { found: 0 }
    );
    assert_eq!(
        engine.get_all_metadata_attached_to_base_image(&stored, vec![row("/a"), row("/b")]).unwrap_err(),
        QueryError::NotExactlyOne { found: 2 }
    );
    assert_eq!(
        engine.get_all_metadata_attached_to_base_image(&unstored, vec![row("/a.jpg")]).unwrap_err(),
        QueryError::MissingId
    );
}
