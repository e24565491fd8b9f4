use media_indexer::face_detector::{
    crop_region, decode_detections, iou, overlaps_beyond, scale_image, CropRegion, DetectedFace,
    FaceBox, FaceDetector, Iou, ResizedImage, CONFIDENCE_THRESHOLD, IOU_THRESHOLD,
};
use media_indexer::face_embedder::FaceEmbedder;
use media_indexer::metadata::DecodedImage;
use media_indexer::nms::{nms, sort_descending};
use media_indexer::picture::crop;
use media_indexer::preprocessing::detector_input;

fn face(xmin: i32, ymin: i32, xmax: i32, ymax: i32, score: u32) -> FaceBox {
    FaceBox { xmin, ymin, xmax, ymax, score }
}

/// A detector output for `anchors` anchors, all without confidence.
fn silent_output(anchors: usize) -> Vec<i32> {
    vec![0; 5 * anchors]
}

/// Writes one detection into a detector output: centre and size in pixels
/// of the resized copy, confidence in millionths.
fn put(output: &mut Vec<i32>, anchors: usize, anchor: usize, cx: i32, cy: i32, w: i32, h: i32, confidence: i32) {
    output[anchor] = cx * 1000;
    output[anchors + anchor] = cy * 1000;
    output[2 * anchors + anchor] = w * 1000;
    output[3 * anchors + anchor] = h * 1000;
    output[4 * anchors + anchor] = confidence;
}

#[test]
fn iou_of_identical_boxes_misses_one_by_the_stabilising_unit() {
    let a = face(0, 0, 10_000, 10_000, 900_000);
    let ratio = iou(&a, &a);
    assert_eq!(ratio, Iou { numerator: 100_000_000, denominator: 100_000_001 });
    assert!(ratio.exceeds(999_999));
    assert!(!ratio.exceeds(1_000_000));
}

#[test]
fn iou_of_boxes_apart_is_zero() {
    let a = face(0, 0, 10_000, 10_000, 900_000);
    let b = face(20_000, 0, 30_000, 10_000, 800_000);
    let ratio = iou(&a, &b);
    assert_eq!(ratio.numerator, 0);
    assert_eq!(ratio.denominator, 200_000_001);
    assert!(!ratio.exceeds(0));
    let touching = face(10_000, 0, 20_000, 10_000, 800_000);
    assert_eq!(iou(&a, &touching).numerator, 0);
}

#[test]
fn iou_is_symmetric() {
    let a = face(0, 0, 2_000, 2_000, 900_000);
    let b = face(1_000, 1_000, 3_000, 3_000, 800_000);
    assert_eq!(iou(&a, &b), iou(&b, &a));
    assert_eq!(iou(&a, &b), Iou { numerator: 1_000_000, denominator: 7_000_001 });
}

#[test]
fn iou_threshold_is_strict() {
    let a = face(0, 0, 2_000, 2_000, 900_000);
    let b = face(1_000, 1_000, 3_000, 3_000, 800_000);
    assert!(overlaps_beyond(&a, &b, 142_857));
    assert!(!overlaps_beyond(&a, &b, 142_858));
    // inter 45, union 100 less the unit: exactly 45 % is not above 45 %
    let wide = face(0, 0, 100, 1, 1);
    let part = face(0, 0, 45, 1, 1);
    assert_eq!(iou(&wide, &part), Iou { numerator: 45, denominator: 101 });
    assert!(!overlaps_beyond(&wide, &part, 450_000));
    assert!(overlaps_beyond(&wide, &part, 445_544));
    assert!(!overlaps_beyond(&wide, &part, 445_545));
}

#[test]
fn iou_of_degenerate_boxes_is_zero_not_undefined() {
    let dot = face(5_000, 5_000, 5_000, 5_000, 700_000);
    let ratio = iou(&dot, &dot);
    assert_eq!(ratio, Iou { numerator: 0, denominator: 1 });
    assert!(!ratio.exceeds(0));
}

#[test]
fn iou_of_swapped_edges_exceeds_nothing() {
    let swapped = face(10_000, 0, 0, 10_000, 700_000);
    let ratio = iou(&swapped, &swapped);
    assert!(ratio.denominator <= 0);
    assert!(!ratio.exceeds(0));
}

#[test]
fn iou_exceeds_is_total_on_extreme_ratios() {
    assert!(Iou { numerator: u64::MAX, denominator: 1 }.exceeds(u32::MAX));
    assert!(!Iou { numerator: u64::MAX, denominator: i128::MAX }.exceeds(1));
    assert!(Iou { numerator: 1, denominator: i128::MAX }.exceeds(0));
    assert!(!Iou { numerator: 0, denominator: i128::MAX }.exceeds(0));
    assert!(!Iou { numerator: 1, denominator: i128::MIN }.exceeds(0));
}

#[test]
fn sort_is_descending_and_stable() {
    let a = face(0, 0, 1, 1, 500_000);
    let b = face(1, 0, 2, 1, 900_000);
    let c = face(2, 0, 3, 1, 500_000);
    let d = face(3, 0, 4, 1, 700_000);
    assert_eq!(sort_descending(&vec![a, b, c, d]), vec![b, d, a, c]);
    assert_eq!(sort_descending(&vec![c, a]), vec![c, a]);
    assert_eq!(sort_descending(&vec![]), Vec::<FaceBox>::new());
}

#[test]
fn nms_keeps_the_most_confident_of_a_cluster() {
    let strong = face(0, 0, 10_000, 10_000, 900_000);
    let weak = face(1_000, 0, 11_000, 10_000, 800_000);
    let apart = face(50_000, 50_000, 60_000, 60_000, 600_000);
    let kept = nms(vec![weak, apart, strong], IOU_THRESHOLD);
    assert_eq!(kept, vec![strong, apart]);
}

#[test]
fn nms_does_not_depend_on_input_order() {
    let a = face(0, 0, 10_000, 10_000, 900_000);
    let b = face(1_000, 0, 11_000, 10_000, 800_000);
    let c = face(2_000, 0, 12_000, 10_000, 700_000);
    let d = face(50_000, 50_000, 60_000, 60_000, 600_000);
    let expected = nms(vec![a, b, c, d], 450_000);
    assert_eq!(expected, vec![a, d]);
    let orders = vec![
        vec![d, c, b, a],
        vec![b, a, d, c],
        vec![c, d, a, b],
        vec![a, c, b, d],
        vec![d, a, c, b],
    ];
    for order in orders {
        assert_eq!(nms(order, 450_000), expected);
    }
}

#[test]
fn nms_breaks_ties_by_input_order() {
    let first = face(0, 0, 10_000, 10_000, 800_000);
    let second = face(1_000, 0, 11_000, 10_000, 800_000);
    assert_eq!(nms(vec![first, second], 450_000), vec![first]);
    assert_eq!(nms(vec![second, first], 450_000), vec![second]);
}

#[test]
fn nms_goes_on_with_what_a_kept_box_leaves() {
    // b overlaps a and c; a and c do not overlap. a suppresses b, so c stays.
    let a = face(0, 0, 10_000, 10_000, 900_000);
    let b = face(4_000, 0, 14_000, 10_000, 800_000);
    let c = face(8_000, 0, 18_000, 10_000, 700_000);
    assert_eq!(nms(vec![a, b, c], 400_000), vec![a, c]);
    // with b the most confident, both neighbours overlap it by 6/14
    let b_best = face(4_000, 0, 14_000, 10_000, 950_000);
    assert_eq!(nms(vec![a, b_best, c], 400_000), vec![b_best]);
}

#[test]
fn nms_of_nothing_is_nothing() {
    assert_eq!(nms(vec![], 450_000), Vec::<FaceBox>::new());
}

#[test]
fn nms_with_threshold_one_keeps_everything_ranked() {
    let a = face(0, 0, 10_000, 10_000, 600_000);
    let b = face(0, 0, 10_000, 10_000, 900_000);
    assert_eq!(nms(vec![a, b], 1_000_000), vec![b, a]);
}

#[test]
fn scale_factors_are_source_over_resized() {
    let resized = scale_image::<640, 640>(1280, 960);
    assert_eq!(
        resized,
        ResizedImage { scaled_width: 640, scaled_height: 640, base_x: 1280, base_y: 960 }
    );
    let (sx, sy) = resized.get_scale_factors();
    assert_eq!((sx.numerator, sx.denominator), (1280, 640));
    assert_eq!((sy.numerator, sy.denominator), (960, 640));
}

#[test]
fn decode_filters_by_confidence_and_rescales() {
    let anchors = 3;
    let mut output = silent_output(anchors);
    put(&mut output, anchors, 0, 100, 200, 40, 60, 499_999);
    put(&mut output, anchors, 1, 100, 200, 40, 60, 500_000);
    put(&mut output, anchors, 2, 320, 320, 10, 10, 990_000);
    let resized = scale_image::<640, 640>(1280, 960);
    let boxes = decode_detections(&output, anchors, &resized);
    assert_eq!(
        boxes,
        vec![
            // x: (100 -+ 20) * 2, y: (200 -+ 30) * 1.5
            face(160_000, 255_000, 240_000, 345_000, 500_000),
            face(630_000, 472_500, 650_000, 487_500, 990_000),
        ]
    );
    assert_eq!(CONFIDENCE_THRESHOLD, 500_000);
}

#[test]
fn decode_rounds_down_and_saturates() {
    let anchors = 1;
    let mut output = silent_output(anchors);
    // centre 0.001 px, width 0.003 px: left edge at -0.0005 px, times 1/3
    output[0] = 1;
    output[1] = 1;
    output[2] = 3;
    output[3] = 3;
    output[4] = 600_000;
    let resized = ResizedImage { scaled_width: 3, scaled_height: 3, base_x: 1, base_y: 1 };
    assert_eq!(decode_detections(&output, anchors, &resized), vec![face(-1, -1, 0, 0, 600_000)]);
    let mut huge = silent_output(anchors);
    huge[0] = i32::MAX;
    huge[1] = i32::MIN;
    huge[2] = i32::MAX;
    huge[3] = i32::MAX;
    huge[4] = i32::MAX;
    let grown = ResizedImage { scaled_width: 1, scaled_height: 1, base_x: u32::MAX, base_y: u32::MAX };
    assert_eq!(
        decode_detections(&huge, anchors, &grown),
        vec![face(i32::MAX, i32::MIN, i32::MAX, i32::MIN, i32::MAX as u32)]
    );
}

#[test]
fn crop_region_is_in_whole_pixels() {
    let b = face(10_999, 20_001, 30_500, 25_000, 900_000);
    assert_eq!(crop_region(&b), CropRegion { x: 10, y: 20, width: 19, height: 4 });
    let off_image = face(-5_000, -1, 3_000, 2_000, 900_000);
    assert_eq!(crop_region(&off_image), CropRegion { x: 0, y: 0, width: 8, height: 2 });
    let swapped = face(3_000, 3_000, 1_000, 1_000, 900_000);
    assert_eq!(crop_region(&swapped), CropRegion { x: 3, y: 3, width: 0, height: 0 });
}

/// Seven faces in a row, each reported by three anchors of falling
/// confidence, among anchors without confidence.
fn group_photo_output(anchors: usize) -> Vec<i32> {
    let mut output = silent_output(anchors);
    for person in 0..7 {
        let cx = 60 + 80 * person as i32;
        put(&mut output, anchors, 100 + person, cx, 300, 50, 60, 900_000 - 10_000 * person as i32);
        put(&mut output, anchors, 200 + person, cx + 2, 301, 50, 60, 800_000 - 10_000 * person as i32);
        put(&mut output, anchors, 300 + person, cx - 3, 298, 52, 58, 700_000 - 10_000 * person as i32);
    }
    for noise in 0..50 {
        put(&mut output, anchors, 1000 + noise, 10 * noise as i32, 500, 30, 30, 400_000);
    }
    output
}

#[test]
fn test_find_faces_group_photo() {
    let face_detector = FaceDetector::new();
    let output = group_photo_output(face_detector.anchors);
    let resized = scale_image::<640, 640>(1920, 1080);
    let faces = face_detector.detect(&resized, &output);
    assert_eq!(faces.len(), 7);
}

#[test]
fn test_find_faces_no_faces() {
    let face_detector = FaceDetector::new();
    let output = silent_output(face_detector.anchors);
    let resized = scale_image::<640, 640>(1920, 1080);
    let faces = face_detector.detect(&resized, &output);
    assert_eq!(faces.len(), 0);
}

#[test]
fn test_find_faces_statue() {
    let face_detector = FaceDetector::new();
    let mut output = silent_output(face_detector.anchors);
    put(&mut output, face_detector.anchors, 4000, 320, 200, 120, 150, 499_999);
    put(&mut output, face_detector.anchors, 4001, 322, 202, 118, 150, 350_000);
    let resized = scale_image::<640, 640>(1000, 1500);
    let faces = face_detector.detect(&resized, &output);
    assert_eq!(faces.len(), 0);
}

#[test]
fn detect_returns_boxes_in_keep_order_with_their_regions() {
    let face_detector = FaceDetector { anchors: 4 };
    let mut output = silent_output(4);
    put(&mut output, 4, 0, 100, 100, 40, 40, 700_000);
    put(&mut output, 4, 1, 400, 400, 40, 40, 950_000);
    put(&mut output, 4, 2, 101, 100, 40, 40, 800_000);
    put(&mut output, 4, 3, 600, 100, 20, 20, 100_000);
    let resized = scale_image::<640, 640>(640, 1280);
    let faces = face_detector.detect(&resized, &output);
    assert_eq!(
        faces,
        vec![
            DetectedFace {
                bbox: face(380_000, 760_000, 420_000, 840_000, 950_000),
                region: CropRegion { x: 380, y: 760, width: 40, height: 80 },
            },
            DetectedFace {
                bbox: face(81_000, 160_000, 121_000, 240_000, 800_000),
                region: CropRegion { x: 81, y: 160, width: 40, height: 80 },
            },
        ]
    );
}

#[test]
fn nms_run_on_its_own_result_changes_nothing() {
    let boxes = vec![
        face(0, 0, 10_000, 10_000, 700_000),
        face(1_000, 0, 11_000, 10_000, 900_000),
        face(30_000, 0, 40_000, 10_000, 700_000),
        face(31_000, 1_000, 41_000, 11_000, 650_000),
        face(60_000, 60_000, 70_000, 70_000, 990_000),
    ];
    let kept = nms(boxes, IOU_THRESHOLD);
    assert_eq!(kept.len(), 3);
    assert_eq!(nms(kept.clone(), IOU_THRESHOLD), kept);
    for pair in kept.windows(2) {
        assert!(pair[0].score >= pair[1].score);
    }
    for (i, a) in kept.iter().enumerate() {
        for b in &kept[i + 1..] {
            assert!(!overlaps_beyond(a, b, IOU_THRESHOLD));
        }
    }
}

#[test]
fn iou_of_well_formed_boxes_stays_below_one() {
    let a = face(0, 0, 3, 7, 1);
    let inside = face(1, 2, 2, 5, 1);
    let ratio = iou(&a, &inside);
    assert_eq!(ratio, Iou { numerator: 3, denominator: 22 });
    assert!((ratio.numerator as i128) < ratio.denominator);
}

#[test]
fn embed_all_faces_of_group_photo() {
    let face_detector = FaceDetector::new();
    let face_embedder = FaceEmbedder::new();
    let (width, height) = (960u32, 540u32);
    let mut image = DecodedImage { width, height, pixels: Vec::with_capacity((3 * width * height) as usize) };
    for y in 0..height {
        for x in 0..width {
            image.pixels.extend([(x % 256) as u8, (y % 256) as u8, ((x + y) % 256) as u8]);
        }
    }
    let (resized, input) = detector_input(&image).unwrap();
    assert_eq!(input.len(), 3 * 640 * 640);
    // what the detection model returns for the group photo
    let output = group_photo_output(face_detector.anchors);
    let faces = face_detector.detect(&resized, &output);
    let mut embeddings = Vec::new();
    for face in faces {
        let cut = crop(&image, &face.region);
        assert!(cut.width > 0 && cut.height > 0);
        let input = FaceEmbedder::preprocess_arcface(&cut).unwrap();
        // what the embedding model returns for the face: 512 values read off its input
        let output: Vec<i32> = input.iter().step_by(73).take(512).map(|v| v / 1000 + 1).collect();
        embeddings.push(face_embedder.embed(&output).unwrap());
    }
    assert_eq!(embeddings.len(), 7);
}
