//! Post-processing of raw face detections: overlap measurement, confidence
//! ordering and non-maximum suppression.
//!
//! All quantities are fixed point. Coordinates are thousandths of a pixel, so
//! an area is counted in millionths of a square pixel; confidences and
//! thresholds are millionths of one.
use crate::fixed_point::{clamp_i32, floor_div, saturate_i32};
use crate::nms::{nms, nms_spec};
use vstd::prelude::*;

verus! {

/// Number of values the detector emits per anchor: centre x, centre y,
/// width, height and confidence.
pub const ANCHOR_ATTRIBUTES: usize = 5;

/// Number of anchors the detection model emits for one image.
pub const MODEL_ANCHORS: usize = 8400;

/// Edge length of the square input the detection model takes, in pixels.
pub const MODEL_INPUT_SIZE: u32 = 640;

/// Number of coordinate units in one pixel.
pub const UNITS_PER_PIXEL: u32 = 1000;

/// The value one on the scale used for confidences and thresholds.
pub const UNIT_SCALE: u32 = 1_000_000;

/// Detections below this confidence are discarded before suppression.
pub const CONFIDENCE_THRESHOLD: u32 = 500_000;

/// A box is suppressed when its overlap ratio with a kept box exceeds this.
pub const IOU_THRESHOLD: u32 = 450_000;

/// A detected face in source-image coordinates.
#[derive(Clone, Copy, Debug, PartialEq, Eq, Structural)]
pub struct FaceBox {
    pub xmin: i32,
    pub ymin: i32,
    pub xmax: i32,
    pub ymax: i32,
    pub score: u32,
}

/// An overlap ratio kept exact as a fraction. The denominator already holds
/// the stabilising term that keeps it away from zero for degenerate boxes.
#[derive(Clone, Copy, Debug, PartialEq, Eq, Structural)]
pub struct Iou {
    pub numerator: u64,
    pub denominator: i128,
}

/// The greater of two numbers.
pub open spec fn spec_max(a: int, b: int) -> int {
    if a >= b {
        a
    } else {
        b
    }
}

/// The lesser of two numbers.
pub open spec fn spec_min(a: int, b: int) -> int {
    if a <= b {
        a
    } else {
        b
    }
}

impl FaceBox {
    /// Left edge not right of the right edge, top edge not below the bottom.
    pub open spec fn well_formed(self) -> bool {
        self.xmin <= self.xmax && self.ymin <= self.ymax
    }

    /// Signed area: width times height.
    pub open spec fn area(self) -> int {
        (self.xmax - self.xmin) * (self.ymax - self.ymin)
    }
}

/// Width of the overlap of two boxes along x, zero when they do not meet.
pub open spec fn overlap_width(a: FaceBox, b: FaceBox) -> int {
    spec_max(spec_min(a.xmax as int, b.xmax as int) - spec_max(a.xmin as int, b.xmin as int), 0)
}

/// Height of the overlap of two boxes along y, zero when they do not meet.
pub open spec fn overlap_height(a: FaceBox, b: FaceBox) -> int {
    spec_max(spec_min(a.ymax as int, b.ymax as int) - spec_max(a.ymin as int, b.ymin as int), 0)
}

/// Area shared by two boxes.
pub open spec fn intersection_area(a: FaceBox, b: FaceBox) -> int {
    overlap_width(a, b) * overlap_height(a, b)
}

/// Denominator of the overlap ratio: the area covered by either box plus one
/// unit of area (a millionth of a square pixel).
pub open spec fn union_area_stabilised(a: FaceBox, b: FaceBox) -> int {
    a.area() + b.area() - intersection_area(a, b) + 1
}

/// Whether the overlap ratio of `a` and `b` is strictly above
/// `threshold / UNIT_SCALE`. A ratio with a non-positive denominator, which
/// only boxes with swapped edges can produce, is above no threshold.
pub open spec fn iou_exceeds(a: FaceBox, b: FaceBox, threshold: u32) -> bool {
    union_area_stabilised(a, b) > 0 && intersection_area(a, b) * (UNIT_SCALE as int) > (
    threshold as int) * union_area_stabilised(a, b)
}

impl Iou {
    /// Whether this ratio is strictly above `threshold / UNIT_SCALE`.
    pub open spec fn spec_exceeds(self, threshold: u32) -> bool {
        self.denominator > 0 && self.numerator * (UNIT_SCALE as int) > (threshold as int)
            * self.denominator
    }

    /// Whether this ratio is strictly above `threshold / UNIT_SCALE`.
    pub fn exceeds(&self, threshold: u32) -> (above: bool)
        ensures
            above == self.spec_exceeds(threshold),
    {
        if self.denominator <= 0 {
            return false;
        }
        if threshold == 0 {
            assert(self.numerator * 1_000_000 > 0 <==> self.numerator > 0) by (nonlinear_arith);
            assert((threshold as int) * self.denominator == 0) by (nonlinear_arith)
                requires
                    threshold == 0,
            ;
            return self.numerator > 0;
        }
        assert(0 <= self.numerator * 1_000_000 <= 0xffff_ffff_ffff_ffff * 1_000_000)
            by (nonlinear_arith)
            requires
                0 <= self.numerator <= 0xffff_ffff_ffff_ffff,
        ;
        if self.denominator > 0x400_0000_0000_0000_0000_0000 {
            assert((threshold as int) * self.denominator > 0x400_0000_0000_0000_0000_0000)
                by (nonlinear_arith)
                requires
                    threshold >= 1,
                    self.denominator > 0x400_0000_0000_0000_0000_0000,
            ;
            return false;
        }
        assert(0 <= (threshold as int) * self.denominator <= 0x1_0000_0000
            * 0x400_0000_0000_0000_0000_0000) by (nonlinear_arith)
            requires
                0 <= threshold <= 0x1_0000_0000,
                0 < self.denominator <= 0x400_0000_0000_0000_0000_0000,
        ;
        let scaled: i128 = (self.numerator as i128) * 1_000_000;
        let bound: i128 = (threshold as i128) * self.denominator;
        scaled > bound
    }
}

/// Bounds that every overlap computation of two boxes stays within.
pub proof fn lemma_overlap_bounds(a: FaceBox, b: FaceBox)
    ensures
        0 <= overlap_width(a, b) <= 0xffff_ffff,
        0 <= overlap_height(a, b) <= 0xffff_ffff,
        0 <= intersection_area(a, b) <= 0xffff_ffff * 0xffff_ffff,
        -(0xffff_ffff * 0xffff_ffff) <= a.area() <= 0xffff_ffff * 0xffff_ffff,
{
    let w = overlap_width(a, b);
    let h = overlap_height(a, b);
    assert(0 <= w * h <= 0xffff_ffff * 0xffff_ffff) by (nonlinear_arith)
        requires
            0 <= w <= 0xffff_ffff,
            0 <= h <= 0xffff_ffff,
    ;
    let dx = a.xmax - a.xmin;
    let dy = a.ymax - a.ymin;
    assert(-(0xffff_ffff * 0xffff_ffff) <= dx * dy <= 0xffff_ffff * 0xffff_ffff)
        by (nonlinear_arith)
        requires
            -0xffff_ffff <= dx <= 0xffff_ffff,
            -0xffff_ffff <= dy <= 0xffff_ffff,
    ;
}

fn signed_area(b: &FaceBox) -> (area: i128)
    ensures
        area == b.area(),
        -(0xffff_ffff * 0xffff_ffff) <= area <= 0xffff_ffff * 0xffff_ffff,
{
    proof {
        lemma_overlap_bounds(*b, *b);
    }
    let dx: i128 = b.xmax as i128 - b.xmin as i128;
    let dy: i128 = b.ymax as i128 - b.ymin as i128;
    assert(-(0xffff_ffff * 0xffff_ffff) <= dx * dy <= 0xffff_ffff * 0xffff_ffff)
        by (nonlinear_arith)
        requires
            -0xffff_ffff <= dx <= 0xffff_ffff,
            -0xffff_ffff <= dy <= 0xffff_ffff,
    ;
    dx * dy
}

/// Overlap ratio of two boxes: shared area over the area covered by either,
/// with one unit of area added below the line.
pub fn iou(a: &FaceBox, b: &FaceBox) -> (ratio: Iou)
    ensures
        ratio.numerator == intersection_area(*a, *b),
        ratio.denominator == union_area_stabilised(*a, *b),
        forall|threshold: u32| ratio.spec_exceeds(threshold) == iou_exceeds(*a, *b, threshold),
{
    proof {
        lemma_overlap_bounds(*a, *b);
    }
    let inter_xmin: i128 = if a.xmin >= b.xmin {
        a.xmin as i128
    } else {
        b.xmin as i128
    };
    let inter_ymin: i128 = if a.ymin >= b.ymin {
        a.ymin as i128
    } else {
        b.ymin as i128
    };
    let inter_xmax: i128 = if a.xmax <= b.xmax {
        a.xmax as i128
    } else {
        b.xmax as i128
    };
    let inter_ymax: i128 = if a.ymax <= b.ymax {
        a.ymax as i128
    } else {
        b.ymax as i128
    };
    let inter_w: i128 = if inter_xmax - inter_xmin >= 0 {
        inter_xmax - inter_xmin
    } else {
        0
    };
    let inter_h: i128 = if inter_ymax - inter_ymin >= 0 {
        inter_ymax - inter_ymin
    } else {
        0
    };
    assert(inter_w == overlap_width(*a, *b));
    assert(inter_h == overlap_height(*a, *b));
    let inter_area: i128 = inter_w * inter_h;
    let area_a: i128 = signed_area(a);
    let area_b: i128 = signed_area(b);
    Iou { numerator: inter_area as u64, denominator: area_a + area_b - inter_area + 1 }
}

/// Whether `candidate` overlaps `best` by more than `threshold / UNIT_SCALE`.
pub fn overlaps_beyond(best: &FaceBox, candidate: &FaceBox, threshold: u32) -> (above: bool)
    ensures
        above == iou_exceeds(*best, *candidate, threshold),
{
    let ratio = iou(best, candidate);
    ratio.exceeds(threshold)
}

/// The overlap ratio does not depend on the order of its arguments.
pub proof fn lemma_iou_symmetric(a: FaceBox, b: FaceBox)
    ensures
        intersection_area(a, b) == intersection_area(b, a),
        union_area_stabilised(a, b) == union_area_stabilised(b, a),
        forall|threshold: u32| iou_exceeds(a, b, threshold) == iou_exceeds(b, a, threshold),
{
    assert(overlap_width(a, b) == overlap_width(b, a));
    assert(overlap_height(a, b) == overlap_height(b, a));
}

/// A well-formed box overlaps itself completely: the shared area is its own
/// area, so the ratio falls short of one only by the stabilising unit in the
/// denominator.
pub proof fn lemma_iou_identical(a: FaceBox)
    requires
        a.well_formed(),
    ensures
        intersection_area(a, a) == a.area(),
        union_area_stabilised(a, a) == a.area() + 1,
        a.area() >= 0,
{
    let dx = a.xmax - a.xmin;
    let dy = a.ymax - a.ymin;
    assert(overlap_width(a, a) == dx);
    assert(overlap_height(a, a) == dy);
    assert(dx * dy >= 0) by (nonlinear_arith)
        requires
            dx >= 0,
            dy >= 0,
    ;
}

/// Two boxes are apart when one ends before the other begins, along x or
/// along y.
pub open spec fn disjoint(a: FaceBox, b: FaceBox) -> bool {
    a.xmax <= b.xmin || b.xmax <= a.xmin || a.ymax <= b.ymin || b.ymax <= a.ymin
}

/// Boxes that are apart share no area: their overlap ratio is exactly zero
/// and exceeds no threshold.
pub proof fn lemma_iou_disjoint(a: FaceBox, b: FaceBox)
    requires
        a.well_formed(),
        b.well_formed(),
        disjoint(a, b),
    ensures
        intersection_area(a, b) == 0,
        forall|threshold: u32| !iou_exceeds(a, b, threshold),
{
    let w = overlap_width(a, b);
    let h = overlap_height(a, b);
    assert(w == 0 || h == 0);
    assert(w * h == 0) by (nonlinear_arith)
        requires
            w == 0 || h == 0,
    ;
    assert forall|threshold: u32| !iou_exceeds(a, b, threshold) by {
        let d = union_area_stabilised(a, b);
        if d > 0 {
            assert((threshold as int) * d >= 0) by (nonlinear_arith)
                requires
                    threshold >= 0,
                    d > 0,
            ;
        }
    }
}

/// A scale factor kept exact as a fraction.
#[derive(Clone, Copy, Debug, PartialEq, Eq, Structural)]
pub struct Ratio {
    pub numerator: u32,
    pub denominator: u32,
}

/// The size of a source image next to the size of the resized copy that
/// the detector sees, all in whole pixels.
#[derive(Clone, Copy, Debug, PartialEq, Eq, Structural)]
pub struct ResizedImage {
    pub scaled_width: u32,
    pub scaled_height: u32,
    pub base_x: u32,
    pub base_y: u32,
}

impl ResizedImage {
    /// The resized copy has at least one pixel.
    pub open spec fn well_formed(self) -> bool {
        self.scaled_width > 0 && self.scaled_height > 0
    }

    pub open spec fn scale_x(self) -> Ratio {
        Ratio { numerator: self.base_x, denominator: self.scaled_width }
    }

    pub open spec fn scale_y(self) -> Ratio {
        Ratio { numerator: self.base_y, denominator: self.scaled_height }
    }

    /// The factors that carry a coordinate of the resized copy back into
    /// the source image: source width over resized width, and the same for
    /// the heights.
    pub fn get_scale_factors(&self) -> (factors: (Ratio, Ratio))
        ensures
            factors.0 == self.scale_x(),
            factors.1 == self.scale_y(),
    {
        (
            Ratio { numerator: self.base_x, denominator: self.scaled_width },
            Ratio { numerator: self.base_y, denominator: self.scaled_height },
        )
    }
}

/// Records the resize of a `base_x` by `base_y` image to `WIDTH` by
/// `HEIGHT`.
pub fn scale_image<const HEIGHT: u32, const WIDTH: u32>(base_x: u32, base_y: u32) -> (resized:
    ResizedImage)
    ensures
        resized == (ResizedImage {
            scaled_width: WIDTH,
            scaled_height: HEIGHT,
            base_x: base_x,
            base_y: base_y,
        }),
{
    ResizedImage { scaled_width: WIDTH, scaled_height: HEIGHT, base_x, base_y }
}

/// An edge given as twice its position in the resized copy, carried into
/// the source image, rounded down and saturated.
pub open spec fn scaled_edge(twice_edge: int, factor: Ratio) -> int {
    clamp_i32((twice_edge * (factor.numerator as int)) / (2 * (factor.denominator as int)))
}

/// Confidence of an anchor as a score: negative values count as zero.
pub open spec fn confidence_score(confidence: i32) -> u32 {
    if confidence < 0 {
        0
    } else {
        confidence as u32
    }
}

/// The box of one anchor: centre and size are turned into edges and
/// carried into the source image.
pub open spec fn decode_box(cx: i32, cy: i32, w: i32, h: i32, confidence: i32, image: ResizedImage)
    -> FaceBox {
    FaceBox {
        xmin: scaled_edge(2 * cx - w, image.scale_x()) as i32,
        ymin: scaled_edge(2 * cy - h, image.scale_y()) as i32,
        xmax: scaled_edge(2 * cx + w, image.scale_x()) as i32,
        ymax: scaled_edge(2 * cy + h, image.scale_y()) as i32,
        score: confidence_score(confidence),
    }
}

/// The box of anchor `anchor` in a tensor laid out attribute by attribute,
/// `anchors` values each.
pub open spec fn decode_anchor(data: Seq<i32>, anchors: int, anchor: int, image: ResizedImage)
    -> FaceBox {
    decode_box(
        data[anchor],
        data[anchors + anchor],
        data[2 * anchors + anchor],
        data[3 * anchors + anchor],
        data[4 * anchors + anchor],
        image,
    )
}

/// The boxes of all anchors whose confidence reaches the threshold, in
/// anchor order.
pub open spec fn decode_spec(data: Seq<i32>, anchors: int, image: ResizedImage) -> Seq<FaceBox> {
    Seq::new(anchors as nat, |a: int| decode_anchor(data, anchors, a, image)).filter(
        |b: FaceBox| b.score >= CONFIDENCE_THRESHOLD,
    )
}

fn scale_edge(twice_edge: i64, factor: Ratio) -> (edge: i32)
    requires
        factor.denominator > 0,
        -0x2_0000_0000 <= twice_edge <= 0x2_0000_0000,
    ensures
        edge == scaled_edge(twice_edge as int, factor),
{
    let n: i128 = factor.numerator as i128;
    assert(-0x2_0000_0000 * 0x1_0000_0000 <= twice_edge * n <= 0x2_0000_0000 * 0x1_0000_0000)
        by (nonlinear_arith)
        requires
            -0x2_0000_0000 <= twice_edge <= 0x2_0000_0000,
            0 <= n <= 0x1_0000_0000,
    ;
    let scaled: i128 = (twice_edge as i128) * n;
    let divisor: i128 = 2 * (factor.denominator as i128);
    saturate_i32(floor_div(scaled, divisor))
}

fn decode_one(cx: i32, cy: i32, w: i32, h: i32, confidence: i32, image: &ResizedImage) -> (b:
    FaceBox)
    requires
        image.well_formed(),
    ensures
        b == decode_box(cx, cy, w, h, confidence, *image),
{
    let (sx, sy) = image.get_scale_factors();
    FaceBox {
        xmin: scale_edge(2 * (cx as i64) - (w as i64), sx),
        ymin: scale_edge(2 * (cy as i64) - (h as i64), sy),
        xmax: scale_edge(2 * (cx as i64) + (w as i64), sx),
        ymax: scale_edge(2 * (cy as i64) + (h as i64), sy),
        score: if confidence < 0 {
            0
        } else {
            confidence as u32
        },
    }
}

/// Reads the detector's output and returns the box of every anchor whose
/// confidence reaches `CONFIDENCE_THRESHOLD`, in anchor order.
///
/// `output` holds, attribute by attribute, the centre x, centre y, width
/// and height of each anchor in thousandths of a pixel of the resized copy,
/// then its confidence in millionths. The boxes are in thousandths of a
/// pixel of the source image.
pub fn decode_detections(output: &Vec<i32>, anchors: usize, image: &ResizedImage) -> (boxes: Vec<
    FaceBox,
>)
    requires
        image.well_formed(),
        output.len() == ANCHOR_ATTRIBUTES * anchors,
    ensures
        boxes@ == decode_spec(output@, anchors as int, *image),
{
    let ghost all = Seq::new(
        anchors as nat,
        |a: int| decode_anchor(output@, anchors as int, a, *image),
    );
    let ghost pred = |b: FaceBox| b.score >= CONFIDENCE_THRESHOLD;
    let mut boxes: Vec<FaceBox> = Vec::new();
    let mut anchor: usize = 0;
    proof {
        assert(all.take(0).filter(pred) =~= Seq::<FaceBox>::empty()) by {
            reveal(Seq::filter);
        }
    }
    while anchor < anchors
        invariant
            anchor <= anchors,
            image.well_formed(),
            output.len() == ANCHOR_ATTRIBUTES * anchors,
            all == Seq::new(
                anchors as nat,
                |a: int| decode_anchor(output@, anchors as int, a, *image),
            ),
            pred == (|b: FaceBox| b.score >= CONFIDENCE_THRESHOLD),
            boxes@ == all.take(anchor as int).filter(pred),
        decreases anchors - anchor,
    {
        let confidence = output[4 * anchors + anchor];
        let b = decode_one(
            output[anchor],
            output[anchors + anchor],
            output[2 * anchors + anchor],
            output[3 * anchors + anchor],
            confidence,
            image,
        );
        proof {
            assert(all.take(anchor + 1) =~= all.take(anchor as int).push(b));
            all.take(anchor as int).lemma_filter_push(b, pred);
        }
        if confidence >= CONFIDENCE_THRESHOLD as i32 {
            boxes.push(b);
        }
        anchor += 1;
    }
    proof {
        assert(all.take(anchors as int) =~= all);
    }
    boxes
}

/// A rectangle of whole pixels to cut out of the source image.
#[derive(Clone, Copy, Debug, PartialEq, Eq, Structural)]
pub struct CropRegion {
    pub x: u32,
    pub y: u32,
    pub width: u32,
    pub height: u32,
}

/// Whole pixels in a length given in coordinate units; a negative length
/// has none.
pub open spec fn whole_pixels(units: int) -> int {
    if units <= 0 {
        0
    } else {
        units / (UNITS_PER_PIXEL as int)
    }
}

/// The pixel rectangle that holds a box: its corner and its size, each cut
/// down to whole pixels.
pub open spec fn crop_region_spec(b: FaceBox) -> CropRegion {
    CropRegion {
        x: whole_pixels(b.xmin as int) as u32,
        y: whole_pixels(b.ymin as int) as u32,
        width: whole_pixels(b.xmax - b.xmin) as u32,
        height: whole_pixels(b.ymax - b.ymin) as u32,
    }
}

fn pixels_in(units: i64) -> (pixels: u32)
    requires
        units <= 0xffff_ffff,
    ensures
        pixels == whole_pixels(units as int),
{
    if units <= 0 {
        0
    } else {
        (units / 1000) as u32
    }
}

/// The pixel rectangle to cut out of the source image for a box.
pub fn crop_region(b: &FaceBox) -> (region: CropRegion)
    ensures
        region == crop_region_spec(*b),
{
    CropRegion {
        x: pixels_in(b.xmin as i64),
        y: pixels_in(b.ymin as i64),
        width: pixels_in(b.xmax as i64 - b.xmin as i64),
        height: pixels_in(b.ymax as i64 - b.ymin as i64),
    }
}

/// A face that survived suppression, with the rectangle to cut it out.
#[derive(Clone, Copy, Debug, PartialEq, Eq, Structural)]
pub struct DetectedFace {
    pub bbox: FaceBox,
    pub region: CropRegion,
}

/// The faces found in one detector output: the confident boxes after
/// suppression, in keep order, each with its crop rectangle.
pub open spec fn detect_spec(data: Seq<i32>, anchors: int, image: ResizedImage) -> Seq<
    DetectedFace,
> {
    nms_spec(decode_spec(data, anchors, image), IOU_THRESHOLD).map_values(
        |b: FaceBox| DetectedFace { bbox: b, region: crop_region_spec(b) },
    )
}

/// Turns raw detector output into faces.
#[derive(Clone, Copy, Debug, PartialEq, Eq, Structural)]
pub struct FaceDetector {
    /// Number of anchors in one output of the model.
    pub anchors: usize,
}

impl FaceDetector {
    /// A detector for the model's fixed number of anchors.
    pub fn new() -> (detector: Self)
        ensures
            detector.anchors == MODEL_ANCHORS,
    {
        FaceDetector { anchors: MODEL_ANCHORS }
    }

    /// All faces in one detector output, in keep order: anchors below the
    /// confidence threshold are discarded, the rest go through
    /// non-maximum suppression, and each kept box gets its crop rectangle.
    pub fn detect(&self, image: &ResizedImage, output: &Vec<i32>) -> (faces: Vec<DetectedFace>)
        requires
            image.well_formed(),
            output.len() == ANCHOR_ATTRIBUTES * self.anchors,
        ensures
            faces@ == detect_spec(output@, self.anchors as int, *image),
    {
        let boxes = decode_detections(output, self.anchors, image);
        let final_boxes = nms(boxes, IOU_THRESHOLD);
        let ghost to_face = |b: FaceBox| DetectedFace { bbox: b, region: crop_region_spec(b) };
        let mut faces: Vec<DetectedFace> = Vec::new();
        let mut i: usize = 0;
        while i < final_boxes.len()
            invariant
                i <= final_boxes.len(),
                to_face == (|b: FaceBox| DetectedFace { bbox: b, region: crop_region_spec(b) }),
                faces@ == final_boxes@.take(i as int).map_values(to_face),
            decreases final_boxes.len() - i,
        {
            let b = final_boxes[i];
            proof {
                assert(final_boxes@.take(i + 1).map_values(to_face) =~= final_boxes@.take(
                    i as int,
                ).map_values(to_face).push(to_face(b)));
            }
            faces.push(DetectedFace { bbox: b, region: crop_region(&b) });
            i += 1;
        }
        proof {
            assert(final_boxes@.take(final_boxes.len() as int) =~= final_boxes@);
        }
        faces
    }
}

} // verus!
