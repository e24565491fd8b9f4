//! What holds of every result of suppression and detection.
use crate::face_detector::{
    decode_anchor, decode_spec, detect_spec, iou_exceeds, FaceBox, ResizedImage,
    CONFIDENCE_THRESHOLD, IOU_THRESHOLD,
};
use crate::face_detector::{
    intersection_area, lemma_iou_identical, overlap_height, overlap_width, union_area_stabilised,
    UNIT_SCALE,
};
use crate::nms::{
    greedy_keep, insertion_point, lemma_insertion_point, lemma_sort_by_score, nms_spec,
    ranked_by_score, sort_by_score, survivors,
};
use vstd::prelude::*;

verus! {

/// Suppression invents no box: whatever is kept was in the ranking.
pub proof fn lemma_kept_come_from_ranking(ranked: Seq<FaceBox>, threshold: u32)
    ensures
        greedy_keep(ranked, threshold).len() <= ranked.len(),
        forall|k: int|
            0 <= k < greedy_keep(ranked, threshold).len() ==> ranked.contains(
                #[trigger] greedy_keep(ranked, threshold)[k],
            ),
    decreases ranked.len(),
{
    if ranked.len() > 0 {
        let best = ranked[0];
        let pred = |b: FaceBox| !iou_exceeds(best, b, threshold);
        let rest = survivors(best, ranked.skip(1), threshold);
        ranked.skip(1).lemma_filter_len(pred);
        lemma_kept_come_from_ranking(rest, threshold);
        let kept = greedy_keep(ranked, threshold);
        assert forall|k: int| 0 <= k < kept.len() implies ranked.contains(#[trigger] kept[k]) by {
            if k == 0 {
                assert(kept[0] == ranked[0]);
            } else {
                let b = greedy_keep(rest, threshold)[k - 1];
                assert(kept[k] == b);
                assert(rest.contains(b));
                ranked.skip(1).lemma_filter_contains_rev(pred, b);
                let i = choose|i: int| 0 <= i < ranked.skip(1).len() && ranked.skip(1)[i] == b;
                assert(ranked[i + 1] == b);
            }
        }
    }
}

/// The most confident box is always kept, and it comes first.
pub proof fn lemma_best_is_kept(ranked: Seq<FaceBox>, threshold: u32)
    requires
        ranked.len() > 0,
    ensures
        greedy_keep(ranked, threshold).len() > 0,
        greedy_keep(ranked, threshold)[0] == ranked[0],
{
}

/// No kept box suppresses a box kept after it.
pub proof fn lemma_kept_are_separated(ranked: Seq<FaceBox>, threshold: u32)
    ensures
        forall|i: int, j: int|
            0 <= i < j < greedy_keep(ranked, threshold).len() ==> !iou_exceeds(
                greedy_keep(ranked, threshold)[i],
                greedy_keep(ranked, threshold)[j],
                threshold,
            ),
    decreases ranked.len(),
{
    if ranked.len() > 0 {
        let best = ranked[0];
        let pred = |b: FaceBox| !iou_exceeds(best, b, threshold);
        let rest = survivors(best, ranked.skip(1), threshold);
        ranked.skip(1).lemma_filter_len(pred);
        lemma_kept_are_separated(rest, threshold);
        lemma_kept_come_from_ranking(rest, threshold);
        let kept = greedy_keep(ranked, threshold);
        let tail = greedy_keep(rest, threshold);
        assert forall|i: int, j: int| 0 <= i < j < kept.len() implies !iou_exceeds(
            kept[i],
            kept[j],
            threshold,
        ) by {
            assert(kept[j] == tail[j - 1]);
            if i == 0 {
                assert(rest.contains(tail[j - 1]));
                let m = choose|m: int| 0 <= m < rest.len() && rest[m] == tail[j - 1];
                ranked.skip(1).lemma_filter_pred(pred, m);
                assert(pred(rest[m]));
            } else {
                assert(kept[i] == tail[i - 1]);
            }
        }
    }
}

/// Every box of the ranking is either kept or suppressed by a kept box.
pub proof fn lemma_dropped_are_suppressed(ranked: Seq<FaceBox>, threshold: u32, b: FaceBox)
    requires
        ranked.contains(b),
    ensures
        greedy_keep(ranked, threshold).contains(b) || exists|k: int|
            0 <= k < greedy_keep(ranked, threshold).len() && iou_exceeds(
                #[trigger] greedy_keep(ranked, threshold)[k],
                b,
                threshold,
            ),
    decreases ranked.len(),
{
    let best = ranked[0];
    let pred = |x: FaceBox| !iou_exceeds(best, x, threshold);
    let rest = survivors(best, ranked.skip(1), threshold);
    let kept = greedy_keep(ranked, threshold);
    let tail = greedy_keep(rest, threshold);
    ranked.skip(1).lemma_filter_len(pred);
    let at = choose|at: int| 0 <= at < ranked.len() && ranked[at] == b;
    if at == 0 {
        assert(kept[0] == b);
    } else if iou_exceeds(best, b, threshold) {
        assert(kept[0] == best);
    } else {
        assert(ranked.skip(1)[at - 1] == b);
        ranked.skip(1).lemma_filter_contains(pred, at - 1);
        lemma_dropped_are_suppressed(rest, threshold, b);
        if tail.contains(b) {
            let k = choose|k: int| 0 <= k < tail.len() && tail[k] == b;
            assert(kept[k + 1] == b);
        } else {
            let k = choose|k: int|
                0 <= k < tail.len() && iou_exceeds(#[trigger] tail[k], b, threshold);
            assert(kept[k + 1] == tail[k]);
        }
    }
}

/// Suppression keeps only boxes that it was given, never more than it was
/// given, and at least one when it was given any.
pub proof fn lemma_nms_selects(boxes: Seq<FaceBox>, threshold: u32)
    ensures
        nms_spec(boxes, threshold).len() <= boxes.len(),
        boxes.len() > 0 ==> nms_spec(boxes, threshold).len() > 0,
        forall|k: int|
            0 <= k < nms_spec(boxes, threshold).len() ==> boxes.contains(
                #[trigger] nms_spec(boxes, threshold)[k],
            ),
{
    broadcast use vstd::seq_lib::to_multiset_contains;

    let ranked = sort_by_score(boxes);
    lemma_sort_by_score(boxes);
    lemma_kept_come_from_ranking(ranked, threshold);
    assert forall|k: int| 0 <= k < nms_spec(boxes, threshold).len() implies boxes.contains(
        #[trigger] nms_spec(boxes, threshold)[k],
    ) by {
        let b = nms_spec(boxes, threshold)[k];
        assert(ranked.contains(b));
        assert(ranked.to_multiset().count(b) > 0);
    }
}

/// The confidence that the output reports for an anchor.
pub open spec fn anchor_confidence(data: Seq<i32>, anchors: int, anchor: int) -> i32 {
    data[4 * anchors + anchor]
}

/// An output in which no anchor reaches the confidence threshold holds no
/// face.
pub proof fn lemma_nothing_confident_nothing_found(
    data: Seq<i32>,
    anchors: int,
    image: ResizedImage,
)
    requires
        0 <= anchors,
        forall|a: int|
            0 <= a < anchors ==> #[trigger] anchor_confidence(data, anchors, a)
                < CONFIDENCE_THRESHOLD,
    ensures
        decode_spec(data, anchors, image).len() == 0,
        detect_spec(data, anchors, image).len() == 0,
{
    let all = Seq::new(anchors as nat, |a: int| decode_anchor(data, anchors, a, image));
    let pred = |b: FaceBox| b.score >= CONFIDENCE_THRESHOLD;
    assert forall|a: int| 0 <= a < all.len() implies !pred(#[trigger] all[a]) by {
        assert(anchor_confidence(data, anchors, a) < CONFIDENCE_THRESHOLD);
    }
    assert(all.all(|x: FaceBox| !pred(x)));
    all.lemma_all_neg_filter_empty(pred);
    assert(decode_spec(data, anchors, image) =~= Seq::<FaceBox>::empty());
    assert(sort_by_score(Seq::<FaceBox>::empty()) =~= Seq::<FaceBox>::empty());
    assert(nms_spec(decode_spec(data, anchors, image), IOU_THRESHOLD) =~= Seq::<FaceBox>::empty());
}

/// The overlap ratio of two well-formed boxes lies between zero and one and
/// never reaches one.
pub proof fn lemma_iou_between_zero_and_one(a: FaceBox, b: FaceBox)
    requires
        a.well_formed(),
        b.well_formed(),
    ensures
        0 <= intersection_area(a, b) < union_area_stabilised(a, b),
        intersection_area(a, b) <= a.area(),
        intersection_area(a, b) <= b.area(),
{
    let w = overlap_width(a, b);
    let h = overlap_height(a, b);
    let (aw, ah) = (a.xmax - a.xmin, a.ymax - a.ymin);
    let (bw, bh) = (b.xmax - b.xmin, b.ymax - b.ymin);
    assert(0 <= w <= aw && 0 <= w <= bw);
    assert(0 <= h <= ah && 0 <= h <= bh);
    assert(0 <= w * h <= aw * ah) by (nonlinear_arith)
        requires
            0 <= w <= aw,
            0 <= h <= ah,
    ;
    assert(w * h <= bw * bh) by (nonlinear_arith)
        requires
            0 <= w <= bw,
            0 <= h <= bh,
    ;
}

/// Dropping boxes from a ranking leaves a ranking.
pub proof fn lemma_filter_keeps_ranking(ranked: Seq<FaceBox>, pred: spec_fn(FaceBox) -> bool)
    requires
        ranked_by_score(ranked),
    ensures
        ranked_by_score(ranked.filter(pred)),
    decreases ranked.len(),
{
    reveal(Seq::filter);
    if ranked.len() > 0 {
        let init = ranked.drop_last();
        assert forall|i: int, j: int| 0 <= i < j < init.len() implies init[i].score
            >= init[j].score by {
            assert(init[i] == ranked[i] && init[j] == ranked[j]);
        }
        lemma_filter_keeps_ranking(init, pred);
        let kept = init.filter(pred);
        let out = ranked.filter(pred);
        if pred(ranked.last()) {
            assert(out == kept.push(ranked.last()));
            assert forall|i: int, j: int| 0 <= i < j < out.len() implies out[i].score
                >= out[j].score by {
                if j == kept.len() {
                    assert(kept.contains(kept[i]));
                    init.lemma_filter_contains_rev(pred, kept[i]);
                    let m = choose|m: int| 0 <= m < init.len() && init[m] == kept[i];
                    assert(ranked[m] == kept[i]);
                    assert(ranked[m].score >= ranked[ranked.len() - 1].score);
                } else {
                    assert(out[i] == kept[i] && out[j] == kept[j]);
                }
            }
        } else {
            assert(out == kept);
        }
    }
}

/// What is kept of a ranking is a ranking: the kept boxes come out by
/// falling confidence.
pub proof fn lemma_kept_are_ranked(ranked: Seq<FaceBox>, threshold: u32)
    requires
        ranked_by_score(ranked),
    ensures
        ranked_by_score(greedy_keep(ranked, threshold)),
    decreases ranked.len(),
{
    if ranked.len() > 0 {
        let best = ranked[0];
        let pred = |b: FaceBox| !iou_exceeds(best, b, threshold);
        let tail = ranked.skip(1);
        let rest = survivors(best, tail, threshold);
        tail.lemma_filter_len(pred);
        assert forall|i: int, j: int| 0 <= i < j < tail.len() implies tail[i].score
            >= tail[j].score by {
            assert(tail[i] == ranked[i + 1] && tail[j] == ranked[j + 1]);
        }
        lemma_filter_keeps_ranking(tail, pred);
        lemma_kept_are_ranked(rest, threshold);
        lemma_kept_come_from_ranking(rest, threshold);
        let kept = greedy_keep(ranked, threshold);
        let later = greedy_keep(rest, threshold);
        assert forall|i: int, j: int| 0 <= i < j < kept.len() implies kept[i].score
            >= kept[j].score by {
            assert(kept[j] == later[j - 1]);
            if i == 0 {
                assert(rest.contains(later[j - 1]));
                tail.lemma_filter_contains_rev(pred, later[j - 1]);
                let m = choose|m: int| 0 <= m < tail.len() && tail[m] == later[j - 1];
                assert(ranked[m + 1] == later[j - 1]);
                assert(ranked[0].score >= ranked[m + 1].score);
            } else {
                assert(kept[i] == later[i - 1]);
            }
        }
    }
}

/// Ranking a ranking changes nothing.
pub proof fn lemma_sort_of_ranked(ranked: Seq<FaceBox>)
    requires
        ranked_by_score(ranked),
    ensures
        sort_by_score(ranked) == ranked,
    decreases ranked.len(),
{
    if ranked.len() == 0 {
        assert(sort_by_score(ranked) =~= ranked);
    } else {
        let init = ranked.drop_last();
        let last = ranked.last();
        assert forall|i: int, j: int| 0 <= i < j < init.len() implies init[i].score
            >= init[j].score by {
            assert(init[i] == ranked[i] && init[j] == ranked[j]);
        }
        lemma_sort_of_ranked(init);
        assert forall|k: int| 0 <= k < init.len() implies init[k].score >= last.score by {
            assert(init[k] == ranked[k]);
            assert(ranked[k].score >= ranked[ranked.len() - 1].score);
        }
        lemma_insertion_point(init, last.score, init.len() as int);
        assert(init.insert(init.len() as int, last) =~= ranked);
    }
}

/// Selection keeps all of a sequence in which no box suppresses a later
/// one.
pub proof fn lemma_separated_are_all_kept(boxes: Seq<FaceBox>, threshold: u32)
    requires
        forall|i: int, j: int|
            0 <= i < j < boxes.len() ==> !iou_exceeds(boxes[i], boxes[j], threshold),
    ensures
        greedy_keep(boxes, threshold) == boxes,
    decreases boxes.len(),
{
    if boxes.len() == 0 {
        assert(greedy_keep(boxes, threshold) =~= boxes);
    } else {
        let best = boxes[0];
        let pred = |b: FaceBox| !iou_exceeds(best, b, threshold);
        let tail = boxes.skip(1);
        assert forall|k: int| 0 <= k < tail.len() implies pred(#[trigger] tail[k]) by {
            assert(tail[k] == boxes[k + 1]);
            assert(!iou_exceeds(boxes[0], boxes[k + 1], threshold));
        }
        lemma_filter_all(tail, pred);
        assert forall|i: int, j: int| 0 <= i < j < tail.len() implies !iou_exceeds(
            tail[i],
            tail[j],
            threshold,
        ) by {
            assert(tail[i] == boxes[i + 1] && tail[j] == boxes[j + 1]);
        }
        lemma_separated_are_all_kept(tail, threshold);
        assert(seq![best] + tail =~= boxes);
    }
}

/// Dropping nothing leaves the sequence as it is.
proof fn lemma_filter_all(s: Seq<FaceBox>, pred: spec_fn(FaceBox) -> bool)
    requires
        forall|k: int| 0 <= k < s.len() ==> pred(#[trigger] s[k]),
    ensures
        s.filter(pred) == s,
    decreases s.len(),
{
    reveal(Seq::filter);
    if s.len() > 0 {
        let init = s.drop_last();
        assert forall|k: int| 0 <= k < init.len() implies pred(#[trigger] init[k]) by {
            assert(init[k] == s[k]);
        }
        lemma_filter_all(init, pred);
        assert(init.push(s.last()) =~= s);
    } else {
        assert(s.filter(pred) =~= s);
    }
}

/// Suppression settles at once: run on its own result, it keeps all of it
/// in the same order.
pub proof fn lemma_nms_is_idempotent(boxes: Seq<FaceBox>, threshold: u32)
    ensures
        nms_spec(nms_spec(boxes, threshold), threshold) == nms_spec(boxes, threshold),
{
    let ranked = sort_by_score(boxes);
    let kept = greedy_keep(ranked, threshold);
    lemma_sort_by_score(boxes);
    lemma_kept_are_ranked(ranked, threshold);
    lemma_sort_of_ranked(kept);
    lemma_kept_are_separated(ranked, threshold);
    lemma_separated_are_all_kept(kept, threshold);
}

/// A well-formed box of at least a square pixel overlaps itself beyond
/// every threshold below one: at the resolution of thresholds its overlap
/// ratio with itself is one.
pub proof fn lemma_iou_identical_is_one(a: FaceBox, threshold: u32)
    requires
        a.well_formed(),
        a.area() >= UNIT_SCALE,
        threshold < UNIT_SCALE,
    ensures
        iou_exceeds(a, a, threshold),
        !iou_exceeds(a, a, UNIT_SCALE),
{
    lemma_iou_identical(a);
    let area = a.area();
    assert(area * 1_000_000 > (threshold as int) * (area + 1)) by (nonlinear_arith)
        requires
            area >= 1_000_000,
            0 <= threshold < 1_000_000,
    ;
    assert(area * 1_000_000 <= 1_000_000 * (area + 1)) by (nonlinear_arith)
        requires
            area >= 0,
    ;
}

} // verus!
