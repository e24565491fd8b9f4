//! Non-maximum suppression: rank detections by falling confidence, then keep
//! a box and drop every later box that overlaps it too much, until none is
//! left.
use crate::face_detector::{iou_exceeds, overlaps_beyond, FaceBox};
use vstd::prelude::*;

verus! {

/// Where a box of confidence `score` enters a ranking: behind the leading
/// run of boxes that are at least as confident.
pub open spec fn insertion_point(ranked: Seq<FaceBox>, score: u32) -> int
    decreases ranked.len(),
{
    if ranked.len() > 0 && ranked[0].score >= score {
        1 + insertion_point(ranked.skip(1), score)
    } else {
        0
    }
}

/// The boxes ranked by falling confidence. Boxes of equal confidence keep
/// the order in which they were given.
pub open spec fn sort_by_score(boxes: Seq<FaceBox>) -> Seq<FaceBox>
    decreases boxes.len(),
{
    if boxes.len() == 0 {
        Seq::empty()
    } else {
        let ranked = sort_by_score(boxes.drop_last());
        ranked.insert(insertion_point(ranked, boxes.last().score), boxes.last())
    }
}

/// The boxes of `rest` that `best` does not suppress, in their order.
pub open spec fn survivors(best: FaceBox, rest: Seq<FaceBox>, threshold: u32) -> Seq<FaceBox> {
    rest.filter(|b: FaceBox| !iou_exceeds(best, b, threshold))
}

/// Greedy selection over a ranking: the first box is kept, the boxes it
/// suppresses are dropped, and the selection goes on with what is left.
pub open spec fn greedy_keep(ranked: Seq<FaceBox>, threshold: u32) -> Seq<FaceBox>
    decreases ranked.len(),
    via greedy_keep_terminates
{
    if ranked.len() == 0 {
        Seq::empty()
    } else {
        seq![ranked[0]] + greedy_keep(survivors(ranked[0], ranked.skip(1), threshold), threshold)
    }
}

#[via_fn]
proof fn greedy_keep_terminates(ranked: Seq<FaceBox>, threshold: u32) {
    if ranked.len() != 0 {
        ranked.skip(1).lemma_filter_len(|b: FaceBox| !iou_exceeds(ranked[0], b, threshold));
    }
}

/// What suppression keeps of `boxes`, in keep order.
pub open spec fn nms_spec(boxes: Seq<FaceBox>, threshold: u32) -> Seq<FaceBox> {
    greedy_keep(sort_by_score(boxes), threshold)
}

/// Confidence never rises along the sequence.
pub open spec fn ranked_by_score(s: Seq<FaceBox>) -> bool {
    forall|i: int, j: int| 0 <= i < j < s.len() ==> s[i].score >= s[j].score
}

/// The insertion point is fixed by a run of confident boxes that ends at
/// `at`.
pub proof fn lemma_insertion_point(ranked: Seq<FaceBox>, score: u32, at: int)
    requires
        0 <= at <= ranked.len(),
        forall|k: int| 0 <= k < at ==> ranked[k].score >= score,
        at == ranked.len() || ranked[at].score < score,
    ensures
        insertion_point(ranked, score) == at,
    decreases at,
{
    if at > 0 {
        let tail = ranked.skip(1);
        assert forall|k: int| 0 <= k < at - 1 implies tail[k].score >= score by {
            assert(tail[k] == ranked[k + 1]);
        }
        lemma_insertion_point(tail, score, at - 1);
    }
}

/// The insertion point lies within the ranking, every box before it is at
/// least as confident as `score` and, in a ranking, every box from it on is
/// less confident.
pub proof fn lemma_insertion_point_splits(ranked: Seq<FaceBox>, score: u32)
    ensures
        0 <= insertion_point(ranked, score) <= ranked.len(),
        forall|k: int| 0 <= k < insertion_point(ranked, score) ==> ranked[k].score >= score,
        ranked_by_score(ranked) ==> forall|k: int|
            insertion_point(ranked, score) <= k < ranked.len() ==> ranked[k].score < score,
    decreases ranked.len(),
{
    if ranked.len() > 0 && ranked[0].score >= score {
        let tail = ranked.skip(1);
        lemma_insertion_point_splits(tail, score);
        let at = insertion_point(ranked, score);
        assert forall|k: int| 0 <= k < at implies ranked[k].score >= score by {
            if k > 0 {
                assert(tail[k - 1] == ranked[k]);
            }
        }
        if ranked_by_score(ranked) {
            assert forall|i: int, j: int| 0 <= i < j < tail.len() implies tail[i].score
                >= tail[j].score by {
                assert(tail[i] == ranked[i + 1]);
                assert(tail[j] == ranked[j + 1]);
            }
            assert forall|k: int| at <= k < ranked.len() implies ranked[k].score < score by {
                assert(tail[k - 1] == ranked[k]);
            }
        }
    } else if ranked_by_score(ranked) {
        assert forall|k: int| 0 <= k < ranked.len() implies ranked[k].score < score by {
            if k > 0 {
                assert(ranked[0].score >= ranked[k].score);
            }
        }
    }
}

/// Ranking rearranges the boxes: nothing is lost or added, and confidence
/// never rises along the result.
pub proof fn lemma_sort_by_score(boxes: Seq<FaceBox>)
    ensures
        sort_by_score(boxes).len() == boxes.len(),
        sort_by_score(boxes).to_multiset() == boxes.to_multiset(),
        ranked_by_score(sort_by_score(boxes)),
    decreases boxes.len(),
{
    broadcast use vstd::seq_lib::to_multiset_insert, vstd::seq_lib::to_multiset_build;

    if boxes.len() == 0 {
        assert(sort_by_score(boxes) =~= boxes);
    } else {
        let init = boxes.drop_last();
        let last = boxes.last();
        lemma_sort_by_score(init);
        let ranked = sort_by_score(init);
        lemma_insertion_point_splits(ranked, last.score);
        let at = insertion_point(ranked, last.score);
        let out = ranked.insert(at, last);
        assert(boxes =~= init.push(last));
        assert(out.to_multiset() == ranked.to_multiset().insert(last));
        assert(init.push(last).to_multiset() =~= init.to_multiset().insert(last));
        assert forall|i: int, j: int| 0 <= i < j < out.len() implies out[i].score
            >= out[j].score by {
            if j < at {
                assert(out[i] == ranked[i] && out[j] == ranked[j]);
            } else if j == at {
                assert(out[i] == ranked[i]);
            } else if i < at {
                assert(out[i] == ranked[i] && out[j] == ranked[j - 1]);
            } else if i == at {
                assert(out[j] == ranked[j - 1]);
            } else {
                assert(out[i] == ranked[i - 1] && out[j] == ranked[j - 1]);
            }
        }
    }
}

/// Ranks the boxes by falling confidence, keeping the given order among
/// boxes of equal confidence.
pub fn sort_descending(boxes: &Vec<FaceBox>) -> (ranked: Vec<FaceBox>)
    ensures
        ranked@ == sort_by_score(boxes@),
{
    let mut ranked: Vec<FaceBox> = Vec::new();
    let mut i: usize = 0;
    while i < boxes.len()
        invariant
            i <= boxes.len(),
            ranked@ == sort_by_score(boxes@.take(i as int)),
        decreases boxes.len() - i,
    {
        let b = boxes[i];
        let mut at: usize = 0;
        while at < ranked.len() && ranked[at].score >= b.score
            invariant
                at <= ranked.len(),
                forall|k: int| 0 <= k < at ==> ranked@[k].score >= b.score,
            decreases ranked.len() - at,
        {
            at += 1;
        }
        proof {
            lemma_insertion_point(ranked@, b.score, at as int);
            assert(boxes@.take(i + 1).drop_last() =~= boxes@.take(i as int));
            assert(boxes@.take(i + 1).last() == b);
        }
        ranked.insert(at, b);
        i += 1;
    }
    proof {
        assert(boxes@.take(boxes.len() as int) =~= boxes@);
    }
    ranked
}

/// The boxes behind the first of `ranked` that the first does not suppress.
fn retain_survivors(ranked: &Vec<FaceBox>, threshold: u32) -> (kept: Vec<FaceBox>)
    requires
        ranked.len() > 0,
    ensures
        kept@ == survivors(ranked@[0], ranked@.skip(1), threshold),
{
    let best = ranked[0];
    let ghost rest = ranked@.skip(1);
    let ghost pred = |b: FaceBox| !iou_exceeds(best, b, threshold);
    let mut kept: Vec<FaceBox> = Vec::new();
    let mut i: usize = 1;
    proof {
        assert(rest.take(0).filter(pred) =~= Seq::<FaceBox>::empty()) by {
            reveal(Seq::filter);
        }
    }
    while i < ranked.len()
        invariant
            1 <= i <= ranked.len(),
            best == ranked@[0],
            rest == ranked@.skip(1),
            pred == (|b: FaceBox| !iou_exceeds(best, b, threshold)),
            kept@ == rest.take(i - 1).filter(pred),
        decreases ranked.len() - i,
    {
        let candidate = ranked[i];
        proof {
            assert(rest.take(i as int) =~= rest.take(i - 1).push(candidate));
            rest.take(i - 1).lemma_filter_push(candidate, pred);
        }
        if !overlaps_beyond(&best, &candidate, threshold) {
            kept.push(candidate);
        }
        i += 1;
    }
    proof {
        assert(rest.take(ranked.len() - 1) =~= rest);
    }
    kept
}

/// Non-maximum suppression. The boxes are ranked by falling confidence,
/// ties in the given order; the most confident box left is kept and every
/// box whose overlap ratio with it exceeds `iou_threshold / UNIT_SCALE` is
/// dropped, until no box is left. The result is in keep order.
pub fn nms(boxes: Vec<FaceBox>, iou_threshold: u32) -> (kept: Vec<FaceBox>)
    ensures
        kept@ == nms_spec(boxes@, iou_threshold),
{
    let mut remaining = sort_descending(&boxes);
    let mut kept: Vec<FaceBox> = Vec::new();
    proof {
        assert(kept@ + greedy_keep(remaining@, iou_threshold) =~= nms_spec(
            boxes@,
            iou_threshold,
        ));
    }
    while remaining.len() > 0
        invariant
            kept@ + greedy_keep(remaining@, iou_threshold) == nms_spec(boxes@, iou_threshold),
        decreases remaining.len(),
    {
        let best = remaining[0];
        let next = retain_survivors(&remaining, iou_threshold);
        proof {
            remaining@.skip(1).lemma_filter_len(|b: FaceBox| !iou_exceeds(best, b, iou_threshold));
            assert(kept@.push(best) + greedy_keep(next@, iou_threshold) =~= kept@ + greedy_keep(
                remaining@,
                iou_threshold,
            ));
        }
        kept.push(best);
        remaining = next;
    }
    proof {
        assert(kept@ + greedy_keep(remaining@, iou_threshold) =~= kept@);
    }
    kept
}

/// No two boxes of the sequence share a confidence.
pub open spec fn distinct_scores(s: Seq<FaceBox>) -> bool {
    forall|i: int, j: int| 0 <= i < s.len() && 0 <= j < s.len() && i != j ==> s[i].score
        != s[j].score
}

/// Confidence falls strictly along the sequence.
pub open spec fn strictly_ranked(s: Seq<FaceBox>) -> bool {
    forall|i: int, j: int| 0 <= i < j < s.len() ==> s[i].score > s[j].score
}

/// A rearrangement of boxes with distinct confidences has distinct
/// confidences too.
pub proof fn lemma_distinct_scores_rearranged(a: Seq<FaceBox>, b: Seq<FaceBox>)
    requires
        a.to_multiset() == b.to_multiset(),
        distinct_scores(a),
    ensures
        distinct_scores(b),
{
    broadcast use vstd::seq_lib::to_multiset_contains;

    assert(a.no_duplicates());
    a.lemma_multiset_has_no_duplicates();
    b.lemma_multiset_has_no_duplicates_conv();
    assert forall|i: int, j: int| 0 <= i < b.len() && 0 <= j < b.len() && i != j implies b[i].score
        != b[j].score by {
        assert(b.contains(b[i]));
        assert(b.contains(b[j]));
        assert(a.to_multiset().count(b[i]) > 0);
        assert(a.to_multiset().count(b[j]) > 0);
        assert(a.contains(b[i]));
        assert(a.contains(b[j]));
        let m = choose|m: int| 0 <= m < a.len() && a[m] == b[i];
        let n = choose|n: int| 0 <= n < a.len() && a[n] == b[j];
        assert(b[i] != b[j]);
        assert(m != n);
    }
}

/// Ranking boxes of distinct confidences gives a strictly falling sequence.
pub proof fn lemma_sort_strict(boxes: Seq<FaceBox>)
    requires
        distinct_scores(boxes),
    ensures
        strictly_ranked(sort_by_score(boxes)),
{
    lemma_sort_by_score(boxes);
    lemma_distinct_scores_rearranged(boxes, sort_by_score(boxes));
}

/// Two strictly falling sequences that hold the same boxes are the same
/// sequence.
pub proof fn lemma_strict_ranking_unique(p: Seq<FaceBox>, q: Seq<FaceBox>)
    requires
        p.to_multiset() == q.to_multiset(),
        strictly_ranked(p),
        strictly_ranked(q),
    ensures
        p == q,
    decreases p.len(),
{
    broadcast use vstd::seq_lib::to_multiset_contains, vstd::seq_lib::to_multiset_remove;

    vstd::seq_lib::to_multiset_len(p);
    vstd::seq_lib::to_multiset_len(q);
    if p.len() == 0 {
        assert(p =~= q);
    } else {
        let x = p[0];
        assert(p.contains(x));
        assert(q.to_multiset().count(x) > 0);
        assert(q.contains(x));
        let k = choose|k: int| 0 <= k < q.len() && q[k] == x;
        if k > 0 {
            let y = q[0];
            assert(q.contains(y));
            assert(p.to_multiset().count(y) > 0);
            assert(p.contains(y));
            let m = choose|m: int| 0 <= m < p.len() && p[m] == y;
            assert(y.score > x.score);
            if m > 0 {
                assert(p[0].score > p[m].score);
            }
            assert(false);
        }
        assert(q[0] == x);
        let pt = p.remove(0);
        let qt = q.remove(0);
        assert(pt.to_multiset() == qt.to_multiset());
        assert forall|i: int, j: int| 0 <= i < j < pt.len() implies pt[i].score > pt[j].score by {
            assert(pt[i] == p[i + 1] && pt[j] == p[j + 1]);
        }
        assert forall|i: int, j: int| 0 <= i < j < qt.len() implies qt[i].score > qt[j].score by {
            assert(qt[i] == q[i + 1] && qt[j] == q[j + 1]);
        }
        lemma_strict_ranking_unique(pt, qt);
        assert forall|i: int| 0 <= i < p.len() implies p[i] == q[i] by {
            if i > 0 {
                assert(pt[i - 1] == p[i]);
                assert(qt[i - 1] == q[i]);
            }
        }
        assert(p =~= q);
    }
}

/// Suppression does not depend on the order in which the boxes are given,
/// as long as no two of them share a confidence: any rearrangement of the
/// input is ranked the same way and so keeps the same boxes in the same
/// order.
pub proof fn lemma_nms_order_independent(a: Seq<FaceBox>, b: Seq<FaceBox>, threshold: u32)
    requires
        a.to_multiset() == b.to_multiset(),
        distinct_scores(a),
    ensures
        nms_spec(a, threshold) == nms_spec(b, threshold),
{
    lemma_distinct_scores_rearranged(a, b);
    lemma_sort_strict(a);
    lemma_sort_strict(b);
    lemma_sort_by_score(a);
    lemma_sort_by_score(b);
    lemma_strict_ranking_unique(sort_by_score(a), sort_by_score(b));
}

} // verus!
