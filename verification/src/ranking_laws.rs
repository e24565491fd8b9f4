//! Suppression and the order of its input: what matters of the order is
//! only the order among boxes of equal confidence.
use crate::face_detector::FaceBox;
use crate::nms::{
    insertion_point, lemma_insertion_point_splits, lemma_sort_by_score, nms_spec, ranked_by_score,
    sort_by_score,
};
use vstd::prelude::*;

verus! {

/// The test for a box to have confidence `score`.
pub open spec fn has_score(score: u32) -> spec_fn(FaceBox) -> bool {
    |b: FaceBox| b.score == score
}

/// The boxes of confidence `score`, in their order.
pub open spec fn score_class(boxes: Seq<FaceBox>, score: u32) -> Seq<FaceBox> {
    boxes.filter(has_score(score))
}

/// Two sequences hold the same boxes and agree on the order among boxes of
/// equal confidence.
pub open spec fn same_tie_order(a: Seq<FaceBox>, b: Seq<FaceBox>) -> bool {
    forall|score: u32| #[trigger] score_class(a, score) == score_class(b, score)
}

/// The class of a sequence that begins with `first`.
proof fn lemma_class_of_prepended(first: FaceBox, rest: Seq<FaceBox>, score: u32)
    ensures
        score_class(seq![first] + rest, score) == (if first.score == score {
            seq![first]
        } else {
            Seq::empty()
        }) + score_class(rest, score),
{
    rest.lemma_filter_prepend(first, has_score(score));
}

/// Ranking leaves every class as it is.
pub proof fn lemma_sort_keeps_classes(boxes: Seq<FaceBox>, score: u32)
    ensures
        score_class(sort_by_score(boxes), score) == score_class(boxes, score),
    decreases boxes.len(),
{
    let pred = has_score(score);
    if boxes.len() == 0 {
        assert(sort_by_score(boxes) =~= boxes);
    } else {
        let init = boxes.drop_last();
        let last = boxes.last();
        lemma_sort_keeps_classes(init, score);
        lemma_sort_by_score(init);
        let ranked = sort_by_score(init);
        lemma_insertion_point_splits(ranked, last.score);
        let at = insertion_point(ranked, last.score);
        let before = ranked.take(at);
        let after = ranked.skip(at);
        let out = ranked.insert(at, last);
        assert(out =~= (before + seq![last]) + after);
        assert(ranked =~= before + after);
        Seq::filter_distributes_over_add(before + seq![last], after, pred);
        Seq::filter_distributes_over_add(before, seq![last], pred);
        Seq::filter_distributes_over_add(before, after, pred);
        assert(boxes =~= init.push(last));
        init.lemma_filter_push(last, pred);
        assert(seq![last] =~= Seq::<FaceBox>::empty().push(last));
        Seq::<FaceBox>::empty().lemma_filter_push(last, pred);
        assert(Seq::<FaceBox>::empty().filter(pred) =~= Seq::<FaceBox>::empty()) by {
            reveal(Seq::filter);
        }
        if last.score == score {
            assert forall|k: int| 0 <= k < after.len() implies !pred(#[trigger] after[k]) by {
                assert(after[k] == ranked[at + k]);
                assert(ranked[at + k].score < last.score);
            }
            assert(after.all(|x: FaceBox| !pred(x)));
            after.lemma_all_neg_filter_empty(pred);
            assert(after.filter(pred) =~= Seq::<FaceBox>::empty());
            assert(out.filter(pred) =~= ranked.filter(pred).push(last));
        } else {
            assert(out.filter(pred) =~= ranked.filter(pred));
        }
    }
}

/// A sequence with an empty class for the confidence of each of its boxes
/// is empty.
proof fn lemma_no_class_no_box(boxes: Seq<FaceBox>)
    requires
        forall|score: u32| (#[trigger] score_class(boxes, score)).len() == 0,
    ensures
        boxes.len() == 0,
{
    if boxes.len() > 0 {
        let first = boxes[0];
        assert(boxes =~= seq![first] + boxes.skip(1));
        lemma_class_of_prepended(first, boxes.skip(1), first.score);
        assert(score_class(boxes, first.score).len() == 0);
    }
}

/// In a ranking, a box in some class is no more confident than the first
/// box.
proof fn lemma_class_below_first(ranked: Seq<FaceBox>, score: u32)
    requires
        ranked_by_score(ranked),
        score_class(ranked, score).len() > 0,
    ensures
        ranked.len() > 0,
        score <= ranked[0].score,
{
    let pred = has_score(score);
    let class = score_class(ranked, score);
    if ranked.len() == 0 {
        assert(ranked.filter(pred) =~= Seq::<FaceBox>::empty()) by {
            reveal(Seq::filter);
        }
    }
    assert(class.contains(class[0]));
    ranked.lemma_filter_contains_rev(pred, class[0]);
    ranked.lemma_filter_pred(pred, 0);
    let m = choose|m: int| 0 <= m < ranked.len() && ranked[m] == class[0];
    if m > 0 {
        assert(ranked[0].score >= ranked[m].score);
    }
}

/// Two rankings that agree on every class are the same sequence.
pub proof fn lemma_ranking_fixed_by_classes(p: Seq<FaceBox>, q: Seq<FaceBox>)
    requires
        ranked_by_score(p),
        ranked_by_score(q),
        same_tie_order(p, q),
    ensures
        p == q,
    decreases p.len(),
{
    if p.len() == 0 {
        assert forall|score: u32| (#[trigger] score_class(q, score)).len() == 0 by {
            assert(score_class(p, score) == score_class(q, score));
            assert(p.filter(has_score(score)) =~= Seq::<FaceBox>::empty()) by {
                reveal(Seq::filter);
            }
        }
        lemma_no_class_no_box(q);
        assert(p =~= q);
    } else {
        let x = p[0];
        let pt = p.skip(1);
        assert(p =~= seq![x] + pt);
        lemma_class_of_prepended(x, pt, x.score);
        assert(score_class(p, x.score)[0] == x);
        assert(score_class(p, x.score) == score_class(q, x.score));
        lemma_class_below_first(q, x.score);
        let y = q[0];
        let qt = q.skip(1);
        assert(q =~= seq![y] + qt);
        lemma_class_of_prepended(y, qt, y.score);
        assert(score_class(q, y.score)[0] == y);
        assert(score_class(p, y.score) == score_class(q, y.score));
        lemma_class_below_first(p, y.score);
        assert(x.score == y.score);
        assert(x == y);
        assert forall|i: int, j: int| 0 <= i < j < pt.len() implies pt[i].score >= pt[j].score by {
            assert(pt[i] == p[i + 1] && pt[j] == p[j + 1]);
        }
        assert forall|i: int, j: int| 0 <= i < j < qt.len() implies qt[i].score >= qt[j].score by {
            assert(qt[i] == q[i + 1] && qt[j] == q[j + 1]);
        }
        assert forall|score: u32| #[trigger] score_class(pt, score) == score_class(qt, score) by {
            lemma_class_of_prepended(x, pt, score);
            lemma_class_of_prepended(y, qt, score);
            assert(score_class(p, score) == score_class(q, score));
            let head = if x.score == score {
                seq![x]
            } else {
                Seq::<FaceBox>::empty()
            };
            let a = score_class(pt, score);
            let b = score_class(qt, score);
            assert(head + a == head + b);
            assert(a =~= (head + a).skip(head.len() as int));
            assert(b =~= (head + b).skip(head.len() as int));
        }
        lemma_ranking_fixed_by_classes(pt, qt);
        assert(p =~= q);
    }
}

/// Suppression depends on the order of its input only through the order
/// among boxes of equal confidence: two inputs that hold the same boxes
/// and agree on that order give the same result.
pub proof fn lemma_nms_depends_on_tie_order_only(a: Seq<FaceBox>, b: Seq<FaceBox>, threshold: u32)
    requires
        same_tie_order(a, b),
    ensures
        sort_by_score(a) == sort_by_score(b),
        nms_spec(a, threshold) == nms_spec(b, threshold),
{
    lemma_sort_by_score(a);
    lemma_sort_by_score(b);
    assert forall|score: u32| #[trigger] score_class(sort_by_score(a), score) == score_class(
        sort_by_score(b),
        score,
    ) by {
        lemma_sort_keeps_classes(a, score);
        lemma_sort_keeps_classes(b, score);
        assert(score_class(a, score) == score_class(b, score));
    }
    lemma_ranking_fixed_by_classes(sort_by_score(a), sort_by_score(b));
}

} // verus!
