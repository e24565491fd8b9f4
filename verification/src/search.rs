//! Composition of the query vector for a similarity search: the text
//! embedding, blended with the mean of the reference-image embeddings when
//! there are any.
//!
//! Embedding components are fixed-point integers. A mean is the sum divided
//! by the count, rounded down.
use crate::fixed_point::floor_div;
use vstd::arithmetic::div_mod::{lemma_div_is_ordered, lemma_div_multiples_vanish};
use vstd::prelude::*;

verus! {

/// The vectors behind the references, as sequences of components.
pub open spec fn rows(vectors: Seq<&Vec<i32>>) -> Seq<Seq<i32>> {
    vectors.map_values(|v: &Vec<i32>| v@)
}

/// Every vector has as many components as the first.
pub open spec fn same_length(vectors: Seq<Seq<i32>>) -> bool {
    forall|k: int| 0 <= k < vectors.len() ==> #[trigger] vectors[k].len() == vectors[0].len()
}

/// Sum of component `i` over all vectors.
pub open spec fn column_sum(vectors: Seq<Seq<i32>>, i: int) -> int
    decreases vectors.len(),
{
    if vectors.len() == 0 {
        0
    } else {
        column_sum(vectors.drop_last(), i) + vectors.last()[i]
    }
}

/// Component-wise mean of the vectors, each component rounded down.
pub open spec fn average_spec(vectors: Seq<Seq<i32>>) -> Seq<i32> {
    Seq::new(
        vectors[0].len(),
        |i: int| (column_sum(vectors, i) / (vectors.len() as int)) as i32,
    )
}

/// A column sum lies between the count times the least and the count times
/// the greatest component value.
pub proof fn lemma_column_sum_bounds(vectors: Seq<Seq<i32>>, i: int)
    requires
        same_length(vectors),
        vectors.len() > 0 ==> 0 <= i < vectors[0].len(),
    ensures
        vectors.len() * (i32::MIN as int) <= column_sum(vectors, i) <= vectors.len() * (
        i32::MAX as int),
    decreases vectors.len(),
{
    if vectors.len() > 0 {
        let init = vectors.drop_last();
        if init.len() > 0 {
            assert(init[0] == vectors[0]);
        }
        assert forall|k: int| 0 <= k < init.len() implies #[trigger] init[k].len()
            == init[0].len() by {
            assert(init[k] == vectors[k]);
            assert(vectors[k].len() == vectors[0].len());
        }
        lemma_column_sum_bounds(init, i);
        assert(vectors.last().len() == vectors[0].len());
        let n = init.len() as int;
        assert((n + 1) * (i32::MIN as int) == n * (i32::MIN as int) + (i32::MIN as int))
            by (nonlinear_arith);
        assert((n + 1) * (i32::MAX as int) == n * (i32::MAX as int) + (i32::MAX as int))
            by (nonlinear_arith);
    }
}

/// The mean of a column is a component value again.
pub proof fn lemma_mean_in_range(sum: int, count: int)
    requires
        count > 0,
        count * (i32::MIN as int) <= sum <= count * (i32::MAX as int),
    ensures
        i32::MIN <= sum / count <= i32::MAX,
{
    lemma_div_is_ordered(count * (i32::MIN as int), sum, count);
    lemma_div_is_ordered(sum, count * (i32::MAX as int), count);
    lemma_div_multiples_vanish(i32::MIN as int, count);
    lemma_div_multiples_vanish(i32::MAX as int, count);
}

/// Whether the vectors can be averaged: there is at least one, and all have
/// the same number of components.
pub fn same_dimensions(vectors: &Vec<&Vec<i32>>) -> (ok: bool)
    ensures
        ok == (vectors.len() > 0 && same_length(rows(vectors@))),
{
    if vectors.len() == 0 {
        return false;
    }
    let len = vectors[0].len();
    let mut k: usize = 0;
    while k < vectors.len()
        invariant
            k <= vectors.len(),
            vectors.len() > 0,
            len == vectors@[0]@.len(),
            forall|j: int| 0 <= j < k ==> #[trigger] rows(vectors@)[j].len() == len,
        decreases vectors.len() - k,
    {
        if vectors[k].len() != len {
            proof {
                assert(rows(vectors@)[k as int].len() != rows(vectors@)[0].len());
            }
            return false;
        }
        k += 1;
    }
    true
}

/// Component-wise mean of the vectors.
///
/// The vectors must be at least one and of one length: anything else is a
/// fault in the caller's configuration, never data to be padded or cut.
pub fn average_slices(vectors: &Vec<&Vec<i32>>) -> (mean: Vec<i32>)
    requires
        vectors.len() > 0,
        same_length(rows(vectors@)),
    ensures
        mean@ == average_spec(rows(vectors@)),
{
    let ghost all = rows(vectors@);
    let len = vectors[0].len();
    let count = vectors.len();
    let mut mean: Vec<i32> = Vec::new();
    let mut i: usize = 0;
    while i < len
        invariant
            i <= len,
            len == all[0].len(),
            count == vectors.len(),
            count > 0,
            all == rows(vectors@),
            same_length(all),
            mean@ == average_spec(all).take(i as int),
        decreases len - i,
    {
        let mut sum: i128 = 0;
        let mut k: usize = 0;
        while k < count
            invariant
                k <= count,
                i < len,
                len == all[0].len(),
                count == vectors.len(),
                all == rows(vectors@),
                same_length(all),
                sum == column_sum(all.take(k as int), i as int),
                k * (i32::MIN as int) <= sum <= k * (i32::MAX as int),
            decreases count - k,
        {
            proof {
                assert(all[k as int].len() == all[0].len());
                assert(all.take(k + 1).drop_last() =~= all.take(k as int));
                assert(all.take(k + 1).last() == vectors@[k as int]@);
                assert((k + 1) * (i32::MIN as int) == k * (i32::MIN as int) + (i32::MIN as int))
                    by (nonlinear_arith);
                assert((k + 1) * (i32::MAX as int) == k * (i32::MAX as int) + (i32::MAX as int))
                    by (nonlinear_arith);
                assert(k * (i32::MIN as int) >= -0x1_0000_0000_0000_0000 * 0x8000_0000)
                    by (nonlinear_arith)
                    requires
                        0 <= k <= 0x1_0000_0000_0000_0000,
                ;
                assert(k * (i32::MAX as int) <= 0x1_0000_0000_0000_0000 * 0x8000_0000)
                    by (nonlinear_arith)
                    requires
                        0 <= k <= 0x1_0000_0000_0000_0000,
                ;
            }
            let v = vectors[k];
            sum = sum + v[i] as i128;
            k += 1;
        }
        proof {
            assert(all.take(count as int) =~= all);
            lemma_mean_in_range(sum as int, count as int);
        }
        let q = floor_div(sum, count as i128);
        mean.push(q as i32);
        proof {
            assert(average_spec(all).take(i + 1) =~= average_spec(all).take(i as int).push(
                q as i32,
            ));
        }
        i += 1;
    }
    proof {
        assert(average_spec(all).take(len as int) =~= average_spec(all));
    }
    mean
}

/// The mean of a single vector is that vector.
pub proof fn lemma_average_single(v: Seq<i32>)
    ensures
        average_spec(seq![v]) == v,
{
    let vs = seq![v];
    assert forall|i: int| 0 <= i < v.len() implies average_spec(vs)[i] == v[i] by {
        assert(vs.drop_last() =~= Seq::<Seq<i32>>::empty());
        assert(column_sum(vs.drop_last(), i) == 0);
        assert(column_sum(vs, i) == v[i]);
    }
    assert(average_spec(vs) =~= v);
}

/// The mean of a vector with itself is that vector.
pub proof fn lemma_average_pair_same(v: Seq<i32>)
    ensures
        average_spec(seq![v, v]) == v,
{
    let vs = seq![v, v];
    assert forall|i: int| 0 <= i < v.len() implies average_spec(vs)[i] == v[i] by {
        lemma_column_sum_pair(v, v, i);
        lemma_div_multiples_vanish(v[i] as int, 2);
    }
    assert(average_spec(vs) =~= v);
}

/// The column sum of two vectors is the sum of their components.
pub proof fn lemma_column_sum_pair(a: Seq<i32>, b: Seq<i32>, i: int)
    ensures
        column_sum(seq![a, b], i) == a[i] + b[i],
{
    let vs = seq![a, b];
    assert(vs.drop_last() =~= seq![a]);
    assert(seq![a].drop_last() =~= Seq::<Seq<i32>>::empty());
    assert(column_sum(seq![a].drop_last(), i) == 0);
    assert(column_sum(seq![a], i) == a[i]);
}

/// The query vector of a search: the text vector alone when there is no
/// reference, else the two-term mean of the reference average and the text
/// vector. The references weigh together as much as the text, however many
/// they are.
pub open spec fn query_vector_spec(text: Seq<i32>, references: Seq<Seq<i32>>) -> Seq<i32> {
    if references.len() == 0 {
        text
    } else {
        average_spec(seq![average_spec(references), text])
    }
}

/// Whether every reference has as many components as the text vector.
pub open spec fn references_match(text: Seq<i32>, references: Seq<Seq<i32>>) -> bool {
    forall|k: int| 0 <= k < references.len() ==> #[trigger] references[k].len() == text.len()
}

/// Whether every reference has as many components as the text vector.
pub fn dimensions_match(text: &Vec<i32>, references: &Vec<&Vec<i32>>) -> (ok: bool)
    ensures
        ok == references_match(text@, rows(references@)),
{
    let mut k: usize = 0;
    while k < references.len()
        invariant
            k <= references.len(),
            forall|j: int| 0 <= j < k ==> #[trigger] rows(references@)[j].len() == text@.len(),
        decreases references.len() - k,
    {
        if references[k].len() != text.len() {
            proof {
                assert(rows(references@)[k as int].len() != text@.len());
            }
            return false;
        }
        k += 1;
    }
    true
}

/// Blends the text vector with the reference vectors that were found.
pub fn compose_query_vector(text: &Vec<i32>, references: &Vec<&Vec<i32>>) -> (query: Vec<i32>)
    requires
        references_match(text@, rows(references@)),
    ensures
        query@ == query_vector_spec(text@, rows(references@)),
        references.len() == 0 ==> query@ == text@,
{
    if references.len() == 0 {
        return text.clone();
    }
    proof {
        let all = rows(references@);
        assert forall|k: int| 0 <= k < all.len() implies #[trigger] all[k].len()
            == all[0].len() by {
            assert(all[k].len() == text@.len());
            assert(all[0].len() == text@.len());
        }
    }
    let selected_images_average = average_slices(references);
    let mut pair: Vec<&Vec<i32>> = Vec::new();
    pair.push(&selected_images_average);
    pair.push(text);
    proof {
        assert(rows(pair@) =~= seq![selected_images_average@, text@]);
        assert(rows(references@)[0].len() == text@.len());
    }
    average_slices(&pair)
}

/// With a single reference the query vector is the component-wise mean of
/// that reference and the text vector.
pub proof fn lemma_query_single_reference(text: Seq<i32>, reference: Seq<i32>)
    ensures
        query_vector_spec(text, seq![reference]) == average_spec(seq![reference, text]),
        forall|i: int|
            0 <= i < reference.len() ==> #[trigger] query_vector_spec(text, seq![reference])[i] == (
            (reference[i] + text[i]) / 2) as i32,
{
    lemma_average_single(reference);
    assert forall|i: int| 0 <= i < reference.len() implies #[trigger] query_vector_spec(
        text,
        seq![reference],
    )[i] == ((reference[i] + text[i]) / 2) as i32 by {
        lemma_column_sum_pair(reference, text, i);
    }
}

/// Without references the query vector is the text vector.
pub proof fn lemma_query_no_reference(text: Seq<i32>)
    ensures
        query_vector_spec(text, Seq::empty()) == text,
{
}

} // verus!
