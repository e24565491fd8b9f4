//! What a repository does with the records it is handed: which of them it
//! writes, and what it hands back for a face once the store has answered.
//!
//! A record is written by upsert on its base, so writing it twice leaves
//! one node. A record without a base or without a payload cannot be
//! written; it is left out and the others are not affected.
use crate::face_recognition::FaceInPicture;
use crate::metadata::{clone_key, Metadata};
use vstd::prelude::*;

verus! {

/// Whether a record can be written: it names its base and has a payload.
pub open spec fn writable<M>(item: Metadata<M>) -> bool {
    item.base.is_some() && item.metadata.is_some()
}

/// Whether a face record can be written. A face hangs from the image whose
/// key it carries in `id` until the store has given the face a key of its
/// own.
pub open spec fn writable_face(item: Metadata<FaceInPicture>) -> bool {
    item.id.is_some() && item.metadata.is_some()
}

/// The positions `i < upto` of `items` at which `wanted` holds, ascending.
pub open spec fn positions_where<T>(items: Seq<T>, wanted: spec_fn(T) -> bool, upto: int) -> Seq<
    usize,
>
    decreases upto,
{
    if upto <= 0 {
        Seq::empty()
    } else if wanted(items[upto - 1]) {
        positions_where(items, wanted, upto - 1).push((upto - 1) as usize)
    } else {
        positions_where(items, wanted, upto - 1)
    }
}

/// The positions found are positions of `items`, they ascend, `wanted`
/// holds at each, and no position where it holds is missing.
pub proof fn lemma_positions_where<T>(items: Seq<T>, wanted: spec_fn(T) -> bool, upto: int)
    requires
        0 <= upto <= items.len(),
        items.len() <= usize::MAX,
    ensures
        positions_where(items, wanted, upto).len() <= upto,
        forall|k: int|
            0 <= k < positions_where(items, wanted, upto).len() ==> {
                let p = #[trigger] positions_where(items, wanted, upto)[k];
                0 <= p < upto && wanted(items[p as int])
            },
        forall|k: int, l: int|
            0 <= k < l < positions_where(items, wanted, upto).len() ==> positions_where(
                items,
                wanted,
                upto,
            )[k] < positions_where(items, wanted, upto)[l],
        forall|i: int|
            0 <= i < upto && wanted(items[i]) ==> positions_where(items, wanted, upto).contains(
                i as usize,
            ),
    decreases upto,
{
    if upto > 0 {
        lemma_positions_where(items, wanted, upto - 1);
        let before = positions_where(items, wanted, upto - 1);
        let now = positions_where(items, wanted, upto);
        if wanted(items[upto - 1]) {
            assert(now == before.push((upto - 1) as usize));
            assert forall|i: int| 0 <= i < upto && wanted(items[i]) implies now.contains(
                i as usize,
            ) by {
                if i < upto - 1 {
                    assert(before.contains(i as usize));
                    let k = choose|k: int| 0 <= k < before.len() && before[k] == i as usize;
                    assert(now[k] == i as usize);
                } else {
                    assert(now[before.len() as int] == i as usize);
                }
            }
        } else {
            assert(now == before);
        }
    }
}

/// The positions of the records that are written, in the order in which
/// they are written.
pub fn upsert_candidates<M>(items: &Vec<Metadata<M>>) -> (positions: Vec<usize>)
    ensures
        positions@ == positions_where(
            items@,
            |item: Metadata<M>| writable(item),
            items@.len() as int,
        ),
{
    let ghost wanted = |item: Metadata<M>| writable(item);
    let mut positions: Vec<usize> = Vec::new();
    let mut i: usize = 0;
    while i < items.len()
        invariant
            i <= items.len(),
            wanted == (|item: Metadata<M>| writable(item)),
            positions@ == positions_where(items@, wanted, i as int),
        decreases items.len() - i,
    {
        if items[i].base.is_some() && items[i].metadata.is_some() {
            positions.push(i);
        }
        i += 1;
    }
    positions
}

/// The positions of the face records that are written, in the order in
/// which they are written.
pub fn face_upsert_candidates(items: &Vec<Metadata<FaceInPicture>>) -> (positions: Vec<usize>)
    ensures
        positions@ == positions_where(
            items@,
            |item: Metadata<FaceInPicture>| writable_face(item),
            items@.len() as int,
        ),
{
    let ghost wanted = |item: Metadata<FaceInPicture>| writable_face(item);
    let mut positions: Vec<usize> = Vec::new();
    let mut i: usize = 0;
    while i < items.len()
        invariant
            i <= items.len(),
            wanted == (|item: Metadata<FaceInPicture>| writable_face(item)),
            positions@ == positions_where(items@, wanted, i as int),
        decreases items.len() - i,
    {
        if items[i].id.is_some() && items[i].metadata.is_some() {
            positions.push(i);
        }
        i += 1;
    }
    positions
}

/// The face record to hand on after a write: key and base as the store
/// returned them, the payload as it was handed in, cut-out included, since
/// the store keeps no cut-out.
pub fn stored_face(row: &Metadata<FaceInPicture>, item: &Metadata<FaceInPicture>) -> (stored:
    Metadata<FaceInPicture>)
    ensures
        stored.id == row.id,
        stored.base == row.base,
        stored.metadata == item.metadata,
{
    Metadata { id: clone_key(&row.id), metadata: item.metadata, base: clone_key(&row.base) }
}

} // verus!
