//! Estimated age and gender of a face, as the model reports them.
use crate::face_age_and_gender_estimator::{FaceAgeAndGenderEstimator, AGE_AND_GENDER_LENGTH};
use crate::face_recognition::{is_usable_face, usable_face, FaceWithOutput};
use crate::metadata::{clone_key, ExtractError, Metadata, MetadataProvider};
use vstd::prelude::*;

verus! {

/// Age and gender of a face, exactly as the model gave them.
#[derive(Clone, Copy, Debug, PartialEq, Eq, Structural)]
pub struct FaceAgeAndGender {
    pub gender: i32,
    pub age: i32,
}

/// Runs age and gender estimates into metadata records.
#[derive(Clone, Copy, Debug)]
pub struct AgeAndGenderMetadataProvider {
    pub face_age_and_gender_estimator: FaceAgeAndGenderEstimator,
}

impl AgeAndGenderMetadataProvider {
    pub fn new() -> (provider: Self) {
        Self { face_age_and_gender_estimator: FaceAgeAndGenderEstimator::new() }
    }
}

/// Whether the model output of a usable face has the wrong length.
pub open spec fn estimate_misfits(item: FaceWithOutput) -> bool {
    usable_face(item.face) && item.output@.len() != AGE_AND_GENDER_LENGTH
}

/// The record of an estimate: no key of its own yet, the age first and the
/// gender second as the model gave them, and the key of the face as base.
pub open spec fn estimate_record(item: FaceWithOutput) -> Metadata<FaceAgeAndGender> {
    Metadata {
        id: None,
        metadata: Some(FaceAgeAndGender { age: item.output@[0], gender: item.output@[1] }),
        base: item.face.id,
    }
}

/// The records of the usable faces, in the order of the faces.
pub open spec fn estimate_records(items: Seq<FaceWithOutput>) -> Seq<Metadata<FaceAgeAndGender>> {
    items.filter(|item: FaceWithOutput| usable_face(item.face)).map_values(
        |item: FaceWithOutput| estimate_record(item),
    )
}

impl MetadataProvider<FaceWithOutput, FaceAgeAndGender> for AgeAndGenderMetadataProvider {
    /// One record per usable face, in the order of the faces, with the
    /// model's values untouched; the other faces are left out. A usable
    /// face whose output does not have `AGE_AND_GENDER_LENGTH` values
    /// fails the whole extraction, with the position of the first such
    /// face.
    fn extract(&self, face_in_picture: &Vec<FaceWithOutput>) -> (results: Result<
        Vec<Metadata<FaceAgeAndGender>>,
        ExtractError,
    >)
        ensures
            results.is_err() == (exists|i: int|
                0 <= i < face_in_picture@.len() && estimate_misfits(#[trigger] face_in_picture@[i])),
            results.is_err() ==> {
                let index = results.unwrap_err()->DimensionMismatch_index as int;
                &&& 0 <= index < face_in_picture@.len()
                &&& estimate_misfits(face_in_picture@[index])
                &&& forall|j: int| 0 <= j < index ==> !estimate_misfits(face_in_picture@[j])
            },
            results.is_ok() ==> results.unwrap()@ == estimate_records(face_in_picture@),
    {
        let ghost usable = |item: FaceWithOutput| usable_face(item.face);
        let ghost record = |item: FaceWithOutput| estimate_record(item);
        let mut results: Vec<Metadata<FaceAgeAndGender>> = Vec::new();
        let mut i: usize = 0;
        proof {
            assert(face_in_picture@.take(0).filter(usable) =~= Seq::<FaceWithOutput>::empty()) by {
                reveal(Seq::filter);
            }
            assert(results@ =~= face_in_picture@.take(0).filter(usable).map_values(record));
        }
        while i < face_in_picture.len()
            invariant
                i <= face_in_picture.len(),
                usable == (|item: FaceWithOutput| usable_face(item.face)),
                record == (|item: FaceWithOutput| estimate_record(item)),
                forall|j: int| 0 <= j < i ==> !estimate_misfits(face_in_picture@[j]),
                results@ == face_in_picture@.take(i as int).filter(usable).map_values(record),
            decreases face_in_picture.len() - i,
        {
            let item = &face_in_picture[i];
            let ghost before = face_in_picture@.take(i as int).filter(usable);
            proof {
                assert(face_in_picture@.take(i + 1) =~= face_in_picture@.take(i as int).push(
                    *item,
                ));
                face_in_picture@.take(i as int).lemma_filter_push(*item, usable);
            }
            if is_usable_face(&item.face) {
                let (age, gender) = match self.face_age_and_gender_estimator.embed(&item.output) {
                    Some(estimate) => estimate,
                    None => {
                        return Err(ExtractError::DimensionMismatch { index: i });
                    },
                };
                results.push(
                    Metadata {
                        id: None,
                        metadata: Some(FaceAgeAndGender { age, gender }),
                        base: clone_key(&item.face.id),
                    },
                );
                proof {
                    assert(before.push(*item).map_values(record) =~= before.map_values(record).push(
                        estimate_record(*item),
                    ));
                }
            }
            i += 1;
        }
        proof {
            assert(face_in_picture@.take(face_in_picture.len() as int) =~= face_in_picture@);
        }
        Ok(results)
    }
}

} // verus!
