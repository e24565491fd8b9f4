//! Building the records of a chunk from what the models returned for it:
//! the image rows out of one batched run, each with its embedding at unit
//! length, and the faces of an image with their embeddings.
use crate::chunking::{chunk_count_spec, chunk_spec};
use crate::embedding::{
    lemma_sum_of_squares_bounds, lemma_unit_vector_length, sum_of_squares, unit_square,
    unit_vector, EMBEDDING_ONE, FACE_EMBEDDING_LENGTH, IMAGE_EMBEDDING_LENGTH,
};
use crate::face_detector::DetectedFace;
use crate::face_embedder::{embed_output, embedding_spec, EmbedError, FaceEmbedder};
use crate::fixed_point::{clamp_i32, saturate_i32};
use crate::metadata::RecordKey;
use crate::repository::positions_where;
use crate::web_search::ImageType;
use vstd::prelude::*;

verus! {

/// What the store says about an image when asked whether its faces are
/// done.
#[derive(Debug)]
pub struct ImageFaceEmbeddingCheckResult {
    pub id: RecordKey,
    pub face_detection_done: Option<bool>,
}

/// A face of an image: how sure the detector was, the box as corner and
/// size, and the embedding.
#[derive(Debug)]
pub struct FaceEmbedding {
    pub id: Option<RecordKey>,
    pub score: u32,
    pub bbox: [i32; 4],
    pub embedding: Vec<i32>,
}

/// Whether the faces of an image are still to be found: the store holds
/// the image exactly once and has not marked it as done.
pub open spec fn faces_pending(result: Seq<ImageFaceEmbeddingCheckResult>) -> bool {
    result.len() == 1 && result[0].face_detection_done != Some(true)
}

/// Whether the faces of an image are still to be found.
pub fn needs_face_detection(result: &Vec<ImageFaceEmbeddingCheckResult>) -> (pending: bool)
    ensures
        pending == faces_pending(result@),
{
    if result.len() != 1 {
        return false;
    }
    match result[0].face_detection_done {
        Some(done) => !done,
        None => true,
    }
}

/// The box of a face as left edge, top edge, width and height, the sizes
/// saturated.
pub open spec fn corner_and_size(face: DetectedFace) -> Seq<i32> {
    seq![
        face.bbox.xmin,
        face.bbox.ymin,
        clamp_i32(face.bbox.xmax - face.bbox.xmin) as i32,
        clamp_i32(face.bbox.ymax - face.bbox.ymin) as i32,
    ]
}

/// The record of a face from what the embedding model returned for its
/// cut-out.
pub fn face_embedding(face: &DetectedFace, output: &Vec<i32>, face_embedder: &FaceEmbedder) -> (made:
    Result<FaceEmbedding, EmbedError>)
    ensures
        made.is_ok() == embedding_spec(output@, FACE_EMBEDDING_LENGTH as int).is_ok(),
        made.is_err() ==> Err::<Seq<i32>, EmbedError>(made.unwrap_err()) == embedding_spec(
            output@,
            FACE_EMBEDDING_LENGTH as int,
        ),
        made.is_ok() ==> {
            let record = made.unwrap();
            &&& record.id.is_none()
            &&& record.score == face.bbox.score
            &&& record.bbox@ == corner_and_size(*face)
            &&& Ok::<Seq<i32>, EmbedError>(record.embedding@) == embedding_spec(
                output@,
                FACE_EMBEDDING_LENGTH as int,
            )
        },
{
    match face_embedder.embed(output) {
        Ok(embedding) => {
            let bbox: [i32; 4] = [
                face.bbox.xmin,
                face.bbox.ymin,
                saturate_i32(face.bbox.xmax as i128 - face.bbox.xmin as i128),
                saturate_i32(face.bbox.ymax as i128 - face.bbox.ymin as i128),
            ];
            proof {
                assert(bbox@ =~= corner_and_size(*face));
            }
            Ok(FaceEmbedding { id: None, score: face.bbox.score, bbox, embedding })
        },
        Err(e) => Err(e),
    }
}

/// All values of the buffers, one buffer after the other.
pub open spec fn flattened(buffers: Seq<Seq<i32>>) -> Seq<i32>
    decreases buffers.len(),
{
    if buffers.len() == 0 {
        Seq::empty()
    } else {
        flattened(buffers.drop_last()) + buffers.last()
    }
}

/// The buffers as sequences of values.
pub open spec fn buffer_views(buffers: Seq<Vec<i32>>) -> Seq<Seq<i32>> {
    buffers.map_values(|b: Vec<i32>| b@)
}

/// Joins the prepared images of a chunk into the input of one batched
/// model run.
pub fn flatten_buffers(buffers: &Vec<Vec<i32>>) -> (flat: Vec<i32>)
    ensures
        flat@ == flattened(buffer_views(buffers@)),
{
    let ghost all = buffer_views(buffers@);
    let mut flat: Vec<i32> = Vec::new();
    let mut i: usize = 0;
    while i < buffers.len()
        invariant
            i <= buffers.len(),
            all == buffer_views(buffers@),
            flat@ == flattened(all.take(i as int)),
        decreases buffers.len() - i,
    {
        let buffer = &buffers[i];
        let ghost before = flat@;
        let mut k: usize = 0;
        while k < buffer.len()
            invariant
                k <= buffer.len(),
                flat@ == before + buffer@.take(k as int),
            decreases buffer.len() - k,
        {
            flat.push(buffer[k]);
            proof {
                assert(buffer@.take(k + 1) =~= buffer@.take(k as int).push(buffer@[k as int]));
                assert(flat@ =~= before + buffer@.take(k + 1));
            }
            k += 1;
        }
        proof {
            assert(buffer@.take(buffer.len() as int) =~= buffer@);
            assert(all.take(i + 1).drop_last() =~= all.take(i as int));
            assert(all.take(i + 1).last() == buffer@);
        }
        i += 1;
    }
    proof {
        assert(all.take(buffers.len() as int) =~= all);
    }
    flat
}

/// Buffers of `dimension` values each, joined, have `dimension` values per
/// buffer, and cutting the joined values into runs of `dimension` gives
/// the buffers back.
pub proof fn lemma_flatten_then_split(buffers: Seq<Seq<i32>>, dimension: int, k: int)
    requires
        0 < dimension,
        forall|j: int| 0 <= j < buffers.len() ==> (#[trigger] buffers[j]).len() == dimension,
        0 <= k < buffers.len(),
    ensures
        flattened(buffers).len() == buffers.len() * dimension,
        chunk_count_spec(flattened(buffers).len() as int, dimension) == buffers.len(),
        chunk_spec(flattened(buffers), dimension, k) == buffers[k],
    decreases buffers.len(),
{
    let n = buffers.len() as int;
    let init = buffers.drop_last();
    lemma_flattened_len(buffers, dimension);
    crate::chunking::lemma_even_split(flattened(buffers).len() as int, dimension, n, k);
    assert((k + 1) * dimension == k * dimension + dimension) by (nonlinear_arith);
    assert((k + 1) * dimension <= n * dimension) by (nonlinear_arith)
        requires
            k + 1 <= n,
            dimension > 0,
    ;
    assert(0 <= k * dimension) by (nonlinear_arith)
        requires
            0 <= k,
            dimension > 0,
    ;
    if k == n - 1 {
        lemma_flattened_len(init, dimension);
        assert(chunk_spec(flattened(buffers), dimension, k) =~= buffers[k]);
    } else {
        assert forall|j: int| 0 <= j < init.len() implies (#[trigger] init[j]).len()
            == dimension by {
            assert(init[j] == buffers[j]);
        }
        lemma_flatten_then_split(init, dimension, k);
        lemma_flattened_len(init, dimension);
        assert((n - 1) * dimension == n * dimension - dimension) by (nonlinear_arith);
        assert((k + 1) * dimension <= (n - 1) * dimension) by (nonlinear_arith)
            requires
                k + 1 <= n - 1,
                dimension > 0,
        ;
        assert(chunk_spec(flattened(buffers), dimension, k) =~= chunk_spec(
            flattened(init),
            dimension,
            k,
        ));
        assert(init[k] == buffers[k]);
    }
}

/// Buffers of `dimension` values each, joined, have `dimension` values per
/// buffer.
pub proof fn lemma_flattened_len(buffers: Seq<Seq<i32>>, dimension: int)
    requires
        forall|j: int| 0 <= j < buffers.len() ==> (#[trigger] buffers[j]).len() == dimension,
    ensures
        flattened(buffers).len() == buffers.len() * dimension,
    decreases buffers.len(),
{
    if buffers.len() > 0 {
        let init = buffers.drop_last();
        assert forall|j: int| 0 <= j < init.len() implies (#[trigger] init[j]).len()
            == dimension by {
            assert(init[j] == buffers[j]);
        }
        lemma_flattened_len(init, dimension);
        assert(buffers.last().len() == dimension);
        assert((init.len() + 1) * dimension == init.len() * dimension + dimension)
            by (nonlinear_arith);
    } else {
        assert(buffers.len() * dimension == 0) by (nonlinear_arith)
            requires
                buffers.len() == 0,
        ;
    }
}

/// Why the rows of a chunk could not be built.
#[derive(Clone, Copy, Debug, PartialEq, Eq, Structural)]
pub enum RecordsError {
    /// The model returned another number of outputs than there are paths.
    CountMismatch { paths: usize, outputs: usize },
    /// The model output at this position does not have
    /// `IMAGE_EMBEDDING_LENGTH` values.
    DimensionMismatch { index: usize },
}

/// The test for a model output to have a direction: it is not zero.
pub open spec fn has_direction() -> spec_fn(Vec<i32>) -> bool {
    |output: Vec<i32>| sum_of_squares(output@) > 0
}

/// Whether the model output at `index` has the wrong length.
pub open spec fn output_misfits(outputs: Seq<Vec<i32>>, index: int) -> bool {
    outputs[index]@.len() != IMAGE_EMBEDDING_LENGTH
}

/// The positions of the outputs that are stored, ascending: those that are
/// not zero.
pub open spec fn stored_positions(outputs: Seq<Vec<i32>>) -> Seq<usize> {
    positions_where(outputs, has_direction(), outputs.len() as int)
}

/// What the row of a path holds: no key yet, the path, and the model
/// output of that path at unit length.
pub open spec fn is_image_row(row: ImageType, path: String, output: Vec<i32>) -> bool {
    &&& row.id.is_none()
    &&& row.image_path@ == path@
    &&& row.embedding@ == unit_vector(output@)
    &&& unit_square() - IMAGE_EMBEDDING_LENGTH * (2 * (EMBEDDING_ONE as int) + 1)
        <= sum_of_squares(row.embedding@) <= unit_square()
}

/// Row by row, `rows` holds the path and the unit-length output at the
/// position that `positions` names for it.
pub open spec fn rows_match(
    rows: Seq<ImageType>,
    paths: Seq<String>,
    outputs: Seq<Vec<i32>>,
    positions: Seq<usize>,
) -> bool {
    &&& rows.len() == positions.len()
    &&& forall|k: int|
        0 <= k < positions.len() ==> 0 <= #[trigger] positions[k] < paths.len() && is_image_row(
            rows[k],
            paths[positions[k] as int],
            outputs[positions[k] as int],
        )
}

/// The image rows of a chunk, out of the decoded paths and what the model
/// returned for them, position by position: each row holds its own path
/// and the output of that path at unit length, with no key yet. A path
/// whose output is zero gets no row. Outputs that are not as many as the
/// paths, or an output that does not have `IMAGE_EMBEDDING_LENGTH` values,
/// fail the whole chunk; nothing is cut or filled up.
pub fn image_records(paths: &Vec<String>, outputs: Vec<Vec<i32>>) -> (records: Result<
    Vec<ImageType>,
    RecordsError,
>)
    ensures
        records.is_err() == (outputs@.len() != paths@.len() || exists|i: int|
            0 <= i < outputs@.len() && #[trigger] output_misfits(outputs@, i)),
        outputs@.len() != paths@.len() ==> records == Err::<Vec<ImageType>, RecordsError>(
            RecordsError::CountMismatch {
                paths: paths@.len() as usize,
                outputs: outputs@.len() as usize,
            },
        ),
        outputs@.len() == paths@.len() && records.is_err() ==> {
            &&& records.unwrap_err() is DimensionMismatch
            &&& 0 <= records.unwrap_err()->index < outputs@.len()
            &&& output_misfits(outputs@, records.unwrap_err()->index as int)
            &&& forall|j: int|
                0 <= j < records.unwrap_err()->index ==> !output_misfits(outputs@, j)
        },
        records.is_ok() ==> rows_match(
            records.unwrap()@,
            paths@,
            outputs@,
            stored_positions(outputs@),
        ),
{
    if outputs.len() != paths.len() {
        return Err(RecordsError::CountMismatch { paths: paths.len(), outputs: outputs.len() });
    }
    let mut records: Vec<ImageType> = Vec::new();
    let mut i: usize = 0;
    while i < outputs.len()
        invariant
            i <= outputs.len(),
            outputs@.len() == paths@.len(),
            forall|j: int| 0 <= j < i ==> !output_misfits(outputs@, j),
            rows_match(
                records@,
                paths@,
                outputs@,
                positions_where(outputs@, has_direction(), i as int),
            ),
        decreases outputs.len() - i,
    {
        let ghost before = positions_where(outputs@, has_direction(), i as int);
        proof {
            lemma_sum_of_squares_bounds(outputs@[i as int]@);
        }
        match embed_output(&outputs[i], IMAGE_EMBEDDING_LENGTH) {
            Ok(embedding) => {
                let ghost held = records@;
                let row = ImageType { id: None, image_path: paths[i].clone(), embedding };
                proof {
                    lemma_unit_vector_length(outputs@[i as int]@);
                    assert(has_direction()(outputs@[i as int]));
                    assert(positions_where(outputs@, has_direction(), i + 1) == before.push(i));
                    assert(is_image_row(row, paths@[i as int], outputs@[i as int]));
                }
                records.push(row);
                proof {
                    let now = before.push(i);
                    assert forall|k: int| 0 <= k < now.len() implies 0 <= #[trigger] now[k]
                        < paths@.len() && is_image_row(
                        records@[k],
                        paths@[now[k] as int],
                        outputs@[now[k] as int],
                    ) by {
                        if k < held.len() {
                            assert(records@[k] == held[k]);
                            assert(now[k] == before[k]);
                        }
                    }
                    assert(rows_match(records@, paths@, outputs@, now));
                }
            },
            Err(EmbedError::WrongLength) => {
                proof {
                    assert(output_misfits(outputs@, i as int));
                }
                return Err(RecordsError::DimensionMismatch { index: i });
            },
            Err(EmbedError::NoDirection) => {
                proof {
                    assert(!has_direction()(outputs@[i as int]));
                    assert(positions_where(outputs@, has_direction(), i + 1) == before);
                }
            },
        }
        i += 1;
    }
    Ok(records)
}

/// A chunk of which every output has a direction gets one row per path, in
/// the order of the paths.
pub proof fn lemma_all_stored(outputs: Seq<Vec<i32>>, upto: int)
    requires
        0 <= upto <= outputs.len(),
        outputs.len() <= usize::MAX,
        forall|i: int| 0 <= i < upto ==> sum_of_squares((#[trigger] outputs[i])@) > 0,
    ensures
        positions_where(outputs, has_direction(), upto).len() == upto,
        forall|k: int|
            0 <= k < upto ==> #[trigger] positions_where(outputs, has_direction(), upto)[k] == k,
    decreases upto,
{
    if upto > 0 {
        lemma_all_stored(outputs, upto - 1);
        assert(has_direction()(outputs[upto - 1]));
    }
}

} // verus!
