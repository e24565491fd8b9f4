//! Cutting a list into consecutive chunks of a fixed size, the last one
//! possibly shorter.
use vstd::arithmetic::div_mod::{lemma_fundamental_div_mod, lemma_fundamental_div_mod_converse};
use vstd::prelude::*;

verus! {

/// Number of image paths that go through the pipeline together unless the
/// caller asks for another size.
pub const DEFAULT_CHUNK_SIZE: usize = 500;

/// Number of chunks of `size` items that `len` items fill.
pub open spec fn chunk_count_spec(len: int, size: int) -> int {
    (len + size - 1) / size
}

/// Index of the first item of chunk `index`.
pub open spec fn chunk_start(size: int, index: int) -> int {
    index * size
}

/// Index behind the last item of chunk `index`.
pub open spec fn chunk_end(len: int, size: int, index: int) -> int {
    if (index + 1) * size < len {
        (index + 1) * size
    } else {
        len
    }
}

/// Chunk `index` of `items`.
pub open spec fn chunk_spec<T>(items: Seq<T>, size: int, index: int) -> Seq<T> {
    items.subrange(chunk_start(size, index), chunk_end(items.len() as int, size, index))
}

/// The chunks lie one behind the other and cover all items: the first
/// starts at the first item, each starts where the one before ended, the
/// last ends behind the last item, and none is empty or longer than
/// `size`.
pub proof fn lemma_chunks_cover(len: int, size: int, index: int)
    requires
        0 <= len,
        0 < size,
        0 <= index < chunk_count_spec(len, size),
    ensures
        chunk_start(size, 0) == 0,
        chunk_start(size, index) < chunk_end(len, size, index) <= len,
        chunk_end(len, size, index) - chunk_start(size, index) <= size,
        chunk_end(len, size, index) == chunk_start(size, index + 1) || index + 1
            == chunk_count_spec(len, size),
        index + 1 == chunk_count_spec(len, size) ==> chunk_end(len, size, index) == len,
        index + 1 < chunk_count_spec(len, size) ==> chunk_end(len, size, index) - chunk_start(
            size,
            index,
        ) == size,
{
    let count = chunk_count_spec(len, size);
    let x = len + size - 1;
    lemma_fundamental_div_mod(x, size);
    let r = x % size;
    assert(0 <= r < size) by (nonlinear_arith)
        requires
            r == x % size,
            size > 0,
    ;
    assert(x == size * count + r);
    assert(index * size + size <= count * size) by (nonlinear_arith)
        requires
            index + 1 <= count,
            size > 0,
    ;
    assert((index + 1) * size == index * size + size) by (nonlinear_arith);
    assert(size * count == count * size) by (nonlinear_arith);
    assert(0 * size == 0);
    if index + 1 < count {
        assert(index * size + 2 * size <= count * size) by (nonlinear_arith)
            requires
                index + 2 <= count,
                size > 0,
        ;
    }
}

/// No items, no chunks; and `len` items in chunks of `size` never make more
/// than `len` chunks.
pub proof fn lemma_chunk_count_bounds(len: int, size: int)
    requires
        0 <= len,
        0 < size,
    ensures
        0 <= chunk_count_spec(len, size) <= len,
        (chunk_count_spec(len, size) == 0) == (len == 0),
{
    let count = chunk_count_spec(len, size);
    let x = len + size - 1;
    lemma_fundamental_div_mod(x, size);
    let r = x % size;
    assert(0 <= r < size) by (nonlinear_arith)
        requires
            r == x % size,
            size > 0,
    ;
    assert(size * count == count * size) by (nonlinear_arith);
    if count < 0 {
        assert(count * size <= -size) by (nonlinear_arith)
            requires
                count <= -1,
                size > 0,
        ;
    }
    if count > len {
        assert(count * size >= (len + 1) * size) by (nonlinear_arith)
            requires
                count >= len + 1,
                size > 0,
        ;
        assert((len + 1) * size >= len + size) by (nonlinear_arith)
            requires
                len >= 0,
                size >= 1,
        ;
    }
    if count == 0 {
        assert(count * size == 0);
    }
    if len == 0 {
        if count >= 1 {
            assert(count * size >= size) by (nonlinear_arith)
                requires
                    count >= 1,
                    size > 0,
            ;
        }
    }
}

/// Number of chunks of `size` items that `len` items fill.
pub fn chunk_count(len: usize, size: usize) -> (count: usize)
    requires
        size > 0,
    ensures
        count == chunk_count_spec(len as int, size as int),
{
    if len == 0 {
        proof {
            lemma_chunk_count_bounds(0, size as int);
        }
        return 0;
    }
    let full = (len - 1) / size;
    proof {
        let q = ((len - 1) as int) / (size as int);
        let r = ((len - 1) as int) % (size as int);
        lemma_fundamental_div_mod((len - 1) as int, size as int);
        assert(0 <= r < size) by (nonlinear_arith)
            requires
                r == ((len - 1) as int) % (size as int),
                size > 0,
        ;
        assert((len + size - 1) as int == (q + 1) * (size as int) + r) by (nonlinear_arith)
            requires
                (len - 1) as int == (size as int) * q + r,
        ;
        lemma_fundamental_div_mod_converse((len + size - 1) as int, size as int, q + 1, r);
        lemma_chunk_count_bounds(len as int, size as int);
    }
    full + 1
}

/// Where chunk `index` starts and ends.
pub fn chunk_range(len: usize, size: usize, index: usize) -> (range: (usize, usize))
    requires
        size > 0,
        index < chunk_count_spec(len as int, size as int),
    ensures
        range.0 == chunk_start(size as int, index as int),
        range.1 == chunk_end(len as int, size as int, index as int),
        range.0 < range.1 <= len,
{
    proof {
        lemma_chunks_cover(len as int, size as int, index as int);
        assert((index + 1) * size == index * size + size) by (nonlinear_arith);
    }
    let start = index * size;
    let end = if len - start > size {
        start + size
    } else {
        len
    };
    (start, end)
}

/// The sequences of characters of the strings.
pub open spec fn texts(items: Seq<String>) -> Seq<Seq<char>> {
    items.map_values(|s: String| s@)
}

/// Chunk `index` of a list of paths.
pub fn path_chunk(paths: &Vec<String>, size: usize, index: usize) -> (chunk: Vec<String>)
    requires
        size > 0,
        index < chunk_count_spec(paths@.len() as int, size as int),
    ensures
        texts(chunk@) == chunk_spec(texts(paths@), size as int, index as int),
{
    let (start, end) = chunk_range(paths.len(), size, index);
    let mut chunk: Vec<String> = Vec::new();
    let mut i: usize = start;
    while i < end
        invariant
            start <= i <= end <= paths.len(),
            texts(chunk@) == texts(paths@).subrange(start as int, i as int),
        decreases end - i,
    {
        let ghost before = chunk@;
        let path = paths[i].clone();
        chunk.push(path);
        proof {
            assert(texts(chunk@) =~= texts(before).push(paths@[i as int]@));
            assert(texts(paths@).subrange(start as int, i + 1) =~= texts(paths@).subrange(
                start as int,
                i as int,
            ).push(paths@[i as int]@));
        }
        i += 1;
    }
    chunk
}

/// Splits the flat output of a batched model run into one vector per
/// image: consecutive runs of `dimension` values, the last run holding
/// what is left. A last run that is shorter than the others shows an
/// output that was cut short; it is kept as it is, for the caller to
/// reject.
pub fn split_embeddings(flat: &Vec<i32>, dimension: usize) -> (vectors: Vec<Vec<i32>>)
    requires
        dimension > 0,
    ensures
        vectors@.len() == chunk_count_spec(flat@.len() as int, dimension as int),
        forall|k: int|
            0 <= k < vectors@.len() ==> (#[trigger] vectors@[k])@ == chunk_spec(
                flat@,
                dimension as int,
                k,
            ),
{
    let count = chunk_count(flat.len(), dimension);
    let mut vectors: Vec<Vec<i32>> = Vec::new();
    let mut k: usize = 0;
    while k < count
        invariant
            k <= count,
            dimension > 0,
            count == chunk_count_spec(flat@.len() as int, dimension as int),
            vectors@.len() == k,
            forall|j: int|
                0 <= j < k ==> (#[trigger] vectors@[j])@ == chunk_spec(flat@, dimension as int, j),
        decreases count - k,
    {
        let (start, end) = chunk_range(flat.len(), dimension, k);
        let mut vector: Vec<i32> = Vec::new();
        let mut i: usize = start;
        while i < end
            invariant
                start <= i <= end <= flat.len(),
                vector@ == flat@.subrange(start as int, i as int),
            decreases end - i,
        {
            vector.push(flat[i]);
            proof {
                assert(vector@ =~= flat@.subrange(start as int, i + 1));
            }
            i += 1;
        }
        vectors.push(vector);
        k += 1;
    }
    vectors
}

/// A flat buffer whose length is a multiple of `dimension` splits into
/// vectors of exactly `dimension` values.
pub proof fn lemma_even_split(len: int, dimension: int, images: int, k: int)
    requires
        0 < dimension,
        0 <= images,
        len == images * dimension,
        0 <= k < images,
    ensures
        chunk_count_spec(len, dimension) == images,
        chunk_end(len, dimension, k) - chunk_start(dimension, k) == dimension,
{
    assert(len + dimension - 1 == images * dimension + (dimension - 1));
    lemma_fundamental_div_mod_converse(len + dimension - 1, dimension, images, dimension - 1);
    assert((k + 1) * dimension <= images * dimension) by (nonlinear_arith)
        requires
            k + 1 <= images,
            dimension > 0,
    ;
    assert((k + 1) * dimension == k * dimension + dimension) by (nonlinear_arith);
}

} // verus!
