//! What a second run over an unchanged tree leaves of the table of image
//! records, as far as the library decides it.
//!
//! The table is taken as the library counts on it: at most one row per
//! path, and a row, once written, keeps its key. A run asks the table which
//! paths of a chunk it holds and hands it the others to write. The nodes of
//! a metadata kind are taken the same way: at most one node per base, and
//! a write on a base that has a node overwrites its payload.
use crate::chunking::{
    chunk_count_spec, chunk_end, chunk_spec, chunk_start, lemma_chunk_count_bounds,
    lemma_chunks_cover,
};
use crate::discovery::new_paths_spec;
use crate::metadata::{Metadata, RecordKey};
use crate::repository::writable;
use vstd::prelude::*;

verus! {

/// The test for a path to have a row in the table.
pub open spec fn is_known(table: Map<Seq<char>, RecordKey>) -> spec_fn(Seq<char>) -> bool {
    |p: Seq<char>| table.dom().contains(p)
}

/// What the table answers when asked which paths of a chunk it holds.
pub open spec fn known_of(table: Map<Seq<char>, RecordKey>, chunk: Seq<Seq<char>>) -> Seq<
    Seq<char>,
> {
    chunk.filter(is_known(table))
}

/// The table after one path is handed to it: a path that has a row keeps
/// it, a path without one gets a row with the key `key`.
pub open spec fn upsert_path(table: Map<Seq<char>, RecordKey>, path: Seq<char>, key: RecordKey)
    -> Map<Seq<char>, RecordKey> {
    if table.dom().contains(path) {
        table
    } else {
        table.insert(path, key)
    }
}

/// The table after the paths are handed to it one after the other;
/// `assign` is the key that a path gets with its first row.
pub open spec fn upsert_paths(
    table: Map<Seq<char>, RecordKey>,
    paths: Seq<Seq<char>>,
    assign: spec_fn(Seq<char>) -> RecordKey,
) -> Map<Seq<char>, RecordKey>
    decreases paths.len(),
{
    if paths.len() == 0 {
        table
    } else {
        upsert_path(
            upsert_paths(table, paths.drop_last(), assign),
            paths.last(),
            assign(paths.last()),
        )
    }
}

/// The table after a chunk: the paths of the chunk that the table does not
/// hold are written.
pub open spec fn after_chunk(
    table: Map<Seq<char>, RecordKey>,
    chunk: Seq<Seq<char>>,
    assign: spec_fn(Seq<char>) -> RecordKey,
) -> Map<Seq<char>, RecordKey> {
    upsert_paths(table, new_paths_spec(chunk, known_of(table, chunk)), assign)
}

/// The table after the first `upto` chunks of a run over the discovered
/// paths.
pub open spec fn after_chunks(
    table: Map<Seq<char>, RecordKey>,
    discovered: Seq<Seq<char>>,
    size: int,
    upto: int,
    assign: spec_fn(Seq<char>) -> RecordKey,
) -> Map<Seq<char>, RecordKey>
    decreases upto,
{
    if upto <= 0 {
        table
    } else {
        after_chunk(
            after_chunks(table, discovered, size, upto - 1, assign),
            chunk_spec(discovered, size, upto - 1),
            assign,
        )
    }
}

/// The table after a whole run over the discovered paths.
pub open spec fn after_run(
    table: Map<Seq<char>, RecordKey>,
    discovered: Seq<Seq<char>>,
    size: int,
    assign: spec_fn(Seq<char>) -> RecordKey,
) -> Map<Seq<char>, RecordKey> {
    after_chunks(
        table,
        discovered,
        size,
        chunk_count_spec(discovered.len() as int, size),
        assign,
    )
}

/// Writing paths adds a row for each path that had none and leaves every
/// row that was there as it was.
pub proof fn lemma_upsert_paths(
    table: Map<Seq<char>, RecordKey>,
    paths: Seq<Seq<char>>,
    assign: spec_fn(Seq<char>) -> RecordKey,
)
    ensures
        forall|p: Seq<char>|
            #[trigger] upsert_paths(table, paths, assign).dom().contains(p) <==> table.dom().contains(
                p,
            ) || paths.contains(p),
        forall|p: Seq<char>|
            table.dom().contains(p) ==> #[trigger] upsert_paths(table, paths, assign)[p]
                == table[p],
    decreases paths.len(),
{
    if paths.len() > 0 {
        let init = paths.drop_last();
        let last = paths.last();
        lemma_upsert_paths(table, init, assign);
        let before = upsert_paths(table, init, assign);
        let after = upsert_paths(table, paths, assign);
        assert forall|p: Seq<char>| #[trigger]
            after.dom().contains(p) <==> table.dom().contains(p) || paths.contains(p) by {
            if paths.contains(p) {
                let i = choose|i: int| 0 <= i < paths.len() && paths[i] == p;
                if i < init.len() {
                    assert(init[i] == p);
                }
            }
            if init.contains(p) {
                let i = choose|i: int| 0 <= i < init.len() && init[i] == p;
                assert(paths[i] == p);
            }
            assert(paths[paths.len() - 1] == last);
        }
    }
}

/// The paths that a chunk hands over to be written are those that the
/// table does not hold.
pub proof fn lemma_new_paths_are_unknown(table: Map<Seq<char>, RecordKey>, chunk: Seq<Seq<char>>)
    ensures
        forall|p: Seq<char>| #[trigger]
            new_paths_spec(chunk, known_of(table, chunk)).contains(p) <==> chunk.contains(p)
                && !table.dom().contains(p),
{
    let known = known_of(table, chunk);
    let fresh = |p: Seq<char>| !known.contains(p);
    let new_paths = new_paths_spec(chunk, known);
    assert(new_paths == chunk.filter(fresh));
    assert forall|p: Seq<char>| #[trigger]
        new_paths.contains(p) <==> chunk.contains(p) && !table.dom().contains(p) by {
        if new_paths.contains(p) {
            chunk.lemma_filter_contains_rev(fresh, p);
            let k = choose|k: int| 0 <= k < new_paths.len() && new_paths[k] == p;
            chunk.lemma_filter_pred(fresh, k);
            assert(!known.contains(p));
            if table.dom().contains(p) {
                let i = choose|i: int| 0 <= i < chunk.len() && chunk[i] == p;
                chunk.lemma_filter_contains(is_known(table), i);
            }
        }
        if chunk.contains(p) && !table.dom().contains(p) {
            let i = choose|i: int| 0 <= i < chunk.len() && chunk[i] == p;
            if known.contains(p) {
                let k = choose|k: int| 0 <= k < known.len() && known[k] == p;
                chunk.lemma_filter_pred(is_known(table), k);
            }
            chunk.lemma_filter_contains(fresh, i);
        }
    }
}

/// A chunk adds a row for each of its paths that had none and leaves every
/// row that was there as it was; a chunk of known paths changes nothing.
pub proof fn lemma_after_chunk(
    table: Map<Seq<char>, RecordKey>,
    chunk: Seq<Seq<char>>,
    assign: spec_fn(Seq<char>) -> RecordKey,
)
    ensures
        forall|p: Seq<char>|
            #[trigger] after_chunk(table, chunk, assign).dom().contains(p) <==> table.dom().contains(
                p,
            ) || chunk.contains(p),
        forall|p: Seq<char>|
            table.dom().contains(p) ==> #[trigger] after_chunk(table, chunk, assign)[p]
                == table[p],
        (forall|i: int| 0 <= i < chunk.len() ==> table.dom().contains(#[trigger] chunk[i]))
            ==> after_chunk(table, chunk, assign) == table,
{
    let new_paths = new_paths_spec(chunk, known_of(table, chunk));
    lemma_new_paths_are_unknown(table, chunk);
    lemma_upsert_paths(table, new_paths, assign);
    if forall|i: int| 0 <= i < chunk.len() ==> table.dom().contains(#[trigger] chunk[i]) {
        if new_paths.len() > 0 {
            assert(new_paths.contains(new_paths[0]));
            let i = choose|i: int| 0 <= i < chunk.len() && chunk[i] == new_paths[0];
            assert(table.dom().contains(chunk[i]));
        }
    }
}

/// Number of discovered paths that the first `upto` chunks cover.
pub open spec fn covered(len: int, size: int, upto: int) -> int {
    if upto <= 0 {
        0
    } else {
        chunk_end(len, size, upto - 1)
    }
}

/// After some chunks of a run the table holds the rows it had, unchanged,
/// and a row for each path that these chunks cover.
pub proof fn lemma_after_chunks(
    table: Map<Seq<char>, RecordKey>,
    discovered: Seq<Seq<char>>,
    size: int,
    upto: int,
    assign: spec_fn(Seq<char>) -> RecordKey,
)
    requires
        0 < size,
        0 <= upto <= chunk_count_spec(discovered.len() as int, size),
    ensures
        0 <= covered(discovered.len() as int, size, upto) <= discovered.len(),
        forall|p: Seq<char>|
            #[trigger] after_chunks(table, discovered, size, upto, assign).dom().contains(p)
                <==> table.dom().contains(p) || discovered.take(
                covered(discovered.len() as int, size, upto),
            ).contains(p),
        forall|p: Seq<char>|
            table.dom().contains(p) ==> #[trigger] after_chunks(
                table,
                discovered,
                size,
                upto,
                assign,
            )[p] == table[p],
        (forall|i: int| 0 <= i < discovered.len() ==> table.dom().contains(#[trigger] discovered[i]))
            ==> after_chunks(table, discovered, size, upto, assign) == table,
    decreases upto,
{
    let len = discovered.len() as int;
    if upto > 0 {
        lemma_after_chunks(table, discovered, size, upto - 1, assign);
        lemma_chunks_cover(len, size, upto - 1);
        if upto > 1 {
            lemma_chunks_cover(len, size, upto - 2);
        }
        let before = after_chunks(table, discovered, size, upto - 1, assign);
        let chunk = chunk_spec(discovered, size, upto - 1);
        let start = chunk_start(size, upto - 1);
        let end = chunk_end(len, size, upto - 1);
        assert(covered(len, size, upto - 1) == start);
        lemma_after_chunk(before, chunk, assign);
        let after = after_chunks(table, discovered, size, upto, assign);
        assert forall|p: Seq<char>| #[trigger]
            after.dom().contains(p) <==> table.dom().contains(p) || discovered.take(end).contains(
                p,
            ) by {
            if chunk.contains(p) {
                let i = choose|i: int| 0 <= i < chunk.len() && chunk[i] == p;
                assert(discovered.take(end)[start + i] == p);
            }
            if discovered.take(start).contains(p) {
                let i = choose|i: int| 0 <= i < start && discovered.take(start)[i] == p;
                assert(discovered.take(end)[i] == p);
            }
            if discovered.take(end).contains(p) {
                let i = choose|i: int| 0 <= i < end && discovered.take(end)[i] == p;
                if i < start {
                    assert(discovered.take(start)[i] == p);
                } else {
                    assert(chunk[i - start] == p);
                }
            }
        }
        assert forall|p: Seq<char>| table.dom().contains(p) implies #[trigger] after[p]
            == table[p] by {
            assert(before.dom().contains(p));
            assert(before[p] == table[p]);
        }
        if forall|i: int| 0 <= i < discovered.len() ==> table.dom().contains(#[trigger] discovered[i]) {
            assert forall|i: int| 0 <= i < chunk.len() implies before.dom().contains(
                #[trigger] chunk[i],
            ) by {
                assert(chunk[i] == discovered[start + i]);
            }
        }
    } else {
        assert(discovered.take(0) =~= Seq::<Seq<char>>::empty());
    }
}

/// After a run the table holds the rows it had, unchanged, and a row for
/// every discovered path: started on an empty table, it holds one row for
/// each distinct path that was discovered, and no other.
pub proof fn lemma_after_run(
    table: Map<Seq<char>, RecordKey>,
    discovered: Seq<Seq<char>>,
    size: int,
    assign: spec_fn(Seq<char>) -> RecordKey,
)
    requires
        0 < size,
    ensures
        forall|p: Seq<char>|
            #[trigger] after_run(table, discovered, size, assign).dom().contains(p)
                <==> table.dom().contains(p) || discovered.contains(p),
        forall|p: Seq<char>|
            table.dom().contains(p) ==> #[trigger] after_run(table, discovered, size, assign)[p]
                == table[p],
        table.dom() == Set::<Seq<char>>::empty() ==> after_run(
            table,
            discovered,
            size,
            assign,
        ).dom() == discovered.to_set(),
{
    let len = discovered.len() as int;
    let count = chunk_count_spec(len, size);
    lemma_chunk_count_bounds(len, size);
    lemma_after_chunks(table, discovered, size, count, assign);
    if count > 0 {
        lemma_chunks_cover(len, size, count - 1);
    }
    assert(covered(len, size, count) == len);
    assert(discovered.take(len) =~= discovered);
    if table.dom() == Set::<Seq<char>>::empty() {
        assert(after_run(table, discovered, size, assign).dom() =~= discovered.to_set());
    }
}

/// A second run over an unchanged tree leaves the table as the first run
/// left it: no row is added, none is lost, and every path keeps its key.
pub proof fn lemma_second_run_changes_nothing(
    table: Map<Seq<char>, RecordKey>,
    discovered: Seq<Seq<char>>,
    size: int,
    assign: spec_fn(Seq<char>) -> RecordKey,
    reassign: spec_fn(Seq<char>) -> RecordKey,
)
    requires
        0 < size,
    ensures
        after_run(after_run(table, discovered, size, assign), discovered, size, reassign)
            == after_run(table, discovered, size, assign),
{
    let first = after_run(table, discovered, size, assign);
    lemma_after_run(table, discovered, size, assign);
    assert forall|i: int| 0 <= i < discovered.len() implies first.dom().contains(
        #[trigger] discovered[i],
    ) by {
        assert(discovered.contains(discovered[i]));
    }
    lemma_chunk_count_bounds(discovered.len() as int, size);
    lemma_after_chunks(
        first,
        discovered,
        size,
        chunk_count_spec(discovered.len() as int, size),
        reassign,
    );
}

/// The nodes of one metadata kind after the first `upto` records of a batch
/// are handed to the repository: each record that can be written takes the
/// place of the node of its base, or becomes that node where there was
/// none.
pub open spec fn written<P>(nodes: Map<RecordKey, P>, items: Seq<Metadata<P>>, upto: int) -> Map<
    RecordKey,
    P,
>
    decreases upto,
{
    if upto <= 0 {
        nodes
    } else if writable(items[upto - 1]) {
        written(nodes, items, upto - 1).insert(
            items[upto - 1].base.unwrap(),
            items[upto - 1].metadata.unwrap(),
        )
    } else {
        written(nodes, items, upto - 1)
    }
}

/// The position of the last record among the first `upto` that is written
/// on `base`, or -1 where there is none.
pub open spec fn last_writer<P>(items: Seq<Metadata<P>>, upto: int, base: RecordKey) -> int
    decreases upto,
{
    if upto <= 0 {
        -1
    } else if writable(items[upto - 1]) && items[upto - 1].base.unwrap() == base {
        upto - 1
    } else {
        last_writer(items, upto - 1, base)
    }
}

/// After a batch a base has one node: the payload of the last record
/// written on it, or the node it had where no record was written on it.
pub proof fn lemma_written<P>(nodes: Map<RecordKey, P>, items: Seq<Metadata<P>>, upto: int)
    requires
        0 <= upto <= items.len(),
    ensures
        forall|base: RecordKey|
            -1 <= #[trigger] last_writer(items, upto, base) < upto && (last_writer(
                items,
                upto,
                base,
            ) >= 0 ==> writable(items[last_writer(items, upto, base)]) && items[last_writer(
                items,
                upto,
                base,
            )].base.unwrap() == base),
        forall|base: RecordKey|
            #[trigger] written(nodes, items, upto).dom().contains(base) <==> nodes.dom().contains(
                base,
            ) || last_writer(items, upto, base) >= 0,
        forall|base: RecordKey|
            last_writer(items, upto, base) >= 0 ==> #[trigger] written(nodes, items, upto)[base]
                == items[last_writer(items, upto, base)].metadata.unwrap(),
        forall|base: RecordKey|
            last_writer(items, upto, base) < 0 ==> #[trigger] written(nodes, items, upto)[base]
                == nodes[base],
    decreases upto,
{
    if upto > 0 {
        lemma_written(nodes, items, upto - 1);
        let before = written(nodes, items, upto - 1);
        assert forall|base: RecordKey|
            -1 <= #[trigger] last_writer(items, upto, base) < upto && (last_writer(
                items,
                upto,
                base,
            ) >= 0 ==> writable(items[last_writer(items, upto, base)]) && items[last_writer(
                items,
                upto,
                base,
            )].base.unwrap() == base) by {
            assert(-1 <= last_writer(items, upto - 1, base) < upto - 1);
        }
        assert forall|base: RecordKey|
            #[trigger] written(nodes, items, upto).dom().contains(base) <==> nodes.dom().contains(
                base,
            ) || last_writer(items, upto, base) >= 0 by {
            assert(before.dom().contains(base) <==> nodes.dom().contains(base) || last_writer(
                items,
                upto - 1,
                base,
            ) >= 0);
        }
        assert forall|base: RecordKey| last_writer(items, upto, base) >= 0 implies #[trigger] written(
            nodes,
            items,
            upto,
        )[base] == items[last_writer(items, upto, base)].metadata.unwrap() by {
            if !(writable(items[upto - 1]) && items[upto - 1].base.unwrap() == base) {
                assert(last_writer(items, upto - 1, base) >= 0);
                assert(before[base] == items[last_writer(items, upto - 1, base)].metadata.unwrap());
            }
        }
        assert forall|base: RecordKey| last_writer(items, upto, base) < 0 implies #[trigger] written(
            nodes,
            items,
            upto,
        )[base] == nodes[base] by {
            assert(last_writer(items, upto - 1, base) < 0);
            assert(before[base] == nodes[base]);
        }
    }
}

/// Writing the same batch again changes nothing: no node is added, and
/// every node keeps the payload that the first write gave it.
pub proof fn lemma_writing_twice_is_writing_once<P>(
    nodes: Map<RecordKey, P>,
    items: Seq<Metadata<P>>,
)
    ensures
        written(written(nodes, items, items.len() as int), items, items.len() as int) == written(
            nodes,
            items,
            items.len() as int,
        ),
{
    let n = items.len() as int;
    let once = written(nodes, items, n);
    let twice = written(once, items, n);
    lemma_written(nodes, items, n);
    lemma_written(once, items, n);
    assert forall|base: RecordKey| twice.dom().contains(base) == once.dom().contains(base) by {
        assert(twice.dom().contains(base) <==> once.dom().contains(base) || last_writer(
            items,
            n,
            base,
        ) >= 0);
        assert(once.dom().contains(base) <==> nodes.dom().contains(base) || last_writer(
            items,
            n,
            base,
        ) >= 0);
    }
    assert forall|base: RecordKey| twice.dom().contains(base) implies #[trigger] twice[base]
        == once[base] by {
        if last_writer(items, n, base) >= 0 {
            assert(twice[base] == items[last_writer(items, n, base)].metadata.unwrap());
            assert(once[base] == items[last_writer(items, n, base)].metadata.unwrap());
        } else {
            assert(twice[base] == once[base]);
        }
    }
    assert(twice =~= once);
}

} // verus!
