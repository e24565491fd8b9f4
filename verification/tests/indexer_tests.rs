use media_indexer::chunking::{chunk_count, path_chunk};
use media_indexer::discovery::filter_new_paths;
use media_indexer::metadata::Metadata;
use media_indexer::metadata::RecordKey;
use media_indexer::metadata_indexer::{Action, Event, MetadataIndexer, Phase, Step};
use media_indexer::repository::upsert_candidates;
use std::collections::BTreeMap;

#[test]
fn test_metadata_indexer() {
    let mut run = MetadataIndexer::new(1);
    assert_eq!(run.action(), Action::FilterKnownPaths { chunk: 0 });
    let mut seen = Vec::new();
    let mut upcoming = run.index_metadata(Event::Completed { produced: 2 });
    while let Action::Run { chunk, step } = upcoming {
        assert_eq!(chunk, 0);
        seen.push(step);
        upcoming = run.index_metadata(Event::Completed { produced: 2 });
    }
    assert_eq!(
        seen,
        vec![
            Step::InsertBaseImages,
            Step::LoadImages,
            Step::ImageHash,
            Step::BasicMetadata,
            Step::FaceDetection,
            Step::FaceEmbedding,
            Step::AgeAndGender,
            Step::ImageEmbedding,
        ]
    );
    assert_eq!(upcoming, Action::RebuildIndex);
    assert_eq!(run.index_metadata(Event::Completed { produced: 0 }), Action::Stop);
    assert_eq!(run.phase, Phase::Finished);
}

fn drive(chunks: usize, new_paths: &[usize]) -> Vec<Action> {
    let mut run = MetadataIndexer::new(chunks);
    let mut actions = vec![run.action()];
    let mut events = 0;
    while run.action() != Action::Stop {
        let produced = match run.action() {
            Action::FilterKnownPaths { chunk } => new_paths[chunk],
            _ => 1,
        };
        actions.push(run.index_metadata(Event::Completed { produced }));
        events += 1;
        assert!(events <= 9 * chunks + 1);
    }
    actions
}

#[test]
fn a_run_without_chunks_only_rebuilds_the_index() {
    assert_eq!(drive(0, &[]), vec![Action::RebuildIndex, Action::Stop]);
}

#[test]
fn known_chunks_are_passed_over() {
    let actions = drive(3, &[0, 0, 0]);
    assert_eq!(
        actions,
        vec![
            Action::FilterKnownPaths { chunk: 0 },
            Action::FilterKnownPaths { chunk: 1 },
            Action::FilterKnownPaths { chunk: 2 },
            Action::RebuildIndex,
            Action::Stop,
        ]
    );
}

#[test]
fn the_index_is_rebuilt_once_after_the_last_chunk() {
    let actions = drive(3, &[5, 0, 2]);
    assert_eq!(actions.iter().filter(|a| **a == Action::RebuildIndex).count(), 1);
    assert_eq!(actions[actions.len() - 2], Action::RebuildIndex);
    assert_eq!(actions.len(), 1 + 8 + 1 + 1 + 8 + 1 + 1);
    assert_eq!(actions[1], Action::Run { chunk: 0, step: Step::InsertBaseImages });
    assert_eq!(actions[9], Action::FilterKnownPaths { chunk: 1 });
    assert_eq!(actions[10], Action::FilterKnownPaths { chunk: 2 });
    assert_eq!(actions[11], Action::Run { chunk: 2, step: Step::InsertBaseImages });
}

#[test]
fn a_failure_stops_the_run() {
    let mut run = MetadataIndexer::new(2);
    run.index_metadata(Event::Completed { produced: 3 });
    run.index_metadata(Event::Completed { produced: 3 });
    assert_eq!(run.index_metadata(Event::Failed), Action::Stop);
    assert_eq!(run.phase, Phase::Failed);
    assert_eq!(run.index_metadata(Event::Completed { produced: 1 }), Action::Stop);
    assert_eq!(run.phase, Phase::Failed);
    let mut done = MetadataIndexer::new(0);
    done.index_metadata(Event::Completed { produced: 0 });
    assert_eq!(done.index_metadata(Event::Failed), Action::Stop);
    assert_eq!(done.phase, Phase::Finished);
}

#[test]
fn steps_follow_each_other_in_dependency_order() {
    let mut step = Step::InsertBaseImages;
    let mut order = vec![step];
    while let Some(following) = step.next() {
        order.push(following);
        step = following;
    }
    assert_eq!(order.len(), 8);
    assert_eq!(order[0], Step::InsertBaseImages);
    let position = |s: Step| order.iter().position(|o| *o == s).unwrap();
    assert!(position(Step::FaceDetection) < position(Step::FaceEmbedding));
    assert!(position(Step::FaceDetection) < position(Step::AgeAndGender));
    assert!(position(Step::ImageHash) < position(Step::FaceEmbedding));
    assert!(position(Step::BasicMetadata) < position(Step::FaceEmbedding));
    assert_eq!(position(Step::ImageEmbedding), 7);
}

/// A table with one row per path, as the store keeps it: a path that has a
/// row keeps it.
fn run_over(table: &mut BTreeMap<String, usize>, discovered: &Vec<String>, chunk_size: usize) -> Vec<Action> {
    let mut run = MetadataIndexer::new(chunk_count(discovered.len(), chunk_size));
    let mut actions = Vec::new();
    let mut new_paths = Vec::new();
    while run.action() != Action::Stop {
        actions.push(run.action());
        let produced = match run.action() {
            Action::FilterKnownPaths { chunk } => {
                let paths = path_chunk(discovered, chunk_size, chunk);
                let known: Vec<String> = paths.iter().filter(|p| table.contains_key(*p)).cloned().collect();
                new_paths = filter_new_paths(&paths, &known);
                new_paths.len()
            }
            Action::Run { step: Step::InsertBaseImages, .. } => {
                for path in &new_paths {
                    let key = table.len();
                    table.entry(path.clone()).or_insert(key);
                }
                new_paths.len()
            }
            _ => new_paths.len(),
        };
        run.index_metadata(Event::Completed { produced });
    }
    actions
}

#[test]
fn a_second_run_over_an_unchanged_tree_changes_nothing() {
    let discovered: Vec<String> = (0..7).map(|i| format!("/pictures/{}.jpg", i % 5)).collect();
    let mut table = BTreeMap::new();
    let first = run_over(&mut table, &discovered, 3);
    assert!(first.iter().any(|a| matches!(a, Action::Run { .. })));
    assert_eq!(table.len(), 5);
    let after_first = table.clone();
    let second = run_over(&mut table, &discovered, 3);
    assert_eq!(table, after_first);
    assert_eq!(
        second,
        vec![
            Action::FilterKnownPaths { chunk: 0 },
            Action::FilterKnownPaths { chunk: 1 },
            Action::FilterKnownPaths { chunk: 2 },
            Action::RebuildIndex,
        ]
    );
    // another chunk size cuts the tree otherwise and still adds nothing
    run_over(&mut table, &discovered, 500);
    assert_eq!(table, after_first);
}

#[test]
fn writing_a_batch_twice_leaves_one_node_per_base() {
    let key = |value: &str| Some(RecordKey { value: value.to_string() });
    let batch = vec![
        Metadata { id: None, metadata: Some(1u8), base: key("base_image:1") },
        Metadata { id: None, metadata: Some(2u8), base: None },
        Metadata { id: None, metadata: Some(3u8), base: key("base_image:2") },
        Metadata { id: None, metadata: Some(4u8), base: key("base_image:1") },
    ];
    let mut nodes: BTreeMap<String, u8> = BTreeMap::new();
    nodes.insert("base_image:9".to_string(), 9);
    let write = |nodes: &mut BTreeMap<String, u8>| {
        for at in upsert_candidates(&batch) {
            nodes.insert(batch[at].base.as_ref().unwrap().value.clone(), batch[at].metadata.unwrap());
        }
    };
    write(&mut nodes);
    let once = nodes.clone();
    assert_eq!(once.len(), 3);
    assert_eq!(once["base_image:1"], 4);
    assert_eq!(once["base_image:2"], 3);
    assert_eq!(once["base_image:9"], 9);
    write(&mut nodes);
    assert_eq!(nodes, once);
}
