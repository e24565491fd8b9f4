//! Indexing of a media directory and similarity search over it, as far as
//! both are decided without touching a file, a network or a model:
//! detection post-processing, metadata extraction from what was read and
//! inferred, the order of work of an indexing run, and the composition of
//! the query vector of a search.
//!
//! Numbers are fixed point throughout; each module says in which unit.
pub mod age_and_gender;
pub mod basic_metadata;
pub mod chunking;
pub mod data;
pub mod detection_laws;
pub mod discovery;
pub mod embedding;
pub mod face_age_and_gender_estimator;
pub mod face_detector;
pub mod face_embedder;
pub mod face_recognition;
pub mod fixed_point;
pub mod image_embedder;
pub mod image_embedding;
pub mod image_hash;
pub mod image_indexing;
pub mod media_paths;
pub mod metadata;
pub mod metadata_indexer;
pub mod metadata_query_engine;
pub mod nms;
pub mod picture;
pub mod preprocessing;
pub mod ranking_laws;
pub mod reindexing_laws;
pub mod repository;
pub mod search;
pub mod server_arguments;
pub mod web_search;
