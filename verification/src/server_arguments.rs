//! Settings of the server.
use vstd::prelude::*;
use vstd::string::StringExecFns;

verus! {

#[derive(Debug)]
pub struct ServerArguments {
    pub clip_model_weights: String,
    pub arcface_model_weights: String,
    pub yolo_model_weights: String,
    pub media_dir: String,
    pub image_chunk_size: usize,
    pub addr: String,
    pub port: u16,
    pub surrealdb_uri: String,
    pub surrealdb_username: String,
    pub surrealdb_password: String,
    pub surrealdb_namespace: String,
    pub surrealdb_database: String,
}

impl ServerArguments {
    /// Whether the settings can drive an indexing run: a chunk holds at
    /// least one path.
    pub open spec fn well_formed(&self) -> bool {
        self.image_chunk_size > 0
    }

    /// Whether the settings can drive an indexing run.
    pub fn is_well_formed(&self) -> (ok: bool)
        ensures
            ok == self.well_formed(),
    {
        self.image_chunk_size > 0
    }
}

impl Default for ServerArguments {
    /// The settings of a server started without arguments.
    fn default() -> (arguments: Self)
        ensures
            arguments.clip_model_weights@ == "./models/vision_model.bpk"@,
            arguments.arcface_model_weights@ == "./models/arcface_model.bpk"@,
            arguments.yolo_model_weights@ == "./models/yolo.bpk"@,
            arguments.media_dir@ == "~/Pictures"@,
            arguments.image_chunk_size == 500,
            arguments.addr@ == "127.0.0.1"@,
            arguments.port == 3000,
            arguments.surrealdb_uri@ == "localhost:8000"@,
            arguments.surrealdb_username@ == "root"@,
            arguments.surrealdb_password@ == "root"@,
            arguments.surrealdb_namespace@ == "pictures"@,
            arguments.surrealdb_database@ == "pictures"@,
            arguments.well_formed(),
    {
        ServerArguments {
            clip_model_weights: String::from_str("./models/vision_model.bpk"),
            arcface_model_weights: String::from_str("./models/arcface_model.bpk"),
            yolo_model_weights: String::from_str("./models/yolo.bpk"),
            media_dir: String::from_str("~/Pictures"),
            image_chunk_size: 500,
            addr: String::from_str("127.0.0.1"),
            port: 3000,
            surrealdb_uri: String::from_str("localhost:8000"),
            surrealdb_username: String::from_str("root"),
            surrealdb_password: String::from_str("root"),
            surrealdb_namespace: String::from_str("pictures"),
            surrealdb_database: String::from_str("pictures"),
        }
    }
}

} // verus!
