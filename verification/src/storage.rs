//! Where a peer keeps its blocks: one JSON document per line of a file.
use vstd::prelude::*;

verus! {

/// The name of the file that holds the blocks.
pub struct FileStorage {
    pub filename: String,
}

impl FileStorage {
    pub fn new(filename: &str) -> (storage: Self)
        ensures
            storage.filename@ == filename@,
    {
        FileStorage { filename: filename.to_owned() }
    }
}

} // verus!
