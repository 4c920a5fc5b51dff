//! Where the service keeps its files.

use vstd::prelude::*;

verus! {

/// Asks `std::path::Path::exists` whether something is at `path` on disk.
/// Nothing is claimed of the answer: it depends on the disk.
#[verifier::external_body]
fn path_exists(path: &str) -> bool {
    std::path::Path::new(path).exists()
}

/// Whether a file or directory exists at `path`. The answer depends on the
/// disk at the time of the call.
pub fn file_exists(path: &String) -> bool {
    path_exists(path.as_str())
}

/// The folder for the queues' files inside the data folder.
pub fn queues_folder(data_folder: &str) -> (r: String)
    ensures
        r@ == data_folder@ + "/queues"@,
{
    let mut folder = data_folder.to_owned();
    folder.append("/queues");
    folder
}

} // verus!
