//! Where the downloaded content is stored.
use std::path::PathBuf;
use vstd::prelude::*;

verus! {

/// A path of the file system, owned.
#[verifier::external_type_specification]
#[verifier::external_body]
pub struct ExPathBuf(PathBuf);

/// The path `name` below `dir`, by `Path::join` of the standard library.
/// How paths are joined depends on the platform: nothing is claimed of the
/// result.
#[verifier::external_body]
fn join_path(dir: &PathBuf, name: &str) -> PathBuf {
    dir.join(name)
}

/// The text of a path, by `Path::to_string_lossy` of the standard library.
/// Nothing is claimed of the result.
#[verifier::external_body]
fn path_text(dir: &PathBuf) -> String {
    dir.to_string_lossy().to_string()
}

/// The directory into which the content is downloaded.
pub struct Storage {
    /// The directory.
    pub download_dir: PathBuf,
}

impl Storage {
    /// The path of the file `filename` in the download directory.
    pub fn get_file_path(&self, filename: &str) -> PathBuf {
        join_path(&self.download_dir, filename)
    }

    /// The download directory as text; what is not Unicode in it is
    /// replaced.
    pub fn get_download_dir_str(&self) -> String {
        path_text(&self.download_dir)
    }
}

} // verus!
