//! Fetching a source from the local file system: a directory is copied whole
//! into the work directory, a file is copied into it under its own name.
use vstd::prelude::*;

verus! {

/// An error of the file system, with the paths involved and the system's message.
#[derive(Debug)]
pub enum FileSystemError {
    /// Reading the metadata of `path` failed.
    Metadata { path: String, source: String },
    /// Copying the file `from` to `to` failed.
    CopyFile { from: String, to: String, source: String },
    /// Another file system operation failed.
    Other { message: String },
}

/// Why fetching a local source failed.
#[derive(Debug)]
pub enum LocalFetchError {
    FileSystem(FileSystemError),
}

/// What fetching a local source copies into the work directory.
#[derive(Debug, PartialEq, Eq)]
pub enum LocalCopy {
    /// Copy the directory, with everything in it.
    Directory,
    /// Copy the file, under this name.
    File(String),
    /// Copy nothing: the path names neither a directory nor a file name.
    Nothing,
}

/// What to copy for a local source, given whether its path is a directory and
/// the last component of its path, if it has one.
pub fn plan_local_copy(is_dir: bool, file_name: Option<String>) -> (c: LocalCopy)
    ensures
        is_dir ==> c == LocalCopy::Directory,
        !is_dir ==> match file_name {
            Some(n) => c == LocalCopy::File(n),
            None => c == LocalCopy::Nothing,
        },
{
    if is_dir {
        LocalCopy::Directory
    } else {
        match file_name {
            Some(n) => LocalCopy::File(n),
            None => LocalCopy::Nothing,
        }
    }
}

/// The error for metadata of `path` that could not be read.
pub fn metadata_error(path: String, source: String) -> (e: LocalFetchError)
    ensures
        e == LocalFetchError::FileSystem(FileSystemError::Metadata { path, source }),
{
    LocalFetchError::FileSystem(FileSystemError::Metadata { path, source })
}

/// The error for a file that could not be copied from `from` to `to`.
pub fn copy_file_error(from: String, to: String, source: String) -> (e: LocalFetchError)
    ensures
        e == LocalFetchError::FileSystem(FileSystemError::CopyFile { from, to, source }),
{
    LocalFetchError::FileSystem(FileSystemError::CopyFile { from, to, source })
}

} // verus!
