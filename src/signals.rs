//! Requests a front-end sends to the library and the states it is shown.

use vstd::prelude::*;

verus! {

/// A request to import the library rooted at `path` and switch to it.
pub struct AddToLibrary {
    pub path: String,
}

/// A request to bring the open library's index up to date.
#[derive(Clone, Copy, PartialEq, Eq, Structural, Debug)]
pub enum UpdateCache {
    /// Re-index only what changed on disk.
    Refresh,
    /// Discard the index and build it anew.
    Rebuild,
}

/// The front-end's view of the library.
pub enum LibraryState {
    Show(DisplayLibrary),
    NoLibraryAvailable,
    RefreshingCache,
    RebuildingCache,
}

/// The books to list.
pub struct DisplayLibrary {
    pub data: Vec<BookData>,
}

/// One book as the front-end lists it.
pub struct BookData {
    pub key: String,
    pub book_path: String,
    pub cover_path: Option<String>,
    pub title: String,
}

/// The directory where the list of libraries is kept.
pub struct AppSupportDirectory {
    pub path: String,
}

} // verus!
