//! The libraries a user has imported, the one that is open, and the session
//! state that ties the open library to its index.

use vstd::prelude::*;

use crate::cache::{
    book_record, changed_keys, indexed, key_views, missing_keys, record_view, scanned_keys, to_index,
    Cache, PendingCover, RefreshPlan, ScannedFile,
};
use crate::reader::opt_bytes;
use crate::store::CacheItem;
use crate::signals::BookData;
use crate::text::opt_view;

verus! {

/// The views of a sequence of strings.
pub open spec fn string_views(v: Seq<String>) -> Seq<Seq<char>> {
    v.map_values(|s: String| s@)
}

fn copy_option(o: &Option<String>) -> (r: Option<String>)
    ensures
        r == *o,
{
    match o {
        Some(s) => Some(s.clone()),
        None => None,
    }
}

/// The imported libraries and the one that is open.
pub struct Library {
    open_lib: Option<String>,
    libraries: Vec<String>,
}

impl Library {
    /// The root of the open library.
    pub closed spec fn open(&self) -> Option<Seq<char>> {
        opt_view(self.open_lib)
    }

    /// The roots of the imported libraries, in the order of import.
    pub closed spec fn roots(&self) -> Seq<Seq<char>> {
        string_views(self.libraries@)
    }

    /// No library imported, none open.
    pub fn new() -> (r: Library)
        ensures
            r.open() is None,
            r.roots().len() == 0,
    {
        Library { open_lib: None, libraries: Vec::new() }
    }

    /// The library list as stored.
    pub fn from_parts(open_lib: Option<String>, libraries: Vec<String>) -> (r: Library)
        ensures
            r.open() == opt_view(open_lib),
            r.roots() == string_views(libraries@),
    {
        Library { open_lib, libraries }
    }

    /// The roots of the imported libraries.
    pub fn libraries(&self) -> (r: &Vec<String>)
        ensures
            string_views(r@) == self.roots(),
    {
        &self.libraries
    }

    /// The root of the open library.
    pub fn get_open_lib(&self) -> (r: Option<String>)
        ensures
            opt_view(r) == self.open(),
    {
        copy_option(&self.open_lib)
    }

    /// Whether a library is open.
    pub fn has_lib(&self) -> (r: bool)
        ensures
            r == self.open() is Some,
    {
        self.open_lib.is_some()
    }

    fn add_lib(&mut self, lib_path: String)
        ensures
            final(self).roots() == old(self).roots().push(lib_path@),
            final(self).open() == old(self).open(),
    {
        self.libraries.push(lib_path);
        assert(string_views(self.libraries@) =~= string_views(old(self).libraries@).push(lib_path@));
    }

    /// Imports the library rooted at `lib_path` and opens it.
    pub fn add_lib_and_switch(&mut self, lib_path: String)
        ensures
            final(self).roots() == old(self).roots().push(lib_path@),
            final(self).open() == Some(lib_path@),
    {
        self.add_lib(lib_path.clone());
        self.open_lib = Some(lib_path);
    }
}

/// One session: where the library list is kept, the list, and the index of
/// the open library once it is loaded.
pub struct State {
    support_dir: String,
    library: Library,
    cache: Option<Cache>,
}

impl State {
    /// The loaded index is well formed.
    pub closed spec fn wf(&self) -> bool {
        self.cache matches Some(c) ==> c.wf()
    }

    /// The library list.
    pub closed spec fn library_view(&self) -> Library {
        self.library
    }

    /// Where the library list is kept.
    pub closed spec fn support_dir_view(&self) -> Seq<char> {
        self.support_dir@
    }

    /// The index of the open library, if loaded.
    pub closed spec fn cache_view(&self) -> Option<Cache> {
        self.cache
    }

    /// A session over the library list `library`, kept in `support_dir`,
    /// with the open library's index `cache` if it is loaded.
    pub fn new(support_dir: String, library: Library, cache: Option<Cache>) -> (r: State)
        requires
            cache matches Some(c) ==> c.wf(),
        ensures
            r.wf(),
            r.library_view() == library,
            r.cache_view() == cache,
    {
        State { support_dir, library, cache }
    }

    /// Where the library list is kept.
    pub fn support_dir(&self) -> (r: &String)
        ensures
            r@ == self.support_dir_view(),
    {
        &self.support_dir
    }

    /// The library list.
    pub fn library(&self) -> (r: &Library)
        ensures
            *r == self.library_view(),
    {
        &self.library
    }

    /// The index of the open library, if loaded.
    pub fn cache(&self) -> (r: &Option<Cache>)
        ensures
            *r == self.cache_view(),
    {
        &self.cache
    }

    /// Whether a library is open.
    pub fn has_lib(&self) -> (r: bool)
        ensures
            r == self.library_view().open() is Some,
    {
        self.library.has_lib()
    }

    /// Imports the library rooted at `lib_path`, opens it, and makes
    /// `cache`, its index, the loaded one.
    pub fn import_lib(&mut self, lib_path: String, cache: Cache)
        requires
            old(self).wf(),
            cache.wf(),
        ensures
            final(self).wf(),
            final(self).library_view().roots() == old(self).library_view().roots().push(lib_path@),
            final(self).library_view().open() == Some(lib_path@),
            final(self).cache_view() == Some(cache),
    {
        self.library.add_lib_and_switch(lib_path);
        self.cache = Some(cache);
    }

    /// Starts a refresh of the open library's index against `scanned`, or a
    /// rebuild when `rebuild` is set; `None`, with nothing changed, when no
    /// library is open or its index is not loaded.
    pub fn refresh_cache(&mut self, rebuild: bool, scanned: &Vec<ScannedFile>) -> (r: Option<RefreshPlan>)
        requires
            old(self).wf(),
        ensures
            final(self).wf(),
            final(self).library_view() == old(self).library_view(),
            r is None <==> old(self).library_view().open() is None || old(self).cache_view() is None,
            r is None ==> final(self).cache_view() == old(self).cache_view(),
            r is Some && rebuild ==> final(self).cache_view()->0.items().len() == 0
                && final(self).cache_view()->0.entries() == Map::<Seq<char>, CacheItem>::empty(),
            r matches Some(p) ==> (rebuild ==> p.index@.len() == scanned@.len() && (forall|i: int|
                0 <= i < scanned@.len() ==> p.index@[i] == i) && p.stale_covers@.len() == 0),
            r is Some && !rebuild ==> final(self).cache_view()->0.entries()
                == old(self).cache_view()->0.entries().restrict(scanned_keys(scanned@)),
            r matches Some(p) ==> (!rebuild ==> p.index@ == to_index(old(self).cache_view()->0.entries(), scanned@)
                && key_views(p.stale_covers@) == changed_keys(old(self).cache_view()->0.entries(), scanned@)
                + missing_keys(old(self).cache_view()->0.items(), scanned_keys(scanned@))),
    {
        if !self.library.has_lib() {
            return None;
        }
        match &mut self.cache {
            None => None,
            Some(cache) => {
                if rebuild {
                    Some(cache.rebuild(scanned))
                } else {
                    Some(cache.refresh(scanned))
                }
            },
        }
    }

    /// Reads and records one archive of a refresh plan; see
    /// `Cache::index_file`. Nothing happens when no index is loaded.
    pub fn index_file(&mut self, file: &ScannedFile, archive: Option<Vec<u8>>) -> (r: Vec<PendingCover>)
        requires
            old(self).wf(),
        ensures
            final(self).wf(),
            final(self).library_view() == old(self).library_view(),
            old(self).cache_view() is None ==> r@.len() == 0 && final(self).cache_view() is None,
            old(self).cache_view() matches Some(c) ==> final(self).cache_view() matches Some(c2) && indexed(
                c.entries(),
                c2.entries(),
                *file,
                opt_bytes(archive),
            ),
    {
        match &mut self.cache {
            None => Vec::new(),
            Some(cache) => cache.index_file(file, archive),
        }
    }

    /// Every cover still waiting to be written.
    pub fn flush_covers(&mut self) -> (r: Vec<PendingCover>)
        requires
            old(self).wf(),
        ensures
            final(self).wf(),
            final(self).library_view() == old(self).library_view(),
            old(self).cache_view() matches Some(c) ==> r@ == c.pending()
                && final(self).cache_view()->0.pending().len() == 0,
    {
        match &mut self.cache {
            None => Vec::new(),
            Some(cache) => cache.take_covers(true),
        }
    }

    /// The records shown for the open library: none when no library is
    /// open or its index is not loaded.
    pub fn get_book_data(&self) -> (r: Vec<BookData>)
        ensures
            self.library_view().open() is None || self.cache_view() is None ==> r@.len() == 0,
            self.library_view().open() matches Some(root) ==> self.cache_view() matches Some(c) ==> {
                &&& r@.len() == c.items().len()
                &&& forall|i: int| 0 <= i < r@.len() ==> record_view(#[trigger] r@[i]) == book_record(c.items()[i], root, c.dir())
            },
    {
        if !self.has_lib() {
            return Vec::new();
        }
        match &self.cache {
            None => Vec::new(),
            Some(cache) => match self.library.get_open_lib() {
                None => Vec::new(),
                Some(root) => cache.get_book_data(root.as_str()),
            },
        }
    }
}

} // verus!
