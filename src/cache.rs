//! The cache engine: which archives to (re)index, the entries it keeps, the
//! covers waiting to be written, and the records shown for the library.

use vstd::prelude::*;
use vstd::string::*;

use crate::archive::title_for;
use crate::reader::{archive_opens, book_title, cover_found, epub_title, find_cover, opt_bytes, read_archive};
use crate::key::{hash_relative_path, path_key};
use crate::paths::{join_path, path_joined};
use crate::signals::BookData;
use crate::store::{
    distinct_keys, entries, find_key, lemma_entries_dom, lemma_upserted, lemma_without,
    remove_key, CacheItem,
};
use crate::text::opt_view;

verus! {

/// Once this many covers wait to be written, they are handed out at once.
pub const BATCH_SIZE: usize = 48;

/// The entries of the index.
pub struct CacheData {
    pub items: Vec<CacheItem>,
}

/// A cover waiting to be written under its key.
pub struct PendingCover {
    pub key: String,
    pub data: Vec<u8>,
}

/// An archive found below the library root.
pub struct ScannedFile {
    /// Its path relative to the library root.
    pub relative_path: String,
    /// Its modification time, in milliseconds since the epoch.
    pub last_modified: u128,
}

/// What a refresh does with a scanned archive.
#[derive(Clone, Copy, PartialEq, Eq, Structural, Debug)]
pub enum FileAction {
    /// Indexed and unchanged: left as it is.
    Keep,
    /// Not indexed yet: read and indexed.
    Index,
    /// Changed since it was indexed: its cover is deleted, then it is read
    /// and indexed again.
    Reindex,
}

/// The work that remains for the caller once entries of vanished archives
/// are dropped.
pub struct RefreshPlan {
    /// Positions, in the scan, of the archives to read and index, ascending.
    pub index: Vec<usize>,
    /// Keys whose cover files must be deleted: those of changed archives in
    /// scan order, then those of vanished ones.
    pub stale_covers: Vec<String>,
}

/// The index of one library.
pub struct Cache {
    data: CacheData,
    cache_dir: String,
    covers: Vec<PendingCover>,
}

/// What a refresh does with the archive `f`, given the entries `e`.
pub open spec fn action_for(e: Map<Seq<char>, CacheItem>, f: ScannedFile) -> FileAction {
    let k = path_key(f.relative_path@);
    if !e.contains_key(k) {
        FileAction::Index
    } else if e[k].last_modified != f.last_modified {
        FileAction::Reindex
    } else {
        FileAction::Keep
    }
}

/// The positions of the scanned archives that must be read.
pub open spec fn to_index(e: Map<Seq<char>, CacheItem>, scan: Seq<ScannedFile>) -> Seq<usize>
    decreases scan.len(),
{
    if scan.len() == 0 {
        Seq::empty()
    } else if action_for(e, scan.last()) != FileAction::Keep {
        to_index(e, scan.drop_last()).push((scan.len() - 1) as usize)
    } else {
        to_index(e, scan.drop_last())
    }
}

/// The keys of the scanned archives that changed, in scan order.
pub open spec fn changed_keys(e: Map<Seq<char>, CacheItem>, scan: Seq<ScannedFile>) -> Seq<Seq<char>>
    decreases scan.len(),
{
    if scan.len() == 0 {
        Seq::empty()
    } else if action_for(e, scan.last()) == FileAction::Reindex {
        changed_keys(e, scan.drop_last()).push(path_key(scan.last().relative_path@))
    } else {
        changed_keys(e, scan.drop_last())
    }
}

/// The keys of the scanned archives, in scan order.
pub open spec fn keys_of(scan: Seq<ScannedFile>) -> Seq<Seq<char>> {
    scan.map_values(|f: ScannedFile| path_key(f.relative_path@))
}

/// The keys of the scanned archives.
pub open spec fn scanned_keys(scan: Seq<ScannedFile>) -> Set<Seq<char>> {
    Set::new(|k: Seq<char>| exists|i: int| 0 <= i < scan.len() && path_key(scan[i].relative_path@) == k)
}

/// The keys of the entries that are not in `keep`, in order.
pub open spec fn missing_keys(s: Seq<CacheItem>, keep: Set<Seq<char>>) -> Seq<Seq<char>>
    decreases s.len(),
{
    if s.len() == 0 {
        Seq::empty()
    } else if keep.contains(s.last().key@) {
        missing_keys(s.drop_last(), keep)
    } else {
        missing_keys(s.drop_last(), keep).push(s.last().key@)
    }
}

/// The views of a sequence of strings.
pub open spec fn key_views(v: Seq<String>) -> Seq<Seq<char>> {
    v.map_values(|s: String| s@)
}

/// The position of the first pending cover of key `k`.
pub open spec fn pending_index(s: Seq<PendingCover>, k: Seq<char>) -> Option<int> {
    if exists|i: int| 0 <= i < s.len() && s[i].key@ == k {
        Some(choose|i: int| 0 <= i < s.len() && s[i].key@ == k)
    } else {
        None
    }
}

/// No two pending covers share a key.
pub open spec fn pending_distinct(s: Seq<PendingCover>) -> bool {
    forall|i: int, j: int| 0 <= i < j < s.len() ==> s[i].key@ != s[j].key@
}

/// The pending covers once `c` is queued: it replaces a cover of its key.
pub open spec fn queued(s: Seq<PendingCover>, c: PendingCover) -> Seq<PendingCover> {
    match pending_index(s, c.key@) {
        Some(i) => s.remove(i).push(c),
        None => s.push(c),
    }
}

/// The entries `new` after the scanned archive `file`, whose content was
/// `archive` (`None` when it could not be read), is read and recorded into
/// `old`: other keys are untouched; the archive's key has an entry exactly
/// when the archive opens, with its path, modification time, title, and a
/// cover flag that tells whether a cover was found.
pub open spec fn indexed(
    old: Map<Seq<char>, CacheItem>,
    new: Map<Seq<char>, CacheItem>,
    file: ScannedFile,
    archive: Option<Seq<u8>>,
) -> bool {
    let k = path_key(file.relative_path@);
    &&& new.remove(k) == old.remove(k)
    &&& new.contains_key(k) <==> (archive matches Some(b) && archive_opens(b))
    &&& new.contains_key(k) ==> {
        let it = new[k];
        let b = archive->0;
        &&& it.key@ == k
        &&& it.relative_path@ == file.relative_path@
        &&& it.last_modified == file.last_modified
        &&& it.title@ == title_for(epub_title(b), file.relative_path@)
        &&& exists|c: Option<Seq<u8>>| cover_found(b, c) && (it.has_cover <==> c is Some)
    }
}

/// Where the cache of the library rooted at `root` lives.
pub open spec fn cache_dir_of(root: Seq<char>) -> Seq<char> {
    path_joined(root, ".spectecle/cache"@)
}

/// The record shown for the entry `it` of a library rooted at `root` whose
/// cache lives in `dir`.
pub open spec fn book_record(it: CacheItem, root: Seq<char>, dir: Seq<char>) -> (Seq<char>, Seq<char>, Option<Seq<char>>, Seq<char>) {
    (
        it.key@,
        path_joined(root, it.relative_path@),
        if it.has_cover { Some(path_joined(dir, "covers/"@ + it.key@)) } else { None },
        it.title@,
    )
}

/// The view of a record.
pub open spec fn record_view(b: BookData) -> (Seq<char>, Seq<char>, Option<Seq<char>>, Seq<char>) {
    (b.key@, b.book_path@, opt_view(b.cover_path), b.title@)
}

proof fn lemma_queued(s: Seq<PendingCover>, c: PendingCover, i: int)
    requires
        pending_distinct(s),
        0 <= i < s.len(),
        s[i].key@ == c.key@,
    ensures
        pending_index(s, c.key@) == Some(i),
        pending_distinct(s.remove(i).push(c)),
{
    let j = choose|j: int| 0 <= j < s.len() && s[j].key@ == c.key@;
    assert(j == i);
    let t = s.remove(i).push(c);
    assert forall|a: int, b: int| 0 <= a < b < t.len() implies t[a].key@ != t[b].key@ by {
        let sa = if a < i { a } else { a + 1 };
        assert(t[a] == s[sa]);
        if b < t.len() - 1 {
            let sb = if b < i { b } else { b + 1 };
            assert(t[b] == s[sb]);
        }
    }
}

/// Whether `k` is among `keys`.
fn listed(keys: &Vec<String>, k: &String) -> (r: bool)
    ensures
        r == exists|i: int| 0 <= i < keys@.len() && keys@[i]@ == k@,
{
    let mut i: usize = 0;
    while i < keys.len()
        invariant
            i <= keys@.len(),
            forall|j: int| 0 <= j < i ==> keys@[j]@ != k@,
        decreases keys.len() - i,
    {
        if keys[i] == *k {
            return true;
        }
        i += 1;
    }
    false
}

impl Cache {
    /// The entries of the index by key.
    pub closed spec fn entries(&self) -> Map<Seq<char>, CacheItem> {
        entries(self.data.items@)
    }

    /// The entries in the order they are kept.
    pub closed spec fn items(&self) -> Seq<CacheItem> {
        self.data.items@
    }

    /// The covers waiting to be written.
    pub closed spec fn pending(&self) -> Seq<PendingCover> {
        self.covers@
    }

    /// The directory that holds the snapshot and the cover files.
    pub closed spec fn dir(&self) -> Seq<char> {
        self.cache_dir@
    }

    /// The entries by key are those of the entries in order; the laws below
    /// over entry sequences apply to a cache through this.
    pub proof fn lemma_entries_of_items(&self)
        ensures
            self.entries() == entries(self.items()),
            self.wf() ==> distinct_keys(self.items()),
    {
    }

    /// Keys are distinct among entries and among pending covers.
    pub closed spec fn wf(&self) -> bool {
        distinct_keys(self.data.items@) && pending_distinct(self.covers@)
    }

    /// An empty index for the library rooted at `open_lib`.
    pub fn new(open_lib: &str) -> (r: Cache)
        ensures
            r.wf(),
            r.items().len() == 0,
            r.entries() == Map::<Seq<char>, CacheItem>::empty(),
            r.pending().len() == 0,
            r.dir() == cache_dir_of(open_lib@),
    {
        proof {
            reveal_strlit(".spectecle/cache");
        }
        Cache {
            data: CacheData { items: Vec::new() },
            cache_dir: join_path(open_lib, ".spectecle/cache"),
            covers: Vec::new(),
        }
    }

    /// The index of the library rooted at `open_lib` holding the entries of
    /// a snapshot; of entries that share a key the last one stays.
    pub fn from_data(open_lib: &str, data: CacheData) -> (r: Cache)
        ensures
            r.wf(),
            r.entries() == entries(data.items@),
            r.pending().len() == 0,
            r.dir() == cache_dir_of(open_lib@),
    {
        let mut cache = Cache::new(open_lib);
        let mut i: usize = 0;
        while i < data.items.len()
            invariant
                cache.wf(),
                i <= data.items@.len(),
                cache.entries() == entries(data.items@.subrange(0, i as int)),
                cache.pending().len() == 0,
                cache.dir() == cache_dir_of(open_lib@),
            decreases data.items.len() - i,
        {
            assert(data.items@.subrange(0, i + 1).drop_last() =~= data.items@.subrange(0, i as int));
            cache.store(data.items[i].duplicate());
            i += 1;
        }
        assert(data.items@.subrange(0, data.items@.len() as int) =~= data.items@);
        cache
    }

    /// The entries, in the order they are kept.
    pub fn data(&self) -> (r: &CacheData)
        ensures
            r.items@ == self.items(),
    {
        &self.data
    }

    /// The directory that holds the snapshot and the cover files.
    pub fn cache_dir(&self) -> (r: &String)
        ensures
            r@ == self.dir(),
    {
        &self.cache_dir
    }

    /// The snapshot file.
    pub fn snapshot_file(&self) -> (r: String)
        ensures
            r@ == path_joined(self.dir(), "cache.json"@),
    {
        proof {
            reveal_strlit("cache.json");
        }
        join_path(self.cache_dir.as_str(), "cache.json")
    }

    /// The directory of the cover files.
    pub fn covers_dir(&self) -> (r: String)
        ensures
            r@ == path_joined(self.dir(), "covers"@),
    {
        proof {
            reveal_strlit("covers");
        }
        join_path(self.cache_dir.as_str(), "covers")
    }

    /// The cover file of the entry of key `key`.
    pub fn cover_file(&self, key: &str) -> (r: String)
        ensures
            r@ == path_joined(self.dir(), "covers/"@ + key@),
    {
        proof {
            reveal_strlit("covers/");
        }
        let mut name = String::from_str("covers/");
        name.append(key);
        join_path(self.cache_dir.as_str(), name.as_str())
    }

    /// Queues `cover_data` to be written as the cover of key `hash`, in
    /// place of any cover queued for that key.
    pub fn push_cover_for_writing(&mut self, hash: &String, cover_data: Vec<u8>)
        requires
            old(self).wf(),
        ensures
            final(self).wf(),
            final(self).pending() == queued(old(self).pending(), (PendingCover { key: *hash, data: cover_data })),
            final(self).entries() == old(self).entries(),
            final(self).items() == old(self).items(),
            final(self).dir() == old(self).dir(),
    {
        let ghost c = PendingCover { key: *hash, data: cover_data };
        let mut i: usize = 0;
        while i < self.covers.len()
            invariant
                self.wf(),
                c == (PendingCover { key: *hash, data: cover_data }),
                self.covers@ == old(self).covers@,
                self.data == old(self).data,
                self.cache_dir == old(self).cache_dir,
                i <= self.covers@.len(),
                forall|j: int| 0 <= j < i ==> self.covers@[j].key@ != hash@,
            decreases self.covers.len() - i,
        {
            if self.covers[i].key == *hash {
                proof {
                    lemma_queued(self.covers@, c, i as int);
                }
                self.covers.remove(i);
                self.covers.push(PendingCover { key: hash.clone(), data: cover_data });
                return;
            }
            i += 1;
        }
        let ghost t = self.covers@.push(c);
        assert forall|a: int, b: int| 0 <= a < b < t.len() implies t[a].key@ != t[b].key@ by {
            assert(t[a] == self.covers@[a]);
            if b < t.len() - 1 {
                assert(t[b] == self.covers@[b]);
            }
        }
        self.covers.push(PendingCover { key: hash.clone(), data: cover_data });
    }

    /// The covers to write now, removed from the queue: all of them when
    /// `force` is set or at least `BATCH_SIZE` wait, else none.
    pub fn take_covers(&mut self, force: bool) -> (r: Vec<PendingCover>)
        requires
            old(self).wf(),
        ensures
            final(self).wf(),
            force || old(self).pending().len() >= BATCH_SIZE ==> r@ == old(self).pending()
                && final(self).pending().len() == 0,
            !(force || old(self).pending().len() >= BATCH_SIZE) ==> r@.len() == 0
                && final(self).pending() == old(self).pending(),
            final(self).items() == old(self).items(),
            final(self).entries() == old(self).entries(),
            final(self).dir() == old(self).dir(),
    {
        let mut out: Vec<PendingCover> = Vec::new();
        if force || self.covers.len() >= BATCH_SIZE {
            std::mem::swap(&mut out, &mut self.covers);
        }
        out
    }

    /// What a refresh does with the scanned archive `file`.
    pub fn check_file(&self, file: &ScannedFile) -> (r: FileAction)
        requires
            self.wf(),
        ensures
            r == action_for(self.entries(), *file),
    {
        let k = hash_relative_path(file.relative_path.as_str());
        match find_key(&self.data.items, &k) {
            None => FileAction::Index,
            Some(j) => {
                if self.data.items[j].last_modified != file.last_modified {
                    FileAction::Reindex
                } else {
                    FileAction::Keep
                }
            },
        }
    }

    /// Starts an incremental refresh against the archives `scanned` below
    /// the library root: drops the entries of archives no longer there and
    /// says which archives to read and which cover files to delete.
    #[verifier::loop_isolation(false)]
    pub fn refresh(&mut self, scanned: &Vec<ScannedFile>) -> (r: RefreshPlan)
        requires
            old(self).wf(),
        ensures
            final(self).wf(),
            r.index@ == to_index(old(self).entries(), scanned@),
            key_views(r.stale_covers@) == changed_keys(old(self).entries(), scanned@) + missing_keys(
                old(self).items(),
                scanned_keys(scanned@),
            ),
            final(self).entries() == old(self).entries().restrict(scanned_keys(scanned@)),
            final(self).pending() == old(self).pending(),
            final(self).dir() == old(self).dir(),
    {
        let ghost e = self.entries();
        let ghost sk = scanned_keys(scanned@);
        let mut keys: Vec<String> = Vec::new();
        let mut index: Vec<usize> = Vec::new();
        let mut stale: Vec<String> = Vec::new();
        let mut i: usize = 0;
        while i < scanned.len()
            invariant
                i <= scanned@.len(),
                key_views(keys@) == keys_of(scanned@.subrange(0, i as int)),
                index@ == to_index(e, scanned@.subrange(0, i as int)),
                key_views(stale@) == changed_keys(e, scanned@.subrange(0, i as int)),
            decreases scanned.len() - i,
        {
            let ghost pre = scanned@.subrange(0, i as int);
            assert(scanned@.subrange(0, i + 1).drop_last() =~= pre);
            let f = &scanned[i];
            let action = self.check_file(f);
            let k = hash_relative_path(f.relative_path.as_str());
            if action != FileAction::Keep {
                index.push(i);
            }
            if action == FileAction::Reindex {
                assert(key_views(stale@.push(k)) =~= key_views(stale@).push(k@));
                stale.push(k.clone());
            }
            assert(key_views(keys@.push(k)) =~= key_views(keys@).push(k@));
            assert(keys_of(scanned@.subrange(0, i + 1)) =~= keys_of(pre).push(k@));
            keys.push(k);
            i += 1;
        }
        assert(scanned@.subrange(0, scanned@.len() as int) =~= scanned@);
        let ghost ch = key_views(stale@);
        assert(ch + missing_keys(Seq::<CacheItem>::empty(), sk) =~= ch);
        let ghost items = self.data.items@;
        let mut kept: Vec<CacheItem> = Vec::new();
        let mut j: usize = 0;
        assert(entries(items.subrange(0, 0)).restrict(sk) =~= entries(kept@));
        while j < self.data.items.len()
            invariant
                j <= items.len(),
                items == self.data.items@,
                distinct_keys(kept@),
                forall|a: int| #![trigger kept@[a]] 0 <= a < kept@.len() ==> exists|b: int| 0 <= b < j && kept@[a] == items[b],
                entries(kept@) == entries(items.subrange(0, j as int)).restrict(sk),
                key_views(stale@) == ch + missing_keys(items.subrange(0, j as int), sk),
            decreases self.data.items.len() - j,
        {
            let ghost pre = items.subrange(0, j as int);
            assert(items.subrange(0, j + 1).drop_last() =~= pre);
            let it = &self.data.items[j];
            let ghost x = *it;
            let present = listed(&keys, &it.key);
            assert(present == sk.contains(x.key@)) by {
                if present {
                    let a = choose|a: int| 0 <= a < keys@.len() && keys@[a]@ == x.key@;
                    assert(key_views(keys@)[a] == keys_of(scanned@)[a]);
                }
                if sk.contains(x.key@) {
                    let a = choose|a: int| 0 <= a < scanned@.len() && path_key(scanned@[a].relative_path@) == x.key@;
                    assert(key_views(keys@)[a] == keys_of(scanned@)[a]);
                }
            }
            if present {
                let ghost before = kept@;
                kept.push(it.duplicate());
                assert(kept@.drop_last() =~= before);
                assert forall|a: int, b: int| 0 <= a < b < kept@.len() implies kept@[a].key@ != kept@[b].key@ by {
                    if b == kept@.len() - 1 {
                        assert(kept@[a] == before[a]);
                        let c = choose|c: int| 0 <= c < j && before[a] == items[c];
                    } else {
                        assert(kept@[a] == before[a]);
                        assert(kept@[b] == before[b]);
                    }
                }
                assert forall|a: int| #![trigger kept@[a]] 0 <= a < kept@.len() implies exists|b: int| 0 <= b < j + 1 && kept@[a] == items[b] by {
                    if a < kept@.len() - 1 {
                        assert(kept@[a] == before[a]);
                        let c = choose|c: int| 0 <= c < j && before[a] == items[c];
                        assert(kept@[a] == items[c]);
                    } else {
                        assert(kept@[a] == items[j as int]);
                    }
                }
                assert(entries(items.subrange(0, j + 1)).restrict(sk) =~= entries(pre).restrict(sk).insert(x.key@, x));
            } else {
                assert(key_views(stale@.push(x.key)) =~= key_views(stale@).push(x.key@));
                stale.push(it.key.clone());
                assert(ch + missing_keys(items.subrange(0, j + 1), sk) =~= (ch + missing_keys(pre, sk)).push(x.key@));
                assert(entries(items.subrange(0, j + 1)).restrict(sk) =~= entries(pre).restrict(sk));
            }
            j += 1;
        }
        assert(items.subrange(0, items.len() as int) =~= items);
        self.data.items = kept;
        RefreshPlan { index, stale_covers: stale }
    }

    /// Starts a rebuild against the archives `scanned`: every entry and
    /// queued cover is dropped and every archive is to be read.
    pub fn rebuild(&mut self, scanned: &Vec<ScannedFile>) -> (r: RefreshPlan)
        requires
            old(self).wf(),
        ensures
            final(self).wf(),
            final(self).items().len() == 0,
            final(self).entries() == Map::<Seq<char>, CacheItem>::empty(),
            final(self).pending().len() == 0,
            final(self).dir() == old(self).dir(),
            r.index@.len() == scanned@.len(),
            forall|i: int| 0 <= i < scanned@.len() ==> r.index@[i] == i,
            r.stale_covers@.len() == 0,
    {
        self.data.items = Vec::new();
        self.covers = Vec::new();
        let mut index: Vec<usize> = Vec::new();
        let mut i: usize = 0;
        while i < scanned.len()
            invariant
                i <= scanned@.len(),
                index@.len() == i,
                forall|k: int| 0 <= k < i ==> index@[k] == k,
            decreases scanned.len() - i,
        {
            index.push(i);
            i += 1;
        }
        RefreshPlan { index, stale_covers: Vec::new() }
    }

    /// Reads the archive `file`, whose content is `archive`, into an entry
    /// and queues its cover if one is found. `None`, with nothing changed,
    /// when the archive cannot be opened. The entry is not stored: see
    /// `record`.
    pub fn cache_file(&mut self, file: &ScannedFile, archive: Vec<u8>) -> (r: Option<CacheItem>)
        requires
            old(self).wf(),
        ensures
            final(self).wf(),
            final(self).items() == old(self).items(),
            final(self).dir() == old(self).dir(),
            r is Some <==> archive_opens(archive@),
            r is None ==> final(self).pending() == old(self).pending(),
            r matches Some(it) ==> {
                &&& it.key@ == path_key(file.relative_path@)
                &&& it.relative_path@ == file.relative_path@
                &&& it.last_modified == file.last_modified
                &&& it.title@ == title_for(epub_title(archive@), file.relative_path@)
                &&& !it.has_cover ==> final(self).pending() == old(self).pending()
                &&& !it.has_cover ==> cover_found(archive@, None)
                &&& it.has_cover ==> final(self).pending() == queued(old(self).pending(), final(self).pending().last())
                &&& it.has_cover ==> final(self).pending().last().key@ == it.key@
                &&& it.has_cover ==> cover_found(archive@, Some(final(self).pending().last().data@))
            },
    {
        let mut doc = match read_archive(archive) {
            None => return None,
            Some(doc) => doc,
        };
        let key = hash_relative_path(file.relative_path.as_str());
        let has_cover = match find_cover(&mut doc) {
            None => false,
            Some(data) => {
                self.push_cover_for_writing(&key, data);
                true
            },
        };
        let title = book_title(&doc, file.relative_path.as_str());
        Some(CacheItem {
            key,
            relative_path: file.relative_path.clone(),
            last_modified: file.last_modified,
            title,
            has_cover,
        })
    }

    /// Records the outcome of reading the scanned archive `file`: its entry
    /// takes the place of any of its key, or, when it could not be read, its
    /// key leaves the index.
    pub fn record(&mut self, file: &ScannedFile, item: Option<CacheItem>)
        requires
            old(self).wf(),
        ensures
            final(self).wf(),
            final(self).entries() == match item {
                Some(it) => old(self).entries().insert(it.key@, it),
                None => old(self).entries().remove(path_key(file.relative_path@)),
            },
            final(self).pending() == old(self).pending(),
            final(self).dir() == old(self).dir(),
    {
        match item {
            Some(it) => self.store(it),
            None => {
                let k = hash_relative_path(file.relative_path.as_str());
                self.forget(&k);
            },
        }
    }

    /// The records shown for the library rooted at `open_lib`, one per
    /// entry, in the order the entries are kept.
    pub fn get_book_data(&self, open_lib: &str) -> (r: Vec<BookData>)
        ensures
            r@.len() == self.items().len(),
            forall|i: int| 0 <= i < r@.len() ==> record_view(#[trigger] r@[i]) == book_record(self.items()[i], open_lib@, self.dir()),
    {
        proof {
            reveal_strlit("covers/");
        }
        let mut out: Vec<BookData> = Vec::new();
        let mut i: usize = 0;
        while i < self.data.items.len()
            invariant
                i <= self.data.items@.len(),
                out@.len() == i,
                forall|k: int| 0 <= k < i ==> record_view(#[trigger] out@[k]) == book_record(self.data.items@[k], open_lib@, self.cache_dir@),
            decreases self.data.items.len() - i,
        {
            let it = &self.data.items[i];
            let cover_path = if it.has_cover {
                Some(self.cover_file(it.key.as_str()))
            } else {
                None
            };
            out.push(BookData {
                key: it.key.clone(),
                book_path: join_path(open_lib, it.relative_path.as_str()),
                cover_path,
                title: it.title.clone(),
            });
            i += 1;
        }
        out
    }

    /// Reads and records the scanned archive `file`, whose content is
    /// `archive` (`None` when it could not be read), and hands out the
    /// covers that are due for writing.
    pub fn index_file(&mut self, file: &ScannedFile, archive: Option<Vec<u8>>) -> (r: Vec<PendingCover>)
        requires
            old(self).wf(),
        ensures
            final(self).wf(),
            indexed(old(self).entries(), final(self).entries(), *file, opt_bytes(archive)),
            r@.len() > 0 ==> final(self).pending().len() == 0,
            final(self).pending().len() < BATCH_SIZE || r@.len() > 0,
            final(self).dir() == old(self).dir(),
    {
        let ghost k = path_key(file.relative_path@);
        let ghost b = opt_bytes(archive);
        let item = match archive {
            None => None,
            Some(bytes) => self.cache_file(file, bytes),
        };
        self.record(file, item);
        proof {
            assert(self.entries().remove(k) =~= old(self).entries().remove(k));
            if item is Some {
                let it = item->0;
                if it.has_cover {
                    assert(cover_found(b->0, Some(self.covers@.last().data@)));
                } else {
                    assert(cover_found(b->0, None));
                }
            }
        }
        self.take_covers(false)
    }

    /// Puts `item` in the index, in place of any entry of its key.
    pub fn store(&mut self, item: CacheItem)
        requires
            old(self).wf(),
        ensures
            final(self).wf(),
            final(self).entries() == old(self).entries().insert(item.key@, item),
            final(self).pending() == old(self).pending(),
            final(self).dir() == old(self).dir(),
    {
        let mut items = remove_key(&self.data.items, &item.key);
        proof {
            lemma_upserted(self.data.items@, item);
        }
        items.push(item);
        self.data.items = items;
    }

    /// Removes the entry of key `key`, if there is one.
    pub fn forget(&mut self, key: &String)
        requires
            old(self).wf(),
        ensures
            final(self).wf(),
            final(self).entries() == old(self).entries().remove(key@),
            final(self).pending() == old(self).pending(),
            final(self).dir() == old(self).dir(),
    {
        proof {
            lemma_without(self.data.items@, key@);
        }
        self.data.items = remove_key(&self.data.items, key);
    }
}


/// Every entry's archive was scanned, and every scanned archive that has an
/// entry, but those at the positions `open`, kept its modification time.
pub open spec fn settled_except(e: Map<Seq<char>, CacheItem>, scan: Seq<ScannedFile>, open: Set<int>) -> bool {
    &&& e.dom().subset_of(scanned_keys(scan))
    &&& forall|i: int|
        0 <= i < scan.len() && !open.contains(i) && e.contains_key(path_key(scan[i].relative_path@))
            ==> e[path_key(scan[i].relative_path@)].last_modified == #[trigger] scan[i].last_modified
}

/// The state a refresh leaves when every archive it read is recorded.
pub open spec fn settled(e: Map<Seq<char>, CacheItem>, scan: Seq<ScannedFile>) -> bool {
    settled_except(e, scan, Set::empty())
}

/// Distinct scanned archives have distinct keys.
pub open spec fn keys_distinct(scan: Seq<ScannedFile>) -> bool {
    forall|i: int, j: int|
        0 <= i < scan.len() && 0 <= j < scan.len() && i != j ==> path_key(scan[i].relative_path@)
            != path_key(scan[j].relative_path@)
}

/// The positions listed in a plan.
pub open spec fn positions(index: Seq<usize>) -> Set<int> {
    Set::new(|i: int| exists|j: int| 0 <= j < index.len() && index[j] as int == i)
}

proof fn lemma_settled_prefix(e: Map<Seq<char>, CacheItem>, scan: Seq<ScannedFile>)
    requires
        forall|i: int|
            0 <= i < scan.len() && e.contains_key(path_key(scan[i].relative_path@))
                ==> e[path_key(scan[i].relative_path@)].last_modified
                == #[trigger] scan[i].last_modified,
    ensures
        changed_keys(e, scan) == Seq::<Seq<char>>::empty(),
    decreases scan.len(),
{
    if scan.len() > 0 {
        let d = scan.drop_last();
        assert forall|i: int|
            0 <= i < d.len() && e.contains_key(path_key(d[i].relative_path@)) implies e[path_key(
            d[i].relative_path@,
        )].last_modified == #[trigger] d[i].last_modified by {
            assert(d[i] == scan[i]);
        }
        lemma_settled_prefix(e, d);
        let last = scan[scan.len() - 1];
        assert(scan.last() == last);
    }
}

proof fn lemma_missing_none(s: Seq<CacheItem>, keep: Set<Seq<char>>)
    requires
        entries(s).dom().subset_of(keep),
    ensures
        missing_keys(s, keep) == Seq::<Seq<char>>::empty(),
    decreases s.len(),
{
    if s.len() > 0 {
        let d = s.drop_last();
        assert(entries(s).contains_key(s.last().key@));
        assert forall|k: Seq<char>| entries(d).contains_key(k) implies keep.contains(k) by {
            lemma_entries_dom(d, k);
            lemma_entries_dom(s, k);
            let i = choose|i: int| 0 <= i < d.len() && d[i].key@ == k;
            assert(s[i] == d[i]);
        }
        lemma_missing_none(d, keep);
    }
}

/// Refreshing twice with no change to the library in between does nothing
/// the second time: once the index is settled against a scan, refreshing
/// against that same scan keeps every entry, deletes no cover, and reads
/// only archives that have no entry (those that could not be read before).
pub proof fn lemma_refresh_idempotent(items: Seq<CacheItem>, scan: Seq<ScannedFile>)
    requires
        settled(entries(items), scan),
        scan.len() <= usize::MAX,
    ensures
        entries(items).restrict(scanned_keys(scan)) == entries(items),
        changed_keys(entries(items), scan) + missing_keys(items, scanned_keys(scan)) == Seq::<
            Seq<char>,
        >::empty(),
        forall|j: int|
            0 <= j < to_index(entries(items), scan).len() ==> !entries(items).contains_key(
                path_key(scan[#[trigger] to_index(entries(items), scan)[j] as int].relative_path@),
            ),
{
    let e = entries(items);
    assert(e.restrict(scanned_keys(scan)) =~= e);
    lemma_settled_prefix(e, scan);
    lemma_index_positions(e, scan);
    lemma_missing_none(items, scanned_keys(scan));
    assert forall|j: int|
        0 <= j < to_index(e, scan).len() implies !e.contains_key(
        path_key(scan[#[trigger] to_index(e, scan)[j] as int].relative_path@),
    ) by {
        let p = to_index(e, scan)[j] as int;
        assert(action_for(e, scan[p]) != FileAction::Keep);
    }
    assert(Seq::<Seq<char>>::empty() + Seq::<Seq<char>>::empty() =~= Seq::<Seq<char>>::empty());
}

/// What a refresh leaves is settled but for the archives it plans to read.
pub proof fn lemma_refresh_settles_unplanned(e: Map<Seq<char>, CacheItem>, scan: Seq<ScannedFile>)
    requires
        scan.len() <= usize::MAX,
    ensures
        settled_except(e.restrict(scanned_keys(scan)), scan, positions(to_index(e, scan))),
{
    lemma_index_positions(e, scan);
    let e1 = e.restrict(scanned_keys(scan));
    assert forall|i: int|
        0 <= i < scan.len() && !positions(to_index(e, scan)).contains(i) && e1.contains_key(
            path_key(scan[i].relative_path@),
        ) implies e1[path_key(scan[i].relative_path@)].last_modified
        == #[trigger] scan[i].last_modified by {
        if action_for(e, scan[i]) != FileAction::Keep {
            let t = to_index(e, scan);
            let w = choose|w: int| 0 <= w < t.len() && t[w] == i as usize;
            assert(t[w] as int == i);
        }
    }
}

/// Recording the outcome of reading the planned archive at position `i`,
/// an entry with its scanned modification time or its failure, settles
/// that archive.
pub proof fn lemma_record_settles(
    e: Map<Seq<char>, CacheItem>,
    scan: Seq<ScannedFile>,
    open: Set<int>,
    i: int,
    item: Option<CacheItem>,
)
    requires
        settled_except(e, scan, open),
        keys_distinct(scan),
        0 <= i < scan.len(),
        item matches Some(it) ==> it.key@ == path_key(scan[i].relative_path@) && it.last_modified
            == scan[i].last_modified,
    ensures
        settled_except(
            match item {
                Some(it) => e.insert(it.key@, it),
                None => e.remove(path_key(scan[i].relative_path@)),
            },
            scan,
            open.remove(i),
        ),
{
    let k = path_key(scan[i].relative_path@);
    assert(scanned_keys(scan).contains(k));
}

/// A refresh forgets an archive that vanished, queues its key for cover
/// deletion, and leaves the entry of an unchanged archive as it was.
pub proof fn lemma_refresh_forgets_vanished(
    items: Seq<CacheItem>,
    scan: Seq<ScannedFile>,
    gone: Seq<char>,
)
    requires
        distinct_keys(items),
        entries(items).contains_key(gone),
        !scanned_keys(scan).contains(gone),
    ensures
        !entries(items).restrict(scanned_keys(scan)).contains_key(gone),
        missing_keys(items, scanned_keys(scan)).contains(gone),
    decreases items.len(),
{
    let keep = scanned_keys(scan);
    let d = items.drop_last();
    if items.last().key@ != gone {
        lemma_entries_dom(items, gone);
        lemma_entries_dom(d, gone);
        let i = choose|i: int| 0 <= i < items.len() && items[i].key@ == gone;
        assert(d[i] == items[i]);
        assert(distinct_keys(d));
        lemma_refresh_forgets_vanished(d, scan, gone);
        let m = missing_keys(d, keep);
        let w = choose|w: int| 0 <= w < m.len() && m[w] == gone;
        if !keep.contains(items.last().key@) {
            assert(m.push(items.last().key@)[w] == gone);
        }
    } else {
        let m = missing_keys(d, keep);
        assert(m.push(gone)[m.len() as int] == gone);
    }
}

/// A refresh keeps, as it was, the entry of a scanned archive whose
/// modification time did not change, and does not read it again.
pub proof fn lemma_refresh_keeps_unchanged(
    items: Seq<CacheItem>,
    scan: Seq<ScannedFile>,
    i: int,
)
    requires
        0 <= i < scan.len() <= usize::MAX,
        entries(items).contains_key(path_key(scan[i].relative_path@)),
        entries(items)[path_key(scan[i].relative_path@)].last_modified == scan[i].last_modified,
    ensures
        action_for(entries(items), scan[i]) == FileAction::Keep,
        entries(items).restrict(scanned_keys(scan)).contains_key(path_key(scan[i].relative_path@)),
        entries(items).restrict(scanned_keys(scan))[path_key(scan[i].relative_path@)] == entries(
            items,
        )[path_key(scan[i].relative_path@)],
        !to_index(entries(items), scan).contains(i as usize),
{
    assert(scanned_keys(scan).contains(path_key(scan[i].relative_path@)));
    lemma_index_positions(entries(items), scan);
    let t = to_index(entries(items), scan);
    if t.contains(i as usize) {
        let w = choose|w: int| 0 <= w < t.len() && t[w] == i as usize;
        assert(t[w] as int == i);
    }
}

proof fn lemma_index_positions(e: Map<Seq<char>, CacheItem>, scan: Seq<ScannedFile>)
    requires
        scan.len() <= usize::MAX,
    ensures
        forall|j: int|
            0 <= j < to_index(e, scan).len() ==> #[trigger] to_index(e, scan)[j] < scan.len()
                && action_for(e, scan[to_index(e, scan)[j] as int]) != FileAction::Keep,
        forall|i: int|
            0 <= i < scan.len() && action_for(e, #[trigger] scan[i]) != FileAction::Keep
                ==> to_index(e, scan).contains(i as usize),
    decreases scan.len(),
{
    if scan.len() > 0 {
        let d = scan.drop_last();
        lemma_index_positions(e, d);
        let t = to_index(e, d);
        let n = scan.len() - 1;
        assert forall|i: int|
            0 <= i < scan.len() && action_for(e, #[trigger] scan[i]) != FileAction::Keep
                implies to_index(e, scan).contains(i as usize) by {
            if i < n {
                assert(d[i] == scan[i]);
                let w = choose|w: int| 0 <= w < t.len() && t[w] == i as usize;
                if action_for(e, scan.last()) != FileAction::Keep {
                    assert(t.push(n as usize)[w] == i as usize);
                }
            } else {
                assert(t.push(n as usize)[t.len() as int] == i as usize);
            }
        }
        assert forall|j: int|
            0 <= j < to_index(e, scan).len() implies #[trigger] to_index(e, scan)[j] < scan.len()
                && action_for(e, scan[to_index(e, scan)[j] as int]) != FileAction::Keep by {
            if j < t.len() {
                assert(d[t[j] as int] == scan[t[j] as int]);
                if action_for(e, scan.last()) != FileAction::Keep {
                    assert(t.push(n as usize)[j] == t[j]);
                }
            }
        }
    }
}

/// An archive whose modification time changed while its key did not is
/// read again, and its old cover is deleted first.
pub proof fn lemma_touched_file_reindexed(
    items: Seq<CacheItem>,
    scan: Seq<ScannedFile>,
    i: int,
)
    requires
        0 <= i < scan.len() <= usize::MAX,
        entries(items).contains_key(path_key(scan[i].relative_path@)),
        entries(items)[path_key(scan[i].relative_path@)].last_modified != scan[i].last_modified,
    ensures
        action_for(entries(items), scan[i]) == FileAction::Reindex,
        to_index(entries(items), scan).contains(i as usize),
        changed_keys(entries(items), scan).contains(path_key(scan[i].relative_path@)),
{
    lemma_index_positions(entries(items), scan);
    lemma_changed_contains(entries(items), scan, i);
}

proof fn lemma_changed_contains(e: Map<Seq<char>, CacheItem>, scan: Seq<ScannedFile>, i: int)
    requires
        0 <= i < scan.len(),
        action_for(e, scan[i]) == FileAction::Reindex,
    ensures
        changed_keys(e, scan).contains(path_key(scan[i].relative_path@)),
    decreases scan.len(),
{
    let d = scan.drop_last();
    let k = path_key(scan[i].relative_path@);
    if i < scan.len() - 1 {
        assert(d[i] == scan[i]);
        lemma_changed_contains(e, d, i);
        let c = changed_keys(e, d);
        let w = choose|w: int| 0 <= w < c.len() && c[w] == k;
        if action_for(e, scan.last()) == FileAction::Reindex {
            assert(c.push(path_key(scan.last().relative_path@))[w] == k);
        }
    } else {
        let c = changed_keys(e, d);
        assert(c.push(k)[c.len() as int] == k);
    }
}

/// After a rebuild only scanned archives have entries: the index starts
/// empty, and recording the outcome of reading a scanned archive adds at
/// most that archive's key.
pub proof fn lemma_rebuild_clean(
    e: Map<Seq<char>, CacheItem>,
    scan: Seq<ScannedFile>,
    i: int,
    item: Option<CacheItem>,
)
    requires
        e.dom().subset_of(scanned_keys(scan)),
        0 <= i < scan.len(),
        item matches Some(it) ==> it.key@ == path_key(scan[i].relative_path@),
    ensures
        Map::<Seq<char>, CacheItem>::empty().dom().subset_of(scanned_keys(scan)),
        (match item {
            Some(it) => e.insert(it.key@, it),
            None => e.remove(path_key(scan[i].relative_path@)),
        }).dom().subset_of(scanned_keys(scan)),
{
    assert(scanned_keys(scan).contains(path_key(scan[i].relative_path@)));
}

} // verus!
