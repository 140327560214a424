//! E-book archives as the outside reader opens them: a guard on the
//! container that the reader trusts, the document, what the library reads
//! from it, and the cover and title found in it.

use vstd::prelude::*;

use crate::archive::{
    cover_page_image, cover_resource_id, cover_spine_id, display_title, is_cover_image_parts,
    last_cover_image, last_cover_spine, last_declared_cover, lemma_last_cover_image, meta_views,
    metadata_cover_path, page_image_location, title_for, MetaEntry, ResourceEntry,
};
use crate::paths::views;
use crate::text::{occurs_at, opt_view};

verus! {

/// The view of optional bytes.
pub open spec fn opt_bytes(o: Option<Vec<u8>>) -> Option<Seq<u8>> {
    match o {
        Some(v) => Some(v@),
        None => None,
    }
}

// ---- the container guard ----

/// The bytes of `META-INF/container.xml` in the zip archive `archive`.
pub uninterp spec fn container_of(archive: Seq<u8>) -> Option<Seq<u8>>;

/// Relies on `epub::archive::EpubArchive::from_reader` and
/// `get_container_file`: the container document, as `EpubDoc::from_reader`
/// reads it first; it depends on the archive's bytes alone.
#[verifier::external_body]
fn archive_container(bytes: &Vec<u8>) -> (r: Option<Vec<u8>>)
    ensures
        opt_bytes(r) == container_of(bytes@),
{
    let mut archive = epub::archive::EpubArchive::from_reader(std::io::Cursor::new(bytes.as_slice())).ok()?;
    archive.get_container_file().ok()
}

/// The attribute name `full-path`, in ASCII.
pub open spec fn full_path_tag() -> Seq<u8> {
    seq![102u8, 117u8, 108u8, 108u8, 45u8, 112u8, 97u8, 116u8, 104u8]
}

/// A byte that, in an attribute value, stands for a path character other
/// than `/` and `.`, whatever character or entity reference it is part of.
pub open spec fn plain_path_byte(b: u8) -> bool {
    !(b == 47 || b == 46 || b == 38 || b == 35 || b == 59 || b == 120 || b == 88 || (48 <= b
        && b <= 57) || (97 <= b && b <= 102) || (65 <= b && b <= 70))
}

/// A quoted value opens at `s` and holds a byte that is plainly part of a
/// path segment.
pub open spec fn quoted_value_ok(c: Seq<u8>, s: int) -> bool {
    &&& 0 <= s < c.len()
    &&& (c[s] == 34 || c[s] == 39)
    &&& exists|m: int|
        s < m < c.len() && c[m] == c[s] && (forall|t: int| s < t < m ==> c[t] != c[s]) && (exists|
            t: int,
        | s < t < m && plain_path_byte(#[trigger] c[t]))
}

/// A container whose root-file path surely names a file below some
/// directory: it is byte-oriented text (no NUL), names `full-path`, and each
/// `full-path="..."` value holds a plain path byte. The reader takes the
/// parent of that path for granted.
pub open spec fn container_safe(c: Seq<u8>) -> bool {
    &&& forall|i: int| 0 <= i < c.len() ==> c[i] != 0
    &&& exists|i: int| occurs_at(c, full_path_tag(), i)
    &&& forall|i: int|
        occurs_at(c, full_path_tag(), i) ==> i + 9 < c.len() && c[i + 9] == 61 && quoted_value_ok(
            c,
            i + 10,
        )
}

fn quoted_value_ok_exec(c: &Vec<u8>, s: usize) -> (r: bool)
    ensures
        r == quoted_value_ok(c@, s as int),
{
    if s >= c.len() || !(c[s] == 34 || c[s] == 39) {
        return false;
    }
    let q = c[s];
    let mut seen = false;
    let mut t: usize = s + 1;
    while t < c.len()
        invariant
            s < t <= c@.len(),
            q == c@[s as int],
            c@[s as int] == 34 || c@[s as int] == 39,
            forall|u: int| s < u < t ==> c@[u] != q,
            seen <==> exists|u: int| s < u < t && plain_path_byte(#[trigger] c@[u]),
        decreases c.len() - t,
    {
        if c[t] == q {
            proof {
                if !seen {
                    assert forall|m: int|
                        s < m < c@.len() && c@[m] == c@[s as int] && (forall|u: int|
                            s < u < m ==> c@[u] != c@[s as int]) implies !(exists|u: int|
                        s < u < m && plain_path_byte(#[trigger] c@[u])) by {
                        if m > t {
                            assert(c@[t as int] == c@[s as int]);
                            assert(s < t < m);
                        } else if m < t {
                            assert(c@[m] != q);
                        } else {
                            if exists|u: int| s < u < m && plain_path_byte(#[trigger] c@[u]) {
                                let u = choose|u: int| s < u < m && plain_path_byte(#[trigger] c@[u]);
                                assert(s < u < t);
                            }
                        }
                    }
                    assert(!quoted_value_ok(c@, s as int));
                } else {
                    let u = choose|u: int| s < u < t && plain_path_byte(#[trigger] c@[u]);
                    assert(s < t as int && t < c@.len() && c@[t as int] == c@[s as int] && (forall|w: int| s < w < t ==> c@[w] != c@[s as int]) && (exists|w: int| s < w < t && plain_path_byte(#[trigger] c@[w])));
                    assert(quoted_value_ok(c@, s as int));
                }
            }
            return seen;
        }
        let b = c[t];
        if !(b == 47 || b == 46 || b == 38 || b == 35 || b == 59 || b == 120 || b == 88 || (48 <= b
            && b <= 57) || (97 <= b && b <= 102) || (65 <= b && b <= 70)) {
            seen = true;
        }
        t += 1;
    }
    false
}

fn tag_at(c: &Vec<u8>, tag: &Vec<u8>, i: usize) -> (r: bool)
    ensures
        r == occurs_at(c@, tag@, i as int),
{
    if tag.len() > c.len() || i > c.len() - tag.len() {
        return false;
    }
    let cl = c.len();
    let mut j: usize = 0;
    while j < tag.len()
        invariant
            cl == c@.len(),
            i + tag@.len() <= c@.len(),
            j <= tag@.len(),
            forall|k: int| 0 <= k < j ==> c@[i + k] == tag@[k],
        decreases tag.len() - j,
    {
        if c[i + j] != tag[j] {
            assert(c@.subrange(i as int, i + tag@.len())[j as int] != tag@[j as int]);
            return false;
        }
        j += 1;
    }
    assert(c@.subrange(i as int, i + tag@.len()) =~= tag@);
    true
}

/// Whether the container passes the guard.
pub fn container_is_safe(c: &Vec<u8>) -> (r: bool)
    ensures
        r == container_safe(c@),
{
    let tag: Vec<u8> = vec![102u8, 117u8, 108u8, 108u8, 45u8, 112u8, 97u8, 116u8, 104u8];
    assert(tag@ =~= full_path_tag());
    let mut i: usize = 0;
    while i < c.len()
        invariant
            i <= c@.len(),
            forall|k: int| 0 <= k < i ==> c@[k] != 0,
        decreases c.len() - i,
    {
        if c[i] == 0 {
            return false;
        }
        i += 1;
    }
    let mut found = false;
    let mut i: usize = 0;
    while i < c.len()
        invariant
            tag@ == full_path_tag(),
            i <= c@.len(),
            forall|k: int| 0 <= k < c@.len() ==> c@[k] != 0,
            found <==> exists|k: int| 0 <= k < i && occurs_at(c@, full_path_tag(), k),
            forall|k: int|
                0 <= k < i && occurs_at(c@, full_path_tag(), k) ==> k + 9 < c@.len() && c@[k + 9]
                    == 61 && quoted_value_ok(c@, k + 10),
        decreases c.len() - i,
    {
        if tag_at(c, &tag, i) {
            found = true;
            if !(i + 9 < c.len() && c[i + 9] == 61 && quoted_value_ok_exec(c, i + 10)) {
                return false;
            }
        }
        i += 1;
    }
    if !found {
        assert forall|k: int| !occurs_at(c@, full_path_tag(), k) by {
            if occurs_at(c@, full_path_tag(), k) {
                assert(0 <= k < c@.len());
            }
        }
    }
    found
}

// ---- the document ----

/// The reader's document for an archive held in memory. It is generic over
/// `std::io::Read + Seek`, bounds that cannot be declared to the verifier,
/// so it is held here out of its sight.
#[verifier::external_body]
pub struct EpubDocument {
    doc: epub::doc::EpubDoc<std::io::Cursor<Vec<u8>>>,
}

/// An opened archive together with the bytes it was opened from.
pub struct Archive {
    doc: EpubDocument,
    bytes: Ghost<Seq<u8>>,
}

impl Archive {
    /// The bytes the archive was opened from.
    pub closed spec fn source(&self) -> Seq<u8> {
        self.bytes@
    }
}

/// Whether the reader opens an archive, given a safe container.
pub uninterp spec fn epub_opens(archive: Seq<u8>) -> bool;

/// The primary title the reader reports.
pub uninterp spec fn epub_title(archive: Seq<u8>) -> Option<Seq<char>>;

/// The `idref` of each spine item, in reading order.
pub uninterp spec fn epub_spine(archive: Seq<u8>) -> Seq<Seq<char>>;

/// The manifest: each id with its path and mime type.
pub uninterp spec fn epub_manifest(archive: Seq<u8>) -> Map<Seq<char>, (Seq<char>, Seq<char>)>;

/// The metadata properties, name and value, in document order.
pub uninterp spec fn epub_metadata(archive: Seq<u8>) -> Seq<(Seq<char>, Seq<char>)>;

/// The ids that the package document designates as the cover.
pub uninterp spec fn epub_cover_ids(archive: Seq<u8>) -> Set<Seq<char>>;

/// The content of the manifest resource `id`.
pub uninterp spec fn epub_resource(archive: Seq<u8>, id: Seq<char>) -> Option<Seq<u8>>;

/// The content of the archive entry at `path`.
pub uninterp spec fn epub_entry(archive: Seq<u8>, path: Seq<char>) -> Option<Seq<u8>>;

/// Relies on `epub::doc::EpubDoc::from_reader`, which parses the container
/// and package document; it panics only where the container's root-file
/// path has no parent, which the guard excludes.
#[verifier::external_body]
fn open_document(bytes: Vec<u8>) -> (r: Option<EpubDocument>)
    requires
        container_of(bytes@) matches Some(c) && container_safe(c),
    ensures
        r is Some <==> epub_opens(bytes@),
{
    let doc = epub::doc::EpubDoc::from_reader(std::io::Cursor::new(bytes)).ok()?;
    Some(EpubDocument { doc })
}

/// The archive opens: its container passes the guard and the reader parses
/// it.
pub open spec fn archive_opens(b: Seq<u8>) -> bool {
    container_of(b) matches Some(c) && container_safe(c) && epub_opens(b)
}

/// Opens the archive whose content is `bytes`.
pub fn read_archive(bytes: Vec<u8>) -> (r: Option<Archive>)
    ensures
        r is Some <==> archive_opens(bytes@),
        r matches Some(a) ==> a.source() == bytes@,
{
    let container = archive_container(&bytes);
    match container {
        None => None,
        Some(c) => {
            if !container_is_safe(&c) {
                return None;
            }
            let ghost b = bytes@;
            match open_document(bytes) {
                None => None,
                Some(doc) => Some(Archive { doc, bytes: Ghost(b) }),
            }
        },
    }
}

/// Relies on `epub::doc::EpubDoc::get_cover`: the content of a resource
/// whose id the package designates as the cover (the first one met in the
/// manifest map when several are).
#[verifier::external_body]
fn archive_cover(a: &mut Archive) -> (r: Option<Vec<u8>>)
    ensures
        final(a).source() == old(a).source(),
        picked_from(epub_cover_ids(old(a).source()), old(a).source(), opt_bytes(r)),
{
    a.doc.doc.get_cover().map(|(data, _)| data)
}

/// Relies on `epub::doc::EpubDoc::get_title`.
#[verifier::external_body]
fn archive_title(a: &Archive) -> (r: Option<String>)
    ensures
        opt_view(r) == epub_title(a.source()),
{
    a.doc.doc.get_title()
}

/// Relies on the public `spine` field of `epub::doc::EpubDoc`.
#[verifier::external_body]
fn archive_spine(a: &Archive) -> (r: Vec<String>)
    ensures
        views(r@) == epub_spine(a.source()),
{
    a.doc.doc.spine.iter().map(|item| item.idref.clone()).collect()
}

/// Relies on the public `resources` map of `epub::doc::EpubDoc`: every
/// entry once, in the map's order.
#[verifier::external_body]
fn archive_resources(a: &Archive) -> (r: Vec<ResourceEntry>)
    ensures
        forall|i: int|
            0 <= i < r@.len() ==> epub_manifest(a.source()).contains_key(#[trigger] r@[i].id@)
                && epub_manifest(a.source())[r@[i].id@] == (r@[i].path@, r@[i].mime@),
        forall|id: Seq<char>|
            #[trigger] epub_manifest(a.source()).contains_key(id) ==> exists|i: int|
                0 <= i < r@.len() && r@[i].id@ == id,
{
    a.doc.doc.resources
        .iter()
        .map(|(id, item)| ResourceEntry {
            id: id.clone(),
            path: item.path.to_string_lossy().into_owned(),
            mime: item.mime.clone(),
        })
        .collect()
}

/// Relies on the public `resources` map of `epub::doc::EpubDoc`: the path
/// of the resource `id`.
#[verifier::external_body]
fn archive_resource_path(a: &Archive, id: &str) -> (r: Option<String>)
    ensures
        match r {
            Some(p) => epub_manifest(a.source()).contains_key(id@) && p@ == epub_manifest(
                a.source(),
            )[id@].0,
            None => !epub_manifest(a.source()).contains_key(id@),
        },
{
    a.doc.doc.resources.get(id).map(|item| item.path.to_string_lossy().into_owned())
}

/// Relies on the public `metadata` field of `epub::doc::EpubDoc`.
#[verifier::external_body]
fn archive_metadata(a: &Archive) -> (r: Vec<MetaEntry>)
    ensures
        meta_views(r@) == epub_metadata(a.source()),
{
    a.doc.doc.metadata
        .iter()
        .map(|item| MetaEntry { property: item.property.clone(), value: item.value.clone() })
        .collect()
}

/// Relies on `epub::doc::EpubDoc::get_resource`.
#[verifier::external_body]
fn archive_resource(a: &mut Archive, id: &str) -> (r: Option<Vec<u8>>)
    ensures
        final(a).source() == old(a).source(),
        opt_bytes(r) == epub_resource(old(a).source(), id@),
{
    a.doc.doc.get_resource(id).map(|(data, _)| data)
}

/// Relies on `epub::doc::EpubDoc::get_resource_by_path`.
#[verifier::external_body]
fn archive_entry(a: &mut Archive, path: &str) -> (r: Option<Vec<u8>>)
    ensures
        final(a).source() == old(a).source(),
        opt_bytes(r) == epub_entry(old(a).source(), path@),
{
    a.doc.doc.get_resource_by_path(path)
}

// ---- the cover and the title ----

/// `r` is the content of one of the resources `ids`: none when there is no
/// such id, that of the id when there is exactly one.
pub open spec fn picked_from(ids: Set<Seq<char>>, b: Seq<u8>, r: Option<Seq<u8>>) -> bool {
    &&& r matches Some(d) ==> exists|id: Seq<char>| ids.contains(id) && epub_resource(b, id) == Some(d)
    &&& ids == Set::<Seq<char>>::empty() ==> r is None
    &&& forall|id: Seq<char>| ids == Set::<Seq<char>>::empty().insert(id) ==> r == epub_resource(b, id)
}

/// The path of the manifest resource `id`, empty when there is none.
pub open spec fn page_path_of(b: Seq<u8>, id: Seq<char>) -> Seq<char> {
    if epub_manifest(b).contains_key(id) {
        epub_manifest(b)[id].0
    } else {
        Seq::empty()
    }
}

/// The image that the spine's cover page shows.
pub open spec fn spine_cover_of(b: Seq<u8>) -> Option<Seq<u8>> {
    match last_cover_spine(epub_spine(b)) {
        None => None,
        Some(id) => match epub_resource(b, id) {
            None => None,
            Some(page) => match page_image_location(page_path_of(b, id), page) {
                None => None,
                Some(loc) => epub_entry(b, loc),
            },
        },
    }
}

/// The manifest ids that mark a front-cover image.
pub open spec fn cover_candidates(b: Seq<u8>) -> Set<Seq<char>> {
    Set::new(|id: Seq<char>| epub_manifest(b).contains_key(id) && is_cover_image_parts(id, epub_manifest(b)[id].1))
}

/// The content at the path the metadata declares as the cover.
pub open spec fn metadata_cover_of(b: Seq<u8>) -> Option<Seq<u8>> {
    match last_declared_cover(epub_metadata(b)) {
        None => None,
        Some(v) => epub_entry(b, v),
    }
}

/// The first of four results that is there.
pub open spec fn first_cover(
    a: Option<Seq<u8>>,
    b: Option<Seq<u8>>,
    c: Option<Seq<u8>>,
    d: Option<Seq<u8>>,
) -> Option<Seq<u8>> {
    if a is Some {
        a
    } else if b is Some {
        b
    } else if c is Some {
        c
    } else {
        d
    }
}

/// `r` is the cover of the archive `b`: the designated cover, else the
/// spine cover page's image, else a manifest cover image, else the
/// metadata's cover path, the first that yields content.
pub open spec fn cover_found(b: Seq<u8>, r: Option<Seq<u8>>) -> bool {
    exists|e: Option<Seq<u8>>, m: Option<Seq<u8>>|
        picked_from(epub_cover_ids(b), b, e) && picked_from(cover_candidates(b), b, m) && r
            == first_cover(e, spine_cover_of(b), m, metadata_cover_of(b))
}

fn spine_page_cover(a: &mut Archive) -> (r: Option<Vec<u8>>)
    ensures
        final(a).source() == old(a).source(),
        opt_bytes(r) == spine_cover_of(old(a).source()),
{
    let spine = archive_spine(a);
    let id = match cover_spine_id(&spine) {
        None => return None,
        Some(id) => id,
    };
    let page = match archive_resource(a, id.as_str()) {
        None => return None,
        Some(page) => page,
    };
    let page_path = match archive_resource_path(a, id.as_str()) {
        None => String::new(),
        Some(p) => p,
    };
    match cover_page_image(page_path.as_str(), &page) {
        None => None,
        Some(path) => archive_entry(a, path.as_str()),
    }
}

fn named_resource_cover(a: &mut Archive) -> (r: Option<Vec<u8>>)
    ensures
        final(a).source() == old(a).source(),
        picked_from(cover_candidates(old(a).source()), old(a).source(), opt_bytes(r)),
{
    let ghost b = a.source();
    let resources = archive_resources(a);
    proof {
        lemma_last_cover_image(resources@);
    }
    match cover_resource_id(&resources) {
        None => {
            proof {
            assert forall|id: Seq<char>| !cover_candidates(b).contains(id) by {
                if cover_candidates(b).contains(id) {
                    let i = choose|i: int| 0 <= i < resources@.len() && resources@[i].id@ == id;
                    assert(epub_manifest(b)[resources@[i].id@] == (resources@[i].path@, resources@[i].mime@));
                }
            }
            assert(cover_candidates(b) =~= Set::<Seq<char>>::empty());
            assert forall|id: Seq<char>| cover_candidates(b) == Set::<Seq<char>>::empty().insert(id) implies None::<Seq<u8>> == epub_resource(b, id) by {
                assert(Set::<Seq<char>>::empty().insert(id).contains(id));
            }
            }
            None
        },
        Some(id) => {
            proof {
                let i = choose|i: int| 0 <= i < resources@.len() && resources@[i].id@ == id@ && crate::archive::is_cover_image(#[trigger] resources@[i]);
                assert(epub_manifest(b)[resources@[i].id@] == (resources@[i].path@, resources@[i].mime@));
                assert(cover_candidates(b).contains(id@));
            }
            let r = archive_resource(a, id.as_str());
            proof {
                assert forall|other: Seq<char>| cover_candidates(b) == Set::<Seq<char>>::empty().insert(other) implies opt_bytes(r) == epub_resource(b, other) by {
                    assert(Set::<Seq<char>>::empty().insert(other).contains(id@));
                }
                if cover_candidates(b) == Set::<Seq<char>>::empty() {
                    assert(Set::<Seq<char>>::empty().contains(id@));
                }
            }
            r
        },
    }
}

fn metadata_cover(a: &mut Archive) -> (r: Option<Vec<u8>>)
    ensures
        final(a).source() == old(a).source(),
        opt_bytes(r) == metadata_cover_of(old(a).source()),
{
    let md = archive_metadata(a);
    match metadata_cover_path(&md) {
        None => None,
        Some(path) => archive_entry(a, path.as_str()),
    }
}

/// The cover of the archive `a` whose designated cover, as the reader
/// reports it, is `explicit`: the designated cover wins; after it come the
/// spine cover page's image, a manifest cover image, and the metadata's
/// cover path, the first that yields content.
pub fn resolve_cover(a: &mut Archive, explicit: Option<Vec<u8>>) -> (r: Option<Vec<u8>>)
    ensures
        final(a).source() == old(a).source(),
        explicit is Some ==> r == explicit,
        exists|m: Option<Seq<u8>>|
            picked_from(cover_candidates(old(a).source()), old(a).source(), m) && opt_bytes(r)
                == first_cover(
                opt_bytes(explicit),
                spine_cover_of(old(a).source()),
                m,
                metadata_cover_of(old(a).source()),
            ),
{
    let ghost b = a.source();
    if explicit.is_some() {
        proof {
            lemma_picked_exists(cover_candidates(b), b);
        }
        return explicit;
    }
    let from_spine = spine_page_cover(a);
    if from_spine.is_some() {
        proof {
            lemma_picked_exists(cover_candidates(b), b);
        }
        return from_spine;
    }
    let from_manifest = named_resource_cover(a);
    if from_manifest.is_some() {
        return from_manifest;
    }
    metadata_cover(a)
}

proof fn lemma_picked_exists(ids: Set<Seq<char>>, b: Seq<u8>)
    ensures
        exists|m: Option<Seq<u8>>| picked_from(ids, b, m),
{
    if ids == Set::<Seq<char>>::empty() {
        assert forall|id: Seq<char>| ids == Set::<Seq<char>>::empty().insert(id) implies None::<Seq<u8>> == epub_resource(b, id) by {
            assert(Set::<Seq<char>>::empty().insert(id).contains(id));
        }
        assert(picked_from(ids, b, None));
    } else {
        assert(exists|x: Seq<char>| ids.contains(x)) by {
            if !(exists|x: Seq<char>| ids.contains(x)) {
                assert(ids =~= Set::<Seq<char>>::empty());
            }
        }
        let id = choose|x: Seq<char>| ids.contains(x);
        let m = epub_resource(b, id);
        assert forall|other: Seq<char>| ids == Set::<Seq<char>>::empty().insert(other) implies m == epub_resource(b, other) by {
            assert(Set::<Seq<char>>::empty().insert(other).contains(id));
        }
        assert(picked_from(ids, b, m));
    }
}

/// The cover of the archive `a`.
pub fn find_cover(a: &mut Archive) -> (r: Option<Vec<u8>>)
    ensures
        final(a).source() == old(a).source(),
        cover_found(old(a).source(), opt_bytes(r)),
{
    let explicit = archive_cover(a);
    resolve_cover(a, explicit)
}

/// The cover found holds the designated cover whenever the package
/// designates exactly one resource as the cover and that resource has
/// content, whatever the other strategies would find.
pub proof fn lemma_explicit_cover_wins(b: Seq<u8>, r: Option<Seq<u8>>, id: Seq<char>, d: Seq<u8>)
    requires
        cover_found(b, r),
        epub_cover_ids(b) == Set::<Seq<char>>::empty().insert(id),
        epub_resource(b, id) == Some(d),
    ensures
        r == Some(d),
{
}

/// The title shown for the book at `rel_path` read as `a`.
pub fn book_title(a: &Archive, rel_path: &str) -> (r: String)
    ensures
        r@ == title_for(epub_title(a.source()), rel_path@),
{
    display_title(archive_title(a), rel_path)
}

} // verus!
