//! Slash-separated paths, modelled as sequences of segments.

use vstd::prelude::*;
use vstd::string::*;

use crate::text::{chars_of, has_prefix, opt_view, starts_with_str};

verus! {

/// The pieces of `p` between slashes, empty ones included.
pub open spec fn pieces(p: Seq<char>) -> Seq<Seq<char>>
    decreases p.len(),
{
    if p.len() == 0 {
        seq![Seq::<char>::empty()]
    } else {
        let rest = pieces(p.drop_last());
        if p.last() == '/' {
            rest.push(Seq::<char>::empty())
        } else {
            rest.update(rest.len() - 1, rest.last().push(p.last()))
        }
    }
}

/// A piece that names a segment: neither empty nor the current directory.
pub open spec fn is_segment(s: Seq<char>) -> bool {
    s.len() > 0 && s != seq!['.']
}

/// The pieces of a sequence that name segments, in order.
pub open spec fn kept(s: Seq<Seq<char>>) -> Seq<Seq<char>>
    decreases s.len(),
{
    if s.len() == 0 {
        s
    } else if is_segment(s.last()) {
        kept(s.drop_last()).push(s.last())
    } else {
        kept(s.drop_last())
    }
}

/// The segments of a path: repeated slashes and `.` pieces carry none.
pub open spec fn segments(p: Seq<char>) -> Seq<Seq<char>> {
    kept(pieces(p))
}

/// The segments joined by single slashes.
pub open spec fn joined(s: Seq<Seq<char>>) -> Seq<char>
    decreases s.len(),
{
    if s.len() == 0 {
        Seq::<char>::empty()
    } else if s.len() == 1 {
        s[0]
    } else {
        joined(s.drop_last()) + seq!['/'] + s.last()
    }
}

/// The views of a sequence of strings.
pub open spec fn views(v: Seq<String>) -> Seq<Seq<char>> {
    v.map_values(|s: String| s@)
}

proof fn lemma_kept_push(s: Seq<Seq<char>>, x: Seq<char>)
    ensures
        kept(s.push(x)) == if is_segment(x) { kept(s).push(x) } else { kept(s) },
{
    assert(s.push(x).drop_last() =~= s);
}

proof fn lemma_views_push(v: Seq<String>, x: String)
    ensures
        views(v.push(x)) == views(v).push(x@),
{
    assert(views(v.push(x)) =~= views(v).push(x@));
}

/// Whether a piece names a segment.
fn is_segment_exec(s: &str) -> (r: bool)
    ensures
        r == is_segment(s@),
{
    let n = s.unicode_len();
    if n == 0 {
        return false;
    }
    if n == 1 && s.get_char(0) == '.' {
        assert(s@ =~= seq!['.']);
        return false;
    }
    if n == 1 {
        assert(s@[0] != seq!['.'][0]);
    }
    true
}

/// The segments of `p`.
pub fn split_path(p: &str) -> (r: Vec<String>)
    ensures
        views(r@) == segments(p@),
{
    let n = p.unicode_len();
    let mut done: Vec<String> = Vec::new();
    let ghost mut closed: Seq<Seq<char>> = Seq::empty();
    let mut start: usize = 0;
    let mut i: usize = 0;
    assert(p@.subrange(0, 0) =~= Seq::<char>::empty());
    assert(p@.subrange(0, 0).len() == 0);
    while i < n
        invariant
            n == p@.len(),
            start <= i <= n,
            pieces(p@.subrange(0, i as int)) == closed.push(p@.subrange(start as int, i as int)),
            views(done@) == kept(closed),
        decreases n - i,
    {
        let c = p.get_char(i);
        let ghost cur = p@.subrange(start as int, i as int);
        assert(p@.subrange(0, i + 1).drop_last() =~= p@.subrange(0, i as int));
        if c == '/' {
            let piece = p.substring_char(start, i);
            proof {
                lemma_kept_push(closed, cur);
                closed = closed.push(cur);
            }
            if is_segment_exec(piece) {
                let owned = String::from_str(piece);
                proof {
                    lemma_views_push(done@, owned);
                }
                done.push(owned);
            }
            start = i + 1;
            assert(p@.subrange(start as int, start as int) =~= Seq::<char>::empty());
        } else {
            assert(p@.subrange(start as int, i + 1) =~= cur.push(c));
        }
        i += 1;
    }
    assert(p@.subrange(0, n as int) =~= p@);
    let piece = p.substring_char(start, n);
    proof {
        lemma_kept_push(closed, piece@);
    }
    if is_segment_exec(piece) {
        let owned = String::from_str(piece);
        proof {
            lemma_views_push(done@, owned);
        }
        done.push(owned);
    }
    done
}

/// The segments joined by single slashes.
pub fn join_segments(s: &Vec<String>) -> (r: String)
    ensures
        r@ == joined(views(s@)),
{
    let mut r = String::new();
    let mut i: usize = 0;
    while i < s.len()
        invariant
            i <= s@.len(),
            r@ == joined(views(s@).subrange(0, i as int)),
        decreases s.len() - i,
    {
        let ghost before = views(s@).subrange(0, i as int);
        assert(views(s@).subrange(0, i + 1).drop_last() =~= before);
        if i > 0 {
            proof {
                reveal_strlit("/");
            }
            r.append("/");
        }
        r.append(s[i].as_str());
        proof {
            if i == 0 {
                assert(r@ =~= views(s@).subrange(0, 1)[0]);
            } else {
                assert(r@ =~= joined(before) + seq!['/'] + s@[i as int]@);
            }
        }
        i += 1;
    }
    assert(views(s@).subrange(0, s@.len() as int) =~= views(s@));
    r
}


/// The parent-directory segment.
pub open spec fn is_parent_ref(s: Seq<char>) -> bool {
    s == seq!['.', '.']
}

/// `rel` resolved against the directory `base`: each `..` drops the last
/// segment gathered so far, any other segment is appended; `None` where a
/// `..` would climb above the root.
pub open spec fn normalised(base: Seq<Seq<char>>, rel: Seq<Seq<char>>) -> Option<Seq<Seq<char>>>
    decreases rel.len(),
{
    if rel.len() == 0 {
        Some(base)
    } else {
        match normalised(base, rel.drop_last()) {
            None => None,
            Some(acc) => if is_parent_ref(rel.last()) {
                if acc.len() == 0 {
                    None
                } else {
                    Some(acc.drop_last())
                }
            } else {
                Some(acc.push(rel.last()))
            },
        }
    }
}

proof fn lemma_normalised_none_stays(base: Seq<Seq<char>>, rs: Seq<Seq<char>>, k: int)
    requires
        0 <= k <= rs.len(),
        normalised(base, rs.subrange(0, k)) is None,
    ensures
        normalised(base, rs) is None,
    decreases rs.len() - k,
{
    if k < rs.len() {
        assert(rs.subrange(0, k + 1).drop_last() =~= rs.subrange(0, k));
        lemma_normalised_none_stays(base, rs, k + 1);
    } else {
        assert(rs.subrange(0, k) =~= rs);
    }
}

fn is_parent_ref_exec(s: &str) -> (r: bool)
    ensures
        r == is_parent_ref(s@),
{
    if s.unicode_len() != 2 {
        return false;
    }
    let a = s.get_char(0);
    let b = s.get_char(1);
    if a == '.' && b == '.' {
        assert(s@ =~= seq!['.', '.']);
        true
    } else {
        assert(s@[0] != seq!['.', '.'][0] || s@[1] != seq!['.', '.'][1]);
        false
    }
}

/// Resolves the relative path `rel_path` against the directory
/// `abs_dir_path` inside an archive, collapsing `..` segments; `None` where a
/// `..` would leave the archive's root.
pub fn normalise_img_path(abs_dir_path: &str, rel_path: &str) -> (r: Option<String>)
    ensures
        r is Some <==> normalised(segments(abs_dir_path@), segments(rel_path@)) is Some,
        r is Some ==> r->0@ == joined(normalised(segments(abs_dir_path@), segments(rel_path@))->0),
{
    normalise_onto(split_path(abs_dir_path), rel_path)
}

/// Resolves `rel_path` against the directory whose segments are `acc`.
#[verifier::loop_isolation(false)]
fn normalise_onto(dir: Vec<String>, rel_path: &str) -> (r: Option<String>)
    ensures
        r is Some <==> normalised(views(dir@), segments(rel_path@)) is Some,
        r is Some ==> r->0@ == joined(normalised(views(dir@), segments(rel_path@))->0),
{
    let mut acc = dir;
    let rel = split_path(rel_path);
    let ghost base = views(acc@);
    let ghost rs = views(rel@);
    let mut i: usize = 0;
    while i < rel.len()
        invariant
            i <= rel@.len(),
            rs == views(rel@),
            rs == segments(rel_path@),
            normalised(base, rs.subrange(0, i as int)) == Some(views(acc@)),
        decreases rel.len() - i,
    {
        assert(rs.subrange(0, i + 1).drop_last() =~= rs.subrange(0, i as int));
        assert(rs.subrange(0, i + 1).last() == rel@[i as int]@);
        if is_parent_ref_exec(rel[i].as_str()) {
            if acc.len() == 0 {
                proof {
                    lemma_normalised_none_stays(base, rs, i as int + 1);
                }
                return None;
            }
            let ghost before = acc@;
            acc.pop();
            assert(views(acc@) =~= views(before).drop_last());
        } else {
            let seg = rel[i].clone();
            proof {
                lemma_views_push(acc@, seg);
            }
            acc.push(seg);
        }
        i += 1;
    }
    assert(rs.subrange(0, rel@.len() as int) =~= rs);
    Some(join_segments(&acc))
}


/// The segments of a path's parent directory.
pub open spec fn parent_of(s: Seq<Seq<char>>) -> Seq<Seq<char>> {
    if s.len() == 0 {
        s
    } else {
        s.drop_last()
    }
}

/// Where an image that a page at `page` refers to as `img` lies in the
/// archive: a reference that climbs with `../` is resolved against the
/// page's directory, any other is taken below the conventional `OEBPS/`
/// content root.
pub open spec fn image_location(page: Seq<char>, img: Seq<char>) -> Option<Seq<char>> {
    if has_prefix(img, "../"@) {
        match normalised(parent_of(segments(page)), segments(img)) {
            Some(s) => Some(joined(s)),
            None => None,
        }
    } else {
        Some("OEBPS/"@ + img)
    }
}

/// The archive path of the image that the page at `page_path` refers to as
/// `img_ref`.
pub fn image_location_exec(page_path: &str, img_ref: &str) -> (r: Option<String>)
    ensures
        opt_view(r) == image_location(page_path@, img_ref@),
{
    proof {
        reveal_strlit("../");
        reveal_strlit("OEBPS/");
    }
    if starts_with_str(img_ref, "../") {
        let mut dir = split_path(page_path);
        if dir.len() > 0 {
            let ghost before = dir@;
            dir.pop();
            assert(views(dir@) =~= views(before).drop_last());
        }
        normalise_onto(dir, img_ref)
    } else {
        let mut r = String::from_str("OEBPS/");
        r.append(img_ref);
        Some(r)
    }
}

/// The last segment of a path, unless it is `..`.
pub open spec fn file_name_of(p: Seq<char>) -> Option<Seq<char>> {
    let s = segments(p);
    if s.len() == 0 || is_parent_ref(s.last()) {
        None
    } else {
        Some(s.last())
    }
}

/// The last segment of `p`, unless it is `..`.
pub fn file_name(p: &str) -> (r: Option<String>)
    ensures
        opt_view(r) == file_name_of(p@),
{
    let mut s = split_path(p);
    match s.pop() {
        None => None,
        Some(last) => {
            if is_parent_ref_exec(last.as_str()) {
                None
            } else {
                Some(last)
            }
        },
    }
}

/// A path whose file name has the archive extension `epub`: it ends in
/// `.epub` after at least one other character.
pub open spec fn is_archive_path(p: Seq<char>) -> bool {
    match file_name_of(p) {
        Some(name) => name.len() > 5 && name.subrange(name.len() - 5, name.len() as int) == ".epub"@,
        None => false,
    }
}

/// Whether `p` names a file with the archive extension.
#[verifier::loop_isolation(false)]
pub fn is_archive_file(p: &str) -> (r: bool)
    ensures
        r == is_archive_path(p@),
{
    proof {
        reveal_strlit(".epub");
    }
    match file_name(p) {
        None => false,
        Some(name) => {
            let n = name.unicode_len();
            if n <= 5 {
                return false;
            }
            let tail = name.as_str().substring_char(n - 5, n);
            let ext = ".epub";
            let t = chars_of(tail);
            let e = chars_of(ext);
            let mut k: usize = 0;
            while k < 5
                invariant
                    t@ == tail@,
                    e@ == ext@,
                    t@.len() == 5,
                    e@.len() == 5,
                    k <= 5,
                    forall|j: int| 0 <= j < k ==> t@[j] == e@[j],
                decreases 5 - k,
            {
                if t[k] != e[k] {
                    assert(tail@[k as int] != ext@[k as int]);
                    return false;
                }
                k += 1;
            }
            assert(tail@ =~= ext@);
            true
        },
    }
}

/// `path` lies below `root` when the segments of `root` begin those of
/// `path`; the rest, joined, is the relative path.
pub open spec fn relative_path_of(root: Seq<char>, path: Seq<char>) -> Option<Seq<char>> {
    let r = segments(root);
    let p = segments(path);
    if r.len() <= p.len() && p.subrange(0, r.len() as int) == r {
        Some(joined(p.subrange(r.len() as int, p.len() as int)))
    } else {
        None
    }
}

/// The path of `path` relative to `root`, if it lies below it.
#[verifier::loop_isolation(false)]
pub fn relative_path(root: &str, path: &str) -> (r: Option<String>)
    ensures
        opt_view(r) == relative_path_of(root@, path@),
{
    let rs = split_path(root);
    let ps = split_path(path);
    if rs.len() > ps.len() {
        return None;
    }
    let mut i: usize = 0;
    while i < rs.len()
        invariant
            rs@.len() <= ps@.len(),
            i <= rs@.len(),
            forall|k: int| 0 <= k < i ==> views(ps@)[k] == views(rs@)[k],
        decreases rs.len() - i,
    {
        if rs[i] != ps[i] {
            assert(views(ps@).subrange(0, rs@.len() as int)[i as int] != views(rs@)[i as int]);
            return None;
        }
        i += 1;
    }
    assert(views(ps@).subrange(0, rs@.len() as int) =~= views(rs@));
    let mut rest: Vec<String> = Vec::new();
    let mut j: usize = rs.len();
    while j < ps.len()
        invariant
            rs@.len() <= j <= ps@.len(),
            views(rest@) == views(ps@).subrange(rs@.len() as int, j as int),
        decreases ps.len() - j,
    {
        let seg = ps[j].clone();
        proof {
            lemma_views_push(rest@, seg);
        }
        rest.push(seg);
        assert(views(ps@).subrange(rs@.len() as int, j + 1) =~= views(ps@).subrange(rs@.len() as int, j as int).push(ps@[j as int]@));
        j += 1;
    }
    Some(join_segments(&rest))
}

/// `rel` appended to `base` as a path: an absolute `rel` replaces `base`,
/// otherwise a slash separates them unless `base` is empty or ends in one.
pub open spec fn path_joined(base: Seq<char>, rel: Seq<char>) -> Seq<char> {
    if has_prefix(rel, "/"@) {
        rel
    } else if base.len() == 0 || base.last() == '/' {
        base + rel
    } else {
        base + "/"@ + rel
    }
}

/// `rel` appended to `base` as a path.
pub fn join_path(base: &str, rel: &str) -> (r: String)
    ensures
        r@ == path_joined(base@, rel@),
{
    proof {
        reveal_strlit("/");
    }
    if starts_with_str(rel, "/") {
        return String::from_str(rel);
    }
    let n = base.unicode_len();
    let mut r = String::from_str(base);
    if n > 0 && base.get_char(n - 1) != '/' {
        r.append("/");
    }
    r.append(rel);
    r
}

} // verus!
