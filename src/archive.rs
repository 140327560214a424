//! The choices that locate a cover inside an e-book archive, and the title
//! shown for it.

use vstd::prelude::*;
use vstd::string::*;

use crate::paths::{file_name, file_name_of, image_location, image_location_exec, views};
use crate::text::{
    contains_folded, contains_seq, contains_str, folded, has_prefix, opt_view, starts_with_str,
};

verus! {

/// An embedded resource as the archive's manifest lists it.
pub struct ResourceEntry {
    pub id: String,
    pub path: String,
    pub mime: String,
}

/// A document metadata property.
pub struct MetaEntry {
    pub property: String,
    pub value: String,
}

/// The text std's lossy UTF-8 decoding makes of `bytes`.
pub uninterp spec fn utf8_lossy(bytes: Seq<u8>) -> Seq<char>;

/// Relies on `String::from_utf8_lossy`: invalid sequences become U+FFFD;
/// the text depends on the bytes alone.
#[verifier::external_body]
fn lossy_text(bytes: &Vec<u8>) -> (r: String)
    ensures
        r@ == utf8_lossy(bytes@),
{
    String::from_utf8_lossy(bytes).into_owned()
}

/// The first capture group of the leftmost match of the regular expression
/// `pattern` in `text`.
pub uninterp spec fn regex_group(pattern: Seq<char>, text: Seq<char>) -> Option<Seq<char>>;

/// Relies on `regex::Regex::new` and `Regex::captures`: the text of group 1
/// of the leftmost-first match; `None` without a match or if the pattern
/// does not compile.
#[verifier::external_body]
fn first_capture(pattern: &str, text: &str) -> (r: Option<String>)
    ensures
        opt_view(r) == regex_group(pattern@, text@),
{
    let re = regex::Regex::new(pattern).ok()?;
    re.captures(text)?.get(1).map(|m| m.as_str().to_string())
}

/// Where a cover page's markup names its image: the `src` or `href`
/// attribute of an `img` or `image` tag, matched without regard to case.
pub const IMAGE_REF_PATTERN: &'static str = r#"(?i)<(?:img|image)[^>]+(?:src|href)\s*=\s*["']([^"']+)["']"#;

/// The image that a cover page's markup refers to.
pub open spec fn image_ref_of(page: Seq<u8>) -> Option<Seq<char>> {
    regex_group(IMAGE_REF_PATTERN@, utf8_lossy(page))
}

/// An identifier that marks a front cover: it holds `cover` and not `back`.
pub open spec fn marks_cover(id: Seq<char>) -> bool {
    contains_seq(id, "cover"@) && !contains_seq(id, "back"@)
}

/// The last spine identifier that marks a front cover.
pub open spec fn last_cover_spine(spine: Seq<Seq<char>>) -> Option<Seq<char>>
    decreases spine.len(),
{
    if spine.len() == 0 {
        None
    } else if marks_cover(spine.last()) {
        Some(spine.last())
    } else {
        last_cover_spine(spine.drop_last())
    }
}

/// The last spine entry whose identifier marks a front cover.
pub fn cover_spine_id(spine: &Vec<String>) -> (r: Option<String>)
    ensures
        opt_view(r) == last_cover_spine(views(spine@)),
{
    proof {
        reveal_strlit("cover");
        reveal_strlit("back");
    }
    let mut found: Option<String> = None;
    let mut i: usize = 0;
    while i < spine.len()
        invariant
            i <= spine@.len(),
            opt_view(found) == last_cover_spine(views(spine@).subrange(0, i as int)),
        decreases spine.len() - i,
    {
        assert(views(spine@).subrange(0, i + 1).drop_last() =~= views(spine@).subrange(0, i as int));
        let id = spine[i].as_str();
        if contains_str(id, "cover") && !contains_str(id, "back") {
            found = Some(spine[i].clone());
        }
        i += 1;
    }
    assert(views(spine@).subrange(0, spine@.len() as int) =~= views(spine@));
    found
}

/// A manifest entry that holds a front-cover image: its id mentions `cover`
/// and not `back` in any letter case, its mime type starts with `image/`
/// and does not mention `html`.
pub open spec fn is_cover_image(e: ResourceEntry) -> bool {
    is_cover_image_parts(e.id@, e.mime@)
}

/// A manifest id and mime type that mark a front-cover image.
pub open spec fn is_cover_image_parts(id: Seq<char>, mime: Seq<char>) -> bool {
    contains_seq(folded(id), folded("cover"@)) && !contains_seq(folded(id), folded("back"@))
        && has_prefix(mime, "image/"@) && !contains_seq(mime, "html"@)
}

pub proof fn lemma_last_cover_image(res: Seq<ResourceEntry>)
    ensures
        last_cover_image(res) matches Some(id) ==> exists|i: int|
            0 <= i < res.len() && res[i].id@ == id && is_cover_image(#[trigger] res[i]),
        last_cover_image(res) is None ==> forall|i: int|
            0 <= i < res.len() ==> !is_cover_image(#[trigger] res[i]),
    decreases res.len(),
{
    if res.len() > 0 {
        let d = res.drop_last();
        lemma_last_cover_image(d);
        if !is_cover_image(res.last()) {
            match last_cover_image(d) {
                Some(id) => {
                    let i = choose|i: int| 0 <= i < d.len() && d[i].id@ == id && is_cover_image(#[trigger] d[i]);
                    assert(res[i] == d[i]);
                },
                None => {
                    assert forall|i: int| 0 <= i < res.len() implies !is_cover_image(#[trigger] res[i]) by {
                        if i < d.len() {
                            assert(res[i] == d[i]);
                        }
                    }
                },
            }
        } else {
            assert(res[res.len() - 1] == res.last());
        }
    }
}

/// The id of the last manifest entry that holds a front-cover image.
pub open spec fn last_cover_image(res: Seq<ResourceEntry>) -> Option<Seq<char>>
    decreases res.len(),
{
    if res.len() == 0 {
        None
    } else if is_cover_image(res.last()) {
        Some(res.last().id@)
    } else {
        last_cover_image(res.drop_last())
    }
}

/// The id of the last manifest entry that holds a front-cover image.
pub fn cover_resource_id(res: &Vec<ResourceEntry>) -> (r: Option<String>)
    ensures
        opt_view(r) == last_cover_image(res@),
{
    proof {
        reveal_strlit("cover");
        reveal_strlit("back");
        reveal_strlit("image/");
        reveal_strlit("html");
    }
    let mut found: Option<String> = None;
    let mut i: usize = 0;
    while i < res.len()
        invariant
            i <= res@.len(),
            opt_view(found) == last_cover_image(res@.subrange(0, i as int)),
        decreases res.len() - i,
    {
        assert(res@.subrange(0, i + 1).drop_last() =~= res@.subrange(0, i as int));
        let e = &res[i];
        if contains_folded(e.id.as_str(), "cover") && !contains_folded(e.id.as_str(), "back")
            && starts_with_str(e.mime.as_str(), "image/") && !contains_str(e.mime.as_str(), "html") {
            found = Some(e.id.clone());
        }
        i += 1;
    }
    assert(res@.subrange(0, res@.len() as int) =~= res@);
    found
}

/// A metadata property, by name, that declares the cover's path.
pub open spec fn declares_cover(property: Seq<char>) -> bool {
    property == "cover"@ || property == "cover-image"@
}

/// Metadata properties as name and value.
pub open spec fn meta_views(md: Seq<MetaEntry>) -> Seq<(Seq<char>, Seq<char>)> {
    md.map_values(|m: MetaEntry| (m.property@, m.value@))
}

/// The value of the last metadata property that declares the cover's path.
pub open spec fn last_declared_cover(md: Seq<(Seq<char>, Seq<char>)>) -> Option<Seq<char>>
    decreases md.len(),
{
    if md.len() == 0 {
        None
    } else if declares_cover(md.last().0) {
        Some(md.last().1)
    } else {
        last_declared_cover(md.drop_last())
    }
}

/// The value of the last metadata property that declares the cover's path.
pub fn metadata_cover_path(md: &Vec<MetaEntry>) -> (r: Option<String>)
    ensures
        opt_view(r) == last_declared_cover(meta_views(md@)),
{
    let cover = String::from_str("cover");
    let cover_image = String::from_str("cover-image");
    proof {
        reveal_strlit("cover");
        reveal_strlit("cover-image");
    }
    let mut found: Option<String> = None;
    let mut i: usize = 0;
    while i < md.len()
        invariant
            i <= md@.len(),
            cover@ == "cover"@,
            cover_image@ == "cover-image"@,
            opt_view(found) == last_declared_cover(meta_views(md@).subrange(0, i as int)),
        decreases md.len() - i,
    {
        assert(meta_views(md@).subrange(0, i + 1).drop_last() =~= meta_views(md@).subrange(0, i as int));
        let m = &md[i];
        if m.property == cover || m.property == cover_image {
            found = Some(m.value.clone());
        }
        i += 1;
    }
    assert(meta_views(md@).subrange(0, md@.len() as int) =~= meta_views(md@));
    found
}

/// Where the image that a cover page at `page_path` shows lies in the
/// archive, its markup read from `page`.
pub open spec fn page_image_location(page_path: Seq<char>, page: Seq<u8>) -> Option<Seq<char>> {
    match image_ref_of(page) {
        None => None,
        Some(img) => image_location(page_path, img),
    }
}

/// Where the image that the cover page at `page_path`, with content `page`,
/// shows lies in the archive.
pub fn cover_page_image(page_path: &str, page: &Vec<u8>) -> (r: Option<String>)
    ensures
        opt_view(r) == page_image_location(page_path@, page@),
{
    let text = lossy_text(page);
    match first_capture(IMAGE_REF_PATTERN, text.as_str()) {
        None => None,
        Some(img) => image_location_exec(page_path, img.as_str()),
    }
}

/// A character of Unicode's White_Space property.
pub open spec fn is_white(c: char) -> bool {
    let k = c as u32;
    (9 <= k && k <= 13) || k == 32 || k == 0x85 || k == 0xa0 || k == 0x1680 || (0x2000 <= k && k
        <= 0x200a) || k == 0x2028 || k == 0x2029 || k == 0x202f || k == 0x205f || k == 0x3000
}

/// Text that is empty once surrounding white space is trimmed.
pub open spec fn is_blank(s: Seq<char>) -> bool {
    forall|i: int| 0 <= i < s.len() ==> is_white(#[trigger] s[i])
}

fn is_blank_exec(s: &str) -> (r: bool)
    ensures
        r == is_blank(s@),
{
    let cs = crate::text::chars_of(s);
    let mut i: usize = 0;
    while i < cs.len()
        invariant
            cs@ == s@,
            i <= cs@.len(),
            forall|k: int| 0 <= k < i ==> is_white(#[trigger] s@[k]),
        decreases cs.len() - i,
    {
        let k = cs[i] as u32;
        let white = (9 <= k && k <= 13) || k == 32 || k == 0x85 || k == 0xa0 || k == 0x1680 || (
        0x2000 <= k && k <= 0x200a) || k == 0x2028 || k == 0x2029 || k == 0x202f || k == 0x205f
            || k == 0x3000;
        if !white {
            return false;
        }
        i += 1;
    }
    true
}

/// The title shown for a book: the archive's title unless it is missing or
/// blank, else the file's name, else the whole relative path.
pub open spec fn title_for(title: Option<Seq<char>>, rel_path: Seq<char>) -> Seq<char> {
    match title {
        Some(t) if !is_blank(t) => t,
        _ => match file_name_of(rel_path) {
            Some(name) => name,
            None => rel_path,
        },
    }
}

/// The title shown for the book at `rel_path` whose archive declares
/// `title`.
pub fn display_title(title: Option<String>, rel_path: &str) -> (r: String)
    ensures
        r@ == title_for(opt_view(title), rel_path@),
{
    match title {
        Some(t) => {
            if !is_blank_exec(t.as_str()) {
                return t;
            }
        },
        None => {},
    }
    match file_name(rel_path) {
        Some(name) => name,
        None => String::from_str(rel_path),
    }
}

} // verus!
