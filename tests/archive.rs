use spectecle::cache::{Cache, ScannedFile};
use spectecle::archive::{
    cover_page_image, cover_resource_id, cover_spine_id, display_title, metadata_cover_path,
    MetaEntry, ResourceEntry,
};

fn crc32(data: &[u8]) -> u32 {
    let mut crc: u32 = 0xffff_ffff;
    for &b in data {
        crc ^= b as u32;
        for _ in 0..8 {
            let mask = (crc & 1).wrapping_neg();
            crc = (crc >> 1) ^ (0xedb8_8320 & mask);
        }
    }
    !crc
}

/// A zip archive whose entries are stored uncompressed.
fn stored_zip(files: &[(&str, Vec<u8>)]) -> Vec<u8> {
    let mut out = Vec::new();
    let mut central = Vec::new();
    for (name, data) in files {
        let offset = out.len() as u32;
        let crc = crc32(data);
        let mut header = Vec::new();
        header.extend_from_slice(&[0, 0]);
        header.extend_from_slice(&[0, 0]);
        header.extend_from_slice(&[0, 0, 0, 0]);
        header.extend_from_slice(&crc.to_le_bytes());
        header.extend_from_slice(&(data.len() as u32).to_le_bytes());
        header.extend_from_slice(&(data.len() as u32).to_le_bytes());
        header.extend_from_slice(&(name.len() as u16).to_le_bytes());
        header.extend_from_slice(&[0, 0]);
        out.extend_from_slice(&[0x50, 0x4b, 0x03, 0x04, 20, 0]);
        out.extend_from_slice(&header);
        out.extend_from_slice(name.as_bytes());
        out.extend_from_slice(data);
        central.extend_from_slice(&[0x50, 0x4b, 0x01, 0x02, 20, 0, 20, 0]);
        central.extend_from_slice(&header);
        central.extend_from_slice(&[0, 0, 0, 0, 0, 0, 0, 0, 0, 0]);
        central.extend_from_slice(&offset.to_le_bytes());
        central.extend_from_slice(name.as_bytes());
    }
    let central_offset = out.len() as u32;
    out.extend_from_slice(&central);
    out.extend_from_slice(&[0x50, 0x4b, 0x05, 0x06, 0, 0, 0, 0]);
    out.extend_from_slice(&(files.len() as u16).to_le_bytes());
    out.extend_from_slice(&(files.len() as u16).to_le_bytes());
    out.extend_from_slice(&(central.len() as u32).to_le_bytes());
    out.extend_from_slice(&central_offset.to_le_bytes());
    out.extend_from_slice(&[0, 0]);
    out
}

fn container(root: &str) -> String {
    format!(
        r#"<?xml version="1.0"?>
<container version="1.0" xmlns="urn:oasis:names:tc:opendocument:xmlns:container">
  <rootfiles><rootfile full-path="{}" media-type="application/oebps-package+xml"/></rootfiles>
</container>"#,
        root
    )
}

fn package(version: &str, metadata: &str, manifest: &str, spine: &str) -> String {
    format!(
        r#"<?xml version="1.0"?>
<package xmlns="http://www.idpf.org/2007/opf" version="{}" unique-identifier="id">
  <metadata xmlns:dc="http://purl.org/dc/elements/1.1/" xmlns:opf="http://www.idpf.org/2007/opf">
    <dc:identifier id="id">book</dc:identifier>
    {}
  </metadata>
  <manifest>{}</manifest>
  <spine>{}</spine>
</package>"#,
        version, metadata, manifest, spine
    )
}

fn epub(opf: String, extra: Vec<(&str, Vec<u8>)>) -> Vec<u8> {
    epub_rooted("OEBPS/content.opf", opf, extra)
}

fn epub_rooted(root: &str, opf: String, extra: Vec<(&str, Vec<u8>)>) -> Vec<u8> {
    let mut files = vec![
        ("mimetype", b"application/epub+zip".to_vec()),
        ("META-INF/container.xml", container(root).into_bytes()),
        ("OEBPS/content.opf", opf.into_bytes()),
    ];
    files.extend(extra);
    stored_zip(&files)
}

/// The cover that indexing the archive `bytes` queues.
fn cover_of(bytes: Vec<u8>) -> Option<Vec<u8>> {
    let mut cache = Cache::new("/lib");
    let file = ScannedFile { relative_path: "book.epub".to_string(), last_modified: 1 };
    let item = cache.cache_file(&file, bytes).expect("archive opens");
    let pending = cache.take_covers(true);
    assert_eq!(item.has_cover, !pending.is_empty());
    pending.into_iter().next().map(|c| c.data)
}

fn entry(id: &str, path: &str, mime: &str) -> ResourceEntry {
    ResourceEntry { id: id.to_string(), path: path.to_string(), mime: mime.to_string() }
}

fn meta(property: &str, value: &str) -> MetaEntry {
    MetaEntry { property: property.to_string(), value: value.to_string() }
}

#[test]
fn spine_cover_is_the_last_front_cover_entry() {
    let spine = vec!["titlepage".to_string(), "cover".to_string(), "cover-2".to_string(), "backcover".to_string()];
    assert_eq!(cover_spine_id(&spine), Some("cover-2".to_string()));
    assert_eq!(cover_spine_id(&vec!["Cover".to_string(), "back-cover".to_string()]), None);
    assert_eq!(cover_spine_id(&vec![]), None);
}

#[test]
fn manifest_cover_needs_an_image_type() {
    let res = vec![
        entry("Cover-Image", "OEBPS/c.jpg", "image/jpeg"),
        entry("cover-page", "OEBPS/c.xhtml", "application/xhtml+xml"),
        entry("BackCover", "OEBPS/b.jpg", "image/jpeg"),
    ];
    assert_eq!(cover_resource_id(&res), Some("Cover-Image".to_string()));
    assert_eq!(cover_resource_id(&vec![entry("cover", "c.svg", "image/svg+html")]), None);
}

#[test]
fn metadata_cover_takes_either_property() {
    let md = vec![meta("title", "T"), meta("cover", "OEBPS/a.jpg"), meta("cover-image", "OEBPS/b.jpg")];
    assert_eq!(metadata_cover_path(&md), Some("OEBPS/b.jpg".to_string()));
    assert_eq!(metadata_cover_path(&vec![meta("covers", "x")]), None);
}

#[test]
fn cover_page_markup_is_searched_for_its_image() {
    let page = br#"<html><body><IMG alt="c" SRC="../Images/cover.jpg"/></body></html>"#.to_vec();
    assert_eq!(
        cover_page_image("OEBPS/Text/cover.xhtml", &page),
        Some("OEBPS/Images/cover.jpg".to_string())
    );
    let svg = br#"<svg><image width="1" xlink:href='images/c.png'/></svg>"#.to_vec();
    assert_eq!(cover_page_image("OEBPS/cover.xhtml", &svg), Some("OEBPS/images/c.png".to_string()));
    assert_eq!(cover_page_image("OEBPS/cover.xhtml", &b"<p>no image</p>".to_vec()), None);
}

#[test]
fn title_falls_back_to_the_file_name() {
    assert_eq!(display_title(Some("Dune".to_string()), "sf/dune.epub"), "Dune");
    assert_eq!(display_title(Some(" \t\n".to_string()), "sf/dune.epub"), "dune.epub");
    assert_eq!(display_title(None, "sf/dune.epub"), "dune.epub");
}

#[test]
fn explicit_cover_wins_over_metadata_path() {
    let opf = package(
        "3.0",
        r#"<dc:title>Two covers</dc:title><meta property="cover-image">OEBPS/b.png</meta>"#,
        r#"<item id="imga" href="a.png" media-type="image/png" properties="cover-image"/>
           <item id="imgb" href="b.png" media-type="image/png"/>
           <item id="text" href="text.xhtml" media-type="application/xhtml+xml"/>"#,
        r#"<itemref idref="text"/>"#,
    );
    let bytes = epub(opf, vec![("OEBPS/a.png", b"AAAA".to_vec()), ("OEBPS/b.png", b"BBBB".to_vec())]);
    assert_eq!(cover_of(bytes), Some(b"AAAA".to_vec()));
}

#[test]
fn metadata_path_is_the_last_resort() {
    let opf = package(
        "3.0",
        r#"<meta property="cover-image">OEBPS/b.png</meta>"#,
        r#"<item id="imgb" href="b.png" media-type="image/png"/>
           <item id="text" href="text.xhtml" media-type="application/xhtml+xml"/>"#,
        r#"<itemref idref="text"/>"#,
    );
    let bytes = epub(opf, vec![("OEBPS/b.png", b"BBBB".to_vec())]);
    assert_eq!(cover_of(bytes), Some(b"BBBB".to_vec()));
}

#[test]
fn spine_cover_page_leads_to_its_image() {
    let opf = package(
        "2.0",
        "<dc:title>Paged</dc:title>",
        r#"<item id="cover" href="Text/cover.xhtml" media-type="application/xhtml+xml"/>
           <item id="pic" href="Images/p.jpg" media-type="image/jpeg"/>"#,
        r#"<itemref idref="cover"/>"#,
    );
    let page = br#"<html><body><img src="../Images/p.jpg"/></body></html>"#.to_vec();
    let bytes = epub(opf, vec![("OEBPS/Text/cover.xhtml", page), ("OEBPS/Images/p.jpg", b"PPPP".to_vec())]);
    assert_eq!(cover_of(bytes), Some(b"PPPP".to_vec()));
}

#[test]
fn unreadable_archive_does_not_open() {
    let mut cache = Cache::new("/lib");
    let file = ScannedFile { relative_path: "broken.epub".to_string(), last_modified: 1 };
    assert!(cache.cache_file(&file, b"not a zip".to_vec()).is_none());
    assert!(cache.take_covers(true).is_empty());
}

#[test]
fn cache_file_reads_title_and_queues_cover() {
    let opf = package(
        "3.0",
        "<dc:title>Indexed</dc:title>",
        r#"<item id="imga" href="a.png" media-type="image/png" properties="cover-image"/>
           <item id="text" href="text.xhtml" media-type="application/xhtml+xml"/>"#,
        r#"<itemref idref="text"/>"#,
    );
    let bytes = epub(opf, vec![("OEBPS/a.png", b"AAAA".to_vec())]);
    let mut cache = Cache::new("/lib");
    let file = ScannedFile { relative_path: "shelf/x.epub".to_string(), last_modified: 42 };
    let item = cache.cache_file(&file, bytes).unwrap();
    assert_eq!(item.key, spectecle::key::hash_relative_path("shelf/x.epub"));
    assert_eq!(item.title, "Indexed");
    assert_eq!(item.last_modified, 42);
    assert!(item.has_cover);
    let pending = cache.take_covers(true);
    assert_eq!(pending.len(), 1);
    assert_eq!(pending[0].data, b"AAAA".to_vec());
}

#[test]
fn archive_without_title_or_cover_is_indexed_by_file_name() {
    let opf = package(
        "2.0",
        "",
        r#"<item id="text" href="text.xhtml" media-type="application/xhtml+xml"/>"#,
        r#"<itemref idref="text"/>"#,
    );
    let bytes = epub(opf, vec![]);
    let mut cache = Cache::new("/lib");
    let file = ScannedFile { relative_path: "plain.epub".to_string(), last_modified: 1 };
    let covers = cache.index_file(&file, Some(bytes));
    assert!(covers.is_empty());
    let items = &cache.data().items;
    assert_eq!(items.len(), 1);
    assert_eq!(items[0].title, "plain.epub");
    assert!(!items[0].has_cover);
}

#[test]
fn container_without_root_directory_is_refused() {
    for root in ["", "/", "/./"] {
        let opf = package("2.0", "<dc:title>T</dc:title>", "", "");
        let bytes = epub_rooted(root, opf, vec![]);
        let mut cache = Cache::new("/lib");
        let file = ScannedFile { relative_path: "odd.epub".to_string(), last_modified: 1 };
        assert!(cache.cache_file(&file, bytes).is_none());
    }
}

#[test]
fn manifest_image_named_cover_is_used() {
    let opf = package(
        "2.0",
        "<dc:title>Named</dc:title>",
        r#"<item id="Cover-Art" href="art.jpg" media-type="image/jpeg"/>
           <item id="text" href="text.xhtml" media-type="application/xhtml+xml"/>"#,
        r#"<itemref idref="text"/>"#,
    );
    let bytes = epub(opf, vec![("OEBPS/art.jpg", b"CCCC".to_vec())]);
    assert_eq!(cover_of(bytes), Some(b"CCCC".to_vec()));
}
