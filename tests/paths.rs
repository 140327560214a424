use spectecle::paths::{
    file_name, image_location_exec, is_archive_file, join_path, normalise_img_path,
    relative_path, split_path,
};
use spectecle::text::{contains_folded, contains_str, starts_with_str};

#[test]
fn substring_search() {
    assert!(contains_str("cover-page", "cover"));
    assert!(!contains_str("Cover-page", "cover"));
    assert!(contains_str("anything", ""));
    assert!(!contains_str("cov", "cover"));
    assert!(contains_folded("BookCOVER", "cover"));
    assert!(!contains_folded("front", "cover"));
    assert!(starts_with_str("../img.png", "../"));
    assert!(!starts_with_str("./img.png", "../"));
}

#[test]
fn split_path_drops_empty_and_current_segments() {
    assert_eq!(split_path("a//b/./c/"), vec!["a", "b", "c"]);
    assert_eq!(split_path(""), Vec::<String>::new());
    assert_eq!(split_path("x/../y"), vec!["x", "..", "y"]);
}

#[test]
fn normalise_collapses_parent_references() {
    assert_eq!(
        normalise_img_path("OEBPS/Text", "../Images/cover.jpg"),
        Some("OEBPS/Images/cover.jpg".to_string())
    );
    assert_eq!(normalise_img_path("OEBPS", "../cover.jpg"), Some("cover.jpg".to_string()));
}

#[test]
fn normalise_refuses_to_escape_the_root() {
    assert_eq!(normalise_img_path("OEBPS", "../../cover.jpg"), None);
    assert_eq!(normalise_img_path("", "../cover.jpg"), None);
}

#[test]
fn image_location_by_reference_kind() {
    assert_eq!(
        image_location_exec("OEBPS/Text/cover.xhtml", "../Images/c.png"),
        Some("OEBPS/Images/c.png".to_string())
    );
    assert_eq!(
        image_location_exec("OEBPS/Text/cover.xhtml", "Images/c.png"),
        Some("OEBPS/Images/c.png".to_string())
    );
    assert_eq!(image_location_exec("cover.xhtml", "../c.png"), None);
}

#[test]
fn file_names_and_extensions() {
    assert_eq!(file_name("shelf/Moby Dick.epub"), Some("Moby Dick.epub".to_string()));
    assert_eq!(file_name("a/.."), None);
    assert!(is_archive_file("/lib/shelf/book.epub"));
    assert!(!is_archive_file("/lib/shelf/.epub"));
    assert!(!is_archive_file("/lib/shelf/book.pdf"));
    assert!(!is_archive_file("/lib/shelf/book.EPUB"));
}

#[test]
fn relative_paths_and_joins() {
    assert_eq!(relative_path("/lib", "/lib/a/b.epub"), Some("a/b.epub".to_string()));
    assert_eq!(relative_path("/lib/", "/lib/b.epub"), Some("b.epub".to_string()));
    assert_eq!(relative_path("/lib", "/other/b.epub"), None);
    assert_eq!(join_path("/lib", "a/b.epub"), "/lib/a/b.epub");
    assert_eq!(join_path("/lib/", "b.epub"), "/lib/b.epub");
    assert_eq!(join_path("/lib", "/abs"), "/abs");
    assert_eq!(join_path("", "rel"), "rel");
}
