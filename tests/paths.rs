use leedor::percent::percent_decode;
use leedor::epub::parse_relative_url;
use leedor::paths::{join_segments, resolve_path, split_segments};

#[test]
fn resolves_parent_reference() {
    assert_eq!("OEBPS/img/cover.png", resolve_path("../img/cover.png", "OEBPS/text/chapter1.xhtml"));
}

#[test]
fn empty_reference_is_the_anchor_directory() {
    assert_eq!("OEBPS/text", resolve_path("", "OEBPS/text/chapter1.xhtml"));
}

#[test]
fn resolves_sibling_reference() {
    assert_eq!("OEBPS/toc.ncx", resolve_path("toc.ncx", "OEBPS/content.opf"));
}

#[test]
fn anchor_at_archive_root() {
    assert_eq!("chapter.html", resolve_path("chapter.html", "content.opf"));
    assert_eq!("", resolve_path("", "content.opf"));
}

#[test]
fn parent_segments_stop_at_the_archive_root() {
    assert_eq!("x.png", resolve_path("../../../x.png", "OEBPS/a.html"));
}

#[test]
fn dot_segments_are_kept_and_empty_ones_skipped() {
    assert_eq!("OEBPS/./a/b", resolve_path("./a//b", "OEBPS/c.html"));
    assert_eq!("OEBPS/a/b", resolve_path("a//b/", "OEBPS/c.html"));
}

#[test]
fn splits_and_joins_segments() {
    assert_eq!(vec!["a", "b", "c"], split_segments("/a//b/c/"));
    assert_eq!("a/b/c", join_segments(&vec!["a".to_string(), "b".to_string(), "c".to_string()]));
    assert!(split_segments("").is_empty());
}

#[test]
fn relative_url_path_drops_fragment() {
    assert_eq!("/dir/file.html", parse_relative_url("dir/file.html#note").unwrap());
    assert_eq!("/a@b.html", parse_relative_url("a@b.html").unwrap());
}

#[test]
fn percent_escapes_decode_to_utf8_text() {
    assert_eq!("a b", percent_decode("a%20b").unwrap());
    assert_eq!("aäb", percent_decode("a%C3%A4b").unwrap());
    assert_eq!("50%", percent_decode("50%").unwrap());
    assert_eq!("%zz", percent_decode("%zz").unwrap());
    assert!(matches!(percent_decode("%FF"), Err(leedor::error::EpubError::Utf8(_))));
}

#[test]
fn relative_url_path_is_percent_encoded() {
    assert_eq!("/notes%20file.xhtml", parse_relative_url("notes file.xhtml").unwrap());
}
