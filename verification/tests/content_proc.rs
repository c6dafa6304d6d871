//! The content processor: resource discovery with relative-URL resolution,
//! the external-reference exclusion, and the first-match-only rewrite.

use epub::content::Content;
use epub::EpubError;

const CHAPTER: &str = "<html><body>\
<img src=\"../images/pic.png\"/>\
<img src=\"http://example.org/remote.png\"/>\
<link type=\"text/css\" href=\"../css/style.css\"/>\
<link type=\"application/x-font\" href=\"../fonts/f.woff\"/>\
</body></html>";

fn count_occurrences(haystack: &str, needle: &str) -> usize {
    let mut count = 0;
    let mut rest = haystack;
    while let Some(pos) = rest.find(needle) {
        count += 1;
        rest = &rest[pos + needle.len()..];
    }
    count
}

#[test]
fn resolution_is_archive_relative_without_leading_separator() {
    let content = Content::new("OEBPS/text/chap1.xhtml", CHAPTER.as_bytes()).unwrap();
    let sources = content.ralative_sources().unwrap();
    // the http reference is excluded; the font link is not text/css
    assert_eq!(sources, vec!["OEBPS/images/pic.png", "OEBPS/css/style.css"]);
}

#[test]
fn get_url_joins_and_strips() {
    let content = Content::new("OEBPS/text/chap1.xhtml", CHAPTER.as_bytes()).unwrap();
    assert_eq!(
        content.get_url("../images/pic.png").unwrap(),
        "OEBPS/images/pic.png"
    );
    assert_eq!(content.get_url("same-dir.png").unwrap(), "OEBPS/text/same-dir.png");
    assert_eq!(content.get_url("/absolute.png").unwrap(), "absolute.png");
}

#[test]
fn base_url_is_directory_prefix() {
    let content = Content::new("OEBPS/text/chap1.xhtml", CHAPTER.as_bytes()).unwrap();
    assert_eq!(content.base_url().unwrap(), "OEBPS/text");
    let flat = Content::new("chap1.xhtml", CHAPTER.as_bytes()).unwrap();
    assert_eq!(flat.base_url().unwrap(), "");
}

#[test]
fn rewrite_replaces_only_the_first_match() {
    let twice = "<html><body>\
<img src=\"../images/pic.png\"/>\
<p>between</p>\
<img src=\"../images/pic.png\"/>\
</body></html>";
    let mut content = Content::new("OEBPS/text/chap1.xhtml", twice.as_bytes()).unwrap();
    content.update_image_url("OEBPS/images/pic.png", "dest-1");
    let markup = content.to_string().unwrap();
    // exactly one of the two identical references is rewritten
    assert_eq!(count_occurrences(&markup, "dest-1"), 1);
    assert_eq!(count_occurrences(&markup, "../images/pic.png"), 1);
    assert!(markup.find("dest-1").unwrap() < markup.find("../images/pic.png").unwrap());
}

#[test]
fn rewrite_serializes_with_destination_in_place() {
    let mut content = Content::new("OEBPS/text/chap1.xhtml", CHAPTER.as_bytes()).unwrap();
    content.update_image_url("OEBPS/images/pic.png", "dest-1");
    content.update_image_url("OEBPS/css/style.css", "dest-2");
    let markup = content.to_string().unwrap();
    assert_eq!(count_occurrences(&markup, "dest-1"), 1);
    assert_eq!(count_occurrences(&markup, "dest-2"), 1);
    assert_eq!(count_occurrences(&markup, "../images/pic.png"), 0);
    assert_eq!(count_occurrences(&markup, "../css/style.css"), 0);
    // the untouched references stay
    assert_eq!(count_occurrences(&markup, "http://example.org/remote.png"), 1);
    assert_eq!(count_occurrences(&markup, "../fonts/f.woff"), 1);
}

#[test]
fn rewrite_without_match_changes_nothing() {
    let mut content = Content::new("OEBPS/text/chap1.xhtml", CHAPTER.as_bytes()).unwrap();
    let before = content.to_string().unwrap();
    content.update_image_url("OEBPS/images/other.png", "dest-9");
    assert_eq!(content.to_string().unwrap(), before);
}

#[test]
fn url_error_surfaces() {
    let content = Content::new("OEBPS/chap1.xhtml", CHAPTER.as_bytes()).unwrap();
    let err = content.get_url("http://[bad").unwrap_err();
    assert_eq!(err, EpubError::UrlError(String::from("url resolve error")));
}
