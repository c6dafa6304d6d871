//! The free processing functions over a bare document: resource discovery
//! from a document and a base path, and the raw-value substring rewrite.

use epub::content::{relative_resources, update_image_url};
use epub::xml::XMLDocument;

const CHAPTER: &str = "<html><body>\
<img src=\"../images/pic.png\"/>\
<img src=\"http://example.org/remote.png\"/>\
<link type=\"text/css\" href=\"style.css\"/>\
</body></html>";

#[test]
fn relative_resources_matches_the_processor() {
    let doc = XMLDocument::try_new(CHAPTER.as_bytes()).unwrap();
    let sources = relative_resources(&doc, "OEBPS/text/chap1.xhtml").unwrap();
    assert_eq!(
        sources,
        vec!["OEBPS/images/pic.png", "OEBPS/text/style.css"]
    );
}

#[test]
fn raw_value_rewrite_matches_by_substring() {
    let mut doc = XMLDocument::try_new(CHAPTER.as_bytes()).unwrap();
    // the resolved path contains the raw reference text
    update_image_url(&mut doc, "images/pic.png", "dest-raw");
    let markup = doc.to_string().unwrap();
    assert!(!markup.contains("dest-raw"));
    // the raw attribute value must occur inside the requested source
    update_image_url(&mut doc, "x/../images/pic.png/y", "dest-raw");
    let markup = doc.to_string().unwrap();
    assert!(markup.contains("dest-raw"));
}

#[test]
fn raw_value_rewrite_touches_only_the_first() {
    let twice = "<html><body>\
<img src=\"pic.png\"/><img src=\"pic.png\"/>\
</body></html>";
    let mut doc = XMLDocument::try_new(twice.as_bytes()).unwrap();
    update_image_url(&mut doc, "path/pic.png", "dest-1");
    let markup = doc.to_string().unwrap();
    let first = markup.find("dest-1").unwrap();
    let second = markup.find("pic.png").unwrap();
    assert!(first < second);
    assert!(markup.match_indices("dest-1").count() == 1);
}
