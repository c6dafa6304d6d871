//! The OPF package document: metadata with last-writer-wins records, the
//! manifest keyed by id, the spine, the guide, and spine-to-manifest
//! chapter lookup.

use epub::package::{MetaData, Package};
use epub::xml::XMLDocument;
use epub::EpubError;

const OPF: &str = "<package>\
<metadata>\
<title>First Title</title>\
<title>Real Title</title>\
<creator role=\"aut\">Someone</creator>\
</metadata>\
<manifest>\
<item id=\"chap1\" href=\"text/chap1.xhtml\" media-type=\"application/xhtml+xml\"/>\
<item id=\"chap2\" href=\"text/chap2.xhtml\" media-type=\"application/xhtml+xml\"/>\
<item id=\"nav\" href=\"nav.xhtml\" media-type=\"application/xhtml+xml\" properties=\"nav\"/>\
</manifest>\
<spine>\
<itemref idref=\"chap1\"/>\
<itemref idref=\"chap2\" linear=\"no\"/>\
</spine>\
<guide>\
<reference type=\"cover\" title=\"Cover\" href=\"cover.xhtml\"/>\
</guide>\
</package>";

#[test]
fn package_parses_all_sections() {
    let package = Package::new("OEBPS/content.opf", OPF.as_bytes()).unwrap();
    // a later record of the same tag name overwrites the earlier one
    assert_eq!(package.title(), "Real Title");
    assert_eq!(package.spine().len(), 2);
    assert_eq!(package.spine()[0].idref(), "chap1");
    assert!(package.spine()[0].id().is_none());
    assert_eq!(package.manifest().len(), 3);
    let nav = package.get_manifest("nav").unwrap();
    assert_eq!(nav.href(), "nav.xhtml");
    assert_eq!(nav.media_type(), "application/xhtml+xml");
    assert!(package.get_manifest("none").is_none());
}

#[test]
fn chapter_maps_spine_position_to_manifest() {
    let package = Package::new("OEBPS/content.opf", OPF.as_bytes()).unwrap();
    let first = package.chapter(0).unwrap();
    assert_eq!(first.href(), "text/chap1.xhtml");
    assert_eq!(first.id(), "chap1");
    let second = package.chapter(1).unwrap();
    assert_eq!(second.href(), "text/chap2.xhtml");
    // past the end of the spine
    assert!(package.chapter(2).is_none());
}

#[test]
fn dangling_idref_yields_no_chapter() {
    let opf = "<package><metadata/>\
<manifest><item id=\"a\" href=\"a.xhtml\" media-type=\"application/xhtml+xml\"/></manifest>\
<spine><itemref idref=\"ghost\"/></spine></package>";
    let package = Package::new("book.opf", opf.as_bytes()).unwrap();
    assert!(package.chapter(0).is_none());
}

#[test]
fn missing_metadata_is_format_error() {
    let opf = "<package><manifest/></package>";
    let err = Package::new("p.opf", opf.as_bytes()).unwrap_err();
    assert_eq!(
        err,
        EpubError::FormatError(String::from("metadata is null in package format"))
    );
}

#[test]
fn missing_manifest_is_format_error() {
    let opf = "<package><metadata/><spine/></package>";
    let err = Package::new("p.opf", opf.as_bytes()).unwrap_err();
    assert_eq!(err, EpubError::FormatError(String::from("manifest is null")));
}

#[test]
fn manifest_item_requires_id_href_media_type() {
    let opf = "<package><metadata/>\
<manifest><item href=\"a.xhtml\" media-type=\"application/xhtml+xml\"/></manifest></package>";
    let err = Package::new("p.opf", opf.as_bytes()).unwrap_err();
    assert_eq!(err, EpubError::XmlError(String::from("id not exist")));
}

#[test]
fn spine_itemref_requires_idref() {
    let opf = "<package><metadata/>\
<manifest/><spine><itemref/></spine></package>";
    let err = Package::new("p.opf", opf.as_bytes()).unwrap_err();
    assert_eq!(err, EpubError::XmlError(String::from("idref not exist")));
}

#[test]
fn metadata_title_defaults_to_empty() {
    let doc = XMLDocument::try_new("<package><metadata/></package>".as_bytes()).unwrap();
    let md = MetaData::parse(&doc).unwrap();
    assert_eq!(md.title(), "");
}
