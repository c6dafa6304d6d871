//! The document abstraction: queries over node ids, text gathering,
//! attribute access, and serialization with escaping.

use epub::xml::{
    find_all_children, find_children, first_child, parse_attribute, parse_attribute_must_exist,
    parse_text, tag_name, XMLDocument,
};
use epub::EpubError;

const DOC: &str = "<root><a id=\"one\">first<b>inner</b> tail</a>\
<a id=\"two\"/><c><a id=\"three\"/></c></root>";

#[test]
fn find_tag_is_preorder_first() {
    let doc = XMLDocument::try_new(DOC.as_bytes()).unwrap();
    let a = doc.find_tag("a").unwrap();
    assert_eq!(parse_attribute(&doc, a, "id").unwrap(), "one");
    assert!(doc.find_tag("missing").is_none());
}

#[test]
fn find_all_tag_keeps_document_order() {
    let doc = XMLDocument::try_new(DOC.as_bytes()).unwrap();
    let all = doc.find_all_tag("a");
    assert_eq!(all.len(), 3);
    let ids: Vec<String> = all
        .iter()
        .map(|n| parse_attribute(&doc, *n, "id").unwrap())
        .collect();
    assert_eq!(ids, vec!["one", "two", "three"]);
}

#[test]
fn parse_text_gathers_direct_children_only() {
    let doc = XMLDocument::try_new(DOC.as_bytes()).unwrap();
    let a = doc.find_tag("a").unwrap();
    // the nested element's text is not included
    assert_eq!(parse_text(&doc, a), "first tail");
    let b = doc.find_tag("b").unwrap();
    assert_eq!(parse_text(&doc, b), "inner");
}

#[test]
fn required_attribute_error_names_it() {
    let doc = XMLDocument::try_new(DOC.as_bytes()).unwrap();
    let a = doc.find_tag("a").unwrap();
    assert_eq!(parse_attribute_must_exist(&doc, a, "id").unwrap(), "one");
    let err = parse_attribute_must_exist(&doc, a, "class").unwrap_err();
    assert_eq!(err, EpubError::XmlError(String::from("class not exist")));
}

#[test]
fn children_are_direct_only() {
    let doc = XMLDocument::try_new(DOC.as_bytes()).unwrap();
    let root = doc.find_tag("root").unwrap();
    // the "a" inside "c" is not a direct child of root
    assert_eq!(find_children(&doc, root, "a").len(), 2);
    assert_eq!(find_all_children(&doc, root).len(), 3);
    let c = doc.find_tag("c").unwrap();
    let inner = first_child(&doc, c, "a").unwrap();
    assert_eq!(parse_attribute(&doc, inner, "id").unwrap(), "three");
    assert!(first_child(&doc, c, "b").is_none());
    assert_eq!(tag_name(&doc, c).unwrap(), "c");
}

#[test]
fn serialization_reflects_structure_and_escapes() {
    let src = "<p a=\"x&amp;y\">1 &lt; 2</p>";
    let doc = XMLDocument::try_new(src.as_bytes()).unwrap();
    let out = doc.to_string().unwrap();
    assert_eq!(out, "<p a=\"x&amp;y\">1 &lt; 2</p>");
}
