//! Both table-of-contents dialects: a Navigation Document and an NCX
//! describing the same two-level outline parse to equal trees.

use epub::nav::Navigation;
use epub::EpubError;

const NAV_DOC: &str = "<html><head><title>The Book</title></head><body>\
<nav type=\"toc\"><ol>\
<li><a href=\"chap1.xhtml\">Chapter One</a>\
<ol><li><a href=\"chap1.xhtml#s1\">Section One</a></li>\
<li><a href=\"chap1.xhtml#s2\">Section Two</a></li></ol></li>\
<li><a href=\"chap2.xhtml\">Chapter Two</a></li>\
</ol></nav></body></html>";

const NCX_DOC: &str = "<ncx><head/><docTitle><title>The Book</title></docTitle>\
<navMap>\
<navPoint id=\"p1\"><navLabel><text>Chapter One</text></navLabel>\
<content src=\"chap1.xhtml\"/>\
<navPoint id=\"p1a\"><navLabel><text>Section One</text></navLabel>\
<content src=\"chap1.xhtml#s1\"/></navPoint>\
<navPoint id=\"p1b\"><navLabel><text>Section Two</text></navLabel>\
<content src=\"chap1.xhtml#s2\"/></navPoint>\
</navPoint>\
<navPoint id=\"p2\"><navLabel><text>Chapter Two</text></navLabel>\
<content src=\"chap2.xhtml\"/></navPoint>\
</navMap></ncx>";

#[test]
fn nav_and_ncx_agree_on_the_same_outline() {
    let from_nav = Navigation::new_from_nav(NAV_DOC.as_bytes()).unwrap();
    let from_ncx = Navigation::new_from_ncx(NCX_DOC.as_bytes()).unwrap();
    assert_eq!(from_nav.title(), "The Book");
    assert_eq!(from_ncx.title(), "The Book");
    assert_eq!(from_nav.toc(), from_ncx.toc());
}

#[test]
fn nav_outline_shape() {
    let nav = Navigation::new_from_nav(NAV_DOC.as_bytes()).unwrap();
    let toc = nav.toc();
    assert_eq!(toc.len(), 2);
    assert_eq!(toc[0].text(), "Chapter One");
    assert_eq!(toc[0].href(), "chap1.xhtml");
    assert_eq!(toc[0].children().len(), 2);
    assert_eq!(toc[0].children()[1].text(), "Section Two");
    assert_eq!(toc[0].children()[1].href(), "chap1.xhtml#s2");
    assert_eq!(toc[1].text(), "Chapter Two");
    assert_eq!(toc[1].children().len(), 0);
}

#[test]
fn li_without_anchor_is_skipped() {
    let doc = "<html><body><nav type=\"toc\"><ol>\
<li>plain text only</li>\
<li><a href=\"x.xhtml\">Kept</a></li>\
</ol></nav></body></html>";
    let nav = Navigation::new_from_nav(doc.as_bytes()).unwrap();
    assert_eq!(nav.toc().len(), 1);
    assert_eq!(nav.toc()[0].text(), "Kept");
}

#[test]
fn last_toc_nav_wins() {
    let doc = "<html><body>\
<nav type=\"toc\"><ol><li><a href=\"a\">Old</a></li></ol></nav>\
<nav type=\"landmarks\"><ol><li><a href=\"b\">Ignored</a></li></ol></nav>\
<nav type=\"toc\"><ol><li><a href=\"c\">New</a></li></ol></nav>\
</body></html>";
    let nav = Navigation::new_from_nav(doc.as_bytes()).unwrap();
    assert_eq!(nav.toc().len(), 1);
    assert_eq!(nav.toc()[0].text(), "New");
    assert_eq!(nav.toc()[0].href(), "c");
}

#[test]
fn ncx_missing_navlabel_is_parse_error() {
    let doc = "<ncx><navMap><navPoint><content src=\"x\"/></navPoint></navMap></ncx>";
    let err = Navigation::new_from_ncx(doc.as_bytes()).unwrap_err();
    assert_eq!(err, EpubError::ParseError(String::from("navLabel not exists")));
}

#[test]
fn ncx_missing_content_is_parse_error() {
    let doc = "<ncx><navMap><navPoint><navLabel><text>T</text></navLabel></navPoint></navMap></ncx>";
    let err = Navigation::new_from_ncx(doc.as_bytes()).unwrap_err();
    assert_eq!(
        err,
        EpubError::ParseError(String::from("content not exist in NavPoint"))
    );
}

#[test]
fn ncx_content_requires_src() {
    let doc = "<ncx><navMap><navPoint><navLabel><text>T</text></navLabel>\
<content/></navPoint></navMap></ncx>";
    let err = Navigation::new_from_ncx(doc.as_bytes()).unwrap_err();
    assert_eq!(err, EpubError::XmlError(String::from("src not exist")));
}

#[test]
fn ncx_missing_label_text_is_empty() {
    let doc = "<ncx><navMap><navPoint><navLabel/><content src=\"x\"/></navPoint></navMap></ncx>";
    let nav = Navigation::new_from_ncx(doc.as_bytes()).unwrap();
    assert_eq!(nav.toc().len(), 1);
    assert_eq!(nav.toc()[0].text(), "");
    assert_eq!(nav.toc()[0].href(), "x");
}

#[test]
fn book_without_recognized_toc_has_empty_outline() {
    let doc = "<html><body><p>nothing here</p></body></html>";
    let nav = Navigation::new_from_nav(doc.as_bytes()).unwrap();
    assert_eq!(nav.toc().len(), 0);
    let ncx = Navigation::new_from_ncx(doc.as_bytes()).unwrap();
    assert_eq!(ncx.toc().len(), 0);
}
