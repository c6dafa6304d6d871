//! The book façade: opening from archive bytes and from an unpacked file
//! set, and the equality of everything both ways of opening yield.

use std::io::Write;

use epub::book::Book;
use epub::EpubError;

const CONTAINER: &str = "<container version=\"1.0\"><rootfiles>\
<rootfile full-path=\"OEBPS/content.opf\" media-type=\"application/oebps-package+xml\"/>\
</rootfiles></container>";

const OPF: &str = "<package>\
<metadata><title>Backed Book</title></metadata>\
<manifest>\
<item id=\"chap1\" href=\"text/chap1.xhtml\" media-type=\"application/xhtml+xml\"/>\
<item id=\"chap2\" href=\"text/chap2.xhtml\" media-type=\"application/xhtml+xml\"/>\
<item id=\"nav\" href=\"nav.xhtml\" media-type=\"application/xhtml+xml\"/>\
</manifest>\
<spine><itemref idref=\"chap1\"/><itemref idref=\"chap2\"/></spine>\
</package>";

const NAV: &str = "<html><head><title>Backed Book</title></head><body>\
<nav type=\"toc\"><ol>\
<li><a href=\"text/chap1.xhtml\">One</a></li>\
<li><a href=\"text/chap2.xhtml\">Two</a></li>\
</ol></nav></body></html>";

const CHAP1: &str = "<html><body><p>first chapter</p>\
<img src=\"../images/pic.png\"/></body></html>";

const CHAP2: &str = "<html><body><p>second chapter</p></body></html>";

const PIC: &[u8] = &[137, 80, 78, 71, 13, 10];

fn book_files() -> Vec<(String, Vec<u8>)> {
    vec![
        (
            String::from("META-INF/container.xml"),
            CONTAINER.as_bytes().to_vec(),
        ),
        (String::from("OEBPS/content.opf"), OPF.as_bytes().to_vec()),
        (String::from("OEBPS/nav.xhtml"), NAV.as_bytes().to_vec()),
        (
            String::from("OEBPS/text/chap1.xhtml"),
            CHAP1.as_bytes().to_vec(),
        ),
        (
            String::from("OEBPS/text/chap2.xhtml"),
            CHAP2.as_bytes().to_vec(),
        ),
        (String::from("OEBPS/images/pic.png"), PIC.to_vec()),
    ]
}

fn book_zip() -> Vec<u8> {
    let cursor = std::io::Cursor::new(Vec::new());
    let mut writer = zip::ZipWriter::new(cursor);
    let options = zip::write::SimpleFileOptions::default();
    for (name, bytes) in book_files() {
        writer.start_file(name, options).unwrap();
        writer.write_all(&bytes).unwrap();
    }
    writer.finish().unwrap().into_inner()
}

#[test]
fn archive_and_directory_yield_the_same_book() {
    let mut from_zip = Book::open_from_memory(book_zip()).unwrap();
    let mut from_dir = Book::open_from_files(book_files()).unwrap();
    assert_eq!(from_zip.title(), "Backed Book");
    assert_eq!(from_zip.title(), from_dir.title());
    assert_eq!(
        from_zip.nav().unwrap().toc(),
        from_dir.nav().unwrap().toc()
    );
    let mut zi = from_zip.chapters();
    let mut di = from_dir.chapters();
    let mut seen = 0;
    loop {
        let a = zi.next(&mut from_zip);
        let b = di.next(&mut from_dir);
        match (a, b) {
            (Some(x), Some(y)) => {
                assert_eq!(x.index(), y.index());
                assert_eq!(x.href(), y.href());
                assert_eq!(x.content(), y.content());
                seen += 1;
            }
            (None, None) => break,
            _ => panic!("one backend ended early"),
        }
    }
    assert_eq!(seen, 2);
}

#[test]
fn chapters_iterate_in_spine_order() {
    let mut book = Book::open_from_memory(book_zip()).unwrap();
    let mut it = book.chapters();
    let first = it.next(&mut book).unwrap();
    assert_eq!(first.index(), 0);
    assert_eq!(first.href(), "text/chap1.xhtml");
    assert!(first.content().contains("first chapter"));
    let second = it.next(&mut book).unwrap();
    assert_eq!(second.index(), 1);
    assert_eq!(second.href(), "text/chap2.xhtml");
    assert!(it.next(&mut book).is_none());
}

#[test]
fn read_and_rewrite_a_chapter() {
    let mut book = Book::open_from_files(book_files()).unwrap();
    let path = book.resolve_path("text/chap1.xhtml");
    assert_eq!(path, "OEBPS/text/chap1.xhtml");
    let mut content = book.content(&path).unwrap();
    let sources = content.ralative_sources().unwrap();
    assert_eq!(sources, vec!["OEBPS/images/pic.png"]);
    let bytes = book.read_binary_file(&sources[0]).unwrap();
    assert_eq!(bytes, PIC);
    content.update_image_url(&sources[0], "blob:handle-1");
    let markup = content.to_string().unwrap();
    assert!(markup.contains("blob:handle-1"));
    assert!(!markup.contains("../images/pic.png"));
}

#[test]
fn package_accessor_exposes_the_parse() {
    let book = Book::open_from_memory(book_zip()).unwrap();
    assert_eq!(book.package().spine().len(), 2);
    assert_eq!(
        book.package().get_manifest("chap2").unwrap().href(),
        "text/chap2.xhtml"
    );
}

#[test]
fn garbage_bytes_are_an_archive_error() {
    // corrupt central directory
    let err = Book::open_from_memory(vec![1, 2, 3, 4, 5]).unwrap_err();
    match err {
        EpubError::ArchiveError(_) => {}
        other => panic!("expected ArchiveError, got {:?}", other),
    }
}

#[test]
fn missing_resource_is_a_reader_error() {
    let mut book = Book::open_from_files(book_files()).unwrap();
    let err = book.read_binary_file("OEBPS/ghost.bin").unwrap_err();
    assert_eq!(
        err,
        EpubError::ReaderError(String::from("OEBPS/ghost.bin not in directory"))
    );
}

#[test]
fn missing_container_file_is_a_container_error() {
    let files = vec![(String::from("mimetype"), b"application/epub+zip".to_vec())];
    let err = Book::open_from_files(files).unwrap_err();
    assert_eq!(
        err,
        EpubError::ContainerError(String::from("META-INF/container.xml not in directory"))
    );
}

#[test]
fn container_without_root_files_is_a_reader_error() {
    let files = vec![(
        String::from("META-INF/container.xml"),
        "<container version=\"1.0\"><rootfiles/></container>"
            .as_bytes()
            .to_vec(),
    )];
    let err = Book::open_from_files(files).unwrap_err();
    assert_eq!(
        err,
        EpubError::ReaderError(String::from("full path not exists"))
    );
}

#[test]
fn book_without_nav_or_ncx_ids_has_no_navigation() {
    let opf = "<package><metadata><title>T</title></metadata>\
<manifest><item id=\"c\" href=\"c.xhtml\" media-type=\"application/xhtml+xml\"/></manifest>\
<spine><itemref idref=\"c\"/></spine></package>";
    let files = vec![
        (
            String::from("META-INF/container.xml"),
            CONTAINER.as_bytes().to_vec(),
        ),
        (String::from("OEBPS/content.opf"), opf.as_bytes().to_vec()),
        (
            String::from("OEBPS/c.xhtml"),
            "<html><body/></html>".as_bytes().to_vec(),
        ),
    ];
    let book = Book::open_from_files(files).unwrap();
    assert!(book.nav().is_none());
    assert_eq!(book.title(), "T");
}

#[test]
fn ncx_is_used_when_no_nav_id_exists() {
    // the manifest lookup goes by the fixed ids
    let opf = "<package><metadata><title>T</title></metadata>\
<manifest>\
<item id=\"c\" href=\"c.xhtml\" media-type=\"application/xhtml+xml\"/>\
<item id=\"ncx\" href=\"toc.ncx\" media-type=\"application/x-dtbncx+xml\"/>\
</manifest>\
<spine><itemref idref=\"c\"/></spine></package>";
    let ncx = "<ncx><docTitle><title>T</title></docTitle><navMap>\
<navPoint><navLabel><text>One</text></navLabel><content src=\"c.xhtml\"/></navPoint>\
</navMap></ncx>";
    let files = vec![
        (
            String::from("META-INF/container.xml"),
            CONTAINER.as_bytes().to_vec(),
        ),
        (String::from("OEBPS/content.opf"), opf.as_bytes().to_vec()),
        (String::from("OEBPS/toc.ncx"), ncx.as_bytes().to_vec()),
        (
            String::from("OEBPS/c.xhtml"),
            "<html><body/></html>".as_bytes().to_vec(),
        ),
    ];
    let book = Book::open_from_files(files).unwrap();
    let nav = book.nav().unwrap();
    assert_eq!(nav.toc().len(), 1);
    assert_eq!(nav.toc()[0].text(), "One");
}
