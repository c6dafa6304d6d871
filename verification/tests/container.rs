//! The OCF container index: ordered root files, the required version, and
//! the media-type check.

use epub::container::Container;
use epub::EpubError;

const TWO_ROOTS: &str = "<container version=\"1.0\">\
<rootfiles>\
<rootfile full-path=\"OEBPS/content.opf\" media-type=\"application/oebps-package+xml\"/>\
<rootfile full-path=\"other/alt.opf\" media-type=\"application/oebps-package+xml\"/>\
</rootfiles>\
</container>";

#[test]
fn full_path_is_first_root_file() {
    let container = Container::new(TWO_ROOTS.as_bytes()).unwrap();
    assert_eq!(container.full_path().unwrap(), "OEBPS/content.opf");
    assert_eq!(container.version(), "1.0");
    let roots = container.root_files();
    assert_eq!(roots.len(), 2);
    assert_eq!(roots[0].full_path(), "OEBPS/content.opf");
    assert_eq!(roots[1].full_path(), "other/alt.opf");
    assert_eq!(roots[0].media_type(), "application/oebps-package+xml");
}

#[test]
fn wrong_media_type_is_format_error() {
    let bad = "<container version=\"1.0\"><rootfiles>\
<rootfile full-path=\"a.opf\" media-type=\"text/plain\"/>\
</rootfiles></container>";
    let err = Container::new(bad.as_bytes()).unwrap_err();
    assert_eq!(
        err,
        EpubError::FormatError(String::from(
            "media-type must be application/oebps-package+xml"
        ))
    );
}

#[test]
fn missing_version_is_container_error() {
    let bad = "<container><rootfiles/></container>";
    let err = Container::new(bad.as_bytes()).unwrap_err();
    assert_eq!(
        err,
        EpubError::ContainerError(String::from("version not exist"))
    );
}

#[test]
fn missing_container_element_is_container_error() {
    let bad = "<something-else/>";
    let err = Container::new(bad.as_bytes()).unwrap_err();
    assert_eq!(
        err,
        EpubError::ContainerError(String::from("container not in container.xml file"))
    );
}

#[test]
fn missing_full_path_is_xml_error() {
    let bad = "<container version=\"1.0\"><rootfiles>\
<rootfile media-type=\"application/oebps-package+xml\"/>\
</rootfiles></container>";
    let err = Container::new(bad.as_bytes()).unwrap_err();
    assert_eq!(err, EpubError::XmlError(String::from("full-path not exist")));
}

#[test]
fn no_root_files_is_absent_full_path() {
    let empty = "<container version=\"1.0\"><rootfiles/></container>";
    let container = Container::new(empty.as_bytes()).unwrap();
    assert!(container.full_path().is_none());
    assert_eq!(container.root_files().len(), 0);
}
