//! The CFI grammar: the worked example, step indexing, range offsets, and
//! the strict errors with their cursor positions.

use epub::epubcfi::{Epubcfi, RangeItem};
use epub::EpubError;

#[test]
fn test_parse() {
    let content = "/6/8!/4/4/20,/1:4,/1:21";
    let epubcfi = Epubcfi::try_new(content).unwrap();
    let chapter = epubcfi.chapter().unwrap();
    assert_eq!(chapter.steps.len(), 2);
    let range = epubcfi.range().unwrap();
    assert_eq!(range.start, RangeItem::new(4, 1));
}

#[test]
fn one_path_of_two_steps_before_indirection() {
    let epubcfi = Epubcfi::try_new("/6/8!/4/4/20,/1:4,/1:21").unwrap();
    let chapter = epubcfi.chapter().unwrap();
    let steps = chapter.steps();
    assert_eq!(steps.len(), 2);
    // raw indexes 6 and 8 halve to logical child positions
    assert_eq!(steps[0].index(), 3);
    assert_eq!(steps[1].index(), 4);
    let range = epubcfi.range().unwrap();
    assert_eq!(range.end, RangeItem::new(21, 1));
}

#[test]
fn range_offsets_follow_parity() {
    let epubcfi = Epubcfi::try_new("/6!/2,/4:6,/1:9").unwrap();
    let range = epubcfi.range().unwrap();
    // start raw offset 6 is even: an element, logical 6 / 2 - 1
    assert!(range.start.is_element());
    assert_eq!(range.start_offset(), 2);
    // end raw offset 9 is odd: a text position, logical (9 - 1) / 2
    assert!(!range.end.is_element());
    assert_eq!(range.end_offset(), 4);
}

#[test]
fn step_assertion_is_consumed() {
    let epubcfi = Epubcfi::try_new("/6[chap01]/4!/2,/1:0,/1:1").unwrap();
    let chapter = epubcfi.chapter().unwrap();
    assert_eq!(chapter.steps.len(), 2);
    assert_eq!(chapter.steps[0].index(), 3);
}

#[test]
fn dangling_slash_reports_final_position() {
    let err = Epubcfi::try_new("/6/8!/4/").unwrap_err();
    assert_eq!(
        err,
        EpubError::CfiError(String::from("expected a digit at :8"))
    );
}

#[test]
fn lone_slash_reports_final_position() {
    let err = Epubcfi::try_new("/").unwrap_err();
    assert_eq!(
        err,
        EpubError::CfiError(String::from("expected a digit at :1"))
    );
}

#[test]
fn unexpected_character_reports_position() {
    let err = Epubcfi::try_new("/6x").unwrap_err();
    assert_eq!(
        err,
        EpubError::CfiError(String::from("unexpected character at :2"))
    );
}

#[test]
fn range_missing_colon_reports_position() {
    let err = Epubcfi::try_new("/6!/4,/1").unwrap_err();
    assert_eq!(err, EpubError::CfiError(String::from("expected ':' at :8")));
}

#[test]
fn unfinished_steps_without_indirection_yield_no_paths() {
    let epubcfi = Epubcfi::try_new("/6/8").unwrap();
    assert!(epubcfi.chapter().is_none());
    assert!(epubcfi.range().is_none());
}

#[test]
fn huge_number_is_rejected() {
    let err = Epubcfi::try_new("/99999999999999999999").unwrap_err();
    assert_eq!(
        err,
        EpubError::CfiError(String::from("number too large at :21"))
    );
}
