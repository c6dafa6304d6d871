//! One step of chapter iteration: the spine position, the chapter's href,
//! and its serialized content.

use vstd::prelude::*;

verus! {

/// The mathematical shape of one iterated chapter.
pub struct ChapterV {
    pub index: int,
    pub href: Seq<char>,
    pub content: Seq<char>,
}

/// One chapter as the iterator yields it.
#[derive(Debug)]
pub struct Chapter {
    index: usize,
    href: String,
    content: String,
}

impl View for Chapter {
    type V = ChapterV;

    closed spec fn view(&self) -> ChapterV {
        ChapterV { index: self.index as int, href: self.href@, content: self.content@ }
    }
}

impl Chapter {
    pub fn new(index: usize, href: &str, content: String) -> (r: Chapter)
        ensures
            r@ == (ChapterV { index: index as int, href: href@, content: content@ }),
    {
        Chapter { index, href: String::from_str(href), content }
    }

    /// The chapter's position in the spine.
    pub fn index(&self) -> (r: usize)
        ensures
            r == self@.index,
    {
        self.index
    }

    /// The chapter's archive-relative path.
    pub fn href(&self) -> (r: &str)
        ensures
            r@ == self@.href,
    {
        self.href.as_str()
    }

    /// The chapter's serialized markup.
    pub fn content(&self) -> (r: &str)
        ensures
            r@ == self@.content,
    {
        self.content.as_str()
    }
}

} // verus!
