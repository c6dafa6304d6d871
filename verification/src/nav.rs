//! The unified table of contents: a tree of entries, one per list item of
//! the source document, in document order. Two parsers produce this shape:
//! the Navigation Document walk in `navigation` and the NCX walk in `ncx`.

use vstd::prelude::*;

use crate::error::{EpubError, ErrV};
use crate::xml::{self, EventV, XMLDocument};

verus! {

/// The mathematical shape of one table-of-contents entry.
pub struct NavItemV {
    pub href: Seq<char>,
    pub text: Seq<char>,
    pub children: Seq<NavItemV>,
}

/// The mathematical shape of a parsed navigation: the document title and the
/// top-level entries.
pub struct NavigationV {
    pub title: Seq<char>,
    pub toc: Seq<NavItemV>,
}

/// One table-of-contents entry: its target, its label, its child entries.
#[derive(Debug, PartialEq, Eq)]
pub struct NavItem {
    href: String,
    text: String,
    children: Vec<NavItem>,
}

/// The view of one entry, recursing through its children.
pub closed spec fn nav_item_view(item: NavItem) -> NavItemV
    decreases item,
{
    NavItemV {
        href: item.href@,
        text: item.text@,
        children: nav_items_view(item.children@),
    }
}

/// The views of a list of entries, in order.
pub closed spec fn nav_items_view(items: Seq<NavItem>) -> Seq<NavItemV>
    decreases items,
{
    if items.len() == 0 {
        Seq::empty()
    } else {
        nav_items_view(items.drop_last()).push(nav_item_view(items[items.len() - 1]))
    }
}

impl View for NavItem {
    type V = NavItemV;

    closed spec fn view(&self) -> NavItemV {
        nav_item_view(*self)
    }
}

/// The two view functions agree with mapping each entry to its view.
pub proof fn lemma_nav_items_view_map(items: Seq<NavItem>)
    ensures
        nav_items_view(items) == items.map_values(|c: NavItem| c@),
    decreases items.len(),
{
    if items.len() > 0 {
        lemma_nav_items_view_map(items.drop_last());
        assert(nav_items_view(items.drop_last()).push(nav_item_view(items[items.len() - 1]))
            =~= items.map_values(|c: NavItem| c@));
    } else {
        assert(nav_items_view(items) =~= items.map_values(|c: NavItem| c@));
    }
}

impl NavItem {
    /// Builds one entry.
    pub fn new(href: String, text: String, children: Vec<NavItem>) -> (r: NavItem)
        ensures
            r@ == (NavItemV {
                href: href@,
                text: text@,
                children: children@.map_values(|c: NavItem| c@),
            }),
    {
        proof {
            lemma_nav_items_view_map(children@);
        }
        NavItem { href, text, children }
    }

    pub fn href(&self) -> (r: &str)
        ensures
            r@ == self@.href,
    {
        self.href.as_str()
    }

    pub fn text(&self) -> (r: &str)
        ensures
            r@ == self@.text,
    {
        self.text.as_str()
    }

    pub fn children(&self) -> (r: &[NavItem])
        ensures
            r@.map_values(|c: NavItem| c@) == self@.children,
    {
        proof {
            lemma_nav_items_view_map(self.children@);
        }
        self.children.as_slice()
    }
}

/// A parsed table of contents with the source document's title.
#[derive(Debug)]
pub struct Navigation {
    title: String,
    toc: Vec<NavItem>,
}

impl View for Navigation {
    type V = NavigationV;

    closed spec fn view(&self) -> NavigationV {
        NavigationV { title: self.title@, toc: self.toc@.map_values(|c: NavItem| c@) }
    }
}

/// The text of the first `title` element anywhere in the document; empty
/// where none exists.
pub open spec fn spec_title(evs: Seq<EventV>) -> Seq<char> {
    match xml::spec_find_tag(evs, "title"@) {
        Some(t) => xml::spec_text(evs, t),
        None => Seq::empty(),
    }
}

pub(crate) fn parse_title(doc: &XMLDocument) -> (r: String)
    ensures
        r@ == spec_title(doc@),
{
    match doc.find_tag("title") {
        Some(t) => xml::parse_text(doc, t),
        None => String::new(),
    }
}

impl Navigation {
    /// Parses an EPUB3 Navigation Document.
    pub fn new_from_nav(content: &[u8]) -> (r: Result<Navigation, EpubError>)
        ensures
            match r {
                Ok(nav) => crate::navigation::spec_navdoc_bytes(content@) == Ok::<_, ErrV>(nav@),
                Err(e) => crate::navigation::spec_navdoc_bytes(content@) == Err::<NavigationV, _>(
                    e@,
                ),
            },
    {
        crate::navigation::parse(content)
    }

    /// Parses an EPUB2 NCX document.
    pub fn new_from_ncx(content: &[u8]) -> (r: Result<Navigation, EpubError>)
        ensures
            match r {
                Ok(nav) => crate::ncx::spec_ncx_bytes(content@) == Ok::<_, ErrV>(nav@),
                Err(e) => crate::ncx::spec_ncx_bytes(content@) == Err::<NavigationV, _>(e@),
            },
    {
        crate::ncx::parse(content)
    }

    /// Builds a navigation from already-parsed parts.
    pub(crate) fn assemble(title: String, toc: Vec<NavItem>) -> (r: Navigation)
        ensures
            r@ == (NavigationV { title: title@, toc: toc@.map_values(|c: NavItem| c@) }),
    {
        Navigation { title, toc }
    }

    /// The source document's title.
    pub fn title(&self) -> (r: &str)
        ensures
            r@ == self@.title,
    {
        self.title.as_str()
    }

    /// The top-level entries, in document order.
    pub fn toc(&self) -> (r: &[NavItem])
        ensures
            r@.map_values(|c: NavItem| c@) == self@.toc,
    {
        self.toc.as_slice()
    }
}

} // verus!
