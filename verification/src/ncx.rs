//! The EPUB2 NCX walk: `navMap` holds nested `navPoint` elements. Each point
//! requires a `navLabel` (its inner `text` supplies the label, empty where
//! missing) and a `content` child whose `src` attribute is the target; its
//! nested `navPoint`s are its children.

use vstd::prelude::*;

use crate::error::{EpubError, ErrV};
use crate::nav::{spec_title, NavItem, NavItemV, Navigation, NavigationV};
use crate::xml::{self, EventV, XMLDocument};

verus! {

/// The entries below `node`: one per `navPoint` child; the first structural
/// failure wins. The range guards are settled by the children-bounds lemma;
/// they keep the recursion visibly bounded.
pub open spec fn spec_ncx_toc(evs: Seq<EventV>, node: int) -> Result<Seq<NavItemV>, ErrV>
    decreases evs.len() - node, 1int, 0int,
{
    spec_ncx_points(evs, node, xml::spec_children(evs, node, "navPoint"@))
}

pub open spec fn spec_ncx_points(evs: Seq<EventV>, node: int, points: Seq<int>) -> Result<
    Seq<NavItemV>,
    ErrV,
>
    decreases evs.len() - node, 0int, points.len(),
{
    if points.len() == 0 {
        Ok(Seq::empty())
    } else {
        let p = points[0];
        if !(node < p < evs.len()) {
            Ok(Seq::empty())
        } else {
            match spec_ncx_item(evs, p) {
                Err(e) => Err(e),
                Ok(item) => match spec_ncx_points(evs, node, points.drop_first()) {
                    Err(e) => Err(e),
                    Ok(rest) => Ok(seq![item] + rest),
                },
            }
        }
    }
}

/// One `navPoint`: its label text, its `content` target, its nested points.
pub open spec fn spec_ncx_item(evs: Seq<EventV>, point: int) -> Result<NavItemV, ErrV>
    decreases evs.len() - point, 2int, 0int,
{
    let labels = xml::spec_children(evs, point, "navLabel"@);
    if labels.len() == 0 {
        Err(ErrV::Parse("navLabel not exists"@))
    } else {
        let text = {
            let texts = xml::spec_children(evs, labels[0], "text"@);
            if texts.len() == 0 {
                Seq::empty()
            } else {
                xml::spec_text(evs, texts[0])
            }
        };
        let contents = xml::spec_children(evs, point, "content"@);
        if contents.len() == 0 {
            Err(ErrV::Parse("content not exist in NavPoint"@))
        } else {
            match xml::spec_attr(evs, contents[0], "src"@) {
                None => Err(ErrV::Xml("src"@ + " not exist"@)),
                Some(href) => match spec_ncx_toc(evs, point) {
                    Err(e) => Err(e),
                    Ok(children) => Ok(NavItemV { href: href, text: text, children: children }),
                },
            }
        }
    }
}

/// What parsing an NCX document yields: the title, and the `navMap`'s
/// entries, or empty where no `navMap` exists.
pub open spec fn spec_ncx(evs: Seq<EventV>) -> Result<NavigationV, ErrV> {
    match xml::spec_find_tag(evs, "navMap"@) {
        None => Ok(NavigationV { title: spec_title(evs), toc: Seq::empty() }),
        Some(root) => match spec_ncx_toc(evs, root) {
            Err(e) => Err(e),
            Ok(toc) => Ok(NavigationV { title: spec_title(evs), toc: toc }),
        },
    }
}

/// As [`spec_ncx`], from the raw bytes.
pub open spec fn spec_ncx_bytes(content: Seq<u8>) -> Result<NavigationV, ErrV> {
    match xml::xml_events_of(content) {
        None => Err(ErrV::Xml("create xml failed"@)),
        Some(evs) => spec_ncx(evs),
    }
}

/// The entries below `node`, one per `navPoint` child.
pub fn parse_toc(doc: &XMLDocument, node: usize) -> (r: Result<Vec<NavItem>, EpubError>)
    requires
        node < doc@.len(),
    ensures
        match r {
            Ok(items) => spec_ncx_toc(doc@, node as int) == Ok::<_, ErrV>(
                items@.map_values(|x: NavItem| x@),
            ),
            Err(e) => spec_ncx_toc(doc@, node as int) == Err::<Seq<NavItemV>, _>(e@),
        },
    decreases doc@.len() - node, 1int,
{
    let ghost evs = doc@;
    let points = xml::find_children(doc, node, "navPoint");
    let ghost ids = xml::spec_children(evs, node as int, "navPoint"@);
    proof {
        xml::lemma_children_bounds(evs, node as int, "navPoint"@);
    }
    let n = points.len();
    let mut items: Vec<NavItem> = Vec::new();
    let mut k: usize = 0;
    proof {
        assert(ids.skip(0) =~= ids);
        if spec_ncx_points(evs, node as int, ids) is Ok {
            let rest = spec_ncx_points(evs, node as int, ids)->Ok_0;
            assert(items@.map_values(|x: NavItem| x@) + rest =~= rest);
        }
    }
    while k < n
        invariant
            evs == doc@,
            node < evs.len(),
            n == points@.len(),
            ids == points@.map_values(|u: usize| u as int),
            ids == xml::spec_children(evs, node as int, "navPoint"@),
            forall|q: int|
                0 <= q < ids.len() ==> node < #[trigger] ids[q] < evs.len(),
            k <= n,
            spec_ncx_toc(evs, node as int) == match spec_ncx_points(
                evs,
                node as int,
                ids.skip(k as int),
            ) {
                Ok(rest) => Ok::<_, ErrV>(items@.map_values(|x: NavItem| x@) + rest),
                Err(e) => Err::<Seq<NavItemV>, _>(e),
            },
        decreases n - k,
    {
        let ghost acc0 = items@.map_values(|x: NavItem| x@);
        let ghost tail = ids.skip(k as int);
        proof {
            assert(tail[0] == ids[k as int]);
            assert(ids[k as int] == points@.map_values(|u: usize| u as int)[k as int]);
            assert(tail.drop_first() =~= ids.skip(k + 1));
        }
        let p = points[k];
        let item = match parse_toc_item(doc, p) {
            Ok(v) => v,
            Err(e) => {
                return Err(e);
            },
        };
        items.push(item);
        proof {
            assert(items@.map_values(|x: NavItem| x@) =~= acc0.push(items@.last()@));
            if spec_ncx_points(evs, node as int, ids.skip(k + 1)) is Ok {
                let rest = spec_ncx_points(evs, node as int, ids.skip(k + 1))->Ok_0;
                assert(acc0 + (seq![items@.last()@] + rest) =~= items@.map_values(
                    |x: NavItem| x@,
                ) + rest);
            }
        }
        k = k + 1;
    }
    proof {
        assert(ids.skip(n as int) =~= Seq::<int>::empty());
        assert(items@.map_values(|x: NavItem| x@) + Seq::<NavItemV>::empty() =~= items@.map_values(
            |x: NavItem| x@,
        ));
    }
    Ok(items)
}

/// One `navPoint`: requires its `navLabel` and its `content`'s `src`.
pub fn parse_toc_item(doc: &XMLDocument, point: usize) -> (r: Result<NavItem, EpubError>)
    requires
        point < doc@.len(),
    ensures
        match r {
            Ok(item) => spec_ncx_item(doc@, point as int) == Ok::<_, ErrV>(item@),
            Err(e) => spec_ncx_item(doc@, point as int) == Err::<NavItemV, _>(e@),
        },
    decreases doc@.len() - point, 2int,
{
    let ghost evs = doc@;
    let label = match xml::first_child(doc, point, "navLabel") {
        Some(l) => l,
        None => {
            return Err(EpubError::ParseError(String::from_str("navLabel not exists")));
        },
    };
    let text = match xml::first_child(doc, label, "text") {
        Some(t) => xml::parse_text(doc, t),
        None => String::new(),
    };
    let content = match xml::first_child(doc, point, "content") {
        Some(c) => c,
        None => {
            return Err(EpubError::ParseError(String::from_str("content not exist in NavPoint")));
        },
    };
    let href = match xml::parse_attribute_must_exist(doc, content, "src") {
        Ok(h) => h,
        Err(e) => {
            return Err(e);
        },
    };
    let children = match parse_toc(doc, point) {
        Ok(c) => c,
        Err(e) => {
            return Err(e);
        },
    };
    Ok(NavItem::new(href, text, children))
}

/// Parses an NCX document: the title, and the `navMap`'s nested points.
pub fn parse(content: &[u8]) -> (r: Result<Navigation, EpubError>)
    ensures
        match r {
            Ok(nav) => spec_ncx_bytes(content@) == Ok::<_, ErrV>(nav@),
            Err(e) => spec_ncx_bytes(content@) == Err::<NavigationV, _>(e@),
        },
{
    let doc = match XMLDocument::try_new(content) {
        Ok(d) => d,
        Err(e) => {
            return Err(e);
        },
    };
    let ghost evs = doc@;
    let title = crate::nav::parse_title(&doc);
    let toc = match doc.find_tag("navMap") {
        Some(root) => {
            proof {
                xml::lemma_first_tag_bounds(evs, "navMap"@, 0);
            }
            match parse_toc(&doc, root) {
                Ok(t) => t,
                Err(e) => {
                    return Err(e);
                },
            }
        },
        None => Vec::new(),
    };
    proof {
        if xml::spec_find_tag(evs, "navMap"@) is None {
            assert(toc@.map_values(|x: NavItem| x@) =~= Seq::<NavItemV>::empty());
        }
    }
    Ok(Navigation::assemble(title, toc))
}

} // verus!
