//! The EPUB3 Navigation Document walk: each `nav` element typed `toc` is an
//! `ol > li` outline; an `li`'s first `a` child supplies the target and the
//! label, and its nested `ol` lists supply the children. The last `nav`
//! typed `toc` in document order supplies the table of contents.

use vstd::prelude::*;

use crate::error::{EpubError, ErrV};
use crate::nav::{spec_title, NavItem, NavItemV, Navigation, NavigationV};
use crate::xml::{self, EventV, XMLDocument};

verus! {

/// The entries below `node`: the concatenated entries of its `ol` children.
/// The range guards are settled by the children-bounds lemma; they keep the
/// recursion visibly bounded.
pub open spec fn spec_toc(evs: Seq<EventV>, node: int) -> Seq<NavItemV>
    decreases evs.len() - node, 1int, 0int,
{
    spec_toc_ols(evs, node, xml::spec_children(evs, node, "ol"@))
}

pub open spec fn spec_toc_ols(evs: Seq<EventV>, node: int, ols: Seq<int>) -> Seq<NavItemV>
    decreases evs.len() - node, 0int, ols.len(),
{
    if ols.len() == 0 {
        Seq::empty()
    } else {
        let ol = ols[0];
        (if node < ol <= evs.len() {
            spec_nav_ol(evs, ol)
        } else {
            Seq::empty()
        }) + spec_toc_ols(evs, node, ols.drop_first())
    }
}

/// The entries of one `ol` list: one per `li` child that has an `a` child.
pub open spec fn spec_nav_ol(evs: Seq<EventV>, ol: int) -> Seq<NavItemV>
    decreases evs.len() - ol, 1int, 0int,
{
    spec_nav_ol_lis(evs, ol, xml::spec_children(evs, ol, "li"@))
}

pub open spec fn spec_nav_ol_lis(evs: Seq<EventV>, ol: int, lis: Seq<int>) -> Seq<NavItemV>
    decreases evs.len() - ol, 0int, lis.len(),
{
    if lis.len() == 0 {
        Seq::empty()
    } else {
        let li = lis[0];
        let anchors = xml::spec_children(evs, li, "a"@);
        (if anchors.len() == 0 {
            Seq::empty()
        } else {
            seq![
                NavItemV {
                    href: match xml::spec_attr(evs, anchors[0], "href"@) {
                        Some(h) => h,
                        None => Seq::empty(),
                    },
                    text: xml::spec_text(evs, anchors[0]),
                    children: if ol < li <= evs.len() {
                        spec_toc(evs, li)
                    } else {
                        Seq::empty()
                    },
                },
            ]
        }) + spec_nav_ol_lis(evs, ol, lis.drop_first())
    }
}

/// The table of contents of the document: that of the last `nav` element
/// whose `type` attribute is `toc`, or empty where none is.
pub open spec fn spec_navdoc_toc(evs: Seq<EventV>, navs: Seq<int>) -> Seq<NavItemV>
    decreases navs.len(),
{
    if navs.len() == 0 {
        Seq::empty()
    } else {
        let nav = navs[navs.len() - 1];
        if xml::spec_attr(evs, nav, "type"@) == Some("toc"@) {
            if 0 <= nav < evs.len() {
                spec_toc(evs, nav)
            } else {
                Seq::empty()
            }
        } else {
            spec_navdoc_toc(evs, navs.drop_last())
        }
    }
}

/// What parsing a Navigation Document yields.
pub open spec fn spec_navdoc(evs: Seq<EventV>) -> NavigationV {
    NavigationV {
        title: spec_title(evs),
        toc: spec_navdoc_toc(evs, xml::spec_find_all_tag(evs, "nav"@)),
    }
}

/// As [`spec_navdoc`], from the raw bytes.
pub open spec fn spec_navdoc_bytes(content: Seq<u8>) -> Result<NavigationV, ErrV> {
    match xml::xml_events_of(content) {
        None => Err(ErrV::Xml("create xml failed"@)),
        Some(evs) => Ok(spec_navdoc(evs)),
    }
}

/// The entries below `node`: its `ol` children's entries, concatenated.
pub fn parse_toc(doc: &XMLDocument, node: usize) -> (r: Vec<NavItem>)
    requires
        node < doc@.len(),
    ensures
        r@.map_values(|x: NavItem| x@) == spec_toc(doc@, node as int),
    decreases doc@.len() - node,
{
    let ghost evs = doc@;
    let ols = xml::find_children(doc, node, "ol");
    let ghost ids = xml::spec_children(evs, node as int, "ol"@);
    proof {
        xml::lemma_children_bounds(evs, node as int, "ol"@);
    }
    let n = ols.len();
    let mut items: Vec<NavItem> = Vec::new();
    let mut k: usize = 0;
    proof {
        assert(ids.skip(0) =~= ids);
        assert(items@.map_values(|x: NavItem| x@) + spec_toc_ols(evs, node as int, ids)
            =~= spec_toc_ols(evs, node as int, ids));
    }
    while k < n
        invariant
            evs == doc@,
            node < evs.len(),
            n == ols@.len(),
            ids == ols@.map_values(|u: usize| u as int),
            ids == xml::spec_children(evs, node as int, "ol"@),
            forall|q: int|
                0 <= q < ids.len() ==> node < #[trigger] ids[q] < evs.len(),
            k <= n,
            spec_toc(evs, node as int) == items@.map_values(|x: NavItem| x@) + spec_toc_ols(
                evs,
                node as int,
                ids.skip(k as int),
            ),
        decreases n - k,
    {
        let ghost acc0 = items@.map_values(|x: NavItem| x@);
        let ghost tail = ids.skip(k as int);
        proof {
            assert(tail[0] == ids[k as int]);
            assert(ids[k as int] == ols@.map_values(|u: usize| u as int)[k as int]);
            assert(tail.drop_first() =~= ids.skip(k + 1));
        }
        let ol = ols[k];
        let mut sub = parse_nav_ol(doc, ol);
        let ghost subv = sub@.map_values(|x: NavItem| x@);
        items.append(&mut sub);
        proof {
            crate::nav::lemma_nav_items_view_map(items@);
            assert(items@.map_values(|x: NavItem| x@) =~= acc0 + subv);
            assert(spec_toc_ols(evs, node as int, tail) == spec_nav_ol(evs, ol as int)
                + spec_toc_ols(evs, node as int, ids.skip(k + 1)));
            assert(acc0 + (subv + spec_toc_ols(evs, node as int, ids.skip(k + 1))) =~= (acc0
                + subv) + spec_toc_ols(evs, node as int, ids.skip(k + 1)));
        }
        k = k + 1;
    }
    proof {
        assert(ids.skip(n as int) =~= Seq::<int>::empty());
        assert(items@.map_values(|x: NavItem| x@) + Seq::<NavItemV>::empty() =~= items@.map_values(
            |x: NavItem| x@,
        ));
    }
    items
}

/// The entries of one `ol` list, one per `li` child with an `a` child.
fn parse_nav_ol(doc: &XMLDocument, ol: usize) -> (r: Vec<NavItem>)
    requires
        ol < doc@.len(),
    ensures
        r@.map_values(|x: NavItem| x@) == spec_nav_ol(doc@, ol as int),
    decreases doc@.len() - ol,
{
    let ghost evs = doc@;
    let lis = xml::find_children(doc, ol, "li");
    let ghost ids = xml::spec_children(evs, ol as int, "li"@);
    proof {
        xml::lemma_children_bounds(evs, ol as int, "li"@);
    }
    let n = lis.len();
    let mut items: Vec<NavItem> = Vec::new();
    let mut k: usize = 0;
    proof {
        assert(ids.skip(0) =~= ids);
        assert(items@.map_values(|x: NavItem| x@) + spec_nav_ol_lis(evs, ol as int, ids)
            =~= spec_nav_ol_lis(evs, ol as int, ids));
    }
    while k < n
        invariant
            evs == doc@,
            ol < evs.len(),
            n == lis@.len(),
            ids == lis@.map_values(|u: usize| u as int),
            ids == xml::spec_children(evs, ol as int, "li"@),
            forall|q: int|
                0 <= q < ids.len() ==> ol < #[trigger] ids[q] < evs.len(),
            k <= n,
            spec_nav_ol(evs, ol as int) == items@.map_values(|x: NavItem| x@)
                + spec_nav_ol_lis(evs, ol as int, ids.skip(k as int)),
        decreases n - k,
    {
        let ghost acc0 = items@.map_values(|x: NavItem| x@);
        let ghost tail = ids.skip(k as int);
        proof {
            assert(tail[0] == ids[k as int]);
            assert(ids[k as int] == lis@.map_values(|u: usize| u as int)[k as int]);
            assert(tail.drop_first() =~= ids.skip(k + 1));
        }
        let li = lis[k];
        let anchors = xml::find_children(doc, li, "a");
        let ghost aids = xml::spec_children(evs, li as int, "a"@);
        if anchors.len() > 0 {
            proof {
                assert(aids[0] == anchors@.map_values(|u: usize| u as int)[0]);
            }
            let a = anchors[0];
            let href = match xml::parse_attribute(doc, a, "href") {
                Some(h) => h,
                None => String::new(),
            };
            let text = xml::parse_text(doc, a);
            let children = parse_toc(doc, li);
            let item = NavItem::new(href, text, children);
            items.push(item);
            proof {
                assert(items@.map_values(|x: NavItem| x@) =~= acc0.push(items@.last()@));
                assert(spec_nav_ol_lis(evs, ol as int, tail) == seq![items@.last()@]
                    + spec_nav_ol_lis(evs, ol as int, ids.skip(k + 1)));
                assert(acc0 + (seq![items@.last()@] + spec_nav_ol_lis(
                    evs,
                    ol as int,
                    ids.skip(k + 1),
                )) =~= items@.map_values(|x: NavItem| x@) + spec_nav_ol_lis(
                    evs,
                    ol as int,
                    ids.skip(k + 1),
                ));
            }
        } else {
            proof {
                assert(spec_nav_ol_lis(evs, ol as int, tail) =~= Seq::<NavItemV>::empty()
                    + spec_nav_ol_lis(evs, ol as int, ids.skip(k + 1)));
                assert(Seq::<NavItemV>::empty() + spec_nav_ol_lis(evs, ol as int, ids.skip(k + 1))
                    =~= spec_nav_ol_lis(evs, ol as int, ids.skip(k + 1)));
            }
        }
        k = k + 1;
    }
    proof {
        assert(ids.skip(n as int) =~= Seq::<int>::empty());
        assert(items@.map_values(|x: NavItem| x@) + Seq::<NavItemV>::empty() =~= items@.map_values(
            |x: NavItem| x@,
        ));
    }
    items
}

/// Parses a Navigation Document: the title, and the outline of the last
/// `nav` element typed `toc`.
pub fn parse(content: &[u8]) -> (r: Result<Navigation, EpubError>)
    ensures
        match r {
            Ok(nav) => spec_navdoc_bytes(content@) == Ok::<_, ErrV>(nav@),
            Err(e) => spec_navdoc_bytes(content@) == Err::<NavigationV, _>(e@),
        },
{
    let doc = match XMLDocument::try_new(content) {
        Ok(d) => d,
        Err(e) => {
            return Err(e);
        },
    };
    let ghost evs = doc@;
    let title = crate::nav::parse_title(&doc);
    let navs = doc.find_all_tag("nav");
    let ghost ids = xml::spec_find_all_tag(evs, "nav"@);
    proof {
        xml::lemma_tags_upto_bounds(evs, "nav"@, evs.len() as int);
    }
    let mut toc: Vec<NavItem> = Vec::new();
    let ghost mut done = 0int;
    proof {
        assert(ids.subrange(0, 0) =~= Seq::<int>::empty());
        assert(toc@.map_values(|x: NavItem| x@) =~= spec_navdoc_toc(
            evs,
            ids.subrange(0, 0),
        ));
    }
    let n = navs.len();
    let mut k: usize = 0;
    while k < n
        invariant
            evs == doc@,
            n == navs@.len(),
            ids == navs@.map_values(|u: usize| u as int),
            forall|q: int|
                0 <= q < ids.len() ==> 0 <= #[trigger] ids[q] < evs.len(),
            k <= n,
            toc@.map_values(|x: NavItem| x@) == spec_navdoc_toc(evs, ids.subrange(0, k as int)),
        decreases n - k,
    {
        let ghost pre = ids.subrange(0, k as int);
        let ghost cur = ids.subrange(0, k + 1);
        proof {
            assert(cur[cur.len() - 1] == ids[k as int]);
            assert(cur.drop_last() =~= pre);
            assert(ids[k as int] == navs@.map_values(|u: usize| u as int)[k as int]);
        }
        let nav = navs[k];
        match xml::parse_attribute(&doc, nav, "type") {
            Some(ty) => {
                if crate::text::str_eq(ty.as_str(), "toc") {
                    toc = parse_toc(&doc, nav);
                } else {
                    proof {
                        assert(spec_navdoc_toc(evs, cur) == spec_navdoc_toc(evs, pre));
                    }
                }
            },
            None => {
                proof {
                    assert(spec_navdoc_toc(evs, cur) == spec_navdoc_toc(evs, pre));
                }
            },
        }
        k = k + 1;
    }
    proof {
        assert(ids.subrange(0, n as int) =~= ids);
    }
    Ok(Navigation::assemble(title, toc))
}

} // verus!
