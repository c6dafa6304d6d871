//! One chapter's parsed markup. The processor discovers the chapter's
//! relative resource references — `img` elements' `src`, and the `href` of
//! `link` elements typed `text/css` — resolves each against the chapter's
//! own archive path by relative-URL join, and can rewrite the first
//! reference matching a resolved path to a caller-supplied destination.
//! References beginning with `http` are external and left untouched.

use vstd::prelude::*;

use crate::error::{EpubError, ErrV};
use crate::text::{spec_contains, spec_starts_with, str_contains, str_eq, str_starts_with};
use crate::xml::{self, EventV, XMLDocument};

verus! {

/// The mathematical shape of a chapter in processing: the archive path it
/// was read from, and its document events.
pub struct ContentV {
    pub path: Seq<char>,
    pub doc: Seq<EventV>,
}

/// The path component that the outside URL library yields when `href` is
/// joined against `path` under a synthetic base: a function of the two
/// strings alone, or nothing where resolution fails.
pub uninterp spec fn url_path_of(path: Seq<char>, href: Seq<char>) -> Option<Seq<char>>;

/// Relies on url's `Url::parse` and `Url::join`: resolving `href` against
/// the synthetic base `http://localhost/{path}` per RFC 3986 and reading
/// back the resulting path component.
#[verifier::external_body]
fn url_join_path(path: &str, href: &str) -> (r: Option<String>)
    ensures
        r matches Some(s) ==> url_path_of(path@, href@) == Some(s@),
        r is None ==> url_path_of(path@, href@) is None,
{
    let base = match url::Url::parse(&format!("http://localhost/{}", path)) {
        Ok(u) => u,
        Err(_) => return None,
    };
    match base.join(href) {
        Ok(u) => Some(u.path().to_string()),
        Err(_) => None,
    }
}

/// `s` without one leading separator, where it carries one.
pub open spec fn strip_slash(s: Seq<char>) -> Seq<char> {
    if s.len() > 0 && s[0] == '/' {
        s.subrange(1, s.len() as int)
    } else {
        s
    }
}

/// The archive-relative resolution of `href` against the chapter path: the
/// joined path with no leading separator, or a `UrlError`.
pub open spec fn spec_get_url(path: Seq<char>, href: Seq<char>) -> Result<Seq<char>, ErrV> {
    match url_path_of(path, href) {
        None => Err(ErrV::Url("url resolve error"@)),
        Some(p) => Ok(strip_slash(p)),
    }
}

/// The resolved `src` references of the `img` nodes in `ids`, skipping
/// external (`http...`) ones and nodes without `src`; the first resolution
/// failure wins.
pub open spec fn spec_img_sources(evs: Seq<EventV>, path: Seq<char>, ids: Seq<int>) -> Result<
    Seq<Seq<char>>,
    ErrV,
>
    decreases ids.len(),
{
    if ids.len() == 0 {
        Ok(Seq::empty())
    } else {
        let rest = spec_img_sources(evs, path, ids.drop_first());
        match xml::spec_attr(evs, ids[0], "src"@) {
            None => rest,
            Some(src) => if spec_starts_with(src, "http"@) {
                rest
            } else {
                match spec_get_url(path, src) {
                    Err(e) => Err(e),
                    Ok(u) => match rest {
                        Err(e) => Err(e),
                        Ok(us) => Ok(seq![u] + us),
                    },
                }
            },
        }
    }
}

/// The resolved `href` references of the `link` nodes in `ids` whose `type`
/// is `text/css`; a style link without `href` is a structural error.
pub open spec fn spec_css_sources(evs: Seq<EventV>, path: Seq<char>, ids: Seq<int>) -> Result<
    Seq<Seq<char>>,
    ErrV,
>
    decreases ids.len(),
{
    if ids.len() == 0 {
        Ok(Seq::empty())
    } else {
        let rest = spec_css_sources(evs, path, ids.drop_first());
        if xml::spec_attr(evs, ids[0], "type"@) == Some("text/css"@) {
            match xml::spec_attr(evs, ids[0], "href"@) {
                None => Err(ErrV::Xml("href"@ + " not exist"@)),
                Some(href) => if spec_starts_with(href, "http"@) {
                    rest
                } else {
                    match spec_get_url(path, href) {
                        Err(e) => Err(e),
                        Ok(u) => match rest {
                            Err(e) => Err(e),
                            Ok(us) => Ok(seq![u] + us),
                        },
                    }
                },
            }
        } else {
            rest
        }
    }
}

/// All relative resource references of the chapter, images first, then
/// style sheets, each resolved to an archive-relative path.
pub open spec fn spec_sources(evs: Seq<EventV>, path: Seq<char>) -> Result<Seq<Seq<char>>, ErrV> {
    match spec_img_sources(evs, path, xml::spec_find_all_tag(evs, "img"@)) {
        Err(e) => Err(e),
        Ok(imgs) => match spec_css_sources(evs, path, xml::spec_find_all_tag(evs, "link"@)) {
            Err(e) => Err(e),
            Ok(css) => Ok(imgs + css),
        },
    }
}

/// The first attribute at or after `k` named `aname` whose value resolves
/// to `src`; a value that fails to resolve does not match.
pub open spec fn attr_match_from(
    attrs: Seq<(Seq<char>, Seq<char>)>,
    path: Seq<char>,
    aname: Seq<char>,
    src: Seq<char>,
    k: int,
) -> Option<int>
    decreases attrs.len() - k,
{
    if !(0 <= k < attrs.len()) {
        None
    } else if attrs[k].0 == aname && spec_get_url(path, attrs[k].1) == Ok::<_, ErrV>(src) {
        Some(k)
    } else {
        attr_match_from(attrs, path, aname, src, k + 1)
    }
}

/// The first node among `ids` with an attribute named `aname` resolving to
/// `src`, paired with that attribute's index.
pub open spec fn node_match_from(
    evs: Seq<EventV>,
    path: Seq<char>,
    ids: Seq<int>,
    aname: Seq<char>,
    src: Seq<char>,
) -> Option<(int, int)>
    decreases ids.len(),
{
    if ids.len() == 0 {
        None
    } else {
        match attr_match_from(xml::attrs_at(evs, ids[0]), path, aname, src, 0) {
            Some(j) => Some((ids[0], j)),
            None => node_match_from(evs, path, ids.drop_first(), aname, src),
        }
    }
}

/// The first match of the rewrite scan: the `img` elements' `src`
/// attributes in document order, then the `link` elements' `href`.
pub open spec fn spec_rewrite_target(evs: Seq<EventV>, path: Seq<char>, src: Seq<char>) -> Option<
    (int, int),
> {
    match node_match_from(evs, path, xml::spec_find_all_tag(evs, "img"@), "src"@, src) {
        Some(m) => Some(m),
        None => node_match_from(evs, path, xml::spec_find_all_tag(evs, "link"@), "href"@, src),
    }
}

/// The document after rewriting: the first matching attribute's value
/// becomes `dest`; with no match the document is unchanged.
pub open spec fn spec_rewrite(
    evs: Seq<EventV>,
    path: Seq<char>,
    src: Seq<char>,
    dest: Seq<char>,
) -> Seq<EventV> {
    match spec_rewrite_target(evs, path, src) {
        None => evs,
        Some((i, j)) => evs.update(i, xml::with_attr_value(evs[i], j, dest)),
    }
}

/// A found node lies inside the document, provided every candidate does.
pub proof fn lemma_node_match_bounds(
    evs: Seq<EventV>,
    path: Seq<char>,
    ids: Seq<int>,
    aname: Seq<char>,
    src: Seq<char>,
)
    requires
        forall|q: int| 0 <= q < ids.len() ==> 0 <= #[trigger] ids[q] < evs.len(),
    ensures
        node_match_from(evs, path, ids, aname, src) matches Some((i, j)) ==> 0 <= i < evs.len(),
    decreases ids.len(),
{
    if ids.len() > 0 {
        assert(forall|q: int|
            0 <= q < ids.drop_first().len() ==> 0 <= #[trigger] ids.drop_first()[q]
                < evs.len());
        lemma_node_match_bounds(evs, path, ids.drop_first(), aname, src);
    }
}

proof fn lemma_attr_match_bounds(
    attrs: Seq<(Seq<char>, Seq<char>)>,
    path: Seq<char>,
    aname: Seq<char>,
    src: Seq<char>,
    k: int,
)
    ensures
        attr_match_from(attrs, path, aname, src, k) matches Some(j) ==> k <= j < attrs.len(),
    decreases attrs.len() - k,
{
    if 0 <= k < attrs.len() {
        lemma_attr_match_bounds(attrs, path, aname, src, k + 1);
    }
}

/// A found node lies inside the document and opens an element, and the
/// found attribute index lies inside its attribute list.
pub proof fn lemma_node_match_open(
    evs: Seq<EventV>,
    path: Seq<char>,
    ids: Seq<int>,
    aname: Seq<char>,
    src: Seq<char>,
)
    ensures
        node_match_from(evs, path, ids, aname, src) matches Some((i, j)) ==> 0 <= i < evs.len()
            && evs[i] is Open && 0 <= j < xml::attrs_at(evs, i).len(),
    decreases ids.len(),
{
    if ids.len() > 0 {
        lemma_attr_match_bounds(xml::attrs_at(evs, ids[0]), path, aname, src, 0);
        lemma_node_match_open(evs, path, ids.drop_first(), aname, src);
        if attr_match_from(xml::attrs_at(evs, ids[0]), path, aname, src, 0) is Some {
            if !(0 <= ids[0] < evs.len() && evs[ids[0]] is Open) {
                assert(xml::attrs_at(evs, ids[0]) =~= Seq::<(Seq<char>, Seq<char>)>::empty());
            }
        }
    }
}

/// The rewrite-then-serialize property at text level: after a successful
/// rewrite, the serialized markup keeps its prefix and its suffix verbatim
/// and differs from the old text only inside the one rewritten opening
/// tag, so the destination string lands in exactly one place.
pub proof fn lemma_rewrite_markup_localized(
    evs: Seq<EventV>,
    path: Seq<char>,
    src: Seq<char>,
    dest: Seq<char>,
)
    requires
        spec_rewrite_target(evs, path, src) is Some,
    ensures
        ({
            let t = spec_rewrite_target(evs, path, src)->0;
            let evs2 = spec_rewrite(evs, path, src, dest);
            let before = xml::scan_prefix(evs, 0, Seq::empty(), t.0);
            let after = xml::markup_scan(
                evs,
                t.0 + 1,
                xml::scan_stack(evs, 0, Seq::empty(), t.0).push(xml::evt_name(evs[t.0])),
            );
            &&& xml::spec_markup(evs2) == (before + xml::open_tag_markup(
                xml::evt_name(evs[t.0]),
                xml::evt_attrs(xml::with_attr_value(evs[t.0], t.1, dest)),
            )) + after
            &&& xml::spec_markup(evs) == (before + xml::open_tag_markup(
                xml::evt_name(evs[t.0]),
                xml::evt_attrs(evs[t.0]),
            )) + after
        }),
{
    lemma_node_match_open(evs, path, xml::spec_find_all_tag(evs, "img"@), "src"@, src);
    lemma_node_match_open(evs, path, xml::spec_find_all_tag(evs, "link"@), "href"@, src);
    let t = spec_rewrite_target(evs, path, src)->0;
    let e2 = xml::with_attr_value(evs[t.0], t.1, dest);
    xml::lemma_markup_update_localized(evs, t.0, e2);
}

/// Rewriting changes at most the one matched attribute: every other event
/// keeps its value, and with no match nothing changes at all. In
/// particular, where several elements share the matched source, only the
/// first in document order is rewritten.
pub proof fn lemma_rewrite_first_match_only(
    evs: Seq<EventV>,
    path: Seq<char>,
    src: Seq<char>,
    dest: Seq<char>,
)
    ensures
        spec_rewrite_target(evs, path, src) is None ==> spec_rewrite(evs, path, src, dest) == evs,
        spec_rewrite_target(evs, path, src) matches Some((i, j)) ==> {
            let evs2 = spec_rewrite(evs, path, src, dest);
            &&& 0 <= i < evs.len()
            &&& evs2.len() == evs.len()
            &&& evs2[i] == xml::with_attr_value(evs[i], j, dest)
            &&& forall|q: int| 0 <= q < evs.len() && q != i ==> evs2[q] == evs[q]
        },
{
    xml::lemma_tags_upto_bounds(evs, "img"@, evs.len() as int);
    xml::lemma_tags_upto_bounds(evs, "link"@, evs.len() as int);
    lemma_node_match_bounds(evs, path, xml::spec_find_all_tag(evs, "img"@), "src"@, src);
    lemma_node_match_bounds(evs, path, xml::spec_find_all_tag(evs, "link"@), "href"@, src);
}

/// The bare path of the chapter's directory: everything before the last
/// separator, empty where the path has none.
pub open spec fn last_slash_from(s: Seq<char>, i: int) -> Option<int>
    decreases i,
{
    if i <= 0 || i > s.len() {
        None
    } else if s[i - 1] == '/' {
        Some(i - 1)
    } else {
        last_slash_from(s, i - 1)
    }
}

pub open spec fn spec_base_url(path: Seq<char>) -> Seq<char> {
    match last_slash_from(path, path.len() as int) {
        Some(i) => path.subrange(0, i),
        None => Seq::empty(),
    }
}

/// Resolves one reference against a chapter path, yielding an
/// archive-relative path with no leading separator.
pub fn resolve_reference(path: &str, href: &str) -> (r: Result<String, EpubError>)
    ensures
        match r {
            Ok(s) => spec_get_url(path@, href@) == Ok::<_, ErrV>(s@),
            Err(e) => spec_get_url(path@, href@) == Err::<Seq<char>, _>(e@),
        },
{
    match url_join_path(path, href) {
        None => Err(EpubError::UrlError(String::from_str("url resolve error"))),
        Some(p) => {
            let plen = p.as_str().unicode_len();
            if plen > 0 && p.as_str().get_char(0) == '/' {
                let r = String::from_str(p.as_str().substring_char(1, plen));
                proof {
                    assert(r@ =~= strip_slash(p@));
                }
                Ok(r)
            } else {
                proof {
                    assert(p@ =~= strip_slash(p@));
                }
                Ok(p)
            }
        },
    }
}

/// The directory part of a slash-separated path: everything before the last
/// separator, empty where there is none.
pub fn dir_part(path: &str) -> (r: String)
    ensures
        r@ == spec_base_url(path@),
{
    let ghost p = path@;
    let n = path.unicode_len();
    let mut i: usize = n;
    while i > 0
        invariant
            p == path@,
            n == p.len(),
            i <= n,
            last_slash_from(p, n as int) == last_slash_from(p, i as int),
        decreases i,
    {
        if path.get_char(i - 1) == '/' {
            let r = String::from_str(path.substring_char(0, i - 1));
            proof {
                assert(r@ =~= p.subrange(0, i - 1));
            }
            return r;
        }
        i = i - 1;
    }
    String::new()
}

/// What parsing chapter bytes yields.
pub open spec fn spec_content_bytes(path: Seq<char>, content: Seq<u8>) -> Result<ContentV, ErrV> {
    match xml::xml_events_of(content) {
        None => Err(ErrV::Xml("create xml failed"@)),
        Some(evs) => Ok(ContentV { path: path, doc: evs }),
    }
}

/// A chapter's relative resource references, from its document and its
/// archive path: images first and style sheets after, each resolved to an
/// archive-relative path; external references are excluded.
pub fn relative_resources(doc: &XMLDocument, base: &str) -> (r: Result<Vec<String>, EpubError>)
    ensures
        match r {
            Ok(us) => spec_sources(doc@, base@) == Ok::<_, ErrV>(
                us@.map_values(|s: String| s@),
            ),
            Err(e) => spec_sources(doc@, base@) == Err::<Seq<Seq<char>>, _>(e@),
        },
{
    {
        let ghost evs = doc@;
        let ghost path = base@;
        let mut res: Vec<String> = Vec::new();
        let imgs = doc.find_all_tag("img");
        let ghost img_ids = xml::spec_find_all_tag(evs, "img"@);
        let n = imgs.len();
        let mut k: usize = 0;
        proof {
            assert(img_ids.skip(0) =~= img_ids);
            if spec_img_sources(evs, path, img_ids) is Ok {
                let rest = spec_img_sources(evs, path, img_ids)->Ok_0;
                assert(res@.map_values(|s: String| s@) + rest =~= rest);
            }
        }
        while k < n
            invariant
                evs == doc@,
                path == base@,
                n == imgs@.len(),
                img_ids == imgs@.map_values(|u: usize| u as int),
                img_ids == xml::spec_find_all_tag(evs, "img"@),
                k <= n,
                spec_img_sources(evs, path, img_ids) == match spec_img_sources(
                    evs,
                    path,
                    img_ids.skip(k as int),
                ) {
                    Ok(rest) => Ok::<_, ErrV>(res@.map_values(|s: String| s@) + rest),
                    Err(e) => Err::<Seq<Seq<char>>, _>(e),
                },
            decreases n - k,
        {
            let ghost acc0 = res@.map_values(|s: String| s@);
            let ghost tail = img_ids.skip(k as int);
            proof {
                assert(tail[0] == img_ids[k as int]);
                assert(img_ids[k as int] == imgs@.map_values(|u: usize| u as int)[k as int]);
                assert(tail.drop_first() =~= img_ids.skip(k + 1));
            }
            match xml::parse_attribute(doc, imgs[k], "src") {
                None => {
                },
                Some(src) => {
                    if !str_starts_with(src.as_str(), "http") {
                        match resolve_reference(base, src.as_str()) {
                            Err(e) => {
                                return Err(e);
                            },
                            Ok(u) => {
                                res.push(u);
                                proof {
                                    assert(res@.map_values(|s: String| s@) =~= acc0.push(
                                        res@.last()@,
                                    ));
                                    if spec_img_sources(evs, path, img_ids.skip(k + 1)) is Ok {
                                        let rest = spec_img_sources(
                                            evs,
                                            path,
                                            img_ids.skip(k + 1),
                                        )->Ok_0;
                                        assert(acc0 + (seq![res@.last()@] + rest)
                                            =~= res@.map_values(|s: String| s@) + rest);
                                    }
                                }
                            },
                        }
                    }
                },
            }
            k = k + 1;
        }
        proof {
            assert(img_ids.skip(n as int) =~= Seq::<int>::empty());
            assert(res@.map_values(|s: String| s@) + Seq::<Seq<char>>::empty() =~= res@.map_values(
                |s: String| s@,
            ));
        }
        let ghost img_acc = res@.map_values(|s: String| s@);
        let links = doc.find_all_tag("link");
        let ghost link_ids = xml::spec_find_all_tag(evs, "link"@);
        let m = links.len();
        let mut css: Vec<String> = Vec::new();
        let mut q: usize = 0;
        proof {
            assert(link_ids.skip(0) =~= link_ids);
            if spec_css_sources(evs, path, link_ids) is Ok {
                let rest = spec_css_sources(evs, path, link_ids)->Ok_0;
                assert(css@.map_values(|s: String| s@) + rest =~= rest);
            }
        }
        while q < m
            invariant
                evs == doc@,
                path == base@,
                img_acc == spec_img_sources(evs, path, img_ids)->Ok_0,
                spec_img_sources(evs, path, img_ids) is Ok,
                img_ids == xml::spec_find_all_tag(evs, "img"@),
                m == links@.len(),
                link_ids == links@.map_values(|u: usize| u as int),
                link_ids == xml::spec_find_all_tag(evs, "link"@),
                q <= m,
                spec_css_sources(evs, path, link_ids) == match spec_css_sources(
                    evs,
                    path,
                    link_ids.skip(q as int),
                ) {
                    Ok(rest) => Ok::<_, ErrV>(css@.map_values(|s: String| s@) + rest),
                    Err(e) => Err::<Seq<Seq<char>>, _>(e),
                },
            decreases m - q,
        {
            let ghost acc0 = css@.map_values(|s: String| s@);
            let ghost tail = link_ids.skip(q as int);
            proof {
                assert(tail[0] == link_ids[q as int]);
                assert(link_ids[q as int] == links@.map_values(|u: usize| u as int)[q as int]);
                assert(tail.drop_first() =~= link_ids.skip(q + 1));
            }
            let is_css = match xml::parse_attribute(doc, links[q], "type") {
                Some(ty) => str_eq(ty.as_str(), "text/css"),
                None => false,
            };
            if is_css {
                match xml::parse_attribute(doc, links[q], "href") {
                    None => {
                        return Err(
                            EpubError::XmlError(String::from_str("href").concat(" not exist")),
                        );
                    },
                    Some(href) => {
                        if !str_starts_with(href.as_str(), "http") {
                            match resolve_reference(base, href.as_str()) {
                                Err(e) => {
                                    return Err(e);
                                },
                                Ok(u) => {
                                    css.push(u);
                                    proof {
                                        assert(css@.map_values(|s: String| s@) =~= acc0.push(
                                            css@.last()@,
                                        ));
                                        if spec_css_sources(evs, path, link_ids.skip(q + 1))
                                            is Ok {
                                            let rest = spec_css_sources(
                                                evs,
                                                path,
                                                link_ids.skip(q + 1),
                                            )->Ok_0;
                                            assert(acc0 + (seq![css@.last()@] + rest)
                                                =~= css@.map_values(|s: String| s@) + rest);
                                        }
                                    }
                                },
                            }
                        }
                    },
                }
            }
            q = q + 1;
        }
        proof {
            assert(link_ids.skip(m as int) =~= Seq::<int>::empty());
            assert(css@.map_values(|s: String| s@) + Seq::<Seq<char>>::empty() =~= css@.map_values(
                |s: String| s@,
            ));
        }
        let ghost css_acc = css@.map_values(|s: String| s@);
        let mut out = res;
        let mut css2 = css;
        out.append(&mut css2);
        proof {
            assert(out@.map_values(|s: String| s@) =~= img_acc + css_acc);
        }
        Ok(out)
    }
}


/// The first attribute at or after `k` named `aname` whose raw value
/// occurs inside `src`.
pub open spec fn attr_sub_match_from(
    attrs: Seq<(Seq<char>, Seq<char>)>,
    aname: Seq<char>,
    src: Seq<char>,
    k: int,
) -> Option<int>
    decreases attrs.len() - k,
{
    if !(0 <= k < attrs.len()) {
        None
    } else if attrs[k].0 == aname && spec_contains(src, attrs[k].1) {
        Some(k)
    } else {
        attr_sub_match_from(attrs, aname, src, k + 1)
    }
}

/// The first node among `ids` with an attribute named `aname` whose raw
/// value occurs inside `src`, paired with that attribute's index.
pub open spec fn node_sub_match_from(
    evs: Seq<EventV>,
    ids: Seq<int>,
    aname: Seq<char>,
    src: Seq<char>,
) -> Option<(int, int)>
    decreases ids.len(),
{
    if ids.len() == 0 {
        None
    } else {
        match attr_sub_match_from(xml::attrs_at(evs, ids[0]), aname, src, 0) {
            Some(j) => Some((ids[0], j)),
            None => node_sub_match_from(evs, ids.drop_first(), aname, src),
        }
    }
}

/// The first match of the raw-value rewrite scan: `img` elements' `src`
/// attributes in document order, then `link` elements' `href`.
pub open spec fn spec_sub_rewrite_target(evs: Seq<EventV>, src: Seq<char>) -> Option<(int, int)> {
    match node_sub_match_from(evs, xml::spec_find_all_tag(evs, "img"@), "src"@, src) {
        Some(m) => Some(m),
        None => node_sub_match_from(evs, xml::spec_find_all_tag(evs, "link"@), "href"@, src),
    }
}

/// The document after the raw-value rewrite: the first matching
/// attribute's value becomes `dest`; with no match the document is
/// unchanged.
pub open spec fn spec_sub_rewrite(evs: Seq<EventV>, src: Seq<char>, dest: Seq<char>) -> Seq<
    EventV,
> {
    match spec_sub_rewrite_target(evs, src) {
        None => evs,
        Some((i, j)) => evs.update(i, xml::with_attr_value(evs[i], j, dest)),
    }
}

/// A found node lies inside the document, provided every candidate does.
pub proof fn lemma_node_sub_match_bounds(
    evs: Seq<EventV>,
    ids: Seq<int>,
    aname: Seq<char>,
    src: Seq<char>,
)
    requires
        forall|q: int| 0 <= q < ids.len() ==> 0 <= #[trigger] ids[q] < evs.len(),
    ensures
        node_sub_match_from(evs, ids, aname, src) matches Some((i, j)) ==> 0 <= i < evs.len(),
    decreases ids.len(),
{
    if ids.len() > 0 {
        assert(forall|q: int|
            0 <= q < ids.drop_first().len() ==> 0 <= #[trigger] ids.drop_first()[q]
                < evs.len());
        lemma_node_sub_match_bounds(evs, ids.drop_first(), aname, src);
    }
}

proof fn lemma_attr_sub_match_bounds(
    attrs: Seq<(Seq<char>, Seq<char>)>,
    aname: Seq<char>,
    src: Seq<char>,
    k: int,
)
    ensures
        attr_sub_match_from(attrs, aname, src, k) matches Some(j) ==> k <= j < attrs.len(),
    decreases attrs.len() - k,
{
    if 0 <= k < attrs.len() {
        lemma_attr_sub_match_bounds(attrs, aname, src, k + 1);
    }
}

/// A node found by the raw-value scan lies inside the document and opens
/// an element, its found attribute index inside its attribute list.
pub proof fn lemma_node_sub_match_open(
    evs: Seq<EventV>,
    ids: Seq<int>,
    aname: Seq<char>,
    src: Seq<char>,
)
    ensures
        node_sub_match_from(evs, ids, aname, src) matches Some((i, j)) ==> 0 <= i < evs.len()
            && evs[i] is Open && 0 <= j < xml::attrs_at(evs, i).len(),
    decreases ids.len(),
{
    if ids.len() > 0 {
        lemma_attr_sub_match_bounds(xml::attrs_at(evs, ids[0]), aname, src, 0);
        lemma_node_sub_match_open(evs, ids.drop_first(), aname, src);
        if attr_sub_match_from(xml::attrs_at(evs, ids[0]), aname, src, 0) is Some {
            if !(0 <= ids[0] < evs.len() && evs[ids[0]] is Open) {
                assert(xml::attrs_at(evs, ids[0]) =~= Seq::<(Seq<char>, Seq<char>)>::empty());
            }
        }
    }
}

/// As [`lemma_rewrite_markup_localized`], for the raw-value rewrite: after
/// a successful rewrite the serialized markup differs from the old text
/// only inside the one rewritten opening tag.
pub proof fn lemma_sub_rewrite_markup_localized(evs: Seq<EventV>, src: Seq<char>, dest: Seq<char>)
    requires
        spec_sub_rewrite_target(evs, src) is Some,
    ensures
        ({
            let t = spec_sub_rewrite_target(evs, src)->0;
            let evs2 = spec_sub_rewrite(evs, src, dest);
            let before = xml::scan_prefix(evs, 0, Seq::empty(), t.0);
            let after = xml::markup_scan(
                evs,
                t.0 + 1,
                xml::scan_stack(evs, 0, Seq::empty(), t.0).push(xml::evt_name(evs[t.0])),
            );
            &&& xml::spec_markup(evs2) == (before + xml::open_tag_markup(
                xml::evt_name(evs[t.0]),
                xml::evt_attrs(xml::with_attr_value(evs[t.0], t.1, dest)),
            )) + after
            &&& xml::spec_markup(evs) == (before + xml::open_tag_markup(
                xml::evt_name(evs[t.0]),
                xml::evt_attrs(evs[t.0]),
            )) + after
        }),
{
    lemma_node_sub_match_open(evs, xml::spec_find_all_tag(evs, "img"@), "src"@, src);
    lemma_node_sub_match_open(evs, xml::spec_find_all_tag(evs, "link"@), "href"@, src);
    let t = spec_sub_rewrite_target(evs, src)->0;
    let e2 = xml::with_attr_value(evs[t.0], t.1, dest);
    xml::lemma_markup_update_localized(evs, t.0, e2);
}

/// The raw-value rewrite changes at most the one matched attribute: every
/// other event keeps its value, and with no match nothing changes at all.
pub proof fn lemma_sub_rewrite_first_match_only(evs: Seq<EventV>, src: Seq<char>, dest: Seq<char>)
    ensures
        spec_sub_rewrite_target(evs, src) is None ==> spec_sub_rewrite(evs, src, dest) == evs,
        spec_sub_rewrite_target(evs, src) matches Some((i, j)) ==> {
            let evs2 = spec_sub_rewrite(evs, src, dest);
            &&& 0 <= i < evs.len()
            &&& evs2.len() == evs.len()
            &&& evs2[i] == xml::with_attr_value(evs[i], j, dest)
            &&& forall|q: int| 0 <= q < evs.len() && q != i ==> evs2[q] == evs[q]
        },
{
    xml::lemma_tags_upto_bounds(evs, "img"@, evs.len() as int);
    xml::lemma_tags_upto_bounds(evs, "link"@, evs.len() as int);
    lemma_node_sub_match_bounds(evs, xml::spec_find_all_tag(evs, "img"@), "src"@, src);
    lemma_node_sub_match_bounds(evs, xml::spec_find_all_tag(evs, "link"@), "href"@, src);
}

/// Scans the nodes for the first attribute named `aname` whose raw value
/// occurs inside `src` and rewrites it; reports whether a rewrite happened.
fn sub_rewrite_in(
    doc: &mut XMLDocument,
    nodes: &Vec<usize>,
    ids: Ghost<Seq<int>>,
    aname: &str,
    src: &str,
    dest: &str,
) -> (hit: bool)
    requires
        ids@ == nodes@.map_values(|u: usize| u as int),
        forall|q: int| 0 <= q < ids@.len() ==> 0 <= #[trigger] ids@[q] < old(doc)@.len(),
    ensures
        match node_sub_match_from(old(doc)@, ids@, aname@, src@) {
            Some((i, j)) => hit && final(doc)@ == old(doc)@.update(
                i,
                xml::with_attr_value(old(doc)@[i], j, dest@),
            ),
            None => !hit && final(doc)@ == old(doc)@,
        },
{
    let ghost evs = doc@;
    let n = nodes.len();
    let mut k: usize = 0;
    proof {
        assert(ids@.skip(0) =~= ids@);
    }
    while k < n
        invariant
            evs == doc@,
            evs == old(doc)@,
            n == nodes@.len(),
            ids@ == nodes@.map_values(|u: usize| u as int),
            forall|q: int| 0 <= q < ids@.len() ==> 0 <= #[trigger] ids@[q] < evs.len(),
            k <= n,
            node_sub_match_from(evs, ids@, aname@, src@) == node_sub_match_from(
                evs,
                ids@.skip(k as int),
                aname@,
                src@,
            ),
        decreases n - k,
    {
        let ghost tail = ids@.skip(k as int);
        proof {
            assert(tail[0] == ids@[k as int]);
            assert(ids@[k as int] == nodes@.map_values(|u: usize| u as int)[k as int]);
            assert(tail.drop_first() =~= ids@.skip(k + 1));
        }
        let node = nodes[k];
        proof {
            assert(ids@[k as int] < evs.len());
        }
        let attrs = xml::node_attrs(doc, node);
        let ghost sattrs = xml::attrs_at(evs, node as int);
        let m = attrs.len();
        let mut j: usize = 0;
        while j < m
            invariant
                evs == doc@,
                evs == old(doc)@,
                m == attrs@.len(),
                sattrs == attrs@.map_values(|p: (String, String)| xml::attr_view(p)),
                sattrs == xml::attrs_at(evs, node as int),
                node < evs.len(),
                tail == ids@.skip(k as int),
                tail.len() > 0,
                tail[0] == node as int,
                node_sub_match_from(evs, ids@, aname@, src@) == node_sub_match_from(
                    evs,
                    tail,
                    aname@,
                    src@,
                ),
                j <= m,
                attr_sub_match_from(sattrs, aname@, src@, 0) == attr_sub_match_from(
                    sattrs,
                    aname@,
                    src@,
                    j as int,
                ),
            decreases m - j,
        {
            proof {
                assert(sattrs[j as int] == xml::attr_view(attrs@[j as int]));
            }
            let name_hits = str_eq(attrs[j].0.as_str(), aname);
            let value_hits = name_hits && str_contains(src, attrs[j].1.as_str());
            if name_hits && value_hits {
                proof {
                    if !(evs[node as int] is Open) {
                        assert(xml::attrs_at(evs, node as int) =~= Seq::<(
                            Seq<char>,
                            Seq<char>,
                        )>::empty());
                    }
                    assert(evs[node as int] is Open);
                    assert(attr_sub_match_from(sattrs, aname@, src@, j as int) == Some(
                        j as int,
                    ));
                    assert(node_sub_match_from(evs, tail, aname@, src@) == Some(
                        (node as int, j as int),
                    ));
                }
                doc.set_attr(node, j, dest);
                return true;
            }
            j = j + 1;
        }
        proof {
            assert(attr_sub_match_from(sattrs, aname@, src@, m as int) is None);
            assert(node_sub_match_from(evs, tail, aname@, src@) == node_sub_match_from(
                evs,
                ids@.skip(k + 1),
                aname@,
                src@,
            ));
        }
        k = k + 1;
    }
    proof {
        assert(ids@.skip(n as int) =~= Seq::<int>::empty());
    }
    false
}

/// Rewrites the first reference whose raw value occurs inside `src` to the
/// destination string: the simpler, substring-matching rewrite over a bare
/// document. Further elements sharing the source keep theirs.
pub fn update_image_url(doc: &mut XMLDocument, src: &str, dest: &str)
    ensures
        final(doc)@ == spec_sub_rewrite(old(doc)@, src@, dest@),
{
    let ghost evs = doc@;
    let imgs = doc.find_all_tag("img");
    let ghost img_ids = xml::spec_find_all_tag(evs, "img"@);
    proof {
        xml::lemma_tags_upto_bounds(evs, "img"@, evs.len() as int);
    }
    if sub_rewrite_in(doc, &imgs, Ghost(img_ids), "src", src, dest) {
        return;
    }
    let links = doc.find_all_tag("link");
    let ghost link_ids = xml::spec_find_all_tag(evs, "link"@);
    proof {
        xml::lemma_tags_upto_bounds(evs, "link"@, evs.len() as int);
    }
    if sub_rewrite_in(doc, &links, Ghost(link_ids), "href", src, dest) {
        return;
    }
}

/// One chapter in processing: its archive path and its parsed document.
pub struct Content {
    path: String,
    doc: XMLDocument,
}

impl View for Content {
    type V = ContentV;

    closed spec fn view(&self) -> ContentV {
        ContentV { path: self.path@, doc: self.doc@ }
    }
}

impl Content {
    /// Parses a chapter fetched from `path`.
    pub fn new(path: &str, content: &[u8]) -> (r: Result<Content, EpubError>)
        ensures
            match r {
                Ok(c) => spec_content_bytes(path@, content@) == Ok::<_, ErrV>(c@),
                Err(e) => spec_content_bytes(path@, content@) == Err::<ContentV, _>(e@),
            },
    {
        match XMLDocument::try_new(content) {
            Ok(doc) => Ok(Content { path: String::from_str(path), doc }),
            Err(e) => Err(e),
        }
    }

    /// The chapter's directory within the archive, without a trailing
    /// separator.
    pub fn base_url(&self) -> (r: Result<String, EpubError>)
        ensures
            r matches Ok(s) && s@ == spec_base_url(self@.path),
    {
        Ok(dir_part(self.path.as_str()))
    }

    /// Resolves one reference against the chapter's path, yielding an
    /// archive-relative path with no leading separator.
    pub fn get_url(&self, href: &str) -> (r: Result<String, EpubError>)
        ensures
            match r {
                Ok(s) => spec_get_url(self@.path, href@) == Ok::<_, ErrV>(s@),
                Err(e) => spec_get_url(self@.path, href@) == Err::<Seq<char>, _>(e@),
            },
    {
        resolve_reference(self.path.as_str(), href)
    }

    /// The chapter's relative resource references, images first and style
    /// sheets after, each resolved to an archive-relative path; external
    /// references are excluded.
    pub fn ralative_sources(&self) -> (r: Result<Vec<String>, EpubError>)
        ensures
            match r {
                Ok(us) => spec_sources(self@.doc, self@.path) == Ok::<_, ErrV>(
                    us@.map_values(|s: String| s@),
                ),
                Err(e) => spec_sources(self@.doc, self@.path) == Err::<Seq<Seq<char>>, _>(e@),
            },
    {
        relative_resources(&self.doc, self.path.as_str())
    }

    /// Rewrites the first reference whose resolved path equals `src` to the
    /// destination string; further elements sharing the same source keep
    /// theirs.
    pub fn update_image_url(&mut self, src: &str, dest: &str)
        ensures
            final(self)@.path == old(self)@.path,
            final(self)@.doc == spec_rewrite(old(self)@.doc, old(self)@.path, src@, dest@),
    {
        let ghost evs = self@.doc;
        let ghost path = self@.path;
        let imgs = self.doc.find_all_tag("img");
        let ghost img_ids = xml::spec_find_all_tag(evs, "img"@);
        proof {
            xml::lemma_tags_upto_bounds(evs, "img"@, evs.len() as int);
        }
        if self.rewrite_in(&imgs, Ghost(img_ids), "src", src, dest) {
            return;
        }
        let links = self.doc.find_all_tag("link");
        let ghost link_ids = xml::spec_find_all_tag(evs, "link"@);
        proof {
            xml::lemma_tags_upto_bounds(evs, "link"@, evs.len() as int);
        }
        if self.rewrite_in(&links, Ghost(link_ids), "href", src, dest) {
            return;
        }
    }

    /// Scans the nodes for the first attribute named `aname` resolving to
    /// `src` and rewrites it; reports whether a rewrite happened.
    fn rewrite_in(
        &mut self,
        nodes: &Vec<usize>,
        ids: Ghost<Seq<int>>,
        aname: &str,
        src: &str,
        dest: &str,
    ) -> (hit: bool)
        requires
            ids@ == nodes@.map_values(|u: usize| u as int),
            forall|q: int| 0 <= q < ids@.len() ==> 0 <= #[trigger] ids@[q] < old(self)@.doc.len(),
        ensures
            final(self)@.path == old(self)@.path,
            match node_match_from(old(self)@.doc, old(self)@.path, ids@, aname@, src@) {
                Some((i, j)) => hit && final(self)@.doc == old(self)@.doc.update(
                    i,
                    xml::with_attr_value(old(self)@.doc[i], j, dest@),
                ),
                None => !hit && final(self)@.doc == old(self)@.doc,
            },
    {
        let ghost evs = self@.doc;
        let ghost path = self@.path;
        let n = nodes.len();
        let mut k: usize = 0;
        proof {
            assert(ids@.skip(0) =~= ids@);
        }
        while k < n
            invariant
                evs == self@.doc,
                path == self@.path,
                self@.path == old(self)@.path,
                evs == old(self)@.doc,
                path == old(self)@.path,
                n == nodes@.len(),
                ids@ == nodes@.map_values(|u: usize| u as int),
                forall|q: int| 0 <= q < ids@.len() ==> 0 <= #[trigger] ids@[q] < evs.len(),
                k <= n,
                node_match_from(evs, path, ids@, aname@, src@) == node_match_from(
                    evs,
                    path,
                    ids@.skip(k as int),
                    aname@,
                    src@,
                ),
            decreases n - k,
        {
            let ghost tail = ids@.skip(k as int);
            proof {
                assert(tail[0] == ids@[k as int]);
                assert(ids@[k as int] == nodes@.map_values(|u: usize| u as int)[k as int]);
                assert(tail.drop_first() =~= ids@.skip(k + 1));
            }
            let node = nodes[k];
            proof {
                assert(ids@[k as int] < evs.len());
            }
            let attrs = xml::node_attrs(&self.doc, node);
            let ghost sattrs = xml::attrs_at(evs, node as int);
            let m = attrs.len();
            let mut j: usize = 0;
            while j < m
                invariant
                    evs == self@.doc,
                    path == self@.path,
                    self@.path == old(self)@.path,
                    evs == old(self)@.doc,
                    path == old(self)@.path,
                    m == attrs@.len(),
                    sattrs == attrs@.map_values(|p: (String, String)| xml::attr_view(p)),
                    sattrs == xml::attrs_at(evs, node as int),
                    node < evs.len(),
                    tail == ids@.skip(k as int),
                    tail.len() > 0,
                    tail[0] == node as int,
                    node_match_from(evs, path, ids@, aname@, src@) == node_match_from(
                        evs,
                        path,
                        tail,
                        aname@,
                        src@,
                    ),
                    j <= m,
                    attr_match_from(sattrs, path, aname@, src@, 0) == attr_match_from(
                        sattrs,
                        path,
                        aname@,
                        src@,
                        j as int,
                    ),
                decreases m - j,
            {
                proof {
                    assert(sattrs[j as int] == xml::attr_view(attrs@[j as int]));
                }
                let name_hits = str_eq(attrs[j].0.as_str(), aname);
                let mut value_hits = false;
                if name_hits {
                    match self.get_url(attrs[j].1.as_str()) {
                        Ok(u) => {
                            value_hits = str_eq(u.as_str(), src);
                        },
                        Err(_) => {
                            value_hits = false;
                        },
                    }
                }
                if name_hits && value_hits {
                    proof {
                        if !(evs[node as int] is Open) {
                            assert(xml::attrs_at(evs, node as int) =~= Seq::<(
                                Seq<char>,
                                Seq<char>,
                            )>::empty());
                        }
                        assert(evs[node as int] is Open);
                        assert(attr_match_from(sattrs, path, aname@, src@, j as int) == Some(
                            j as int,
                        ));
                        assert(node_match_from(evs, path, tail, aname@, src@) == Some(
                            (node as int, j as int),
                        ));
                    }
                    self.doc.set_attr(node, j, dest);
                    return true;
                }
                j = j + 1;
            }
            proof {
                assert(attr_match_from(sattrs, path, aname@, src@, m as int) is None);
                assert(node_match_from(evs, path, tail, aname@, src@) == node_match_from(
                    evs,
                    path,
                    ids@.skip(k + 1),
                    aname@,
                    src@,
                ));
            }
            k = k + 1;
        }
        proof {
            assert(ids@.skip(n as int) =~= Seq::<int>::empty());
        }
        false
    }

    /// Serializes the chapter back to markup, reflecting every rewrite.
    pub fn to_string(&self) -> (r: Result<String, EpubError>)
        ensures
            r matches Ok(s) && s@ == xml::spec_markup(self@.doc),
    {
        self.doc.to_string()
    }

    /// The underlying document.
    pub fn doc(&self) -> (r: &XMLDocument)
        ensures
            r@ == self@.doc,
    {
        &self.doc
    }
}

} // verus!
