//! The OPF package document: metadata (one record per tag name, a later tag
//! of the same name overwriting an earlier one), the manifest keyed by id,
//! the spine in reading order, and the optional guide. The path the document
//! was fetched from is retained, as the base for resolving chapter hrefs.

use vstd::prelude::*;

use crate::error::{EpubError, ErrV};
use crate::text::{opt_str_view, str_eq};
use crate::xml::{self, EventV, XMLDocument};

verus! {

/// The mathematical shape of one metadata record.
pub struct MetaItemV {
    pub name: Seq<char>,
    pub content: Seq<char>,
    pub attrs: Seq<(Seq<char>, Seq<char>)>,
}

/// The mathematical shape of one manifest entry.
pub struct ManifestItemV {
    pub id: Seq<char>,
    pub href: Seq<char>,
    pub media_type: Seq<char>,
    pub fallback: Option<Seq<char>>,
    pub properties: Option<Seq<char>>,
    pub media_overlay: Option<Seq<char>>,
}

/// The mathematical shape of one spine entry.
pub struct ItemRefV {
    pub idref: Seq<char>,
    pub id: Option<Seq<char>>,
    pub linear: Option<Seq<char>>,
    pub properties: Option<Seq<char>>,
}

/// The mathematical shape of one guide reference.
pub struct ReferenceV {
    pub t: Seq<char>,
    pub title: Option<Seq<char>>,
    pub href: Option<Seq<char>>,
}

/// The mathematical shape of a parsed package.
pub struct PackageV {
    pub path: Seq<char>,
    pub metadata: Seq<MetaItemV>,
    pub manifest: Seq<ManifestItemV>,
    pub spine: Seq<ItemRefV>,
    pub guide: Seq<ReferenceV>,
}

/// One metadata record: the tag's name, its attributes, its text content.
#[derive(Debug)]
pub struct MetaItem {
    name: String,
    content: String,
    attrs: Vec<(String, String)>,
}

impl View for MetaItem {
    type V = MetaItemV;

    closed spec fn view(&self) -> MetaItemV {
        MetaItemV {
            name: self.name@,
            content: self.content@,
            attrs: self.attrs@.map_values(|p: (String, String)| xml::attr_view(p)),
        }
    }
}

/// The package metadata: records in document order, looked up by tag name
/// with the last record of a name winning.
#[derive(Debug)]
pub struct MetaData {
    items: Vec<MetaItem>,
}

impl View for MetaData {
    type V = Seq<MetaItemV>;

    closed spec fn view(&self) -> Seq<MetaItemV> {
        self.items@.map_values(|m: MetaItem| m@)
    }
}

/// One manifest entry.
#[derive(Debug)]
pub struct ManifestItem {
    id: String,
    href: String,
    media_type: String,
    fallback: Option<String>,
    properties: Option<String>,
    media_overlay: Option<String>,
}

impl View for ManifestItem {
    type V = ManifestItemV;

    closed spec fn view(&self) -> ManifestItemV {
        ManifestItemV {
            id: self.id@,
            href: self.href@,
            media_type: self.media_type@,
            fallback: opt_str_view(self.fallback),
            properties: opt_str_view(self.properties),
            media_overlay: opt_str_view(self.media_overlay),
        }
    }
}

/// One spine entry.
#[derive(Debug)]
pub struct ItemRef {
    idref: String,
    id: Option<String>,
    linear: Option<String>,
    properties: Option<String>,
}

impl View for ItemRef {
    type V = ItemRefV;

    closed spec fn view(&self) -> ItemRefV {
        ItemRefV {
            idref: self.idref@,
            id: opt_str_view(self.id),
            linear: opt_str_view(self.linear),
            properties: opt_str_view(self.properties),
        }
    }
}

/// One guide reference.
#[derive(Debug)]
pub struct Reference {
    t: String,
    title: Option<String>,
    href: Option<String>,
}

impl View for Reference {
    type V = ReferenceV;

    closed spec fn view(&self) -> ReferenceV {
        ReferenceV { t: self.t@, title: opt_str_view(self.title), href: opt_str_view(self.href) }
    }
}

/// The record for node `i`: its tag name, text content, and attributes.
pub open spec fn spec_meta_item(evs: Seq<EventV>, i: int) -> MetaItemV {
    MetaItemV {
        name: xml::evt_name(evs[i]),
        content: xml::spec_text(evs, i),
        attrs: xml::attrs_at(evs, i),
    }
}

pub open spec fn spec_meta_items_from(evs: Seq<EventV>, ids: Seq<int>) -> Seq<MetaItemV>
    decreases ids.len(),
{
    if ids.len() == 0 {
        Seq::empty()
    } else {
        seq![spec_meta_item(evs, ids[0])] + spec_meta_items_from(evs, ids.drop_first())
    }
}

/// The metadata records, one per direct element child of the `metadata`
/// element; its absence is a structural error.
pub open spec fn spec_metadata(evs: Seq<EventV>) -> Result<Seq<MetaItemV>, ErrV> {
    match xml::spec_find_tag(evs, "metadata"@) {
        None => Err(ErrV::Format("metadata is null in package format"@)),
        Some(m) => Ok(spec_meta_items_from(evs, xml::spec_all_children(evs, m))),
    }
}

/// One manifest `item`: `id`, `href` and `media-type` are required.
pub open spec fn spec_manifest_item(evs: Seq<EventV>, i: int) -> Result<ManifestItemV, ErrV> {
    match xml::spec_attr(evs, i, "id"@) {
        None => Err(ErrV::Xml("id"@ + " not exist"@)),
        Some(id) => match xml::spec_attr(evs, i, "href"@) {
            None => Err(ErrV::Xml("href"@ + " not exist"@)),
            Some(href) => match xml::spec_attr(evs, i, "media-type"@) {
                None => Err(ErrV::Xml("media-type"@ + " not exist"@)),
                Some(mt) => Ok(
                    ManifestItemV {
                        id: id,
                        href: href,
                        media_type: mt,
                        fallback: xml::spec_attr(evs, i, "fallback"@),
                        properties: xml::spec_attr(evs, i, "properties"@),
                        media_overlay: xml::spec_attr(evs, i, "media-overlay"@),
                    },
                ),
            },
        },
    }
}

pub open spec fn spec_manifest_items(evs: Seq<EventV>, ids: Seq<int>) -> Result<
    Seq<ManifestItemV>,
    ErrV,
>
    decreases ids.len(),
{
    if ids.len() == 0 {
        Ok(Seq::empty())
    } else {
        match spec_manifest_item(evs, ids[0]) {
            Err(e) => Err(e),
            Ok(item) => match spec_manifest_items(evs, ids.drop_first()) {
                Err(e) => Err(e),
                Ok(rest) => Ok(seq![item] + rest),
            },
        }
    }
}

/// The manifest entries in document order; an absent `manifest` element is a
/// structural error.
pub open spec fn spec_manifest(evs: Seq<EventV>) -> Result<Seq<ManifestItemV>, ErrV> {
    match xml::spec_find_tag(evs, "manifest"@) {
        None => Err(ErrV::Format("manifest is null"@)),
        Some(m) => spec_manifest_items(evs, xml::spec_children(evs, m, "item"@)),
    }
}

/// One spine `itemref`: `idref` is required.
pub open spec fn spec_itemref(evs: Seq<EventV>, i: int) -> Result<ItemRefV, ErrV> {
    match xml::spec_attr(evs, i, "idref"@) {
        None => Err(ErrV::Xml("idref"@ + " not exist"@)),
        Some(idref) => Ok(
            ItemRefV {
                idref: idref,
                id: xml::spec_attr(evs, i, "id"@),
                linear: xml::spec_attr(evs, i, "linear"@),
                properties: xml::spec_attr(evs, i, "properties"@),
            },
        ),
    }
}

pub open spec fn spec_spine_items(evs: Seq<EventV>, ids: Seq<int>) -> Result<Seq<ItemRefV>, ErrV>
    decreases ids.len(),
{
    if ids.len() == 0 {
        Ok(Seq::empty())
    } else {
        match spec_itemref(evs, ids[0]) {
            Err(e) => Err(e),
            Ok(item) => match spec_spine_items(evs, ids.drop_first()) {
                Err(e) => Err(e),
                Ok(rest) => Ok(seq![item] + rest),
            },
        }
    }
}

/// The spine entries in document order; no `spine` element means an empty
/// spine.
pub open spec fn spec_spine(evs: Seq<EventV>) -> Result<Seq<ItemRefV>, ErrV> {
    match xml::spec_find_tag(evs, "spine"@) {
        None => Ok(Seq::empty()),
        Some(s) => spec_spine_items(evs, xml::spec_children(evs, s, "itemref"@)),
    }
}

/// One guide `reference`: `type` is required.
pub open spec fn spec_reference(evs: Seq<EventV>, i: int) -> Result<ReferenceV, ErrV> {
    match xml::spec_attr(evs, i, "type"@) {
        None => Err(ErrV::Xml("type"@ + " not exist"@)),
        Some(t) => Ok(
            ReferenceV {
                t: t,
                title: xml::spec_attr(evs, i, "title"@),
                href: xml::spec_attr(evs, i, "href"@),
            },
        ),
    }
}

pub open spec fn spec_guide_items(evs: Seq<EventV>, ids: Seq<int>) -> Result<Seq<ReferenceV>, ErrV>
    decreases ids.len(),
{
    if ids.len() == 0 {
        Ok(Seq::empty())
    } else {
        match spec_reference(evs, ids[0]) {
            Err(e) => Err(e),
            Ok(item) => match spec_guide_items(evs, ids.drop_first()) {
                Err(e) => Err(e),
                Ok(rest) => Ok(seq![item] + rest),
            },
        }
    }
}

/// The guide references in document order; the guide is optional.
pub open spec fn spec_guide(evs: Seq<EventV>) -> Result<Seq<ReferenceV>, ErrV> {
    match xml::spec_find_tag(evs, "guide"@) {
        None => Ok(Seq::empty()),
        Some(g) => spec_guide_items(evs, xml::spec_children(evs, g, "reference"@)),
    }
}

/// What parsing a package document yields: metadata, then guide, then spine,
/// then manifest; the first structural failure wins.
pub open spec fn spec_package(path: Seq<char>, evs: Seq<EventV>) -> Result<PackageV, ErrV> {
    match spec_metadata(evs) {
        Err(e) => Err(e),
        Ok(md) => match spec_guide(evs) {
            Err(e) => Err(e),
            Ok(g) => match spec_spine(evs) {
                Err(e) => Err(e),
                Ok(sp) => match spec_manifest(evs) {
                    Err(e) => Err(e),
                    Ok(mf) => Ok(
                        PackageV { path: path, metadata: md, manifest: mf, spine: sp, guide: g },
                    ),
                },
            },
        },
    }
}

/// As [`spec_package`], from the raw bytes.
pub open spec fn spec_package_bytes(path: Seq<char>, content: Seq<u8>) -> Result<PackageV, ErrV> {
    match xml::xml_events_of(content) {
        None => Err(ErrV::Xml("create xml failed"@)),
        Some(evs) => spec_package(path, evs),
    }
}

/// The last record named `name`, mirroring a keyed map whose later inserts
/// overwrite earlier ones.
pub open spec fn meta_lookup(items: Seq<MetaItemV>, name: Seq<char>) -> Option<MetaItemV>
    decreases items.len(),
{
    if items.len() == 0 {
        None
    } else if items.last().name == name {
        Some(items.last())
    } else {
        meta_lookup(items.drop_last(), name)
    }
}

/// The title text: the `title` record's content, or empty where none exists.
pub open spec fn spec_meta_title(items: Seq<MetaItemV>) -> Seq<char> {
    match meta_lookup(items, "title"@) {
        Some(it) => it.content,
        None => Seq::empty(),
    }
}

/// The last manifest entry with the given id, mirroring a keyed map whose
/// later inserts overwrite earlier ones.
pub open spec fn manifest_lookup(items: Seq<ManifestItemV>, id: Seq<char>) -> Option<ManifestItemV>
    decreases items.len(),
{
    if items.len() == 0 {
        None
    } else if items.last().id == id {
        Some(items.last())
    } else {
        manifest_lookup(items.drop_last(), id)
    }
}

impl MetaData {
    /// Reads the `metadata` element's direct children, one record each; the
    /// element's absence is a structural error.
    pub fn parse(xmldoc: &XMLDocument) -> (r: Result<MetaData, EpubError>)
        ensures
            match r {
                Ok(md) => spec_metadata(xmldoc@) == Ok::<_, ErrV>(md@),
                Err(e) => spec_metadata(xmldoc@) == Err::<Seq<MetaItemV>, _>(e@),
            },
    {
        let ghost evs = xmldoc@;
        let m = match xmldoc.find_tag("metadata") {
            Some(m) => m,
            None => {
                return Err(
                    EpubError::FormatError(String::from_str("metadata is null in package format")),
                );
            },
        };
        let children = xml::find_all_children(xmldoc, m);
        let ghost ids = xml::spec_all_children(evs, m as int);
        proof {
            xml::lemma_all_children_bounds(evs, m as int);
        }
        let n = children.len();
        let mut items: Vec<MetaItem> = Vec::new();
        let mut k: usize = 0;
        proof {
            assert(ids.skip(0) =~= ids);
            assert(items@.map_values(|x: MetaItem| x@) + spec_meta_items_from(evs, ids)
                =~= spec_meta_items_from(evs, ids));
        }
        while k < n
            invariant
                evs == xmldoc@,
                n == children@.len(),
                ids == children@.map_values(|u: usize| u as int),
                forall|q: int|
                    0 <= q < ids.len() ==> 0 <= #[trigger] ids[q] < evs.len() && evs[ids[q]]
                        is Open,
                k <= n,
                spec_meta_items_from(evs, ids) == items@.map_values(|x: MetaItem| x@)
                    + spec_meta_items_from(evs, ids.skip(k as int)),
            decreases n - k,
        {
            let ghost items0 = items@.map_values(|x: MetaItem| x@);
            let ghost tail = ids.skip(k as int);
            proof {
                assert(tail[0] == ids[k as int]);
                assert(ids[k as int] == children@.map_values(|u: usize| u as int)[k as int]);
                assert(tail.drop_first() =~= ids.skip(k + 1));
            }
            let c = children[k];
            let name = match xml::tag_name(xmldoc, c) {
                Some(nm) => nm,
                None => {
                    proof {
                        assert(false);
                    }
                    String::new()
                },
            };
            let content = xml::parse_text(xmldoc, c);
            let attrs = xml::node_attrs(xmldoc, c);
            items.push(MetaItem { name, content, attrs });
            proof {
                assert(items@.map_values(|x: MetaItem| x@) =~= items0.push(items@.last()@));
                assert(items@.last()@ == spec_meta_item(evs, tail[0]));
                assert(spec_meta_items_from(evs, tail) == seq![spec_meta_item(evs, tail[0])]
                    + spec_meta_items_from(evs, ids.skip(k + 1)));
                assert(items0 + (seq![spec_meta_item(evs, tail[0])] + spec_meta_items_from(
                    evs,
                    ids.skip(k + 1),
                )) =~= items@.map_values(|x: MetaItem| x@) + spec_meta_items_from(
                    evs,
                    ids.skip(k + 1),
                ));
            }
            k = k + 1;
        }
        proof {
            assert(ids.skip(n as int) =~= Seq::<int>::empty());
            assert(items@.map_values(|x: MetaItem| x@) + Seq::<MetaItemV>::empty()
                =~= items@.map_values(|x: MetaItem| x@));
        }
        Ok(MetaData { items })
    }

    /// The `title` record's text, or the empty string.
    pub fn title(&self) -> (r: &str)
        ensures
            r@ == spec_meta_title(self@),
    {
        let n = self.items.len();
        let mut i: usize = n;
        proof {
            assert(self@.subrange(0, n as int) =~= self@);
        }
        while i > 0
            invariant
                n == self.items@.len(),
                i <= n,
                meta_lookup(self@, "title"@) == meta_lookup(
                    self@.subrange(0, i as int),
                    "title"@,
                ),
            decreases i,
        {
            let ghost cur = self@.subrange(0, i as int);
            proof {
                assert(cur.last() == self.items@[i - 1]@);
                assert(cur.drop_last() =~= self@.subrange(0, i - 1));
            }
            if str_eq(self.items[i - 1].name.as_str(), "title") {
                return self.items[i - 1].content.as_str();
            }
            i = i - 1;
        }
        proof {
            assert(self@.subrange(0, 0) =~= Seq::<MetaItemV>::empty());
            reveal_strlit("");
            assert(""@ =~= Seq::<char>::empty());
        }
        ""
    }
}

impl ManifestItem {
    fn parse(doc: &XMLDocument, node: usize) -> (r: Result<ManifestItem, EpubError>)
        ensures
            match r {
                Ok(it) => spec_manifest_item(doc@, node as int) == Ok::<_, ErrV>(it@),
                Err(e) => spec_manifest_item(doc@, node as int) == Err::<ManifestItemV, _>(e@),
            },
    {
        let id = match xml::parse_attribute_must_exist(doc, node, "id") {
            Ok(v) => v,
            Err(e) => {
                return Err(e);
            },
        };
        let href = match xml::parse_attribute_must_exist(doc, node, "href") {
            Ok(v) => v,
            Err(e) => {
                return Err(e);
            },
        };
        let media_type = match xml::parse_attribute_must_exist(doc, node, "media-type") {
            Ok(v) => v,
            Err(e) => {
                return Err(e);
            },
        };
        let fallback = xml::parse_attribute(doc, node, "fallback");
        let properties = xml::parse_attribute(doc, node, "properties");
        let media_overlay = xml::parse_attribute(doc, node, "media-overlay");
        Ok(ManifestItem { id, href, media_type, fallback, properties, media_overlay })
    }

    pub fn href(&self) -> (r: &str)
        ensures
            r@ == self@.href,
    {
        self.href.as_str()
    }

    pub fn media_type(&self) -> (r: &str)
        ensures
            r@ == self@.media_type,
    {
        self.media_type.as_str()
    }

    pub fn id(&self) -> (r: &str)
        ensures
            r@ == self@.id,
    {
        self.id.as_str()
    }

    /// A structurally equal copy of the entry.
    pub fn duplicate(&self) -> (r: ManifestItem)
        ensures
            r@ == self@,
    {
        ManifestItem {
            id: self.id.clone(),
            href: self.href.clone(),
            media_type: self.media_type.clone(),
            fallback: match &self.fallback {
                Some(s) => Some(s.clone()),
                None => None,
            },
            properties: match &self.properties {
                Some(s) => Some(s.clone()),
                None => None,
            },
            media_overlay: match &self.media_overlay {
                Some(s) => Some(s.clone()),
                None => None,
            },
        }
    }
}

impl ItemRef {
    fn parse(doc: &XMLDocument, node: usize) -> (r: Result<ItemRef, EpubError>)
        ensures
            match r {
                Ok(it) => spec_itemref(doc@, node as int) == Ok::<_, ErrV>(it@),
                Err(e) => spec_itemref(doc@, node as int) == Err::<ItemRefV, _>(e@),
            },
    {
        let idref = match xml::parse_attribute_must_exist(doc, node, "idref") {
            Ok(v) => v,
            Err(e) => {
                return Err(e);
            },
        };
        let id = xml::parse_attribute(doc, node, "id");
        let linear = xml::parse_attribute(doc, node, "linear");
        let properties = xml::parse_attribute(doc, node, "properties");
        Ok(ItemRef { idref, id, linear, properties })
    }

    pub fn idref(&self) -> (r: &str)
        ensures
            r@ == self@.idref,
    {
        self.idref.as_str()
    }

    pub fn id(&self) -> (r: &Option<String>)
        ensures
            opt_str_view(*r) == self@.id,
    {
        &self.id
    }
}

impl Reference {
    /// Reads one guide `reference`; its `type` attribute is required.
    pub fn parse(doc: &XMLDocument, node: usize) -> (r: Result<Reference, EpubError>)
        ensures
            match r {
                Ok(it) => spec_reference(doc@, node as int) == Ok::<_, ErrV>(it@),
                Err(e) => spec_reference(doc@, node as int) == Err::<ReferenceV, _>(e@),
            },
    {
        let t = match xml::parse_attribute_must_exist(doc, node, "type") {
            Ok(v) => v,
            Err(e) => {
                return Err(e);
            },
        };
        let title = xml::parse_attribute(doc, node, "title");
        let href = xml::parse_attribute(doc, node, "href");
        Ok(Reference { t, title, href })
    }
}

/// Reads the guide's `reference` entries; the guide is optional.
pub fn parse_guide(doc: &XMLDocument) -> (r: Result<Vec<Reference>, EpubError>)
    ensures
        match r {
            Ok(g) => spec_guide(doc@) == Ok::<_, ErrV>(g@.map_values(|x: Reference| x@)),
            Err(e) => spec_guide(doc@) == Err::<Seq<ReferenceV>, _>(e@),
        },
{
    let ghost evs = doc@;
    let mut guide: Vec<Reference> = Vec::new();
    let g = match doc.find_tag("guide") {
        Some(g) => g,
        None => {
            proof {
                assert(guide@.map_values(|x: Reference| x@) =~= Seq::<ReferenceV>::empty());
            }
            return Ok(guide);
        },
    };
    let children = xml::find_children(doc, g, "reference");
    let ghost ids = xml::spec_children(evs, g as int, "reference"@);
    let n = children.len();
    let mut k: usize = 0;
    proof {
        assert(ids.skip(0) =~= ids);
        assert(guide@.map_values(|x: Reference| x@) =~= Seq::<ReferenceV>::empty());
        if spec_guide_items(evs, ids) is Ok {
            let rest = spec_guide_items(evs, ids)->Ok_0;
            assert(Seq::<ReferenceV>::empty() + rest =~= rest);
        }
    }
    while k < n
        invariant
            evs == doc@,
            n == children@.len(),
            ids == children@.map_values(|u: usize| u as int),
            k <= n,
            spec_guide(evs) == match spec_guide_items(evs, ids.skip(k as int)) {
                Ok(rest) => Ok::<_, ErrV>(guide@.map_values(|x: Reference| x@) + rest),
                Err(e) => Err::<Seq<ReferenceV>, _>(e),
            },
        decreases n - k,
    {
        let ghost acc0 = guide@.map_values(|x: Reference| x@);
        let ghost tail = ids.skip(k as int);
        proof {
            assert(tail[0] == ids[k as int]);
            assert(ids[k as int] == children@.map_values(|u: usize| u as int)[k as int]);
            assert(tail.drop_first() =~= ids.skip(k + 1));
        }
        let item = match Reference::parse(doc, children[k]) {
            Ok(v) => v,
            Err(e) => {
                return Err(e);
            },
        };
        guide.push(item);
        proof {
            assert(guide@.map_values(|x: Reference| x@) =~= acc0.push(guide@.last()@));
            if spec_guide_items(evs, ids.skip(k + 1)) is Ok {
                let rest = spec_guide_items(evs, ids.skip(k + 1))->Ok_0;
                assert(acc0 + (seq![guide@.last()@] + rest) =~= guide@.map_values(
                    |x: Reference| x@,
                ) + rest);
            }
        }
        k = k + 1;
    }
    proof {
        assert(ids.skip(n as int) =~= Seq::<int>::empty());
        assert(guide@.map_values(|x: Reference| x@) + Seq::<ReferenceV>::empty() =~= guide@
            .map_values(|x: Reference| x@));
    }
    Ok(guide)
}

/// Reads the spine's `itemref` entries in document order; no `spine` element
/// means an empty spine.
pub fn parse_spine(doc: &XMLDocument) -> (r: Result<Vec<ItemRef>, EpubError>)
    ensures
        match r {
            Ok(s) => spec_spine(doc@) == Ok::<_, ErrV>(s@.map_values(|x: ItemRef| x@)),
            Err(e) => spec_spine(doc@) == Err::<Seq<ItemRefV>, _>(e@),
        },
{
    let ghost evs = doc@;
    let mut spine: Vec<ItemRef> = Vec::new();
    let s = match doc.find_tag("spine") {
        Some(s) => s,
        None => {
            proof {
                assert(spine@.map_values(|x: ItemRef| x@) =~= Seq::<ItemRefV>::empty());
            }
            return Ok(spine);
        },
    };
    let children = xml::find_children(doc, s, "itemref");
    let ghost ids = xml::spec_children(evs, s as int, "itemref"@);
    let n = children.len();
    let mut k: usize = 0;
    proof {
        assert(ids.skip(0) =~= ids);
        assert(spine@.map_values(|x: ItemRef| x@) =~= Seq::<ItemRefV>::empty());
        if spec_spine_items(evs, ids) is Ok {
            let rest = spec_spine_items(evs, ids)->Ok_0;
            assert(Seq::<ItemRefV>::empty() + rest =~= rest);
        }
    }
    while k < n
        invariant
            evs == doc@,
            n == children@.len(),
            ids == children@.map_values(|u: usize| u as int),
            k <= n,
            spec_spine(evs) == match spec_spine_items(evs, ids.skip(k as int)) {
                Ok(rest) => Ok::<_, ErrV>(spine@.map_values(|x: ItemRef| x@) + rest),
                Err(e) => Err::<Seq<ItemRefV>, _>(e),
            },
        decreases n - k,
    {
        let ghost acc0 = spine@.map_values(|x: ItemRef| x@);
        let ghost tail = ids.skip(k as int);
        proof {
            assert(tail[0] == ids[k as int]);
            assert(ids[k as int] == children@.map_values(|u: usize| u as int)[k as int]);
            assert(tail.drop_first() =~= ids.skip(k + 1));
        }
        let item = match ItemRef::parse(doc, children[k]) {
            Ok(v) => v,
            Err(e) => {
                return Err(e);
            },
        };
        spine.push(item);
        proof {
            assert(spine@.map_values(|x: ItemRef| x@) =~= acc0.push(spine@.last()@));
            if spec_spine_items(evs, ids.skip(k + 1)) is Ok {
                let rest = spec_spine_items(evs, ids.skip(k + 1))->Ok_0;
                assert(acc0 + (seq![spine@.last()@] + rest) =~= spine@.map_values(
                    |x: ItemRef| x@,
                ) + rest);
            }
        }
        k = k + 1;
    }
    proof {
        assert(ids.skip(n as int) =~= Seq::<int>::empty());
        assert(spine@.map_values(|x: ItemRef| x@) + Seq::<ItemRefV>::empty() =~= spine@.map_values(
            |x: ItemRef| x@,
        ));
    }
    Ok(spine)
}

/// Reads the manifest's `item` entries; an absent `manifest` element is a
/// structural error.
pub fn parse_manifest(doc: &XMLDocument) -> (r: Result<Vec<ManifestItem>, EpubError>)
    ensures
        match r {
            Ok(m) => spec_manifest(doc@) == Ok::<_, ErrV>(m@.map_values(|x: ManifestItem| x@)),
            Err(e) => spec_manifest(doc@) == Err::<Seq<ManifestItemV>, _>(e@),
        },
{
    let ghost evs = doc@;
    let m = match doc.find_tag("manifest") {
        Some(m) => m,
        None => {
            return Err(EpubError::FormatError(String::from_str("manifest is null")));
        },
    };
    let children = xml::find_children(doc, m, "item");
    let ghost ids = xml::spec_children(evs, m as int, "item"@);
    let n = children.len();
    let mut manifest: Vec<ManifestItem> = Vec::new();
    let mut k: usize = 0;
    proof {
        assert(ids.skip(0) =~= ids);
        assert(manifest@.map_values(|x: ManifestItem| x@) =~= Seq::<ManifestItemV>::empty());
        if spec_manifest_items(evs, ids) is Ok {
            let rest = spec_manifest_items(evs, ids)->Ok_0;
            assert(Seq::<ManifestItemV>::empty() + rest =~= rest);
        }
    }
    while k < n
        invariant
            evs == doc@,
            n == children@.len(),
            ids == children@.map_values(|u: usize| u as int),
            k <= n,
            spec_manifest(evs) == match spec_manifest_items(evs, ids.skip(k as int)) {
                Ok(rest) => Ok::<_, ErrV>(manifest@.map_values(|x: ManifestItem| x@) + rest),
                Err(e) => Err::<Seq<ManifestItemV>, _>(e),
            },
        decreases n - k,
    {
        let ghost acc0 = manifest@.map_values(|x: ManifestItem| x@);
        let ghost tail = ids.skip(k as int);
        proof {
            assert(tail[0] == ids[k as int]);
            assert(ids[k as int] == children@.map_values(|u: usize| u as int)[k as int]);
            assert(tail.drop_first() =~= ids.skip(k + 1));
        }
        let item = match ManifestItem::parse(doc, children[k]) {
            Ok(v) => v,
            Err(e) => {
                return Err(e);
            },
        };
        manifest.push(item);
        proof {
            assert(manifest@.map_values(|x: ManifestItem| x@) =~= acc0.push(manifest@.last()@));
            if spec_manifest_items(evs, ids.skip(k + 1)) is Ok {
                let rest = spec_manifest_items(evs, ids.skip(k + 1))->Ok_0;
                assert(acc0 + (seq![manifest@.last()@] + rest) =~= manifest@.map_values(
                    |x: ManifestItem| x@,
                ) + rest);
            }
        }
        k = k + 1;
    }
    proof {
        assert(ids.skip(n as int) =~= Seq::<int>::empty());
        assert(manifest@.map_values(|x: ManifestItem| x@) + Seq::<ManifestItemV>::empty()
            =~= manifest@.map_values(|x: ManifestItem| x@));
    }
    Ok(manifest)
}

/// The parsed package document.
#[derive(Debug)]
pub struct Package {
    path: String,
    metadata: MetaData,
    manifest: Vec<ManifestItem>,
    spine: Vec<ItemRef>,
    guide: Vec<Reference>,
}

impl View for Package {
    type V = PackageV;

    closed spec fn view(&self) -> PackageV {
        PackageV {
            path: self.path@,
            metadata: self.metadata@,
            manifest: self.manifest@.map_values(|x: ManifestItem| x@),
            spine: self.spine@.map_values(|x: ItemRef| x@),
            guide: self.guide@.map_values(|x: Reference| x@),
        }
    }
}

impl Package {
    /// Parses a package document fetched from `path`: metadata, guide, spine
    /// and manifest, in that order; the first structural failure wins.
    pub fn new(path: &str, content: &[u8]) -> (r: Result<Package, EpubError>)
        ensures
            match r {
                Ok(p) => spec_package_bytes(path@, content@) == Ok::<_, ErrV>(p@),
                Err(e) => spec_package_bytes(path@, content@) == Err::<PackageV, _>(e@),
            },
    {
        let doc = match XMLDocument::try_new(content) {
            Ok(d) => d,
            Err(e) => {
                return Err(e);
            },
        };
        let metadata = match MetaData::parse(&doc) {
            Ok(v) => v,
            Err(e) => {
                return Err(e);
            },
        };
        let guide = match parse_guide(&doc) {
            Ok(v) => v,
            Err(e) => {
                return Err(e);
            },
        };
        let spine = match parse_spine(&doc) {
            Ok(v) => v,
            Err(e) => {
                return Err(e);
            },
        };
        let manifest = match parse_manifest(&doc) {
            Ok(v) => v,
            Err(e) => {
                return Err(e);
            },
        };
        Ok(Package { path: String::from_str(path), metadata, manifest, spine, guide })
    }

    /// The book's title, from the metadata; empty where absent.
    pub fn title(&self) -> (r: &str)
        ensures
            r@ == spec_meta_title(self@.metadata),
    {
        self.metadata.title()
    }

    /// The spine entries in reading order.
    pub fn spine(&self) -> (r: &[ItemRef])
        ensures
            r@.map_values(|x: ItemRef| x@) == self@.spine,
    {
        self.spine.as_slice()
    }

    /// The metadata records.
    pub fn metadata(&self) -> (r: &MetaData)
        ensures
            r@ == self@.metadata,
    {
        &self.metadata
    }

    /// The manifest entry with the given id, the last such entry winning.
    pub fn get_manifest(&self, name: &str) -> (r: Option<&ManifestItem>)
        ensures
            match r {
                Some(it) => manifest_lookup(self@.manifest, name@) == Some(it@),
                None => manifest_lookup(self@.manifest, name@) is None,
            },
    {
        let n = self.manifest.len();
        let mut i: usize = n;
        proof {
            assert(self@.manifest.subrange(0, n as int) =~= self@.manifest);
        }
        while i > 0
            invariant
                n == self.manifest@.len(),
                i <= n,
                manifest_lookup(self@.manifest, name@) == manifest_lookup(
                    self@.manifest.subrange(0, i as int),
                    name@,
                ),
            decreases i,
        {
            let ghost cur = self@.manifest.subrange(0, i as int);
            proof {
                assert(cur.last() == self.manifest@[i - 1]@);
                assert(cur.drop_last() =~= self@.manifest.subrange(0, i - 1));
            }
            if str_eq(self.manifest[i - 1].id.as_str(), name) {
                return Some(&self.manifest[i - 1]);
            }
            i = i - 1;
        }
        proof {
            assert(self@.manifest.subrange(0, 0) =~= Seq::<ManifestItemV>::empty());
        }
        None
    }

    /// All manifest entries, in document order.
    pub fn manifest(&self) -> (r: &[ManifestItem])
        ensures
            r@.map_values(|x: ManifestItem| x@) == self@.manifest,
    {
        self.manifest.as_slice()
    }

    /// The manifest entry for spine position `n`: nothing past the end of
    /// the spine, and nothing where the `idref` resolves to no entry.
    pub fn chapter(&self, n: u32) -> (r: Option<ManifestItem>)
        ensures
            match r {
                Some(it) => n < self@.spine.len() && manifest_lookup(
                    self@.manifest,
                    self@.spine[n as int].idref,
                ) == Some(it@),
                None => n >= self@.spine.len() || manifest_lookup(
                    self@.manifest,
                    self@.spine[n as int].idref,
                ) is None,
            },
    {
        if (n as usize) >= self.spine.len() {
            return None;
        }
        let idref = self.spine[n as usize].idref.as_str();
        proof {
            assert(self@.spine[n as int] == self.spine@[n as int]@);
        }
        match self.get_manifest(idref) {
            Some(it) => Some(it.duplicate()),
            None => None,
        }
    }
}

} // verus!
