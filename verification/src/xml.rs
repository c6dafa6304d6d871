//! The document abstraction every parser works on: a flat list of events
//! (element open, text, element close) in document order, queried and mutated
//! through integer node ids. An element's node id is the index of its opening
//! event; pre-order, depth-first traversal of the tree is a left-to-right walk
//! of the list. Parsing bytes into the list is the one outside call; every
//! query, the attribute rewrite, and serialization back to markup are verified
//! against the ghost model [`EventV`].

use vstd::prelude::*;

use markup5ever_rcdom::{NodeData, RcDom};
use xml5ever::driver::parse_document;
use xml5ever::tendril::TendrilSink;

use crate::error::EpubError;
use crate::text::str_eq;

verus! {

/// One event of a parsed document, in document order.
#[derive(Debug, Clone)]
pub enum XmlEvent {
    /// An element opens, with its local tag name and its attributes
    /// (local name, value) in source order.
    Open { name: String, attrs: Vec<(String, String)> },
    /// A text node, a direct child of the innermost open element.
    Text { text: String },
    /// The innermost open element closes.
    Close,
}

/// The mathematical shape of one event.
#[verifier::ext_equal]
pub enum EventV {
    Open { name: Seq<char>, attrs: Seq<(Seq<char>, Seq<char>)> },
    Text { text: Seq<char> },
    Close,
}

pub open spec fn attr_view(p: (String, String)) -> (Seq<char>, Seq<char>) {
    (p.0@, p.1@)
}

pub open spec fn ev_view(e: XmlEvent) -> EventV {
    match e {
        XmlEvent::Open { name, attrs } => EventV::Open {
            name: name@,
            attrs: attrs@.map_values(|p: (String, String)| attr_view(p)),
        },
        XmlEvent::Text { text } => EventV::Text { text: text@ },
        XmlEvent::Close => EventV::Close,
    }
}

pub open spec fn events_view(evs: Seq<XmlEvent>) -> Seq<EventV> {
    evs.map_values(|e: XmlEvent| ev_view(e))
}

/// The event list that the outside parser produces for the given bytes: a
/// function of the bytes alone.
pub uninterp spec fn xml_events_of(content: Seq<u8>) -> Option<Seq<EventV>>;

/// A `markup5ever_rcdom` node, the tree shape the outside parser builds.
#[verifier::external_type_specification]
#[verifier::external_body]
pub struct ExNode(markup5ever_rcdom::Node);

/// What the tree below a node holds: its elements and text nodes flattened
/// to events in document order.
pub uninterp spec fn dom_events_of(node: markup5ever_rcdom::Handle) -> Seq<EventV>;

/// Relies on xml5ever's `parse_document`, driven into a `markup5ever_rcdom`
/// tree: the document node it yields is a function of the input bytes
/// alone.
#[verifier::external_body]
fn parse_dom(content: &[u8]) -> (r: Option<markup5ever_rcdom::Handle>)
    ensures
        r matches Some(root) ==> xml_events_of(content@) == Some(dom_events_of(root)),
        r is None ==> xml_events_of(content@) is None,
{
    match parse_document(RcDom::default(), Default::default()).from_utf8().read_from(&mut &content[..]) {
        Ok(dom) => Some(dom.document),
        Err(_) => None,
    }
}

/// Relies on the public `markup5ever_rcdom` node fields: appends the events
/// of the tree below `node` — open with local tag name and attributes, the
/// text runs, close — in document order.
#[verifier::external_body]
fn collect_events(node: &markup5ever_rcdom::Handle, out: &mut Vec<XmlEvent>)
    ensures
        events_view(final(out)@) == events_view(old(out)@) + dom_events_of(*node),
{
    match &node.data {
        NodeData::Element { name, attrs, .. } => {
            out.push(XmlEvent::Open { name: name.local.to_string(), attrs: attrs.borrow().iter().map(|a| (a.name.local.to_string(), a.value.to_string())).collect() });
            for c in node.children.borrow().iter() { collect_events(c, out); }
            out.push(XmlEvent::Close);
        },
        NodeData::Text { contents } => out.push(XmlEvent::Text { text: contents.borrow().to_string() }),
        _ => for c in node.children.borrow().iter() { collect_events(c, out); },
    }
}

/// The event at `i` opens an element named `tag`.
pub open spec fn is_open_named(e: EventV, tag: Seq<char>) -> bool {
    match e {
        EventV::Open { name, .. } => name == tag,
        _ => false,
    }
}

/// The first index at or after `i` opening an element named `tag`.
pub open spec fn first_tag_from(evs: Seq<EventV>, tag: Seq<char>, i: int) -> Option<int>
    decreases evs.len() - i,
{
    if i < 0 || i >= evs.len() {
        None
    } else if is_open_named(evs[i], tag) {
        Some(i)
    } else {
        first_tag_from(evs, tag, i + 1)
    }
}

/// The node id of the first element named `tag`, in pre-order.
pub open spec fn spec_find_tag(evs: Seq<EventV>, tag: Seq<char>) -> Option<int> {
    first_tag_from(evs, tag, 0)
}

/// A found first tag lies inside the document and opens an element named
/// `tag`.
pub proof fn lemma_first_tag_bounds(evs: Seq<EventV>, tag: Seq<char>, i: int)
    ensures
        match first_tag_from(evs, tag, i) {
            Some(t) => i <= t < evs.len() && is_open_named(evs[t], tag),
            None => true,
        },
    decreases evs.len() - i,
{
    if 0 <= i < evs.len() && !is_open_named(evs[i], tag) {
        lemma_first_tag_bounds(evs, tag, i + 1);
    }
}

/// The node ids, in pre-order, of the elements named `tag` among the first
/// `i` events.
pub open spec fn tags_upto(evs: Seq<EventV>, tag: Seq<char>, i: int) -> Seq<int>
    decreases i,
{
    if i <= 0 || i > evs.len() {
        Seq::empty()
    } else if is_open_named(evs[i - 1], tag) {
        tags_upto(evs, tag, i - 1).push(i - 1)
    } else {
        tags_upto(evs, tag, i - 1)
    }
}

/// The node ids, in pre-order, of all elements named `tag`.
pub open spec fn spec_find_all_tag(evs: Seq<EventV>, tag: Seq<char>) -> Seq<int> {
    tags_upto(evs, tag, evs.len() as int)
}

/// Every listed node id lies below `i` and opens an element named `tag`.
pub proof fn lemma_tags_upto_bounds(evs: Seq<EventV>, tag: Seq<char>, i: int)
    ensures
        forall|k: int|
            0 <= k < tags_upto(evs, tag, i).len() ==> {
                let t = #[trigger] tags_upto(evs, tag, i)[k];
                0 <= t < i && t < evs.len() && is_open_named(evs[t], tag)
            },
    decreases i,
{
    if 0 < i <= evs.len() {
        lemma_tags_upto_bounds(evs, tag, i - 1);
        let prev = tags_upto(evs, tag, i - 1);
        if is_open_named(evs[i - 1], tag) {
            assert(tags_upto(evs, tag, i) == prev.push(i - 1));
            assert forall|k: int| 0 <= k < tags_upto(evs, tag, i).len() implies {
                let t = #[trigger] tags_upto(evs, tag, i)[k];
                0 <= t < i && t < evs.len() && is_open_named(evs[t], tag)
            } by {
                if k < prev.len() {
                    assert(tags_upto(evs, tag, i)[k] == prev[k]);
                } else {
                    assert(tags_upto(evs, tag, i)[k] == i - 1);
                }
            }
        } else {
            assert(tags_upto(evs, tag, i) == prev);
        }
    }
}

/// The element's tag name, or the empty sequence for a non-element event.
pub open spec fn evt_name(e: EventV) -> Seq<char> {
    match e {
        EventV::Open { name, .. } => name,
        _ => Seq::empty(),
    }
}

/// The element's attributes, or the empty list for a non-element event.
pub open spec fn evt_attrs(e: EventV) -> Seq<(Seq<char>, Seq<char>)> {
    match e {
        EventV::Open { attrs, .. } => attrs,
        _ => Seq::empty(),
    }
}

/// The attributes of the element opened at `i`, or the empty list where `i`
/// is not an element-open event.
pub open spec fn attrs_at(evs: Seq<EventV>, i: int) -> Seq<(Seq<char>, Seq<char>)> {
    if 0 <= i < evs.len() {
        match evs[i] {
            EventV::Open { attrs, .. } => attrs,
            _ => Seq::empty(),
        }
    } else {
        Seq::empty()
    }
}

/// The index at or after `k` of the first attribute named `name`.
pub open spec fn attr_index_from(attrs: Seq<(Seq<char>, Seq<char>)>, name: Seq<char>, k: int) -> Option<int>
    decreases attrs.len() - k,
{
    if k < 0 || k >= attrs.len() {
        None
    } else if attrs[k].0 == name {
        Some(k)
    } else {
        attr_index_from(attrs, name, k + 1)
    }
}

/// The value of the first attribute named `name` on the element opened at
/// `i`, or nothing where the node is not an element or lacks the attribute.
pub open spec fn spec_attr(evs: Seq<EventV>, i: int, name: Seq<char>) -> Option<Seq<char>> {
    let attrs = attrs_at(evs, i);
    match attr_index_from(attrs, name, 0) {
        Some(k) => Some(attrs[k].1),
        None => None,
    }
}

/// A queryable, serializable document: the events of the markup in document
/// order. Node ids are indexes of `Open` events.
pub struct XMLDocument {
    events: Vec<XmlEvent>,
}

impl View for XMLDocument {
    type V = Seq<EventV>;

    closed spec fn view(&self) -> Seq<EventV> {
        events_view(self.events@)
    }
}

impl XMLDocument {
    /// Parses the bytes of a document. Fails with `XmlError` exactly when the
    /// outside parser yields nothing for these bytes.
    pub fn try_new(content: &[u8]) -> (r: Result<XMLDocument, EpubError>)
        ensures
            match r {
                Ok(d) => xml_events_of(content@) == Some(d@),
                Err(e) => xml_events_of(content@) is None && (e matches EpubError::XmlError(m)
                    && m@ == "create xml failed"@),
            },
    {
        match parse_dom(content) {
            Some(root) => {
                let mut events: Vec<XmlEvent> = Vec::new();
                proof {
                    assert(events_view(events@) =~= Seq::<EventV>::empty());
                }
                collect_events(&root, &mut events);
                proof {
                    assert(Seq::<EventV>::empty() + dom_events_of(root) =~= dom_events_of(
                        root,
                    ));
                }
                Ok(XMLDocument { events })
            },
            None => Err(EpubError::XmlError(String::from_str("create xml failed"))),
        }
    }

    /// Builds a document directly from an event list.
    pub fn from_events(events: Vec<XmlEvent>) -> (r: XMLDocument)
        ensures
            r@ == events_view(events@),
    {
        XMLDocument { events }
    }

    /// The number of events.
    pub fn len(&self) -> (n: usize)
        ensures
            n == self@.len(),
    {
        self.events.len()
    }

    /// The node id of the first element named `tag`, in pre-order.
    pub fn find_tag(&self, tag: &str) -> (r: Option<usize>)
        ensures
            match r {
                Some(i) => spec_find_tag(self@, tag@) == Some(i as int),
                None => spec_find_tag(self@, tag@) is None,
            },
    {
        let ghost evs = self@;
        let n = self.events.len();
        let mut i: usize = 0;
        while i < n
            invariant
                n == self.events@.len(),
                evs == self@,
                i <= n,
                first_tag_from(evs, tag@, 0) == first_tag_from(evs, tag@, i as int),
            decreases n - i,
        {
            let matched = match &self.events[i] {
                XmlEvent::Open { name, .. } => str_eq(name.as_str(), tag),
                _ => false,
            };
            proof {
                assert(evs[i as int] == ev_view(self.events@[i as int]));
            }
            if matched {
                return Some(i);
            }
            i = i + 1;
        }
        None
    }

    /// The node ids, in pre-order, of all elements named `tag`.
    pub fn find_all_tag(&self, tag: &str) -> (r: Vec<usize>)
        ensures
            r@.map_values(|u: usize| u as int) == spec_find_all_tag(self@, tag@),
    {
        let ghost evs = self@;
        let n = self.events.len();
        let mut r: Vec<usize> = Vec::new();
        let mut i: usize = 0;
        while i < n
            invariant
                n == self.events@.len(),
                evs == self@,
                i <= n,
                r@.map_values(|u: usize| u as int) == tags_upto(evs, tag@, i as int),
            decreases n - i,
        {
            let matched = match &self.events[i] {
                XmlEvent::Open { name, .. } => str_eq(name.as_str(), tag),
                _ => false,
            };
            proof {
                assert(evs[i as int] == ev_view(self.events@[i as int]));
            }
            if matched {
                r.push(i);
                proof {
                    assert(r@.map_values(|u: usize| u as int)
                        =~= tags_upto(evs, tag@, i as int).push(i as int));
                }
            }
            i = i + 1;
        }
        r
    }

    /// The value of the first attribute named `name` on node `node`.
    fn attr(&self, node: usize, name: &str) -> (r: Option<String>)
        ensures
            match r {
                Some(s) => spec_attr(self@, node as int, name@) == Some(s@),
                None => spec_attr(self@, node as int, name@) is None,
            },
    {
        let ghost evs = self@;
        if node >= self.events.len() {
            return None;
        }
        match &self.events[node] {
            XmlEvent::Open { attrs, .. } => {
                proof {
                    assert(evs[node as int] == ev_view(self.events@[node as int]));
                }
                let ghost sattrs = attrs_at(evs, node as int);
                let m = attrs.len();
                let mut k: usize = 0;
                while k < m
                    invariant
                        m == attrs@.len(),
                        sattrs == attrs@.map_values(|p: (String, String)| attr_view(p)),
                        sattrs == attrs_at(evs, node as int),
                        evs == self@,
                        k <= m,
                        attr_index_from(sattrs, name@, 0) == attr_index_from(sattrs, name@, k as int),
                    decreases m - k,
                {
                    proof {
                        assert(sattrs[k as int] == attr_view(attrs@[k as int]));
                    }
                    if str_eq(attrs[k].0.as_str(), name) {
                        proof {
                            assert(sattrs[k as int].0 == name@);
                            assert(attr_index_from(sattrs, name@, k as int) == Some(k as int));
                        }
                        return Some(attrs[k].1.clone());
                    }
                    k = k + 1;
                }
                None
            },
            _ => {
                proof {
                    assert(evs[node as int] == ev_view(self.events@[node as int]));
                }
                None
            },
        }
    }
}

/// The value of the first attribute named `name` on node `node` of `doc`.
pub fn parse_attribute(doc: &XMLDocument, node: usize, name: &str) -> (r: Option<String>)
    ensures
        match r {
            Some(s) => spec_attr(doc@, node as int, name@) == Some(s@),
            None => spec_attr(doc@, node as int, name@) is None,
        },
{
    doc.attr(node, name)
}

/// As [`parse_attribute`], but an absent attribute is an `XmlError` naming
/// the attribute.
pub fn parse_attribute_must_exist(doc: &XMLDocument, node: usize, name: &str) -> (r: Result<
    String,
    EpubError,
>)
    ensures
        match r {
            Ok(s) => spec_attr(doc@, node as int, name@) == Some(s@),
            Err(e) => spec_attr(doc@, node as int, name@) is None && (e
                matches EpubError::XmlError(m) && m@ == name@ + " not exist"@),
        },
{
    match doc.attr(node, name) {
        Some(s) => Ok(s),
        None => Err(EpubError::XmlError(String::from_str(name).concat(" not exist"))),
    }
}

/// The concatenated direct text children of the element opened at `i`; no
/// text from nested elements.
pub open spec fn texts_scan(evs: Seq<EventV>, j: int, depth: int) -> Seq<char>
    decreases evs.len() - j,
{
    if j < 0 || j >= evs.len() || depth <= 0 {
        Seq::empty()
    } else {
        match evs[j] {
            EventV::Open { .. } => texts_scan(evs, j + 1, depth + 1),
            EventV::Close => texts_scan(evs, j + 1, depth - 1),
            EventV::Text { text } => (if depth == 1 {
                text
            } else {
                Seq::empty()
            }) + texts_scan(evs, j + 1, depth),
        }
    }
}

pub open spec fn spec_text(evs: Seq<EventV>, i: int) -> Seq<char> {
    if 0 <= i < evs.len() && evs[i] is Open {
        texts_scan(evs, i + 1, 1)
    } else {
        Seq::empty()
    }
}

/// The concatenated text-node children of node `node`: only direct children,
/// not text nested in deeper elements.
pub fn parse_text(doc: &XMLDocument, node: usize) -> (r: String)
    ensures
        r@ == spec_text(doc@, node as int),
{
    let ghost evs = doc@;
    let n = doc.events.len();
    let mut acc = String::new();
    if node >= n {
        return acc;
    }
    let is_open = match &doc.events[node] {
        XmlEvent::Open { .. } => true,
        _ => false,
    };
    proof {
        assert(evs[node as int] == ev_view(doc.events@[node as int]));
    }
    if !is_open {
        return acc;
    }
    let mut j: usize = node + 1;
    let mut depth: usize = 1;
    while j < n && depth > 0
        invariant
            evs == doc@,
            n == doc.events@.len(),
            node < j <= n,
            depth <= j - node,
            spec_text(evs, node as int) == acc@ + texts_scan(evs, j as int, depth as int),
        decreases n - j,
    {
        let ghost acc0 = acc@;
        let ghost d = depth as int;
        proof {
            assert(evs[j as int] == ev_view(doc.events@[j as int]));
        }
        match &doc.events[j] {
            XmlEvent::Open { .. } => {
                depth = depth + 1;
            },
            XmlEvent::Close => {
                depth = depth - 1;
            },
            XmlEvent::Text { text } => {
                if depth == 1 {
                    acc.append(text.as_str());
                    proof {
                        assert(acc0 + (text@ + texts_scan(evs, j + 1, d)) =~= (acc0 + text@)
                            + texts_scan(evs, j + 1, d));
                    }
                } else {
                    proof {
                        assert(texts_scan(evs, j as int, d) =~= Seq::<char>::empty() + texts_scan(
                            evs,
                            j + 1,
                            d,
                        ));
                    }
                }
            },
        }
        j = j + 1;
    }
    proof {
        assert(texts_scan(evs, j as int, depth as int) == Seq::<char>::empty());
        assert(acc@ + Seq::<char>::empty() =~= acc@);
    }
    acc
}

/// The node ids of direct element children named `tag` of the element opened
/// at `j - 1` levels up; scanning starts at `j` with `depth` open levels.
pub open spec fn children_scan(evs: Seq<EventV>, tag: Seq<char>, j: int, depth: int) -> Seq<int>
    decreases evs.len() - j,
{
    if j < 0 || j >= evs.len() || depth <= 0 {
        Seq::empty()
    } else {
        match evs[j] {
            EventV::Open { name, .. } => (if depth == 1 && name == tag {
                seq![j]
            } else {
                Seq::empty()
            }) + children_scan(evs, tag, j + 1, depth + 1),
            EventV::Close => children_scan(evs, tag, j + 1, depth - 1),
            EventV::Text { .. } => children_scan(evs, tag, j + 1, depth),
        }
    }
}

/// The node ids, in document order, of the direct children of node `i`
/// that are elements named `tag`.
pub open spec fn spec_children(evs: Seq<EventV>, i: int, tag: Seq<char>) -> Seq<int> {
    if 0 <= i < evs.len() && evs[i] is Open {
        children_scan(evs, tag, i + 1, 1)
    } else {
        Seq::empty()
    }
}

pub proof fn lemma_children_scan_bounds(evs: Seq<EventV>, tag: Seq<char>, j: int, depth: int)
    ensures
        forall|k: int|
            0 <= k < children_scan(evs, tag, j, depth).len() ==> {
                let t = #[trigger] children_scan(evs, tag, j, depth)[k];
                j <= t < evs.len() && is_open_named(evs[t], tag)
            },
    decreases evs.len() - j,
{
    if 0 <= j < evs.len() && depth > 0 {
        lemma_children_scan_bounds(evs, tag, j + 1, depth + 1);
        lemma_children_scan_bounds(evs, tag, j + 1, depth - 1);
        lemma_children_scan_bounds(evs, tag, j + 1, depth);
        let cur = children_scan(evs, tag, j, depth);
        match evs[j] {
            EventV::Open { name, .. } => {
                let rest = children_scan(evs, tag, j + 1, depth + 1);
                if depth == 1 && name == tag {
                    assert(cur == seq![j] + rest);
                    assert forall|k: int| 0 <= k < cur.len() implies {
                        let t = #[trigger] cur[k];
                        j <= t < evs.len() && is_open_named(evs[t], tag)
                    } by {
                        if k == 0 {
                            assert(cur[k] == j);
                        } else {
                            assert(cur[k] == rest[k - 1]);
                        }
                    }
                } else {
                    assert(cur =~= rest);
                }
            },
            EventV::Close => {
                assert(cur == children_scan(evs, tag, j + 1, depth - 1));
            },
            EventV::Text { .. } => {
                assert(cur == children_scan(evs, tag, j + 1, depth));
            },
        }
    }
}

/// Every direct child's node id lies strictly between its parent's id and
/// the end of the document.
pub proof fn lemma_children_bounds(evs: Seq<EventV>, i: int, tag: Seq<char>)
    ensures
        forall|k: int|
            0 <= k < spec_children(evs, i, tag).len() ==> {
                let t = #[trigger] spec_children(evs, i, tag)[k];
                i < t < evs.len() && is_open_named(evs[t], tag)
            },
{
    if 0 <= i < evs.len() && evs[i] is Open {
        lemma_children_scan_bounds(evs, tag, i + 1, 1);
    }
}

/// The node ids, in document order, of the direct children of node `node`
/// that are elements named `tag`.
pub fn find_children(doc: &XMLDocument, node: usize, tag: &str) -> (r: Vec<usize>)
    ensures
        r@.map_values(|u: usize| u as int) == spec_children(doc@, node as int, tag@),
{
    let ghost evs = doc@;
    let n = doc.events.len();
    let mut r: Vec<usize> = Vec::new();
    if node >= n {
        return r;
    }
    let is_open = match &doc.events[node] {
        XmlEvent::Open { .. } => true,
        _ => false,
    };
    proof {
        assert(evs[node as int] == ev_view(doc.events@[node as int]));
    }
    if !is_open {
        return r;
    }
    let mut j: usize = node + 1;
    let mut depth: usize = 1;
    while j < n && depth > 0
        invariant
            evs == doc@,
            n == doc.events@.len(),
            node < j <= n,
            depth <= j - node,
            spec_children(evs, node as int, tag@) == r@.map_values(|u: usize| u as int)
                + children_scan(evs, tag@, j as int, depth as int),
        decreases n - j,
    {
        let ghost r0 = r@.map_values(|u: usize| u as int);
        let ghost d = depth as int;
        proof {
            assert(evs[j as int] == ev_view(doc.events@[j as int]));
        }
        match &doc.events[j] {
            XmlEvent::Open { name, .. } => {
                if depth == 1 && str_eq(name.as_str(), tag) {
                    r.push(j);
                    proof {
                        assert(r@.map_values(|u: usize| u as int) =~= r0.push(j as int));
                        assert(r0 + (seq![j as int] + children_scan(evs, tag@, j + 1, d + 1))
                            =~= r0.push(j as int) + children_scan(evs, tag@, j + 1, d + 1));
                    }
                } else {
                    proof {
                        assert(children_scan(evs, tag@, j as int, d) =~= Seq::<int>::empty()
                            + children_scan(evs, tag@, j + 1, d + 1));
                    }
                }
                depth = depth + 1;
            },
            XmlEvent::Close => {
                depth = depth - 1;
            },
            XmlEvent::Text { .. } => {
            },
        }
        j = j + 1;
    }
    proof {
        assert(children_scan(evs, tag@, j as int, depth as int) == Seq::<int>::empty());
        assert(r@.map_values(|u: usize| u as int) + Seq::<int>::empty() =~= r@.map_values(
            |u: usize| u as int,
        ));
    }
    r
}

/// The node ids of all direct element children; scanning starts at `j` with
/// `depth` open levels.
pub open spec fn all_children_scan(evs: Seq<EventV>, j: int, depth: int) -> Seq<int>
    decreases evs.len() - j,
{
    if j < 0 || j >= evs.len() || depth <= 0 {
        Seq::empty()
    } else {
        match evs[j] {
            EventV::Open { .. } => (if depth == 1 {
                seq![j]
            } else {
                Seq::empty()
            }) + all_children_scan(evs, j + 1, depth + 1),
            EventV::Close => all_children_scan(evs, j + 1, depth - 1),
            EventV::Text { .. } => all_children_scan(evs, j + 1, depth),
        }
    }
}

/// The node ids, in document order, of every direct element child of node
/// `i`, whatever its name.
pub open spec fn spec_all_children(evs: Seq<EventV>, i: int) -> Seq<int> {
    if 0 <= i < evs.len() && evs[i] is Open {
        all_children_scan(evs, i + 1, 1)
    } else {
        Seq::empty()
    }
}

pub proof fn lemma_all_children_scan_bounds(evs: Seq<EventV>, j: int, depth: int)
    ensures
        forall|k: int|
            0 <= k < all_children_scan(evs, j, depth).len() ==> {
                let t = #[trigger] all_children_scan(evs, j, depth)[k];
                j <= t < evs.len() && evs[t] is Open
            },
    decreases evs.len() - j,
{
    if 0 <= j < evs.len() && depth > 0 {
        lemma_all_children_scan_bounds(evs, j + 1, depth + 1);
        lemma_all_children_scan_bounds(evs, j + 1, depth - 1);
        lemma_all_children_scan_bounds(evs, j + 1, depth);
        let cur = all_children_scan(evs, j, depth);
        match evs[j] {
            EventV::Open { .. } => {
                let rest = all_children_scan(evs, j + 1, depth + 1);
                if depth == 1 {
                    assert(cur == seq![j] + rest);
                    assert forall|k: int| 0 <= k < cur.len() implies {
                        let t = #[trigger] cur[k];
                        j <= t < evs.len() && evs[t] is Open
                    } by {
                        if k == 0 {
                            assert(cur[k] == j);
                        } else {
                            assert(cur[k] == rest[k - 1]);
                        }
                    }
                } else {
                    assert(cur =~= rest);
                }
            },
            EventV::Close => {
                assert(cur == all_children_scan(evs, j + 1, depth - 1));
            },
            EventV::Text { .. } => {
                assert(cur == all_children_scan(evs, j + 1, depth));
            },
        }
    }
}

/// Every direct child's node id lies strictly between its parent's id and
/// the end of the document.
pub proof fn lemma_all_children_bounds(evs: Seq<EventV>, i: int)
    ensures
        forall|k: int|
            0 <= k < spec_all_children(evs, i).len() ==> {
                let t = #[trigger] spec_all_children(evs, i)[k];
                i < t < evs.len() && evs[t] is Open
            },
{
    if 0 <= i < evs.len() && evs[i] is Open {
        lemma_all_children_scan_bounds(evs, i + 1, 1);
    }
}

/// The node ids, in document order, of every direct element child of node
/// `node`.
pub fn find_all_children(doc: &XMLDocument, node: usize) -> (r: Vec<usize>)
    ensures
        r@.map_values(|u: usize| u as int) == spec_all_children(doc@, node as int),
{
    let ghost evs = doc@;
    let n = doc.events.len();
    let mut r: Vec<usize> = Vec::new();
    if node >= n {
        return r;
    }
    let is_open = match &doc.events[node] {
        XmlEvent::Open { .. } => true,
        _ => false,
    };
    proof {
        assert(evs[node as int] == ev_view(doc.events@[node as int]));
    }
    if !is_open {
        return r;
    }
    let mut j: usize = node + 1;
    let mut depth: usize = 1;
    while j < n && depth > 0
        invariant
            evs == doc@,
            n == doc.events@.len(),
            node < j <= n,
            depth <= j - node,
            spec_all_children(evs, node as int) == r@.map_values(|u: usize| u as int)
                + all_children_scan(evs, j as int, depth as int),
        decreases n - j,
    {
        let ghost r0 = r@.map_values(|u: usize| u as int);
        let ghost d = depth as int;
        proof {
            assert(evs[j as int] == ev_view(doc.events@[j as int]));
        }
        match &doc.events[j] {
            XmlEvent::Open { .. } => {
                if depth == 1 {
                    r.push(j);
                    proof {
                        assert(r@.map_values(|u: usize| u as int) =~= r0.push(j as int));
                        assert(r0 + (seq![j as int] + all_children_scan(evs, j + 1, d + 1))
                            =~= r0.push(j as int) + all_children_scan(evs, j + 1, d + 1));
                    }
                } else {
                    proof {
                        assert(all_children_scan(evs, j as int, d) =~= Seq::<int>::empty()
                            + all_children_scan(evs, j + 1, d + 1));
                    }
                }
                depth = depth + 1;
            },
            XmlEvent::Close => {
                depth = depth - 1;
            },
            XmlEvent::Text { .. } => {
            },
        }
        j = j + 1;
    }
    proof {
        assert(all_children_scan(evs, j as int, depth as int) == Seq::<int>::empty());
        assert(r@.map_values(|u: usize| u as int) + Seq::<int>::empty() =~= r@.map_values(
            |u: usize| u as int,
        ));
    }
    r
}

/// The tag name of the element opened at `node`, or nothing where `node` is
/// not an element-open event.
pub fn tag_name(doc: &XMLDocument, node: usize) -> (r: Option<String>)
    ensures
        match r {
            Some(s) => node < doc@.len() && doc@[node as int] is Open && s@ == evt_name(
                doc@[node as int],
            ),
            None => !(node < doc@.len() && doc@[node as int] is Open),
        },
{
    let ghost evs = doc@;
    if node >= doc.events.len() {
        return None;
    }
    proof {
        assert(evs[node as int] == ev_view(doc.events@[node as int]));
    }
    match &doc.events[node] {
        XmlEvent::Open { name, .. } => Some(name.clone()),
        _ => None,
    }
}

/// The attribute list of the element opened at `node`, in source order;
/// empty for a non-element node.
pub fn node_attrs(doc: &XMLDocument, node: usize) -> (r: Vec<(String, String)>)
    ensures
        r@.map_values(|p: (String, String)| attr_view(p)) == attrs_at(doc@, node as int),
{
    let ghost evs = doc@;
    let mut r: Vec<(String, String)> = Vec::new();
    if node >= doc.events.len() {
        proof {
            assert(r@.map_values(|p: (String, String)| attr_view(p)) =~= attrs_at(
                evs,
                node as int,
            ));
        }
        return r;
    }
    proof {
        assert(evs[node as int] == ev_view(doc.events@[node as int]));
    }
    match &doc.events[node] {
        XmlEvent::Open { attrs, .. } => {
            let m = attrs.len();
            let mut k: usize = 0;
            while k < m
                invariant
                    m == attrs@.len(),
                    k <= m,
                    r@.len() == k,
                    forall|i: int| 0 <= i < k ==> attr_view(r@[i]) == attr_view(attrs@[i]),
                decreases m - k,
            {
                r.push((attrs[k].0.clone(), attrs[k].1.clone()));
                k = k + 1;
            }
            proof {
                assert(r@.map_values(|p: (String, String)| attr_view(p)) =~= attrs@.map_values(
                    |p: (String, String)| attr_view(p),
                ));
            }
            r
        },
        _ => {
            proof {
                assert(r@.map_values(|p: (String, String)| attr_view(p)) =~= attrs_at(
                    evs,
                    node as int,
                ));
            }
            r
        },
    }
}

/// The node id of the first direct child of `node` that is an element named
/// `tag`.
pub fn first_child(doc: &XMLDocument, node: usize, tag: &str) -> (r: Option<usize>)
    ensures
        match r {
            Some(c) => spec_children(doc@, node as int, tag@).len() > 0 && spec_children(
                doc@,
                node as int,
                tag@,
            )[0] == c as int,
            None => spec_children(doc@, node as int, tag@).len() == 0,
        },
{
    let cs = find_children(doc, node, tag);
    if cs.len() > 0 {
        proof {
            assert(cs@.map_values(|u: usize| u as int)[0] == cs@[0] as int);
        }
        Some(cs[0])
    } else {
        None
    }
}

/// The event, with the value of attribute `k` replaced.
pub open spec fn with_attr_value(e: EventV, k: int, value: Seq<char>) -> EventV {
    match e {
        EventV::Open { name, attrs } => EventV::Open {
            name: name,
            attrs: attrs.update(k, (attrs[k].0, value)),
        },
        _ => e,
    }
}

impl XMLDocument {
    /// Replaces the value of attribute `k` of the element opened at `node`.
    pub fn set_attr(&mut self, node: usize, k: usize, value: &str)
        requires
            node < old(self)@.len(),
            old(self)@[node as int] is Open,
            k < attrs_at(old(self)@, node as int).len(),
        ensures
            final(self)@ == old(self)@.update(
                node as int,
                with_attr_value(old(self)@[node as int], k as int, value@),
            ),
    {
        let ghost oldevs = self@;
        let ghost target = with_attr_value(oldevs[node as int], k as int, value@);
        proof {
            assert(oldevs[node as int] == ev_view(self.events@[node as int]));
        }
        let e2 = clone_event(&self.events[node]);
        match e2 {
            XmlEvent::Open { name, mut attrs } => {
                let ghost a0 = attrs@;
                proof {
                    assert(oldevs[node as int] == EventV::Open {
                        name: name@,
                        attrs: a0.map_values(|p: (String, String)| attr_view(p)),
                    });
                }
                let an = attrs[k].0.clone();
                let nv = String::from_str(value);
                attrs.set(k, (an, nv));
                let newev = XmlEvent::Open { name, attrs };
                proof {
                    assert(evt_attrs(ev_view(newev)) =~= evt_attrs(target)) by {
                        assert forall|i: int|
                            0 <= i < evt_attrs(ev_view(newev)).len() implies evt_attrs(
                            ev_view(newev),
                        )[i] == evt_attrs(target)[i] by {
                            if i != k {
                                assert(evt_attrs(ev_view(newev))[i] == attr_view(a0[i]));
                            }
                        }
                    }
                    assert(ev_view(newev) =~= target);
                }
                self.events.set(node, newev);
                proof {
                    assert(self@ =~= oldevs.update(node as int, target));
                }
            },
            _ => {
                proof {
                    assert(false);
                }
            },
        }
    }
}

/// One text character, escaped for markup.
pub open spec fn escape_char_text(c: char) -> Seq<char> {
    if c == '&' {
        "&amp;"@
    } else if c == '<' {
        "&lt;"@
    } else if c == '>' {
        "&gt;"@
    } else {
        seq![c]
    }
}

/// A text run, escaped for markup.
pub open spec fn escape_text(s: Seq<char>) -> Seq<char>
    decreases s.len(),
{
    if s.len() == 0 {
        Seq::empty()
    } else {
        escape_text(s.drop_last()) + escape_char_text(s.last())
    }
}

/// One attribute-value character, escaped for markup.
pub open spec fn escape_char_attr(c: char) -> Seq<char> {
    if c == '&' {
        "&amp;"@
    } else if c == '<' {
        "&lt;"@
    } else if c == '>' {
        "&gt;"@
    } else if c == '"' {
        "&quot;"@
    } else {
        seq![c]
    }
}

/// An attribute value, escaped for markup.
pub open spec fn escape_attr(s: Seq<char>) -> Seq<char>
    decreases s.len(),
{
    if s.len() == 0 {
        Seq::empty()
    } else {
        escape_attr(s.drop_last()) + escape_char_attr(s.last())
    }
}

/// The markup of an attribute list, a leading space before each entry.
pub open spec fn attrs_markup(attrs: Seq<(Seq<char>, Seq<char>)>) -> Seq<char>
    decreases attrs.len(),
{
    if attrs.len() == 0 {
        Seq::empty()
    } else {
        attrs_markup(attrs.drop_last()) + " "@ + attrs.last().0 + "=\""@ + escape_attr(
            attrs.last().1,
        ) + "\""@
    }
}

pub open spec fn open_tag_markup(name: Seq<char>, attrs: Seq<(Seq<char>, Seq<char>)>) -> Seq<
    char,
> {
    "<"@ + name + attrs_markup(attrs) + ">"@
}

pub open spec fn close_tag_markup(name: Seq<char>) -> Seq<char> {
    "</"@ + name + ">"@
}

/// Closing tags for every still-open element, innermost first.
pub open spec fn close_all(stack: Seq<Seq<char>>) -> Seq<char>
    decreases stack.len(),
{
    if stack.len() == 0 {
        Seq::empty()
    } else {
        close_tag_markup(stack.last()) + close_all(stack.drop_last())
    }
}

/// The markup of the events from `j` on, with `stack` the names of the
/// elements already open. A close event with nothing open emits nothing.
pub open spec fn markup_scan(evs: Seq<EventV>, j: int, stack: Seq<Seq<char>>) -> Seq<char>
    decreases evs.len() - j,
{
    if j < 0 || j >= evs.len() {
        close_all(stack)
    } else {
        match evs[j] {
            EventV::Open { name, attrs } => open_tag_markup(name, attrs) + markup_scan(
                evs,
                j + 1,
                stack.push(name),
            ),
            EventV::Text { text } => escape_text(text) + markup_scan(evs, j + 1, stack),
            EventV::Close => if stack.len() == 0 {
                markup_scan(evs, j + 1, stack)
            } else {
                close_tag_markup(stack.last()) + markup_scan(evs, j + 1, stack.drop_last())
            },
        }
    }
}

/// The serialized markup of a whole document.
pub open spec fn spec_markup(evs: Seq<EventV>) -> Seq<char> {
    markup_scan(evs, 0, Seq::empty())
}

/// The names of the elements still open when the scan from `k` with
/// `stack` reaches position `i`.
pub open spec fn scan_stack(evs: Seq<EventV>, k: int, stack: Seq<Seq<char>>, i: int) -> Seq<
    Seq<char>,
>
    decreases i - k,
{
    if k < 0 || k >= i || k >= evs.len() {
        stack
    } else {
        match evs[k] {
            EventV::Open { name, .. } => scan_stack(evs, k + 1, stack.push(name), i),
            EventV::Text { .. } => scan_stack(evs, k + 1, stack, i),
            EventV::Close => if stack.len() == 0 {
                scan_stack(evs, k + 1, stack, i)
            } else {
                scan_stack(evs, k + 1, stack.drop_last(), i)
            },
        }
    }
}

/// The markup the scan emits from `k` up to position `i`, exclusive.
pub open spec fn scan_prefix(evs: Seq<EventV>, k: int, stack: Seq<Seq<char>>, i: int) -> Seq<char>
    decreases i - k,
{
    if k < 0 || k >= i || k >= evs.len() {
        Seq::empty()
    } else {
        match evs[k] {
            EventV::Open { name, attrs } => open_tag_markup(name, attrs) + scan_prefix(
                evs,
                k + 1,
                stack.push(name),
                i,
            ),
            EventV::Text { text } => escape_text(text) + scan_prefix(evs, k + 1, stack, i),
            EventV::Close => if stack.len() == 0 {
                scan_prefix(evs, k + 1, stack, i)
            } else {
                close_tag_markup(stack.last()) + scan_prefix(evs, k + 1, stack.drop_last(), i)
            },
        }
    }
}

/// The scan splits at any position: the markup is what is emitted before
/// `i`, then the scan from `i` with the stack reached there.
pub proof fn lemma_markup_scan_split(evs: Seq<EventV>, k: int, stack: Seq<Seq<char>>, i: int)
    requires
        0 <= k <= i <= evs.len(),
    ensures
        markup_scan(evs, k, stack) == scan_prefix(evs, k, stack, i) + markup_scan(
            evs,
            i,
            scan_stack(evs, k, stack, i),
        ),
    decreases i - k,
{
    if k >= i {
        assert(Seq::<char>::empty() + markup_scan(evs, i, stack) =~= markup_scan(
            evs,
            i,
            stack,
        ));
    } else {
        match evs[k] {
            EventV::Open { name, attrs } => {
                lemma_markup_scan_split(evs, k + 1, stack.push(name), i);
                assert(open_tag_markup(name, attrs) + (scan_prefix(evs, k + 1, stack.push(name), i)
                    + markup_scan(evs, i, scan_stack(evs, k + 1, stack.push(name), i)))
                    =~= (open_tag_markup(name, attrs) + scan_prefix(
                    evs,
                    k + 1,
                    stack.push(name),
                    i,
                )) + markup_scan(evs, i, scan_stack(evs, k + 1, stack.push(name), i)));
            },
            EventV::Text { text } => {
                lemma_markup_scan_split(evs, k + 1, stack, i);
                assert(escape_text(text) + (scan_prefix(evs, k + 1, stack, i) + markup_scan(
                    evs,
                    i,
                    scan_stack(evs, k + 1, stack, i),
                )) =~= (escape_text(text) + scan_prefix(evs, k + 1, stack, i)) + markup_scan(
                    evs,
                    i,
                    scan_stack(evs, k + 1, stack, i),
                ));
            },
            EventV::Close => {
                if stack.len() == 0 {
                    lemma_markup_scan_split(evs, k + 1, stack, i);
                } else {
                    lemma_markup_scan_split(evs, k + 1, stack.drop_last(), i);
                    assert(close_tag_markup(stack.last()) + (scan_prefix(
                        evs,
                        k + 1,
                        stack.drop_last(),
                        i,
                    ) + markup_scan(evs, i, scan_stack(evs, k + 1, stack.drop_last(), i)))
                        =~= (close_tag_markup(stack.last()) + scan_prefix(
                        evs,
                        k + 1,
                        stack.drop_last(),
                        i,
                    )) + markup_scan(evs, i, scan_stack(evs, k + 1, stack.drop_last(), i)));
                }
            },
        }
    }
}

/// What is emitted and stacked before `i` ignores a replacement at `i`.
pub proof fn lemma_scan_ignores_update(
    evs: Seq<EventV>,
    i: int,
    e2: EventV,
    k: int,
    stack: Seq<Seq<char>>,
)
    requires
        0 <= k <= i < evs.len(),
    ensures
        scan_prefix(evs.update(i, e2), k, stack, i) == scan_prefix(evs, k, stack, i),
        scan_stack(evs.update(i, e2), k, stack, i) == scan_stack(evs, k, stack, i),
    decreases i - k,
{
    if k < i {
        assert(evs.update(i, e2)[k] == evs[k]);
        match evs[k] {
            EventV::Open { name, .. } => {
                lemma_scan_ignores_update(evs, i, e2, k + 1, stack.push(name));
            },
            EventV::Text { .. } => {
                lemma_scan_ignores_update(evs, i, e2, k + 1, stack);
            },
            EventV::Close => {
                if stack.len() == 0 {
                    lemma_scan_ignores_update(evs, i, e2, k + 1, stack);
                } else {
                    lemma_scan_ignores_update(evs, i, e2, k + 1, stack.drop_last());
                }
            },
        }
    }
}

/// Scans agree wherever the event lists agree from `k` on.
pub proof fn lemma_markup_scan_agrees(
    evs1: Seq<EventV>,
    evs2: Seq<EventV>,
    k: int,
    stack: Seq<Seq<char>>,
)
    requires
        evs1.len() == evs2.len(),
        forall|q: int| k <= q < evs1.len() ==> evs1[q] == evs2[q],
    ensures
        markup_scan(evs1, k, stack) == markup_scan(evs2, k, stack),
    decreases evs1.len() - k,
{
    if 0 <= k < evs1.len() {
        match evs1[k] {
            EventV::Open { name, .. } => {
                lemma_markup_scan_agrees(evs1, evs2, k + 1, stack.push(name));
            },
            EventV::Text { .. } => {
                lemma_markup_scan_agrees(evs1, evs2, k + 1, stack);
            },
            EventV::Close => {
                if stack.len() == 0 {
                    lemma_markup_scan_agrees(evs1, evs2, k + 1, stack);
                } else {
                    lemma_markup_scan_agrees(evs1, evs2, k + 1, stack.drop_last());
                }
            },
        }
    }
}

/// Serialization is local to a replaced opening event: with event `i`
/// replaced by an opening event of the same name, the serialized markup
/// keeps its prefix and its suffix verbatim, and only that one opening
/// tag's markup changes.
pub proof fn lemma_markup_update_localized(evs: Seq<EventV>, i: int, e2: EventV)
    requires
        0 <= i < evs.len(),
        evs[i] is Open,
        e2 is Open,
        evt_name(e2) == evt_name(evs[i]),
    ensures
        ({
            let evs2 = evs.update(i, e2);
            let before = scan_prefix(evs, 0, Seq::empty(), i);
            let after = markup_scan(
                evs,
                i + 1,
                scan_stack(evs, 0, Seq::empty(), i).push(evt_name(evs[i])),
            );
            &&& spec_markup(evs2) == (before + open_tag_markup(
                evt_name(evs[i]),
                evt_attrs(e2),
            )) + after
            &&& spec_markup(evs) == (before + open_tag_markup(
                evt_name(evs[i]),
                evt_attrs(evs[i]),
            )) + after
        }),
{
    let evs2 = evs.update(i, e2);
    let st0 = Seq::<Seq<char>>::empty();
    lemma_markup_scan_split(evs, 0, st0, i);
    lemma_markup_scan_split(evs2, 0, st0, i);
    lemma_scan_ignores_update(evs, i, e2, 0, st0);
    let st = scan_stack(evs, 0, st0, i);
    let name = evt_name(evs[i]);
    assert(forall|q: int| i + 1 <= q < evs2.len() ==> evs2[q] == evs[q]);
    lemma_markup_scan_agrees(evs2, evs, i + 1, st.push(name));
    match evs[i] {
        EventV::Open { name: n1, attrs: a1 } => {
            assert(markup_scan(evs, i, st) == open_tag_markup(n1, a1) + markup_scan(
                evs,
                i + 1,
                st.push(n1),
            ));
        },
        _ => {
        },
    }
    match evs2[i] {
        EventV::Open { name: n2, attrs: a2 } => {
            assert(n2 == name);
            assert(markup_scan(evs2, i, st) == open_tag_markup(n2, a2) + markup_scan(
                evs2,
                i + 1,
                st.push(n2),
            ));
        },
        _ => {
        },
    }
    assert(spec_markup(evs) =~= (scan_prefix(evs, 0, st0, i) + open_tag_markup(
        name,
        evt_attrs(evs[i]),
    )) + markup_scan(evs, i + 1, st.push(name)));
    assert(spec_markup(evs2) =~= (scan_prefix(evs, 0, st0, i) + open_tag_markup(
        name,
        evt_attrs(e2),
    )) + markup_scan(evs, i + 1, st.push(name)));
}

/// Appends a text run, escaped.
fn append_escaped_text(acc: &mut String, s: &str)
    ensures
        final(acc)@ == old(acc)@ + escape_text(s@),
{
    let n = s.unicode_len();
    let ghost base = acc@;
    let mut i: usize = 0;
    while i < n
        invariant
            n == s@.len(),
            i <= n,
            acc@ == base + escape_text(s@.subrange(0, i as int)),
        decreases n - i,
    {
        let ghost pre = s@.subrange(0, i as int);
        let ghost cur = s@.subrange(0, i + 1);
        proof {
            assert(cur.drop_last() =~= pre);
            assert(cur.last() == s@[i as int]);
        }
        let c = s.get_char(i);
        if c == '&' {
            acc.append("&amp;");
        } else if c == '<' {
            acc.append("&lt;");
        } else if c == '>' {
            acc.append("&gt;");
        } else {
            crate::text::push_char(acc, c);
            proof {
                assert(acc@ =~= base + escape_text(pre) + seq![c]);
            }
        }
        proof {
            assert(base + escape_text(pre) + escape_char_text(s@[i as int]) =~= base + escape_text(
                cur,
            ));
        }
        i = i + 1;
    }
    proof {
        assert(s@.subrange(0, n as int) =~= s@);
    }
}

/// Appends an attribute value, escaped.
fn append_escaped_attr(acc: &mut String, s: &str)
    ensures
        final(acc)@ == old(acc)@ + escape_attr(s@),
{
    let n = s.unicode_len();
    let ghost base = acc@;
    let mut i: usize = 0;
    while i < n
        invariant
            n == s@.len(),
            i <= n,
            acc@ == base + escape_attr(s@.subrange(0, i as int)),
        decreases n - i,
    {
        let ghost pre = s@.subrange(0, i as int);
        let ghost cur = s@.subrange(0, i + 1);
        proof {
            assert(cur.drop_last() =~= pre);
            assert(cur.last() == s@[i as int]);
        }
        let c = s.get_char(i);
        if c == '&' {
            acc.append("&amp;");
        } else if c == '<' {
            acc.append("&lt;");
        } else if c == '>' {
            acc.append("&gt;");
        } else if c == '"' {
            acc.append("&quot;");
        } else {
            crate::text::push_char(acc, c);
            proof {
                assert(acc@ =~= base + escape_attr(pre) + seq![c]);
            }
        }
        proof {
            assert(base + escape_attr(pre) + escape_char_attr(s@[i as int]) =~= base + escape_attr(
                cur,
            ));
        }
        i = i + 1;
    }
    proof {
        assert(s@.subrange(0, n as int) =~= s@);
    }
}

/// Appends the markup of an attribute list.
fn append_attrs(acc: &mut String, attrs: &Vec<(String, String)>)
    ensures
        final(acc)@ == old(acc)@ + attrs_markup(
            attrs@.map_values(|p: (String, String)| attr_view(p)),
        ),
{
    let ghost sattrs = attrs@.map_values(|p: (String, String)| attr_view(p));
    let ghost base = acc@;
    let m = attrs.len();
    let mut k: usize = 0;
    while k < m
        invariant
            m == attrs@.len(),
            sattrs == attrs@.map_values(|p: (String, String)| attr_view(p)),
            k <= m,
            acc@ == base + attrs_markup(sattrs.subrange(0, k as int)),
        decreases m - k,
    {
        let ghost pre = sattrs.subrange(0, k as int);
        let ghost cur = sattrs.subrange(0, k + 1);
        proof {
            assert(cur.drop_last() =~= pre);
            assert(cur.last() == sattrs[k as int]);
            assert(sattrs[k as int] == attr_view(attrs@[k as int]));
        }
        acc.append(" ");
        acc.append(attrs[k].0.as_str());
        acc.append("=\"");
        append_escaped_attr(acc, attrs[k].1.as_str());
        acc.append("\"");
        proof {
            assert(acc@ =~= base + attrs_markup(cur));
        }
        k = k + 1;
    }
    proof {
        assert(sattrs.subrange(0, m as int) =~= sattrs);
    }
}

impl XMLDocument {
    /// Serializes the document back to markup text, reflecting every
    /// attribute rewrite performed so far. Always succeeds.
    pub fn to_string(&self) -> (r: Result<String, EpubError>)
        ensures
            r matches Ok(s) && s@ == spec_markup(self@),
    {
        let ghost evs = self@;
        let n = self.events.len();
        let mut acc = String::new();
        let mut stack: Vec<String> = Vec::new();
        let mut j: usize = 0;
        proof {
            assert(stack@.map_values(|t: String| t@) =~= Seq::<Seq<char>>::empty());
            assert(acc@ + spec_markup(evs) =~= spec_markup(evs));
        }
        while j < n
            invariant
                evs == self@,
                n == self.events@.len(),
                j <= n,
                spec_markup(evs) == acc@ + markup_scan(
                    evs,
                    j as int,
                    stack@.map_values(|t: String| t@),
                ),
            decreases n - j,
        {
            let ghost sstack = stack@.map_values(|t: String| t@);
            let ghost acc0 = acc@;
            proof {
                assert(evs[j as int] == ev_view(self.events@[j as int]));
            }
            match &self.events[j] {
                XmlEvent::Open { name, attrs } => {
                    acc.append("<");
                    acc.append(name.as_str());
                    append_attrs(&mut acc, attrs);
                    acc.append(">");
                    stack.push(name.clone());
                    proof {
                        assert(stack@.map_values(|t: String| t@) =~= sstack.push(name@));
                        assert(acc@ =~= acc0 + open_tag_markup(
                            name@,
                            attrs@.map_values(|p: (String, String)| attr_view(p)),
                        ));
                        assert(acc0 + (open_tag_markup(
                            name@,
                            attrs@.map_values(|p: (String, String)| attr_view(p)),
                        ) + markup_scan(evs, j + 1, sstack.push(name@))) =~= acc@ + markup_scan(
                            evs,
                            j + 1,
                            sstack.push(name@),
                        ));
                    }
                },
                XmlEvent::Text { text } => {
                    append_escaped_text(&mut acc, text.as_str());
                    proof {
                        assert(acc0 + (escape_text(text@) + markup_scan(evs, j + 1, sstack))
                            =~= acc@ + markup_scan(evs, j + 1, sstack));
                    }
                },
                XmlEvent::Close => {
                    match stack.pop() {
                        Some(nm) => {
                            proof {
                                assert(sstack.len() > 0);
                                assert(nm@ == sstack.last());
                                assert(stack@.map_values(|t: String| t@) =~= sstack.drop_last());
                            }
                            acc.append("</");
                            acc.append(nm.as_str());
                            acc.append(">");
                            proof {
                                assert(acc0 + (close_tag_markup(sstack.last()) + markup_scan(
                                    evs,
                                    j + 1,
                                    sstack.drop_last(),
                                )) =~= acc@ + markup_scan(evs, j + 1, sstack.drop_last()));
                            }
                        },
                        None => {
                            proof {
                                assert(sstack.len() == 0);
                            }
                        },
                    }
                },
            }
            j = j + 1;
        }
        while stack.len() > 0
            invariant
                spec_markup(evs) == acc@ + close_all(stack@.map_values(|t: String| t@)),
            decreases stack.len(),
        {
            let ghost sstack = stack@.map_values(|t: String| t@);
            let ghost acc0 = acc@;
            match stack.pop() {
                Some(nm) => {
                    proof {
                        assert(nm@ == sstack.last());
                        assert(stack@.map_values(|t: String| t@) =~= sstack.drop_last());
                    }
                    acc.append("</");
                    acc.append(nm.as_str());
                    acc.append(">");
                    proof {
                        assert(acc0 + (close_tag_markup(sstack.last()) + close_all(
                            sstack.drop_last(),
                        )) =~= acc@ + close_all(sstack.drop_last()));
                    }
                },
                None => {
                },
            }
        }
        proof {
            assert(close_all(stack@.map_values(|t: String| t@)) == Seq::<char>::empty());
            assert(acc@ + Seq::<char>::empty() =~= acc@);
        }
        Ok(acc)
    }
}

/// A structurally equal copy of one event.
fn clone_event(e: &XmlEvent) -> (r: XmlEvent)
    ensures
        ev_view(r) == ev_view(*e),
{
    match e {
        XmlEvent::Open { name, attrs } => {
            let m = attrs.len();
            let mut a2: Vec<(String, String)> = Vec::new();
            let mut k: usize = 0;
            while k < m
                invariant
                    m == attrs@.len(),
                    k <= m,
                    a2@.len() == k,
                    forall|i: int| 0 <= i < k ==> attr_view(a2@[i]) == attr_view(attrs@[i]),
                decreases m - k,
            {
                a2.push((attrs[k].0.clone(), attrs[k].1.clone()));
                k = k + 1;
            }
            let r = XmlEvent::Open { name: name.clone(), attrs: a2 };
            proof {
                assert(a2@.map_values(|p: (String, String)| attr_view(p)) =~= attrs@.map_values(
                    |p: (String, String)| attr_view(p),
                ));
                assert(ev_view(r) =~= ev_view(*e));
            }
            r
        },
        XmlEvent::Text { text } => XmlEvent::Text { text: text.clone() },
        XmlEvent::Close => XmlEvent::Close,
    }
}

} // verus!
