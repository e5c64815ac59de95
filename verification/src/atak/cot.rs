//! Cursor-on-Target (CoT) event validation and the bounded location state.
//!
//! A CoT payload is accepted when it is UTF-8 XML whose root element is
//! `event` with non-blank `uid` and `type` attributes.  The structure is read
//! here; the numeric `point` attributes are carried as their attribute text.

use vstd::prelude::*;

use crate::text::{
    chars_eq, chars_eq_str, chars_to_string, extend_str, opt_view, str_chars, trim, trim_chars,
    utf8_chars, utf8_text,
};

verus! {

// ---------------------------------------------------------------------------
// XML document model
// ---------------------------------------------------------------------------

/// One attribute of an XML element.
pub struct XmlAttribute {
    /// The namespace of the attribute name, if it has one.
    pub namespace: Option<String>,
    /// The local name of the attribute.
    pub name: String,
    pub value: String,
}

/// One node of an XML document; the document is the list of its nodes in
/// document order.  Elements are the nodes with a non-empty name: the parser
/// gives every other node an empty name and no attributes.
pub struct XmlNode {
    /// Identifier of the node inside its document.
    pub id: usize,
    /// Identifier of the parent node, `None` for the document node.
    pub parent: Option<usize>,
    /// The local tag name; empty unless the node is an element.
    pub name: String,
    pub attributes: Vec<XmlAttribute>,
}

/// The plain view of an attribute: (namespace, local name, value).
pub type AttrView = (Option<Seq<char>>, Seq<char>, Seq<char>);

/// The plain view of a node.
pub struct ElementView {
    pub id: usize,
    pub parent: Option<usize>,
    pub name: Seq<char>,
    pub attributes: Seq<AttrView>,
}

/// The plain view of an attribute.
pub open spec fn attr_view(a: XmlAttribute) -> AttrView {
    (
        match a.namespace {
            Some(n) => Some(n@),
            None => None,
        },
        a.name@,
        a.value@,
    )
}

/// The plain view of an element.
pub open spec fn element_view(e: XmlNode) -> ElementView {
    ElementView {
        id: e.id,
        parent: e.parent,
        name: e.name@,
        attributes: e.attributes@.map_values(|a: XmlAttribute| attr_view(a)),
    }
}

/// The plain views of the elements, in document order.
pub open spec fn elements_view(v: Seq<XmlNode>) -> Seq<ElementView> {
    v.map_values(|e: XmlNode| element_view(e))
}

/// The nodes of the XML document that `text` holds, in document order, or
/// the parser's error message.
pub uninterp spec fn xml_document(text: Seq<char>) -> Result<Seq<ElementView>, Seq<char>>;

/// `roxmltree::Document::parse`, with the parsed document listed as its
/// nodes in document order (`Document::descendants`).  The contract claims
/// that the result is the named document of the text, and that a parsed
/// document holds an element (a node with a non-empty name): roxmltree
/// documents that every document has a root element.
#[verifier::external_body]
fn parse_xml(text: &str) -> (r: Result<Vec<XmlNode>, String>)
    ensures
        match r {
            Ok(v) => xml_document(text@) == Ok::<Seq<ElementView>, Seq<char>>(elements_view(v@))
                && exists|i: int| 0 <= i < v.len() && v@[i].name@.len() > 0,
            Err(e) => xml_document(text@) == Err::<Seq<ElementView>, Seq<char>>(e@),
        },
{
    match roxmltree::Document::parse(text) {
        Ok(doc) => Ok(doc.descendants().map(|n| XmlNode {
            id: n.id().get_usize(),
            parent: n.parent().map(|p| p.id().get_usize()),
            name: n.tag_name().name().to_string(),
            attributes: n.attributes().map(|a| XmlAttribute {
                namespace: a.namespace().map(|u| u.to_string()),
                name: a.name().to_string(),
                value: a.value().to_string(),
            }).collect(),
        }).collect()),
        Err(err) => Err(err.to_string()),
    }
}

/// Index of the first node at or after `i` with a non-empty name.
pub open spec fn first_named_from(els: Seq<ElementView>, i: int) -> int
    decreases els.len() - i,
{
    if i < 0 || i >= els.len() || els[i].name.len() > 0 {
        i
    } else {
        first_named_from(els, i + 1)
    }
}

/// Index of the root element: the first element in document order.
pub open spec fn root_index(els: Seq<ElementView>) -> int {
    first_named_from(els, 0)
}

proof fn lemma_first_named(els: Seq<ElementView>, i: int, k: int)
    requires
        0 <= i <= k < els.len(),
        els[k].name.len() > 0,
    ensures
        i <= first_named_from(els, i) <= k,
        els[first_named_from(els, i)].name.len() > 0,
    decreases k - i,
{
    if els[i].name.len() == 0 {
        lemma_first_named(els, i + 1, k);
    }
}

/// Executable search for the root element.
fn find_root(els: &Vec<XmlNode>) -> (r: usize)
    requires
        exists|i: int| 0 <= i < els.len() && els@[i].name@.len() > 0,
    ensures
        r == root_index(elements_view(els@)),
        r < els.len(),
        els@[r as int].name@.len() > 0,
{
    let ghost all = elements_view(els@);
    let ghost k = choose|i: int| 0 <= i < els.len() && els@[i].name@.len() > 0;
    assert(all[k].name.len() > 0);
    proof {
        lemma_first_named(all, 0, k);
    }
    let mut i: usize = 0;
    while i < els.len()
        invariant
            i <= k < els.len(),
            all == elements_view(els@),
            all[k].name.len() > 0,
            first_named_from(all, 0) == first_named_from(all, i as int),
        decreases els.len() - i,
    {
        assert(all[i as int] == element_view(els@[i as int]));
        if !els[i].name.as_str().is_empty() {
            return i;
        }
        proof {
            lemma_first_named(all, i + 1, k);
        }
        i += 1;
    }
    proof {
        lemma_first_named(all, 0, k);
    }
    0
}

/// The value of the first attribute without namespace whose local name is
/// `name` (`roxmltree::Node::attribute` with a plain name).
pub open spec fn attr_of(attrs: Seq<AttrView>, name: Seq<char>) -> Option<Seq<char>>
    decreases attrs.len(),
{
    if attrs.len() == 0 {
        None
    } else if attrs[0].0 is None && attrs[0].1 == name {
        Some(attrs[0].2)
    } else {
        attr_of(attrs.drop_first(), name)
    }
}

/// Index of the first element at or after `i` whose name is `name` and
/// whose parent is `parent` (any parent when `parent` is `None`).
pub open spec fn first_element_from(
    els: Seq<ElementView>,
    name: Seq<char>,
    parent: Option<usize>,
    i: int,
) -> Option<int>
    decreases els.len() - i,
{
    if i < 0 || i >= els.len() {
        None
    } else if els[i].name == name && (parent is None || els[i].parent == parent) {
        Some(i)
    } else {
        first_element_from(els, name, parent, i + 1)
    }
}

/// Executable attribute lookup.
fn find_attr(attrs: &Vec<XmlAttribute>, name: &str) -> (r: Option<String>)
    ensures
        match r {
            Some(v) => attr_of(attrs@.map_values(|a: XmlAttribute| attr_view(a)), name@) == Some(
                v@,
            ),
            None => attr_of(attrs@.map_values(|a: XmlAttribute| attr_view(a)), name@) is None,
        },
{
    let ghost all = attrs@.map_values(|a: XmlAttribute| attr_view(a));
    let name_chars = str_chars(name);
    let mut i: usize = 0;
    assert(all.skip(0) =~= all);
    while i < attrs.len()
        invariant
            i <= attrs.len(),
            all == attrs@.map_values(|a: XmlAttribute| attr_view(a)),
            name_chars@ == name@,
            attr_of(all, name@) == attr_of(all.skip(i as int), name@),
        decreases attrs.len() - i,
    {
        let a = &attrs[i];
        let a_name = str_chars(a.name.as_str());
        assert(all.skip(i as int)[0] == attr_view(attrs@[i as int]));
        assert(all.skip(i as int).drop_first() =~= all.skip(i + 1));
        if a.namespace.is_none() && chars_eq(&a_name, &name_chars) {
            return Some(a.value.clone());
        }
        i += 1;
    }
    None
}

/// Executable search for the first element with a name (and parent).
fn find_element(els: &Vec<XmlNode>, name: &str, parent: Option<usize>) -> (r: Option<usize>)
    ensures
        match r {
            Some(k) => first_element_from(elements_view(els@), name@, parent, 0) == Some(k as int),
            None => first_element_from(elements_view(els@), name@, parent, 0) is None,
        },
        r matches Some(k) ==> k < els.len(),
{
    let ghost all = elements_view(els@);
    let name_chars = str_chars(name);
    let mut i: usize = 0;
    while i < els.len()
        invariant
            i <= els.len(),
            all == elements_view(els@),
            name_chars@ == name@,
            first_element_from(all, name@, parent, 0) == first_element_from(
                all,
                name@,
                parent,
                i as int,
            ),
        decreases els.len() - i,
    {
        let e = &els[i];
        let e_name = str_chars(e.name.as_str());
        assert(all[i as int] == element_view(els@[i as int]));
        let parent_ok = match parent {
            None => true,
            Some(p) => match e.parent {
                Some(q) => p == q,
                None => false,
            },
        };
        if parent_ok && chars_eq(&e_name, &name_chars) {
            return Some(i);
        }
        i += 1;
    }
    None
}

// ---------------------------------------------------------------------------
// CoT events
// ---------------------------------------------------------------------------

/// The attribute text of a CoT `point` element.  The numbers are read and
/// range-checked by the caller.
#[derive(Debug, Clone, PartialEq, Eq)]
pub struct CotPointText {
    pub lat: Option<String>,
    pub lon: Option<String>,
    pub hae: Option<String>,
    pub ce: Option<String>,
    pub le: Option<String>,
}

/// A validated CoT event.
#[derive(Debug, Clone, PartialEq, Eq)]
pub struct CotEvent {
    pub uid: String,
    pub event_type: String,
    pub how: Option<String>,
    pub callsign: Option<String>,
    pub time: Option<String>,
    pub start: Option<String>,
    pub stale: Option<String>,
    pub point: Option<CotPointText>,
}

/// Why a payload is not a valid CoT event.
#[derive(Debug, Clone, PartialEq, Eq)]
pub enum CotParseError {
    NotUtf8,
    Xml(String),
    WrongRoot,
    MissingAttribute(&'static str),
    InvalidNumber(&'static str),
    InvalidCoordinate(&'static str),
}

/// The plain view of a point.
pub struct PointView {
    pub lat: Option<Seq<char>>,
    pub lon: Option<Seq<char>>,
    pub hae: Option<Seq<char>>,
    pub ce: Option<Seq<char>>,
    pub le: Option<Seq<char>>,
}

/// The plain view of an event.
pub struct EventView {
    pub uid: Seq<char>,
    pub event_type: Seq<char>,
    pub how: Option<Seq<char>>,
    pub callsign: Option<Seq<char>>,
    pub time: Option<Seq<char>>,
    pub start: Option<Seq<char>>,
    pub stale: Option<Seq<char>>,
    pub point: Option<PointView>,
}

/// The outcome of validating a payload.
pub enum CotOutcome {
    Valid(EventView),
    NotUtf8,
    Xml(Seq<char>),
    WrongRoot,
    Missing(Seq<char>),
    InvalidNumber(Seq<char>),
    InvalidCoordinate(Seq<char>),
}

/// The plain view of a point.
pub open spec fn point_view(p: CotPointText) -> PointView {
    PointView {
        lat: opt_view(p.lat),
        lon: opt_view(p.lon),
        hae: opt_view(p.hae),
        ce: opt_view(p.ce),
        le: opt_view(p.le),
    }
}

/// The plain view of an event.
pub open spec fn event_view(e: CotEvent) -> EventView {
    EventView {
        uid: e.uid@,
        event_type: e.event_type@,
        how: opt_view(e.how),
        callsign: opt_view(e.callsign),
        time: opt_view(e.time),
        start: opt_view(e.start),
        stale: opt_view(e.stale),
        point: match e.point {
            Some(p) => Some(point_view(p)),
            None => None,
        },
    }
}

/// The outcome an error stands for.
pub open spec fn error_outcome(e: CotParseError) -> CotOutcome {
    match e {
        CotParseError::NotUtf8 => CotOutcome::NotUtf8,
        CotParseError::Xml(m) => CotOutcome::Xml(m@),
        CotParseError::WrongRoot => CotOutcome::WrongRoot,
        CotParseError::MissingAttribute(a) => CotOutcome::Missing(a@),
        CotParseError::InvalidNumber(a) => CotOutcome::InvalidNumber(a@),
        CotParseError::InvalidCoordinate(a) => CotOutcome::InvalidCoordinate(a@),
    }
}

/// The description of each parse error.
pub open spec fn parse_error_text(e: CotParseError) -> Seq<char> {
    match e {
        CotParseError::NotUtf8 => "payload is not UTF-8"@,
        CotParseError::Xml(m) => "invalid XML: "@ + m@,
        CotParseError::WrongRoot => "root element is not CoT event"@,
        CotParseError::MissingAttribute(a) => "missing CoT attribute "@ + a@,
        CotParseError::InvalidNumber(a) => "invalid CoT numeric attribute "@ + a@,
        CotParseError::InvalidCoordinate(a) => "invalid CoT coordinate "@ + a@,
    }
}

impl CotParseError {
    /// The human-readable description of the error.
    pub fn message(&self) -> (r: String)
        ensures
            r@ == parse_error_text(*self),
    {
        let mut out: Vec<char> = Vec::new();
        match self {
            CotParseError::NotUtf8 => extend_str(&mut out, "payload is not UTF-8"),
            CotParseError::Xml(m) => {
                extend_str(&mut out, "invalid XML: ");
                extend_str(&mut out, m.as_str());
            },
            CotParseError::WrongRoot => extend_str(&mut out, "root element is not CoT event"),
            CotParseError::MissingAttribute(a) => {
                extend_str(&mut out, "missing CoT attribute ");
                extend_str(&mut out, a);
            },
            CotParseError::InvalidNumber(a) => {
                extend_str(&mut out, "invalid CoT numeric attribute ");
                extend_str(&mut out, a);
            },
            CotParseError::InvalidCoordinate(a) => {
                extend_str(&mut out, "invalid CoT coordinate ");
                extend_str(&mut out, a);
            },
        }
        chars_to_string(&out)
    }
}

/// The point of an event: the first child element of the root named `point`.
pub open spec fn point_of(els: Seq<ElementView>) -> Option<PointView> {
    match first_element_from(els, "point"@, Some(els[root_index(els)].id), 0) {
        Some(k) => Some(
            PointView {
                lat: attr_of(els[k].attributes, "lat"@),
                lon: attr_of(els[k].attributes, "lon"@),
                hae: attr_of(els[k].attributes, "hae"@),
                ce: attr_of(els[k].attributes, "ce"@),
                le: attr_of(els[k].attributes, "le"@),
            },
        ),
        None => None,
    }
}

/// The callsign: the `callsign` attribute of the first `contact` element.
pub open spec fn callsign_of(els: Seq<ElementView>) -> Option<Seq<char>> {
    match first_element_from(els, "contact"@, None, 0) {
        Some(k) => attr_of(els[k].attributes, "callsign"@),
        None => None,
    }
}

/// What validating the parsed nodes of a document gives.
pub open spec fn cot_from_elements(els: Seq<ElementView>) -> CotOutcome {
    let root = els[root_index(els)];
    let uid = attr_of(root.attributes, "uid"@);
    let typ = attr_of(root.attributes, "type"@);
    if root.name != "event"@ {
        CotOutcome::WrongRoot
    } else if uid is None {
        CotOutcome::Missing("uid"@)
    } else if typ is None {
        CotOutcome::Missing("type"@)
    } else if trim(uid->0).len() == 0 {
        CotOutcome::Missing("uid"@)
    } else if trim(typ->0).len() == 0 {
        CotOutcome::Missing("type"@)
    } else {
        CotOutcome::Valid(
            EventView {
                uid: trim(uid->0),
                event_type: trim(typ->0),
                how: attr_of(root.attributes, "how"@),
                callsign: callsign_of(els),
                time: attr_of(root.attributes, "time"@),
                start: attr_of(root.attributes, "start"@),
                stale: attr_of(root.attributes, "stale"@),
                point: point_of(els),
            },
        )
    }
}

/// The value an optional attribute lookup gives is the value of a plain
/// attribute of that name, and none is given only when there is no such
/// attribute.
pub open spec fn names_attribute(attrs: Seq<AttrView>, name: Seq<char>, got: Option<Seq<char>>) -> bool {
    match got {
        Some(v) => exists|k: int|
            0 <= k < attrs.len() && #[trigger] attrs[k] == (None::<Seq<char>>, name, v),
        None => forall|k: int|
            0 <= k < attrs.len() ==> !((#[trigger] attrs[k]).0 is None && attrs[k].1 == name),
    }
}

proof fn lemma_attr_of_names(attrs: Seq<AttrView>, name: Seq<char>)
    ensures
        names_attribute(attrs, name, attr_of(attrs, name)),
    decreases attrs.len(),
{
    if attrs.len() > 0 {
        let rest = attrs.drop_first();
        lemma_attr_of_names(rest, name);
        if attrs[0].0 is None && attrs[0].1 == name {
            assert(attrs[0] == (None::<Seq<char>>, name, attrs[0].2));
        } else {
            match attr_of(rest, name) {
                Some(v) => {
                    let k = choose|k: int|
                        0 <= k < rest.len() && #[trigger] rest[k] == (None::<Seq<char>>, name, v);
                    assert(attrs[k + 1] == rest[k]);
                },
                None => {
                    assert forall|k: int| 0 <= k < attrs.len() implies !((#[trigger] attrs[k]).0 is None
                        && attrs[k].1 == name) by {
                        if k > 0 {
                            assert(attrs[k] == rest[k - 1]);
                        }
                    }
                },
            }
        }
    }
}

/// A valid event's fields are the attributes of the root `event` element:
/// its uid and type are the trimmed values of the `uid` and `type`
/// attributes, and each of `how`, `time`, `start` and `stale` is the value
/// of the attribute of that same name, absent exactly when the attribute is.
pub proof fn lemma_event_fields_from_root(els: Seq<ElementView>)
    ensures
        cot_from_elements(els) matches CotOutcome::Valid(ev) ==> {
            let attrs = els[root_index(els)].attributes;
            &&& els[root_index(els)].name == "event"@
            &&& exists|u: Seq<char>|
                names_attribute(attrs, "uid"@, Some(u)) && #[trigger] trim(u) == ev.uid
            &&& exists|t: Seq<char>|
                names_attribute(attrs, "type"@, Some(t)) && #[trigger] trim(t) == ev.event_type
            &&& names_attribute(attrs, "how"@, ev.how)
            &&& names_attribute(attrs, "time"@, ev.time)
            &&& names_attribute(attrs, "start"@, ev.start)
            &&& names_attribute(attrs, "stale"@, ev.stale)
        },
{
    let attrs = els[root_index(els)].attributes;
    lemma_attr_of_names(attrs, "uid"@);
    lemma_attr_of_names(attrs, "type"@);
    lemma_attr_of_names(attrs, "how"@);
    lemma_attr_of_names(attrs, "time"@);
    lemma_attr_of_names(attrs, "start"@);
    lemma_attr_of_names(attrs, "stale"@);
    if cot_from_elements(els) is Valid {
        let u = attr_of(attrs, "uid"@)->0;
        let t = attr_of(attrs, "type"@)->0;
        assert(names_attribute(attrs, "uid"@, Some(u)) && trim(u) == trim(u));
        assert(names_attribute(attrs, "type"@, Some(t)) && trim(t) == trim(t));
    }
}

proof fn lemma_first_element(els: Seq<ElementView>, name: Seq<char>, parent: Option<usize>, i: int)
    requires
        0 <= i,
    ensures
        first_element_from(els, name, parent, i) matches Some(k) ==> i <= k < els.len()
            && els[k].name == name && (parent matches Some(p) ==> els[k].parent == Some(p)),
    decreases els.len() - i,
{
    if 0 <= i < els.len() && !(els[i].name == name && (parent is None || els[i].parent == parent)) {
        lemma_first_element(els, name, parent, i + 1);
    }
}

/// A valid event's callsign is the `callsign` attribute of a `contact`
/// element, and its point, when it has one, is read from a `point` element
/// whose parent is the root: latitude, longitude, height and errors are the
/// attributes of that element named `lat`, `lon`, `hae`, `ce` and `le`.
pub proof fn lemma_event_callsign_and_point(els: Seq<ElementView>)
    ensures
        cot_from_elements(els) matches CotOutcome::Valid(ev) ==> {
            &&& ev.callsign matches Some(c) ==> exists|k: int|
                0 <= k < els.len() && (#[trigger] els[k]).name == "contact"@ && names_attribute(
                    els[k].attributes,
                    "callsign"@,
                    Some(c),
                )
            &&& ev.point matches Some(p) ==> exists|k: int|
                0 <= k < els.len() && (#[trigger] els[k]).name == "point"@ && els[k].parent == Some(
                    els[root_index(els)].id,
                ) && names_attribute(els[k].attributes, "lat"@, p.lat) && names_attribute(
                    els[k].attributes,
                    "lon"@,
                    p.lon,
                ) && names_attribute(els[k].attributes, "hae"@, p.hae) && names_attribute(
                    els[k].attributes,
                    "ce"@,
                    p.ce,
                ) && names_attribute(els[k].attributes, "le"@, p.le)
        },
{
    lemma_first_element(els, "contact"@, None, 0);
    lemma_first_element(els, "point"@, Some(els[root_index(els)].id), 0);
    match first_element_from(els, "contact"@, None, 0) {
        Some(k) => lemma_attr_of_names(els[k].attributes, "callsign"@),
        None => {},
    }
    match first_element_from(els, "point"@, Some(els[root_index(els)].id), 0) {
        Some(k) => {
            lemma_attr_of_names(els[k].attributes, "lat"@);
            lemma_attr_of_names(els[k].attributes, "lon"@);
            lemma_attr_of_names(els[k].attributes, "hae"@);
            lemma_attr_of_names(els[k].attributes, "ce"@);
            lemma_attr_of_names(els[k].attributes, "le"@);
        },
        None => {},
    }
}

/// For a valid payload, the event's times and `how` are the attributes of
/// that same name of the root `event` element of the document the payload
/// holds.
pub proof fn lemma_payload_event_fields(payload: Seq<u8>)
    ensures
        cot_outcome(payload) matches CotOutcome::Valid(ev) ==> match utf8_text(payload) {
            Some(text) => match xml_document(text) {
                Ok(els) => {
                    let attrs = els[root_index(els)].attributes;
                    &&& els[root_index(els)].name == "event"@
                    &&& names_attribute(attrs, "how"@, ev.how)
                    &&& names_attribute(attrs, "time"@, ev.time)
                    &&& names_attribute(attrs, "start"@, ev.start)
                    &&& names_attribute(attrs, "stale"@, ev.stale)
                },
                Err(_) => false,
            },
            None => false,
        },
{
    match utf8_text(payload) {
        Some(text) => match xml_document(text) {
            Ok(els) => lemma_event_fields_from_root(els),
            Err(_) => {},
        },
        None => {},
    }
}

/// What validating a payload gives.
pub open spec fn cot_outcome(payload: Seq<u8>) -> CotOutcome {
    match utf8_text(payload) {
        None => CotOutcome::NotUtf8,
        Some(text) => match xml_document(text) {
            Err(m) => CotOutcome::Xml(m),
            Ok(els) => cot_from_elements(els),
        },
    }
}

/// Validates a UTF-8 Cursor-on-Target event and reads its fields.  A valid
/// event without a `point` element is still safe to forward.
///
/// The point's coordinates and error figures are kept here as the text of
/// their attributes: this does not check that they are numbers or in range.
/// That check is `check_point`, which takes the readings of those numbers
/// (whether each parses, and whether latitude and longitude are in range)
/// from the caller, since the numbers are floating point; a payload is
/// accepted only when both pass.
pub fn parse_cot_payload(payload: &[u8]) -> (r: Result<CotEvent, CotParseError>)
    ensures
        match r {
            Ok(e) => cot_outcome(payload@) == CotOutcome::Valid(event_view(e)),
            Err(e) => cot_outcome(payload@) == error_outcome(e),
        },
{
    let chars = match utf8_chars(payload) {
        Some(c) => c,
        None => return Err(CotParseError::NotUtf8),
    };
    let text = chars_to_string(&chars);
    let els = match parse_xml(text.as_str()) {
        Ok(v) => v,
        Err(m) => return Err(CotParseError::Xml(m)),
    };
    let ghost ev = elements_view(els@);
    let ri = find_root(&els);
    let root = &els[ri];
    assert(ev[ri as int] == element_view(els@[ri as int]));
    if !chars_eq_str(&str_chars(root.name.as_str()), "event") {
        return Err(CotParseError::WrongRoot);
    }
    let uid_raw = match find_attr(&root.attributes, "uid") {
        Some(v) => v,
        None => return Err(CotParseError::MissingAttribute("uid")),
    };
    let type_raw = match find_attr(&root.attributes, "type") {
        Some(v) => v,
        None => return Err(CotParseError::MissingAttribute("type")),
    };
    let uid = trim_chars(&str_chars(uid_raw.as_str()));
    let event_type = trim_chars(&str_chars(type_raw.as_str()));
    if uid.len() == 0 {
        return Err(CotParseError::MissingAttribute("uid"));
    }
    if event_type.len() == 0 {
        return Err(CotParseError::MissingAttribute("type"));
    }
    let point = match find_element(&els, "point", Some(root.id)) {
        Some(k) => {
            let p = &els[k];
            assert(ev[k as int] == element_view(els@[k as int]));
            Some(
                CotPointText {
                    lat: find_attr(&p.attributes, "lat"),
                    lon: find_attr(&p.attributes, "lon"),
                    hae: find_attr(&p.attributes, "hae"),
                    ce: find_attr(&p.attributes, "ce"),
                    le: find_attr(&p.attributes, "le"),
                },
            )
        },
        None => None,
    };
    let callsign = match find_element(&els, "contact", None) {
        Some(k) => {
            assert(ev[k as int] == element_view(els@[k as int]));
            find_attr(&els[k].attributes, "callsign")
        },
        None => None,
    };
    let ev_out = CotEvent {
        uid: chars_to_string(&uid),
        event_type: chars_to_string(&event_type),
        how: find_attr(&root.attributes, "how"),
        callsign,
        time: find_attr(&root.attributes, "time"),
        start: find_attr(&root.attributes, "start"),
        stale: find_attr(&root.attributes, "stale"),
        point,
    };
    Ok(ev_out)
}

/// How the number in one point attribute reads.  Numbers are read by the
/// caller (`str::parse::<f64>`); this library decides what follows.
#[derive(Debug, Clone, Copy, PartialEq, Eq, Structural)]
pub enum NumberCheck {
    /// Not a finite number.
    Invalid,
    /// A finite number, and whether it lies in the attribute's range
    /// (latitude -90 to 90, longitude -180 to 180, any value otherwise).
    Finite { in_range: bool },
}

/// The readings of the five point attributes; a reading is ignored when its
/// attribute is absent.
#[derive(Debug, Clone, Copy, PartialEq, Eq, Structural)]
pub struct PointChecks {
    pub lat: NumberCheck,
    pub lon: NumberCheck,
    pub hae: NumberCheck,
    pub ce: NumberCheck,
    pub le: NumberCheck,
}

/// Why a point is refused, if it is: `lat` and `lon` must be present finite
/// numbers (checked in that order), then in range, and `hae`, `ce`, `le`
/// finite when present.
pub open spec fn point_error(p: PointView, c: PointChecks) -> Option<CotOutcome> {
    if p.lat is None {
        Some(CotOutcome::Missing("lat"@))
    } else if c.lat is Invalid {
        Some(CotOutcome::InvalidNumber("lat"@))
    } else if p.lon is None {
        Some(CotOutcome::Missing("lon"@))
    } else if c.lon is Invalid {
        Some(CotOutcome::InvalidNumber("lon"@))
    } else if c.lat == (NumberCheck::Finite { in_range: false }) {
        Some(CotOutcome::InvalidCoordinate("lat"@))
    } else if c.lon == (NumberCheck::Finite { in_range: false }) {
        Some(CotOutcome::InvalidCoordinate("lon"@))
    } else if p.hae is Some && c.hae is Invalid {
        Some(CotOutcome::InvalidNumber("hae"@))
    } else if p.ce is Some && c.ce is Invalid {
        Some(CotOutcome::InvalidNumber("ce"@))
    } else if p.le is Some && c.le is Invalid {
        Some(CotOutcome::InvalidNumber("le"@))
    } else {
        None
    }
}

/// Checks a point against the readings of its numbers.
pub fn check_point(point: &CotPointText, checks: &PointChecks) -> (r: Result<(), CotParseError>)
    ensures
        match r {
            Ok(()) => point_error(point_view(*point), *checks) is None,
            Err(e) => point_error(point_view(*point), *checks) == Some(error_outcome(e)),
        },
{
    if point.lat.is_none() {
        return Err(CotParseError::MissingAttribute("lat"));
    }
    if checks.lat == NumberCheck::Invalid {
        return Err(CotParseError::InvalidNumber("lat"));
    }
    if point.lon.is_none() {
        return Err(CotParseError::MissingAttribute("lon"));
    }
    if checks.lon == NumberCheck::Invalid {
        return Err(CotParseError::InvalidNumber("lon"));
    }
    if checks.lat == (NumberCheck::Finite { in_range: false }) {
        return Err(CotParseError::InvalidCoordinate("lat"));
    }
    if checks.lon == (NumberCheck::Finite { in_range: false }) {
        return Err(CotParseError::InvalidCoordinate("lon"));
    }
    if point.hae.is_some() && checks.hae == NumberCheck::Invalid {
        return Err(CotParseError::InvalidNumber("hae"));
    }
    if point.ce.is_some() && checks.ce == NumberCheck::Invalid {
        return Err(CotParseError::InvalidNumber("ce"));
    }
    if point.le.is_some() && checks.le == NumberCheck::Invalid {
        return Err(CotParseError::InvalidNumber("le"));
    }
    Ok(())
}

// ---------------------------------------------------------------------------
// Location state
// ---------------------------------------------------------------------------

/// Records kept by default.
pub const DEFAULT_MAX_LOCATION_RECORDS: usize = 512;

/// How long a location record is kept by default, in milliseconds.
pub const DEFAULT_RECORD_RETENTION_MS: u64 = 3_600_000;

/// Where a packet came from.
#[derive(Debug, Clone, Copy, PartialEq, Eq, Hash, Structural)]
pub enum PacketSource {
    LocalUdp,
    RemoteReticulum,
}

/// The latest known location of one CoT UID from one source.  `P` is the
/// decoded point.
#[derive(Debug, Clone)]
pub struct LocationRecord<P> {
    pub uid: String,
    pub event_type: String,
    pub how: Option<String>,
    pub callsign: Option<String>,
    pub point: P,
    pub source: PacketSource,
    pub channel_port: u16,
    /// Observation time in milliseconds since the Unix epoch.
    pub updated_at_ms: u64,
}

/// Recent locations, keyed by (source, UID), bounded in number and age.
pub struct LocationState<P> {
    records: Vec<LocationRecord<P>>,
    max_records: usize,
    retention_ms: u64,
}

/// A record is still kept at time `now`.
pub open spec fn is_fresh<P>(r: LocationRecord<P>, now: u64, retention: u64) -> bool {
    now - r.updated_at_ms <= retention
}

/// The records that are still kept at time `now`, in order.
pub open spec fn keep_fresh<P>(recs: Seq<LocationRecord<P>>, now: u64, retention: u64) -> Seq<
    LocationRecord<P>,
>
    decreases recs.len(),
{
    if recs.len() == 0 {
        recs
    } else {
        let rest = keep_fresh(recs.drop_last(), now, retention);
        if is_fresh(recs.last(), now, retention) {
            rest.push(recs.last())
        } else {
            rest
        }
    }
}

/// The record has the key (source, uid).
pub open spec fn has_key<P>(r: LocationRecord<P>, source: PacketSource, uid: Seq<char>) -> bool {
    r.source == source && r.uid@ == uid
}

/// Index of the first record with the key, at or after `i`.
pub open spec fn key_index_from<P>(
    recs: Seq<LocationRecord<P>>,
    source: PacketSource,
    uid: Seq<char>,
    i: int,
) -> Option<int>
    decreases recs.len() - i,
{
    if i < 0 || i >= recs.len() {
        None
    } else if has_key(recs[i], source, uid) {
        Some(i)
    } else {
        key_index_from(recs, source, uid, i + 1)
    }
}

/// The records with `r` stored under its key (replacing the old one).
pub open spec fn upsert<P>(recs: Seq<LocationRecord<P>>, r: LocationRecord<P>) -> Seq<
    LocationRecord<P>,
> {
    match key_index_from(recs, r.source, r.uid@, 0) {
        Some(k) => recs.update(k, r),
        None => recs.push(r),
    }
}

/// Index of the first record with the smallest timestamp, searching from `i`
/// with `best` the best index so far.
pub open spec fn oldest_from<P>(recs: Seq<LocationRecord<P>>, best: int, i: int) -> int
    decreases recs.len() - i,
{
    if i < 0 || i >= recs.len() {
        best
    } else if recs[i].updated_at_ms < recs[best].updated_at_ms {
        oldest_from(recs, i, i + 1)
    } else {
        oldest_from(recs, best, i + 1)
    }
}

/// The records after one is recorded at `now` into a state of at most `max`
/// records: stale ones dropped, the new one stored, and the oldest removed
/// when the bound is exceeded.
pub open spec fn after_record<P>(
    recs: Seq<LocationRecord<P>>,
    r: LocationRecord<P>,
    now: u64,
    retention: u64,
    max: nat,
) -> Seq<LocationRecord<P>> {
    let stored = upsert(keep_fresh(recs, now, retention), r);
    if stored.len() > max {
        stored.remove(oldest_from(stored, 0, 1))
    } else {
        stored
    }
}

/// Every key occurs at most once.
pub open spec fn unique_keys<P>(recs: Seq<LocationRecord<P>>) -> bool {
    forall|i: int, j: int|
        0 <= i < recs.len() && 0 <= j < recs.len() && i != j ==> !has_key(
            recs[j],
            recs[i].source,
            recs[i].uid@,
        )
}

proof fn lemma_keep_fresh_from<P>(recs: Seq<LocationRecord<P>>, now: u64, retention: u64)
    ensures
        keep_fresh(recs, now, retention).len() <= recs.len(),
        forall|i: int|
            0 <= i < keep_fresh(recs, now, retention).len() ==> exists|j: int|
                0 <= j < recs.len() && #[trigger] keep_fresh(recs, now, retention)[i] == recs[j],
        unique_keys(recs) ==> unique_keys(keep_fresh(recs, now, retention)),
    decreases recs.len(),
{
    if recs.len() > 0 {
        let d = recs.drop_last();
        lemma_keep_fresh_from(d, now, retention);
        let rest = keep_fresh(d, now, retention);
        let kf = keep_fresh(recs, now, retention);
        assert forall|i: int| 0 <= i < kf.len() implies exists|j: int|
            0 <= j < recs.len() && #[trigger] kf[i] == recs[j] by {
            if i < rest.len() {
                let j = choose|j: int| 0 <= j < d.len() && rest[i] == d[j];
                assert(kf[i] == recs[j]);
            } else {
                assert(kf[i] == recs[recs.len() - 1]);
            }
        }
        if unique_keys(recs) {
            assert(unique_keys(d)) by {
                assert forall|i: int, j: int|
                    0 <= i < d.len() && 0 <= j < d.len() && i != j implies !has_key(
                    d[j],
                    d[i].source,
                    d[i].uid@,
                ) by {
                    assert(d[i] == recs[i] && d[j] == recs[j]);
                }
            }
            if is_fresh(recs.last(), now, retention) {
                assert forall|i: int, j: int|
                    0 <= i < kf.len() && 0 <= j < kf.len() && i != j implies !has_key(
                    kf[j],
                    kf[i].source,
                    kf[i].uid@,
                ) by {
                    let last = recs.len() - 1;
                    if i < rest.len() && j < rest.len() {
                    } else if i < rest.len() {
                        let a = choose|a: int| 0 <= a < d.len() && rest[i] == d[a];
                        assert(kf[i] == recs[a]);
                        assert(kf[j] == recs[last]);
                    } else if j < rest.len() {
                        let b = choose|b: int| 0 <= b < d.len() && rest[j] == d[b];
                        assert(kf[j] == recs[b]);
                        assert(kf[i] == recs[last]);
                    }
                }
            }
        }
    }
}

proof fn lemma_key_index<P>(
    recs: Seq<LocationRecord<P>>,
    source: PacketSource,
    uid: Seq<char>,
    i: int,
)
    requires
        0 <= i,
    ensures
        key_index_from(recs, source, uid, i) matches Some(k) ==> i <= k < recs.len() && has_key(
            recs[k],
            source,
            uid,
        ),
        key_index_from(recs, source, uid, i) is None ==> forall|k: int|
            i <= k < recs.len() ==> !has_key(#[trigger] recs[k], source, uid),
    decreases recs.len() - i,
{
    if i < recs.len() && !has_key(recs[i], source, uid) {
        lemma_key_index(recs, source, uid, i + 1);
    }
}

/// Storing a record touches no record under another key: in particular a
/// location from one source never replaces one from the other source, and
/// the stored record is there afterwards.
pub proof fn lemma_upsert_keeps_other_keys<P>(
    recs: Seq<LocationRecord<P>>,
    r: LocationRecord<P>,
    x: LocationRecord<P>,
)
    requires
        recs.contains(x),
        !has_key(x, r.source, r.uid@),
    ensures
        upsert(recs, r).contains(x),
        upsert(recs, r).contains(r),
{
    lemma_key_index(recs, r.source, r.uid@, 0);
    let j = choose|j: int| 0 <= j < recs.len() && recs[j] == x;
    match key_index_from(recs, r.source, r.uid@, 0) {
        Some(k) => {
            assert(j != k);
            assert(upsert(recs, r)[j] == x);
            assert(upsert(recs, r)[k] == r);
        },
        None => {
            assert(upsert(recs, r)[j] == x);
            assert(upsert(recs, r)[recs.len() as int] == r);
        },
    }
}

proof fn lemma_oldest<P>(recs: Seq<LocationRecord<P>>, best: int, i: int)
    requires
        0 <= best < recs.len(),
        0 <= i,
    ensures
        0 <= oldest_from(recs, best, i) < recs.len(),
    decreases recs.len() - i,
{
    if i < recs.len() {
        if recs[i].updated_at_ms < recs[best].updated_at_ms {
            lemma_oldest(recs, i, i + 1);
        } else {
            lemma_oldest(recs, best, i + 1);
        }
    }
}

/// The search for the oldest record ends on a record no newer than any
/// other.
proof fn lemma_oldest_is_oldest<P>(recs: Seq<LocationRecord<P>>, best: int, i: int)
    requires
        0 <= best < recs.len(),
        0 <= i,
        best < i || recs.len() <= i || best == 0,
        forall|j: int| 0 <= j < i && j < recs.len() ==> recs[best].updated_at_ms <= #[trigger] recs[j].updated_at_ms,
    ensures
        forall|j: int|
            0 <= j < recs.len() ==> recs[oldest_from(recs, best, i)].updated_at_ms
                <= #[trigger] recs[j].updated_at_ms,
    decreases recs.len() - i,
{
    if i < recs.len() {
        if recs[i].updated_at_ms < recs[best].updated_at_ms {
            lemma_oldest_is_oldest(recs, i, i + 1);
        } else {
            lemma_oldest_is_oldest(recs, best, i + 1);
        }
    }
}

/// Recording keeps the state bounded: afterwards there are at most `max`
/// records, each key at most once.  When the bound is exceeded the record
/// removed is one with the oldest update time, and every other record is
/// kept; records under another key than the new one (the same UID from the
/// other source among them) are never replaced.
pub proof fn lemma_record_bounded<P>(
    recs: Seq<LocationRecord<P>>,
    r: LocationRecord<P>,
    now: u64,
    retention: u64,
    max: nat,
)
    requires
        max >= 1,
        recs.len() <= max,
        unique_keys(recs),
    ensures
        after_record(recs, r, now, retention, max).len() <= max,
        ({
            let stored = upsert(keep_fresh(recs, now, retention), r);
            let k = oldest_from(stored, 0, 1);
            &&& stored.contains(r)
            &&& stored.len() <= max ==> after_record(recs, r, now, retention, max) == stored
            &&& stored.len() > max ==> {
                &&& 0 <= k < stored.len()
                &&& after_record(recs, r, now, retention, max) == stored.remove(k)
                &&& forall|j: int|
                    0 <= j < stored.len() ==> stored[k].updated_at_ms
                        <= #[trigger] stored[j].updated_at_ms
            }
            &&& forall|x: LocationRecord<P>|
                keep_fresh(recs, now, retention).contains(x) && !has_key(x, r.source, r.uid@)
                    ==> #[trigger] stored.contains(x)
        }),
{
    let fresh = keep_fresh(recs, now, retention);
    lemma_keep_fresh_from(recs, now, retention);
    lemma_key_index(fresh, r.source, r.uid@, 0);
    let stored = upsert(fresh, r);
    match key_index_from(fresh, r.source, r.uid@, 0) {
        Some(k) => {
            assert(stored[k] == r);
        },
        None => {
            assert(stored[fresh.len() as int] == r);
        },
    }
    assert(stored.len() <= fresh.len() + 1);
    if stored.len() > max {
        lemma_oldest(stored, 0, 1);
        lemma_oldest_is_oldest(stored, 0, 1);
    }
    assert forall|x: LocationRecord<P>|
        fresh.contains(x) && !has_key(x, r.source, r.uid@) implies #[trigger] stored.contains(x) by {
        lemma_upsert_keeps_other_keys(fresh, r, x);
    }
}

fn copy_opt_string(o: &Option<String>) -> (r: Option<String>)
    ensures
        r == *o,
{
    match o {
        Some(s) => Some(s.clone()),
        None => None,
    }
}

fn copy_record<P: Copy>(r: &LocationRecord<P>) -> (c: LocationRecord<P>)
    ensures
        c == *r,
{
    LocationRecord {
        uid: r.uid.clone(),
        event_type: r.event_type.clone(),
        how: copy_opt_string(&r.how),
        callsign: copy_opt_string(&r.callsign),
        point: r.point,
        source: r.source,
        channel_port: r.channel_port,
        updated_at_ms: r.updated_at_ms,
    }
}

impl<P: Copy> LocationState<P> {
    /// The stored records, oldest insertion first.
    pub closed spec fn records(&self) -> Seq<LocationRecord<P>> {
        self.records@
    }

    /// The bound on the number of records.
    pub closed spec fn max_records(&self) -> nat {
        self.max_records as nat
    }

    /// How long records are kept, in milliseconds.
    pub closed spec fn retention_ms(&self) -> u64 {
        self.retention_ms
    }

    /// The invariant, in terms of the public model.
    pub open spec fn wf(&self) -> bool {
        &&& self.max_records() >= 1
        &&& self.records().len() <= self.max_records()
        &&& unique_keys(self.records())
    }

    /// An empty state that keeps at most `max_records` (at least one) records
    /// for `retention_ms` milliseconds.
    pub fn new(max_records: usize, retention_ms: u64) -> (s: Self)
        ensures
            s.wf(),
            s.records().len() == 0,
            s.max_records() == if max_records >= 1 {
                max_records as nat
            } else {
                1
            },
            s.retention_ms() == retention_ms,
    {
        LocationState {
            records: Vec::new(),
            max_records: if max_records >= 1 {
                max_records
            } else {
                1
            },
            retention_ms,
        }
    }

    /// The state with the default bound and retention.
    pub fn with_defaults() -> (s: Self)
        ensures
            s.wf(),
            s.records().len() == 0,
            s.max_records() == DEFAULT_MAX_LOCATION_RECORDS as nat,
            s.retention_ms() == DEFAULT_RECORD_RETENTION_MS,
    {
        Self::new(DEFAULT_MAX_LOCATION_RECORDS, DEFAULT_RECORD_RETENTION_MS)
    }

    fn prune(&mut self, now_ms: u64)
        requires
            old(self).wf(),
        ensures
            final(self).wf(),
            final(self).records() == keep_fresh(old(self).records(), now_ms, old(self).retention_ms()),
            final(self).max_records() == old(self).max_records(),
            final(self).retention_ms() == old(self).retention_ms(),
    {
        let ghost old_recs = self.records@;
        let mut kept: Vec<LocationRecord<P>> = Vec::new();
        let mut i: usize = 0;
        while i < self.records.len()
            invariant
                i <= self.records.len(),
                self.records@ == old_recs,
                kept@ == keep_fresh(old_recs.take(i as int), now_ms, self.retention_ms),
            decreases self.records.len() - i,
        {
            assert(old_recs.take(i + 1).drop_last() =~= old_recs.take(i as int));
            let r = &self.records[i];
            if now_ms < r.updated_at_ms || now_ms - r.updated_at_ms <= self.retention_ms {
                kept.push(copy_record(r));
            }
            i += 1;
        }
        assert(old_recs.take(old_recs.len() as int) =~= old_recs);
        proof {
            lemma_keep_fresh_from(old_recs, now_ms, self.retention_ms);
        }
        self.records = kept;
    }

    /// Records the location of a valid CoT event at `now_ms`.  An event
    /// without a point records nothing and yields `None`; otherwise the new
    /// record is stored under (source, UID), replacing an older one, stale
    /// records are dropped and, past the bound, the oldest record is removed.
    pub fn record(
        &mut self,
        source: PacketSource,
        channel_port: u16,
        event: &CotEvent,
        point: Option<P>,
        now_ms: u64,
    ) -> (r: Option<LocationRecord<P>>)
        requires
            old(self).wf(),
        ensures
            final(self).wf(),
            final(self).max_records() == old(self).max_records(),
            final(self).retention_ms() == old(self).retention_ms(),
            point is None ==> r is None && final(self).records() == old(self).records(),
            point matches Some(p) ==> r matches Some(rec) && rec.uid == event.uid && rec.event_type
                == event.event_type && rec.how == event.how && rec.callsign == event.callsign
                && rec.point == p && rec.source == source && rec.channel_port == channel_port
                && rec.updated_at_ms == now_ms && final(self).records() == after_record(
                old(self).records(),
                rec,
                now_ms,
                old(self).retention_ms(),
                old(self).max_records(),
            ),
    {
        let p = match point {
            Some(p) => p,
            None => return None,
        };
        let record = LocationRecord {
            uid: event.uid.clone(),
            event_type: event.event_type.clone(),
            how: copy_opt_string(&event.how),
            callsign: copy_opt_string(&event.callsign),
            point: p,
            source,
            channel_port,
            updated_at_ms: now_ms,
        };
        self.prune(now_ms);
        let ghost fresh = self.records@;
        let uid = str_chars(record.uid.as_str());
        let mut found: Option<usize> = None;
        let mut i: usize = 0;
        while i < self.records.len()
            invariant_except_break
                found is None,
                key_index_from(fresh, source, uid@, 0) == key_index_from(
                    fresh,
                    source,
                    uid@,
                    i as int,
                ),
            invariant
                i <= self.records.len(),
                self.records@ == fresh,
                uid@ == record.uid@,
            ensures
                match found {
                    Some(k) => key_index_from(fresh, source, uid@, 0) == Some(k as int),
                    None => key_index_from(fresh, source, uid@, 0) is None,
                },
            decreases self.records.len() - i,
        {
            let r = &self.records[i];
            if r.source == source && chars_eq(&str_chars(r.uid.as_str()), &uid) {
                found = Some(i);
                break;
            }
            i += 1;
        }
        proof {
            lemma_key_index(fresh, source, uid@, 0);
        }
        let copy = copy_record(&record);
        match found {
            Some(k) => {
                self.records.set(k, copy);
            },
            None => {
                self.records.push(copy);
            },
        }
        let ghost stored = self.records@;
        assert(stored == upsert(fresh, record));
        proof {
            assert(unique_keys(stored)) by {
                assert forall|a: int, b: int|
                    0 <= a < stored.len() && 0 <= b < stored.len() && a != b implies !has_key(
                    stored[b],
                    stored[a].source,
                    stored[a].uid@,
                ) by {
                    match found {
                        Some(k) => {
                            if a == k as int {
                                assert(!has_key(fresh[b], fresh[k as int].source, fresh[k as int].uid@));
                            } else if b == k as int {
                                assert(!has_key(fresh[k as int], fresh[a].source, fresh[a].uid@));
                            }
                        },
                        None => {
                            if a == fresh.len() {
                                assert(!has_key(fresh[b], source, uid@));
                            } else if b == fresh.len() {
                                assert(!has_key(fresh[a], source, uid@));
                            }
                        },
                    }
                }
            }
        }
        if self.records.len() > self.max_records {
            let mut best: usize = 0;
            let mut j: usize = 1;
            while j < self.records.len()
                invariant
                    1 <= j <= self.records.len(),
                    best < self.records.len(),
                    self.records@ == stored,
                    oldest_from(stored, 0, 1) == oldest_from(stored, best as int, j as int),
                decreases self.records.len() - j,
            {
                if self.records[j].updated_at_ms < self.records[best].updated_at_ms {
                    best = j;
                }
                j += 1;
            }
            self.records.remove(best);
            proof {
                assert forall|a: int, b: int|
                    0 <= a < self.records@.len() && 0 <= b < self.records@.len() && a != b
                    implies !has_key(
                    self.records@[b],
                    self.records@[a].source,
                    self.records@[a].uid@,
                ) by {
                    let a2 = if a < best {
                        a
                    } else {
                        a + 1
                    };
                    let b2 = if b < best {
                        b
                    } else {
                        b + 1
                    };
                    assert(self.records@[a] == stored[a2]);
                    assert(self.records@[b] == stored[b2]);
                }
            }
        }
        Some(record)
    }

    /// The number of records still kept at `now_ms` (stale ones are dropped).
    pub fn len(&mut self, now_ms: u64) -> (n: usize)
        requires
            old(self).wf(),
        ensures
            final(self).wf(),
            final(self).records() == keep_fresh(old(self).records(), now_ms, old(self).retention_ms()),
            final(self).max_records() == old(self).max_records(),
            final(self).retention_ms() == old(self).retention_ms(),
            n == final(self).records().len(),
    {
        self.prune(now_ms);
        self.records.len()
    }

    /// The record stored under (source, uid), if any.
    pub fn get(&self, source: PacketSource, uid: &str) -> (r: Option<LocationRecord<P>>)
        requires
            self.wf(),
        ensures
            match key_index_from(self.records(), source, uid@, 0) {
                Some(k) => r == Some(self.records()[k]),
                None => r is None,
            },
    {
        let uid_chars = str_chars(uid);
        let mut i: usize = 0;
        while i < self.records.len()
            invariant
                i <= self.records.len(),
                uid_chars@ == uid@,
                key_index_from(self.records@, source, uid@, 0) == key_index_from(
                    self.records@,
                    source,
                    uid@,
                    i as int,
                ),
            decreases self.records.len() - i,
        {
            let r = &self.records[i];
            if r.source == source && chars_eq(&str_chars(r.uid.as_str()), &uid_chars) {
                return Some(copy_record(r));
            }
            i += 1;
        }
        None
    }
}

impl<P: Copy> Default for LocationState<P> {
    /// The state with the default bound and retention.
    fn default() -> (s: Self)
        ensures
            s.wf(),
            s.records().len() == 0,
            s.max_records() == DEFAULT_MAX_LOCATION_RECORDS as nat,
            s.retention_ms() == DEFAULT_RECORD_RETENTION_MS,
    {
        Self::with_defaults()
    }
}

} // verus!
