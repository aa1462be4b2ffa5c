//! XML documents as plain values: the nodes that the XML parser reports, in
//! document order, and the element tree built from them.

use crate::text::clone_text;
use vstd::prelude::*;

verus! {

/// An attribute of an element: namespace, local name and value.
pub struct XmlAttribute {
    pub namespace: Option<String>,
    pub name: String,
    pub value: String,
}

pub struct XmlAttributeModel {
    pub namespace: Option<Seq<char>>,
    pub name: Seq<char>,
    pub value: Seq<char>,
}

impl View for XmlAttribute {
    type V = XmlAttributeModel;

    open spec fn view(&self) -> XmlAttributeModel {
        XmlAttributeModel {
            namespace: self.namespace.deep_view(),
            name: self.name@,
            value: self.value@,
        }
    }
}

/// One node of a parsed document. `parent` is the position of the parent
/// node in document order; the document's root node has none.
pub struct XmlNode {
    pub parent: Option<usize>,
    pub is_element: bool,
    pub namespace: Option<String>,
    pub name: String,
    pub text: Option<String>,
    pub attributes: Vec<XmlAttribute>,
}

pub struct XmlNodeModel {
    pub parent: Option<usize>,
    pub is_element: bool,
    pub namespace: Option<Seq<char>>,
    pub name: Seq<char>,
    pub text: Option<Seq<char>>,
    pub attributes: Seq<XmlAttributeModel>,
}

impl View for XmlNode {
    type V = XmlNodeModel;

    open spec fn view(&self) -> XmlNodeModel {
        XmlNodeModel {
            parent: self.parent,
            is_element: self.is_element,
            namespace: self.namespace.deep_view(),
            name: self.name@,
            text: self.text.deep_view(),
            attributes: self.attributes@.map_values(|a: XmlAttribute| a@),
        }
    }
}

/// An element with its attributes, its text (that of its first child when
/// that child is text) and its child elements in document order.
pub struct XmlElement {
    pub namespace: Option<String>,
    pub name: String,
    pub attributes: Vec<XmlAttribute>,
    pub text: Option<String>,
    pub children: Vec<XmlElement>,
}

pub struct XmlElementModel {
    pub namespace: Option<Seq<char>>,
    pub name: Seq<char>,
    pub attributes: Seq<XmlAttributeModel>,
    pub text: Option<Seq<char>>,
    pub children: Seq<XmlElementModel>,
}

pub open spec fn element_model(e: XmlElement) -> XmlElementModel
    decreases e,
{
    XmlElementModel {
        namespace: e.namespace.deep_view(),
        name: e.name@,
        attributes: e.attributes@.map_values(|a: XmlAttribute| a@),
        text: e.text.deep_view(),
        children: Seq::new(
            e.children@.len(),
            |i: int|
                if 0 <= i < e.children@.len() {
                    element_model(e.children@[i])
                } else {
                    arbitrary()
                },
        ),
    }
}

impl View for XmlElement {
    type V = XmlElementModel;

    open spec fn view(&self) -> XmlElementModel {
        element_model(*self)
    }
}

pub open spec fn nodes_model(nodes: Seq<XmlNode>) -> Seq<XmlNodeModel> {
    nodes.map_values(|n: XmlNode| n@)
}

/// The element at position `i`, with the elements whose parent it is as
/// children.
pub open spec fn element_at(ns: Seq<XmlNodeModel>, i: int) -> XmlElementModel
    decreases ns.len() - i, 1int,
{
    XmlElementModel {
        namespace: ns[i].namespace,
        name: ns[i].name,
        attributes: ns[i].attributes,
        text: ns[i].text,
        children: if i < ns.len() {
            child_elements(ns, i, i + 1)
        } else {
            Seq::empty()
        },
    }
}

/// The child elements of node `i` among the nodes from position `j` on.
pub open spec fn child_elements(ns: Seq<XmlNodeModel>, i: int, j: int) -> Seq<XmlElementModel>
    decreases ns.len() - j, 2int,
{
    if j < 0 || j >= ns.len() {
        Seq::empty()
    } else if ns[j].parent == Some(i as usize) && ns[j].is_element && 0 <= i {
        seq![element_at(ns, j)] + child_elements(ns, i, j + 1)
    } else {
        child_elements(ns, i, j + 1)
    }
}

/// Position of the first element whose parent is the document's root node.
pub open spec fn root_element_index(ns: Seq<XmlNodeModel>, j: int) -> Option<int>
    decreases ns.len() - j,
{
    if j < 0 || j >= ns.len() {
        None
    } else if ns[j].parent == Some(0usize) && ns[j].is_element {
        Some(j)
    } else {
        root_element_index(ns, j + 1)
    }
}

/// The root element of a document given by its nodes.
pub open spec fn root_element_of(ns: Seq<XmlNodeModel>) -> Option<XmlElementModel> {
    match root_element_index(ns, 1) {
        Some(k) => Some(element_at(ns, k)),
        None => None,
    }
}

/// The nodes that the XML parser reports for a text, in document order, or
/// none when the text is not a well-formed document.
pub uninterp spec fn xml_nodes_of(text: Seq<char>) -> Option<Seq<XmlNodeModel>>;

/// Relies on `roxmltree::Document::parse` to parse the text, and on its node
/// accessors to read each node of `Document::descendants` (document order,
/// starting with the root node); a parent is given by `NodeId::get_usize`,
/// which is the node's position in that order.
#[verifier::external_body]
fn parse_xml_nodes(text: &str) -> (r: Option<Vec<XmlNode>>)
    ensures
        r is Some ==> xml_nodes_of(text@) == Some(nodes_model(r->Some_0@)),
        r is None ==> xml_nodes_of(text@) is None,
{
    let doc = roxmltree::Document::parse(text).ok()?;
    Some(doc.descendants().map(|n| XmlNode {
        parent: n.parent().map(|p| p.id().get_usize()),
        is_element: n.is_element(),
        namespace: n.tag_name().namespace().map(String::from),
        name: n.tag_name().name().to_string(),
        text: n.text().map(String::from),
        attributes: n.attributes().map(|a| XmlAttribute {
            namespace: a.namespace().map(String::from),
            name: a.name().to_string(),
            value: a.value().to_string(),
        }).collect(),
    }).collect())
}

/// The root element of the document that a text holds.
pub open spec fn document_root(text: Seq<char>) -> Option<XmlElementModel> {
    match xml_nodes_of(text) {
        Some(ns) => root_element_of(ns),
        None => None,
    }
}

/// Parses a text into its root element; `None` when the text is not a
/// well-formed document.
pub fn parse_document(text: &str) -> (r: Option<XmlElement>)
    ensures
        r is Some <==> document_root(text@) is Some,
        r is Some ==> document_root(text@) == Some(r->Some_0@),
{
    match parse_xml_nodes(text) {
        Some(nodes) => root_element(&nodes),
        None => None,
    }
}

/// The root element of a document given by its nodes in document order:
/// the first element whose parent is the document's root node.
pub fn root_element(nodes: &Vec<XmlNode>) -> (r: Option<XmlElement>)
    ensures
        r is Some <==> root_element_of(nodes_model(nodes@)) is Some,
        r is Some ==> root_element_of(nodes_model(nodes@)) == Some(r->Some_0@),
{
    let ghost ns = nodes_model(nodes@);
    let len = nodes.len();
    let mut j: usize = 1;
    while j < len
        invariant
            ns == nodes_model(nodes@),
            len == nodes@.len(),
            1 <= j,
            root_element_index(ns, 1) == root_element_index(ns, j as int),
        decreases len - j,
    {
        proof {
            assert(ns[j as int] == nodes@[j as int]@);
        }
        let under_root = match nodes[j].parent {
            Some(p) => p == 0,
            None => false,
        };
        if nodes[j].is_element && under_root {
            let e = build_element(nodes, j);
            return Some(e);
        }
        j = j + 1;
    }
    None
}

pub fn build_element(nodes: &Vec<XmlNode>, i: usize) -> (r: XmlElement)
    requires
        i < nodes@.len(),
    ensures
        r@ == element_at(nodes_model(nodes@), i as int),
    decreases nodes@.len() - i,
{
    let ghost ns = nodes_model(nodes@);
    let mut children: Vec<XmlElement> = Vec::new();
    let len = nodes.len();
    let mut j: usize = i + 1;
    while j < len
        invariant
            ns == nodes_model(nodes@),
            len == nodes@.len(),
            i < j <= nodes@.len(),
            children@.map_values(|c: XmlElement| c@) + child_elements(ns, i as int, j as int)
                == child_elements(ns, i as int, i + 1),
        decreases nodes@.len() - j,
    {
        let n = &nodes[j];
        let under_i = match n.parent {
            Some(p) => p == i,
            None => false,
        };
        if n.is_element && under_i {
            let c = build_element(nodes, j);
            proof {
                assert(children@.push(c).map_values(|c: XmlElement| c@) =~= children@.map_values(
                    |c: XmlElement| c@,
                ).push(c@));
            }
            children.push(c);
            proof {
                let cm = children@.map_values(|c: XmlElement| c@);
                assert(cm + child_elements(ns, i as int, j + 1) =~= cm.drop_last() + child_elements(
                    ns,
                    i as int,
                    j as int,
                ));
            }
        }
        j = j + 1;
    }
    let n = &nodes[i];
    let r = XmlElement {
        namespace: clone_text(&n.namespace),
        name: n.name.clone(),
        attributes: clone_attributes(&n.attributes),
        text: clone_text(&n.text),
        children,
    };
    proof {
        assert(children@.map_values(|c: XmlElement| c@) =~= child_elements(ns, i as int, i + 1));
        assert(r@.children =~= children@.map_values(|c: XmlElement| c@));
    }
    r
}

fn clone_attributes(attrs: &Vec<XmlAttribute>) -> (r: Vec<XmlAttribute>)
    ensures
        r@.map_values(|a: XmlAttribute| a@) == attrs@.map_values(|a: XmlAttribute| a@),
{
    let mut r: Vec<XmlAttribute> = Vec::new();
    let mut k: usize = 0;
    while k < attrs.len()
        invariant
            k <= attrs@.len(),
            r@.map_values(|a: XmlAttribute| a@) =~= attrs@.take(k as int).map_values(
                |a: XmlAttribute| a@,
            ),
        decreases attrs@.len() - k,
    {
        let a = &attrs[k];
        let c = XmlAttribute {
            namespace: clone_text(&a.namespace),
            name: a.name.clone(),
            value: a.value.clone(),
        };
        let ghost before = r@;
        r.push(c);
        proof {
            assert(attrs@.take(k + 1) =~= attrs@.take(k as int).push(attrs@[k as int]));
            assert(r@ =~= before.push(c));
            assert(r@.map_values(|a: XmlAttribute| a@) =~= before.map_values(|a: XmlAttribute| a@).push(c@));
            assert(attrs@.take(k + 1).map_values(|a: XmlAttribute| a@) =~= attrs@.take(k as int).map_values(|a: XmlAttribute| a@).push(attrs@[k as int]@));
        }
        k = k + 1;
    }
    proof {
        assert(attrs@.take(k as int) =~= attrs@);
    }
    r
}

} // verus!
