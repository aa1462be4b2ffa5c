//! Parsing of fixture documents into test cases.

use crate::model::{
    components_model, lemma_sort_by_name_sorted, opt_value_model, sort_by_name, sort_components, Component, ComponentModel,
    InputNode, InputNodeModel, List, ResultNode, ResultNodeModel, Simple, TestCase,
    TestCaseModel, TestCaseType, TestCases, TestCasesModel, Value, ValueModel, type_of_opt_text,
};
use crate::text::{clone_text, name_le, text_equal};
use crate::xml::{document_root, parse_document, XmlAttributeModel, XmlElement, XmlElementModel};
use vstd::prelude::*;

verus! {

/// Why a fixture could not be parsed.
#[derive(Debug)]
pub enum ParseError {
    /// The text is not a well-formed XML document.
    MalformedDocument,
    /// The root element is not `testCases`.
    UnexpectedRootElement { found: String },
    /// A mandatory attribute is missing from an element.
    MissingAttribute { attribute: String, element: String },
    /// A mandatory text is missing from an element.
    MissingContent { element: String },
}

pub enum ParseErrorModel {
    MalformedDocument,
    UnexpectedRootElement { found: Seq<char> },
    MissingAttribute { attribute: Seq<char>, element: Seq<char> },
    MissingContent { element: Seq<char> },
}

impl View for ParseError {
    type V = ParseErrorModel;

    open spec fn view(&self) -> ParseErrorModel {
        match self {
            ParseError::MalformedDocument => ParseErrorModel::MalformedDocument,
            ParseError::UnexpectedRootElement { found } => ParseErrorModel::UnexpectedRootElement {
                found: found@,
            },
            ParseError::MissingAttribute { attribute, element } => ParseErrorModel::MissingAttribute {
                attribute: attribute@,
                element: element@,
            },
            ParseError::MissingContent { element } => ParseErrorModel::MissingContent {
                element: element@,
            },
        }
    }
}

/// Namespace of the schema-instance attributes `type` and `nil`.
pub open spec fn xsi() -> Seq<char> {
    "http://www.w3.org/2001/XMLSchema-instance"@
}

/// Value of the first attribute with the given namespace and local name, from
/// position `k` on.
pub open spec fn attribute_from(
    attrs: Seq<XmlAttributeModel>,
    ns: Option<Seq<char>>,
    name: Seq<char>,
    k: int,
) -> Option<Seq<char>>
    decreases attrs.len() - k,
{
    if k < 0 || k >= attrs.len() {
        None
    } else if attrs[k].namespace == ns && attrs[k].name == name {
        Some(attrs[k].value)
    } else {
        attribute_from(attrs, ns, name, k + 1)
    }
}

/// Value of an attribute without namespace.
pub open spec fn attribute_of(e: XmlElementModel, name: Seq<char>) -> Option<Seq<char>> {
    attribute_from(e.attributes, None, name, 0)
}

/// Value of a schema-instance attribute.
pub open spec fn xsi_attribute_of(e: XmlElementModel, name: Seq<char>) -> Option<Seq<char>> {
    attribute_from(e.attributes, Some(xsi()), name, 0)
}

/// An element is nil when its schema-instance `nil` attribute is `true`.
pub open spec fn nil_of(e: XmlElementModel) -> bool {
    xsi_attribute_of(e, "nil"@) == Some("true"@)
}

/// Position of the first element with the given name, from position `k` on.
pub open spec fn child_index_from(cs: Seq<XmlElementModel>, name: Seq<char>, k: int) -> Option<int>
    decreases cs.len() - k,
{
    if k < 0 || k >= cs.len() {
        None
    } else if cs[k].name == name {
        Some(k)
    } else {
        child_index_from(cs, name, k + 1)
    }
}

pub open spec fn child_index(cs: Seq<XmlElementModel>, name: Seq<char>) -> Option<int> {
    child_index_from(cs, name, 0)
}

/// The simple value of the first `value` element among `cs`. A typed, non-nil
/// value without text has the empty text.
pub open spec fn simple_of(cs: Seq<XmlElementModel>) -> Option<ValueModel> {
    match child_index(cs, "value"@) {
        Some(k) => {
            let v = cs[k];
            let typ = xsi_attribute_of(v, "type"@);
            let nil = nil_of(v);
            let text = if typ is Some && v.text is None && !nil {
                Some(Seq::<char>::empty())
            } else {
                v.text
            };
            Some(ValueModel::Simple { typ, text, nil })
        },
        None => None,
    }
}

/// The value that an element holds: its simple value if it has one, else its
/// components ordered by name if it has any, else its list if it has one.
pub open spec fn value_of(e: XmlElementModel) -> Option<ValueModel>
    decreases e,
{
    match simple_of(e.children) {
        Some(s) => Some(s),
        None => {
            let cs = components_of(e.children);
            if cs.len() > 0 {
                Some(ValueModel::Components(sort_by_name(cs)))
            } else {
                list_of(e.children)
            }
        },
    }
}

/// The components given by the `component` elements among `cs`, in document
/// order.
pub open spec fn components_of(cs: Seq<XmlElementModel>) -> Seq<ComponentModel>
    decreases cs,
{
    if cs.len() == 0 {
        Seq::empty()
    } else {
        let prev = components_of(cs.subrange(0, cs.len() - 1));
        let c = cs[cs.len() - 1];
        if c.name == "component"@ {
            prev.push(
                ComponentModel { name: attribute_of(c, "name"@), value: value_of(c), nil: nil_of(c) },
            )
        } else {
            prev
        }
    }
}

/// The list given by the first `list` element among `cs`: empty when it is
/// nil, else the values of its `item` elements that hold one.
pub open spec fn list_of(cs: Seq<XmlElementModel>) -> Option<ValueModel>
    decreases cs,
{
    match child_index(cs, "list"@) {
        Some(k) => if 0 <= k < cs.len() {
            if nil_of(cs[k]) {
                Some(ValueModel::List { items: Seq::empty(), nil: true })
            } else {
                Some(ValueModel::List { items: items_of(cs[k].children), nil: false })
            }
        } else {
            None
        },
        None => None,
    }
}

/// The values of the `item` elements among `cs` that hold one.
pub open spec fn items_of(cs: Seq<XmlElementModel>) -> Seq<ValueModel>
    decreases cs,
{
    if cs.len() == 0 {
        Seq::empty()
    } else {
        let prev = items_of(cs.subrange(0, cs.len() - 1));
        let c = cs[cs.len() - 1];
        if c.name == "item"@ {
            match value_of(c) {
                Some(v) => prev.push(v),
                None => prev,
            }
        } else {
            prev
        }
    }
}

/// The text of an element, which must have one.
pub open spec fn required_content_of(e: XmlElementModel) -> Result<Seq<char>, ParseErrorModel> {
    match e.text {
        Some(t) => Ok(t),
        None => Err(ParseErrorModel::MissingContent { element: e.name }),
    }
}

/// The text of the first element named `name` among `cs`, if there is such an
/// element; it must have a text.
pub open spec fn optional_child_content_of(cs: Seq<XmlElementModel>, name: Seq<char>) -> Result<
    Option<Seq<char>>,
    ParseErrorModel,
> {
    match child_index(cs, name) {
        Some(k) => match required_content_of(cs[k]) {
            Ok(t) => Ok(Some(t)),
            Err(e) => Err(e),
        },
        None => Ok(None),
    }
}

/// The value held by the first element named `name` among `cs`.
pub open spec fn child_value_of(cs: Seq<XmlElementModel>, name: Seq<char>) -> Option<ValueModel> {
    match child_index(cs, name) {
        Some(k) => value_of(cs[k]),
        None => None,
    }
}

/// `items` followed by the members of `r`, or the error of `r`.
pub open spec fn prepend<T>(items: Seq<T>, r: Result<Seq<T>, ParseErrorModel>) -> Result<
    Seq<T>,
    ParseErrorModel,
> {
    match r {
        Ok(rest) => Ok(items + rest),
        Err(e) => Err(e),
    }
}

/// The texts of the `label` elements among `cs` from position `k` on; the
/// first of them without a text is an error.
pub open spec fn label_texts(cs: Seq<XmlElementModel>, k: int) -> Result<Seq<Seq<char>>, ParseErrorModel>
    decreases cs.len() - k,
{
    if k < 0 || k >= cs.len() {
        Ok(Seq::empty())
    } else if cs[k].name == "label"@ {
        match required_content_of(cs[k]) {
            Ok(t) => prepend(seq![t], label_texts(cs, k + 1)),
            Err(e) => Err(e),
        }
    } else {
        label_texts(cs, k + 1)
    }
}

/// The labels under the first `labels` element among `cs`.
pub open spec fn labels_of(cs: Seq<XmlElementModel>) -> Result<Seq<Seq<char>>, ParseErrorModel> {
    match child_index(cs, "labels"@) {
        Some(k) => label_texts(cs[k].children, 0),
        None => Ok(Seq::empty()),
    }
}

pub open spec fn missing_name(e: XmlElementModel) -> ParseErrorModel {
    ParseErrorModel::MissingAttribute { attribute: "name"@, element: e.name }
}

/// The input nodes given by the `inputNode` elements among `cs` from
/// position `k` on.
pub open spec fn input_nodes_of(cs: Seq<XmlElementModel>, k: int) -> Result<Seq<InputNodeModel>, ParseErrorModel>
    decreases cs.len() - k,
{
    if k < 0 || k >= cs.len() {
        Ok(Seq::empty())
    } else if cs[k].name == "inputNode"@ {
        match attribute_of(cs[k], "name"@) {
            Some(n) => prepend(
                seq![InputNodeModel { name: n, value: value_of(cs[k]) }],
                input_nodes_of(cs, k + 1),
            ),
            None => Err(missing_name(cs[k])),
        }
    } else {
        input_nodes_of(cs, k + 1)
    }
}

/// The result node that a `resultNode` element with a name gives.
pub open spec fn result_node_of(c: XmlElementModel, name: Seq<char>) -> ResultNodeModel {
    ResultNodeModel {
        name,
        error_result: attribute_of(c, "errorResult"@) == Some("true"@),
        typ: type_of_opt_text(attribute_of(c, "type"@)),
        cast: attribute_of(c, "cast"@),
        expected: child_value_of(c.children, "expected"@),
        computed: child_value_of(c.children, "computed"@),
    }
}

/// The result nodes given by the `resultNode` elements among `cs` from
/// position `k` on.
pub open spec fn result_nodes_of(cs: Seq<XmlElementModel>, k: int) -> Result<Seq<ResultNodeModel>, ParseErrorModel>
    decreases cs.len() - k,
{
    if k < 0 || k >= cs.len() {
        Ok(Seq::empty())
    } else if cs[k].name == "resultNode"@ {
        match attribute_of(cs[k], "name"@) {
            Some(n) => prepend(seq![result_node_of(cs[k], n)], result_nodes_of(cs, k + 1)),
            None => Err(missing_name(cs[k])),
        }
    } else {
        result_nodes_of(cs, k + 1)
    }
}

/// The type that the `type` attribute of a test case names exactly.
pub open spec fn case_type_of(e: XmlElementModel) -> TestCaseType {
    match attribute_of(e, "type"@) {
        Some(t) => if t == "bkm"@ {
            TestCaseType::BusinessKnowledgeModel
        } else if t == "decisionService"@ {
            TestCaseType::DecisionService
        } else {
            TestCaseType::Decision
        },
        None => TestCaseType::Decision,
    }
}

/// The test case that a `testCase` element gives.
pub open spec fn test_case_of(c: XmlElementModel) -> Result<TestCaseModel, ParseErrorModel> {
    match optional_child_content_of(c.children, "description"@) {
        Err(e) => Err(e),
        Ok(description) => match input_nodes_of(c.children, 0) {
            Err(e) => Err(e),
            Ok(input_nodes) => match result_nodes_of(c.children, 0) {
                Err(e) => Err(e),
                Ok(result_nodes) => Ok(
                    TestCaseModel {
                        id: attribute_of(c, "id"@),
                        name: attribute_of(c, "name"@),
                        typ: case_type_of(c),
                        description,
                        invocable_name: attribute_of(c, "invocableName"@),
                        input_nodes,
                        result_nodes,
                    },
                ),
            },
        },
    }
}

/// The test cases given by the `testCase` elements among `cs` from position
/// `k` on.
pub open spec fn test_cases_of(cs: Seq<XmlElementModel>, k: int) -> Result<Seq<TestCaseModel>, ParseErrorModel>
    decreases cs.len() - k,
{
    if k < 0 || k >= cs.len() {
        Ok(Seq::empty())
    } else if cs[k].name == "testCase"@ {
        match test_case_of(cs[k]) {
            Ok(t) => prepend(seq![t], test_cases_of(cs, k + 1)),
            Err(e) => Err(e),
        }
    } else {
        test_cases_of(cs, k + 1)
    }
}

/// The test cases that a `testCases` root element gives.
pub open spec fn root_of(e: XmlElementModel) -> Result<TestCasesModel, ParseErrorModel> {
    match optional_child_content_of(e.children, "modelName"@) {
        Err(err) => Err(err),
        Ok(model_name) => match labels_of(e.children) {
            Err(err) => Err(err),
            Ok(labels) => match test_cases_of(e.children, 0) {
                Err(err) => Err(err),
                Ok(test_cases) => Ok(TestCasesModel { model_name, labels, test_cases }),
            },
        },
    }
}

/// The test cases that a root element gives, which must be `testCases`.
pub open spec fn test_cases_root_of(e: XmlElementModel) -> Result<TestCasesModel, ParseErrorModel> {
    if e.name == "testCases"@ {
        root_of(e)
    } else {
        Err(ParseErrorModel::UnexpectedRootElement { found: e.name })
    }
}

/// The test cases that a fixture text holds.
pub open spec fn fixture_of(text: Seq<char>) -> Result<TestCasesModel, ParseErrorModel> {
    match document_root(text) {
        None => Err(ParseErrorModel::MalformedDocument),
        Some(e) => test_cases_root_of(e),
    }
}

/// Value of an attribute without namespace.
pub(crate) fn optional_attribute(node: &XmlElement, attr_name: &str) -> (r: Option<String>)
    ensures
        r.deep_view() == attribute_of(node@, attr_name@),
{
    let len = node.attributes.len();
    let mut k: usize = 0;
    while k < len
        invariant
            len == node.attributes@.len(),
            k <= len,
            attribute_of(node@, attr_name@) == attribute_from(node@.attributes, None, attr_name@, k as int),
        decreases len - k,
    {
        let a = &node.attributes[k];
        proof {
            assert(node@.attributes[k as int] == a@);
        }
        if a.namespace.is_none() && text_equal(a.name.as_str(), attr_name) {
            return Some(a.value.clone());
        }
        k = k + 1;
    }
    None
}

/// Value of a schema-instance attribute.
fn xsi_attribute(node: &XmlElement, attr_name: &str) -> (r: Option<String>)
    ensures
        r.deep_view() == xsi_attribute_of(node@, attr_name@),
{
    let len = node.attributes.len();
    let mut k: usize = 0;
    while k < len
        invariant
            len == node.attributes@.len(),
            k <= len,
            xsi_attribute_of(node@, attr_name@) == attribute_from(
                node@.attributes,
                Some(xsi()),
                attr_name@,
                k as int,
            ),
        decreases len - k,
    {
        let a = &node.attributes[k];
        proof {
            assert(node@.attributes[k as int] == a@);
        }
        let in_xsi = match &a.namespace {
            Some(ns) => text_equal(ns.as_str(), "http://www.w3.org/2001/XMLSchema-instance"),
            None => false,
        };
        if in_xsi && text_equal(a.name.as_str(), attr_name) {
            return Some(a.value.clone());
        }
        k = k + 1;
    }
    None
}

/// Value of the schema-instance `type` attribute.
fn optional_xsi_type_attribute(node: &XmlElement) -> (r: Option<String>)
    ensures
        r.deep_view() == xsi_attribute_of(node@, "type"@),
{
    xsi_attribute(node, "type")
}

/// `true` when the schema-instance `nil` attribute is `true`.
fn optional_nil_attribute(node: &XmlElement) -> (r: bool)
    ensures
        r == nil_of(node@),
{
    match xsi_attribute(node, "nil") {
        Some(v) => text_equal(v.as_str(), "true"),
        None => false,
    }
}

/// Position of the first child element with the given name.
fn child_position(node: &XmlElement, child_name: &str) -> (r: Option<usize>)
    ensures
        r is None ==> child_index(node@.children, child_name@) is None,
        r is Some ==> r->Some_0 < node.children@.len() && child_index(node@.children, child_name@)
            == Some(r->Some_0 as int),
{
    let len = node.children.len();
    let mut k: usize = 0;
    while k < len
        invariant
            len == node.children@.len(),
            len == node@.children.len(),
            k <= len,
            child_index(node@.children, child_name@) == child_index_from(
                node@.children,
                child_name@,
                k as int,
            ),
        decreases len - k,
    {
        proof {
            assert(node@.children[k as int] == node.children@[k as int]@);
        }
        if text_equal(node.children[k].name.as_str(), child_name) {
            return Some(k);
        }
        k = k + 1;
    }
    None
}

pub open spec fn simple_model(s: Simple) -> ValueModel {
    ValueModel::Simple { typ: s.typ.deep_view(), text: s.text.deep_view(), nil: s.nil }
}

/// Parses the simple value of the first `value` child.
fn parse_simple_value(node: &XmlElement) -> (r: Option<Simple>)
    ensures
        r is Some <==> simple_of(node@.children) is Some,
        r is Some ==> simple_of(node@.children) == Some(simple_model(r->Some_0)),
{
    match child_position(node, "value") {
        Some(k) => {
            let value_node = &node.children[k];
            proof {
                assert(node@.children[k as int] == value_node@);
            }
            let typ = optional_xsi_type_attribute(value_node);
            let text = optional_content(value_node);
            let nil = optional_nil_attribute(value_node);
            if typ.is_some() && text.is_none() && !nil {
                Some(Simple { typ, text: Some(String::new()), nil })
            } else {
                Some(Simple { typ, text, nil })
            }
        },
        None => None,
    }
}

/// Parses the `component` children, ordered by name; none when there are no
/// such children.
pub fn parse_value_components(node: &XmlElement) -> (r: Option<Vec<Component>>)
    ensures
        r is Some <==> components_of(node@.children).len() > 0,
        r is Some ==> components_model(r->Some_0@) == sort_by_name(components_of(node@.children)),
        r is Some ==> forall|i: int|
            0 <= i < r->Some_0@.len() - 1 ==> name_le(
                (#[trigger] r->Some_0@[i]).name.deep_view(),
                r->Some_0@[i + 1].name.deep_view(),
            ),
    decreases node, 0int,
{
    let ghost cs = node@.children;
    let len = node.children.len();
    let mut items: Vec<Component> = Vec::new();
    let mut i: usize = 0;
    while i < len
        invariant
            cs == node@.children,
            len == node.children@.len(),
            len == cs.len(),
            i <= len,
            components_model(items@) == components_of(cs.subrange(0, i as int)),
        decreases len - i,
    {
        let c = &node.children[i];
        proof {
            assert(cs[i as int] == c@);
            let p = cs.subrange(0, i + 1);
            assert(p.subrange(0, p.len() - 1) =~= cs.subrange(0, i as int));
            assert(p[p.len() - 1] == c@);
        }
        if text_equal(c.name.as_str(), "component") {
            let comp = Component {
                name: optional_attribute(c, "name"),
                value: parse_value_type(c),
                nil: optional_nil_attribute(c),
            };
            let ghost before = items@;
            items.push(comp);
            proof {
                assert(components_model(items@) =~= components_model(before).push(comp@));
            }
        }
        i = i + 1;
    }
    proof {
        assert(cs.subrange(0, len as int) =~= cs);
    }
    if items.len() > 0 {
        let sorted = sort_components(items);
        proof {
            lemma_sort_by_name_sorted(components_of(cs));
            let m = components_model(sorted@);
            assert forall|i: int| 0 <= i < sorted@.len() - 1 implies name_le(
                (#[trigger] sorted@[i]).name.deep_view(),
                sorted@[i + 1].name.deep_view(),
            ) by {
                assert(m[i] == sorted@[i]@);
                assert(m[i + 1] == sorted@[i + 1]@);
                assert(name_le(m[i].name, m[i + 1].name));
            }
        }
        Some(sorted)
    } else {
        None
    }
}

pub open spec fn values_model(vs: Seq<Value>) -> Seq<ValueModel> {
    vs.map_values(|v: Value| v@)
}

/// Parses the first `list` child: empty when it is nil, else the values of
/// its `item` children that hold one.
fn parse_value_list(node: &XmlElement) -> (r: Option<List>)
    ensures
        r is Some <==> list_of(node@.children) is Some,
        r is Some ==> list_of(node@.children) == Some(
            ValueModel::List { items: values_model(r->Some_0.items@), nil: r->Some_0.nil },
        ),
    decreases node, 0int,
{
    let k = match child_position(node, "list") {
        Some(k) => k,
        None => return None,
    };
    let list_node = &node.children[k];
    proof {
        assert(node@.children[k as int] == list_node@);
    }
    if optional_nil_attribute(list_node) {
        let l = List::default();
        proof {
            assert(values_model(l.items@) =~= Seq::<ValueModel>::empty());
        }
        return Some(l);
    }
    let ghost cs = list_node@.children;
    let len = list_node.children.len();
    let mut items: Vec<Value> = Vec::new();
    let mut i: usize = 0;
    while i < len
        invariant
            cs == list_node@.children,
            k < node.children@.len(),
            *list_node == node.children@[k as int],
            len == list_node.children@.len(),
            len == cs.len(),
            i <= len,
            values_model(items@) == items_of(cs.subrange(0, i as int)),
        decreases len - i,
    {
        let c = &list_node.children[i];
        proof {
            assert(cs[i as int] == c@);
            let p = cs.subrange(0, i + 1);
            assert(p.subrange(0, p.len() - 1) =~= cs.subrange(0, i as int));
            assert(p[p.len() - 1] == c@);
        }
        proof {
            assert(decreases_to!(node.children => node.children@));
            assert(decreases_to!(node.children@ => node.children@[k as int]));
            assert(decreases_to!(list_node.children => list_node.children@));
            assert(decreases_to!(list_node.children@ => list_node.children@[i as int]));
            assert(decreases_to!(*node => *c));
        }
        if text_equal(c.name.as_str(), "item") {
            match parse_value_type(c) {
                Some(v) => {
                    let ghost before = items@;
                    items.push(v);
                    proof {
                        assert(values_model(items@) =~= values_model(before).push(v@));
                    }
                },
                None => {},
            }
        }
        i = i + 1;
    }
    proof {
        assert(cs.subrange(0, len as int) =~= cs);
    }
    Some(List { items, nil: false })
}

/// Parses the value that an element holds: a simple value, else components,
/// else a list.
pub fn parse_value_type(node: &XmlElement) -> (r: Option<Value>)
    ensures
        opt_value_model(r) == value_of(node@),
    decreases node, 1int,
{
    if let Some(v) = parse_simple_value(node) {
        return Some(Value::Simple(v));
    }
    if let Some(c) = parse_value_components(node) {
        let r = Value::Components(c);
        proof {
            assert(r@ == ValueModel::Components(components_model(c@))) by {
                if let ValueModel::Components(m) = r@ {
                    assert(m =~= components_model(c@));
                }
            }
        }
        return Some(r);
    }
    if let Some(l) = parse_value_list(node) {
        let r = Value::List(l);
        proof {
            if let ValueModel::List { items, nil } = r@ {
                assert(items =~= values_model(l.items@));
            }
        }
        return Some(r);
    }
    None
}

/// The text of an element, which must have one.
fn required_content(node: &XmlElement) -> (r: Result<String, ParseError>)
    ensures
        r is Ok ==> required_content_of(node@) == Ok::<Seq<char>, ParseErrorModel>(r->Ok_0@),
        r is Err ==> required_content_of(node@) == Err::<Seq<char>, ParseErrorModel>(r->Err_0@),
{
    match &node.text {
        Some(t) => Ok(t.clone()),
        None => Err(ParseError::MissingContent { element: node.name.clone() }),
    }
}

/// The optional text of an element.
fn optional_content(node: &XmlElement) -> (r: Option<String>)
    ensures
        r.deep_view() == node@.text,
{
    clone_text(&node.text)
}

/// The text of the first child with the given name, if there is one; that
/// child must have a text.
fn optional_child_required_content(node: &XmlElement, child_name: &str) -> (r: Result<
    Option<String>,
    ParseError,
>)
    ensures
        r is Ok ==> optional_child_content_of(node@.children, child_name@) == Ok::<
            Option<Seq<char>>,
            ParseErrorModel,
        >(r->Ok_0.deep_view()),
        r is Err ==> optional_child_content_of(node@.children, child_name@) == Err::<
            Option<Seq<char>>,
            ParseErrorModel,
        >(r->Err_0@),
{
    match child_position(node, child_name) {
        Some(k) => {
            proof {
                assert(node@.children[k as int] == node.children@[k as int]@);
            }
            match required_content(&node.children[k]) {
                Ok(t) => Ok(Some(t)),
                Err(e) => Err(e),
            }
        },
        None => Ok(None),
    }
}

/// The value held by the first child with the given name.
fn parse_child_value_type(node: &XmlElement, child_name: &str) -> (r: Option<Value>)
    ensures
        opt_value_model(r) == child_value_of(node@.children, child_name@),
{
    match child_position(node, child_name) {
        Some(k) => {
            proof {
                assert(node@.children[k as int] == node.children@[k as int]@);
            }
            parse_value_type(&node.children[k])
        },
        None => None,
    }
}

pub open spec fn texts_model(v: Seq<String>) -> Seq<Seq<char>> {
    v.map_values(|s: String| s@)
}

/// The texts of the `label` children of the first `labels` child.
fn parse_labels(node: &XmlElement) -> (r: Result<Vec<String>, ParseError>)
    ensures
        r is Ok ==> labels_of(node@.children) == Ok::<Seq<Seq<char>>, ParseErrorModel>(
            texts_model(r->Ok_0@),
        ),
        r is Err ==> labels_of(node@.children) == Err::<Seq<Seq<char>>, ParseErrorModel>(
            r->Err_0@,
        ),
{
    let mut items: Vec<String> = Vec::new();
    let k = match child_position(node, "labels") {
        Some(k) => k,
        None => {
            proof {
                assert(texts_model(items@) =~= Seq::<Seq<char>>::empty());
            }
            return Ok(items);
        },
    };
    let labels_node = &node.children[k];
    proof {
        assert(node@.children[k as int] == labels_node@);
        let r0 = label_texts(labels_node@.children, 0);
        if r0 is Ok {
            assert(texts_model(items@) + r0->Ok_0 =~= r0->Ok_0);
        }
    }
    let ghost cs = labels_node@.children;
    let len = labels_node.children.len();
    let mut i: usize = 0;
    while i < len
        invariant
            cs == labels_node@.children,
            len == cs.len(),
            len == labels_node.children@.len(),
            i <= len,
            labels_of(node@.children) == prepend(texts_model(items@), label_texts(cs, i as int)),
        decreases len - i,
    {
        let c = &labels_node.children[i];
        proof {
            assert(cs[i as int] == c@);
        }
        if text_equal(c.name.as_str(), "label") {
            match required_content(c) {
                Ok(t) => {
                    let ghost before = texts_model(items@);
                    items.push(t);
                    proof {
                        assert(texts_model(items@) =~= before.push(t@));
                        let rest = label_texts(cs, i + 1);
                        if rest is Ok {
                            assert(before + (seq![t@] + rest->Ok_0) =~= before.push(t@)
                                + rest->Ok_0);
                        }
                    }
                },
                Err(e) => return Err(e),
            }
        }
        i = i + 1;
    }
    proof {
        assert(texts_model(items@) + Seq::<Seq<char>>::empty() =~= texts_model(items@));
    }
    Ok(items)
}

pub open spec fn input_nodes_model(v: Seq<InputNode>) -> Seq<InputNodeModel> {
    v.map_values(|n: InputNode| n@)
}

/// The input nodes given by the `inputNode` children.
fn parse_input_nodes(node: &XmlElement) -> (r: Result<Vec<InputNode>, ParseError>)
    ensures
        r is Ok ==> input_nodes_of(node@.children, 0) == Ok::<Seq<InputNodeModel>, ParseErrorModel>(
            input_nodes_model(r->Ok_0@),
        ),
        r is Err ==> input_nodes_of(node@.children, 0) == Err::<
            Seq<InputNodeModel>,
            ParseErrorModel,
        >(r->Err_0@),
{
    let mut items: Vec<InputNode> = Vec::new();
    let ghost cs = node@.children;
    let len = node.children.len();
    let mut i: usize = 0;
    proof {
        let r0 = input_nodes_of(cs, 0);
        if r0 is Ok {
            assert(input_nodes_model(items@) + r0->Ok_0 =~= r0->Ok_0);
        }
    }
    while i < len
        invariant
            cs == node@.children,
            len == cs.len(),
            len == node.children@.len(),
            i <= len,
            input_nodes_of(cs, 0) == prepend(input_nodes_model(items@), input_nodes_of(cs, i as int)),
        decreases len - i,
    {
        let c = &node.children[i];
        proof {
            assert(cs[i as int] == c@);
        }
        if text_equal(c.name.as_str(), "inputNode") {
            match optional_attribute(c, "name") {
                Some(name) => {
                    let n = InputNode { name, value: parse_value_type(c) };
                    let ghost before = input_nodes_model(items@);
                    items.push(n);
                    proof {
                        assert(input_nodes_model(items@) =~= before.push(n@));
                        let rest = input_nodes_of(cs, i + 1);
                        if rest is Ok {
                            assert(before + (seq![n@] + rest->Ok_0) =~= before.push(n@)
                                + rest->Ok_0);
                        }
                    }
                },
                None => {
                    return Err(
                        ParseError::MissingAttribute {
                            attribute: String::from_str("name"),
                            element: c.name.clone(),
                        },
                    );
                },
            }
        }
        i = i + 1;
    }
    proof {
        assert(input_nodes_model(items@) + Seq::<InputNodeModel>::empty() =~= input_nodes_model(
            items@,
        ));
    }
    Ok(items)
}

pub open spec fn result_nodes_model(v: Seq<ResultNode>) -> Seq<ResultNodeModel> {
    v.map_values(|n: ResultNode| n@)
}

/// The result nodes given by the `resultNode` children.
fn parse_result_nodes(node: &XmlElement) -> (r: Result<Vec<ResultNode>, ParseError>)
    ensures
        r is Ok ==> result_nodes_of(node@.children, 0) == Ok::<
            Seq<ResultNodeModel>,
            ParseErrorModel,
        >(result_nodes_model(r->Ok_0@)),
        r is Err ==> result_nodes_of(node@.children, 0) == Err::<
            Seq<ResultNodeModel>,
            ParseErrorModel,
        >(r->Err_0@),
{
    let mut items: Vec<ResultNode> = Vec::new();
    let ghost cs = node@.children;
    let len = node.children.len();
    let mut i: usize = 0;
    proof {
        let r0 = result_nodes_of(cs, 0);
        if r0 is Ok {
            assert(result_nodes_model(items@) + r0->Ok_0 =~= r0->Ok_0);
        }
    }
    while i < len
        invariant
            cs == node@.children,
            len == cs.len(),
            len == node.children@.len(),
            i <= len,
            result_nodes_of(cs, 0) == prepend(result_nodes_model(items@), result_nodes_of(cs, i as int)),
        decreases len - i,
    {
        let c = &node.children[i];
        proof {
            assert(cs[i as int] == c@);
        }
        if text_equal(c.name.as_str(), "resultNode") {
            match optional_attribute(c, "name") {
                Some(name) => {
                    let error_result = match optional_attribute(c, "errorResult") {
                        Some(v) => text_equal(v.as_str(), "true"),
                        None => false,
                    };
                    let n = ResultNode {
                        name,
                        error_result,
                        typ: TestCaseType::from(optional_attribute(c, "type")),
                        cast: optional_attribute(c, "cast"),
                        expected: parse_child_value_type(c, "expected"),
                        computed: parse_child_value_type(c, "computed"),
                    };
                    let ghost before = result_nodes_model(items@);
                    items.push(n);
                    proof {
                        assert(n@ == result_node_of(c@, n.name@));
                        assert(result_nodes_model(items@) =~= before.push(n@));
                        let rest = result_nodes_of(cs, i + 1);
                        if rest is Ok {
                            assert(before + (seq![n@] + rest->Ok_0) =~= before.push(n@)
                                + rest->Ok_0);
                        }
                    }
                },
                None => {
                    return Err(
                        ParseError::MissingAttribute {
                            attribute: String::from_str("name"),
                            element: c.name.clone(),
                        },
                    );
                },
            }
        }
        i = i + 1;
    }
    proof {
        assert(result_nodes_model(items@) + Seq::<ResultNodeModel>::empty() =~= result_nodes_model(
            items@,
        ));
    }
    Ok(items)
}

/// The type that the `type` attribute of a test case names: `bkm`,
/// `decisionService`, else a decision.
fn parse_test_case_type(node: &XmlElement) -> (r: TestCaseType)
    ensures
        r == case_type_of(node@),
{
    match optional_attribute(node, "type") {
        Some(t) => if text_equal(t.as_str(), "bkm") {
            TestCaseType::BusinessKnowledgeModel
        } else if text_equal(t.as_str(), "decisionService") {
            TestCaseType::DecisionService
        } else {
            TestCaseType::Decision
        },
        None => TestCaseType::Decision,
    }
}

/// The test case that a `testCase` element gives.
fn parse_test_case(node: &XmlElement) -> (r: Result<TestCase, ParseError>)
    ensures
        r is Ok ==> test_case_of(node@) == Ok::<TestCaseModel, ParseErrorModel>(r->Ok_0@),
        r is Err ==> test_case_of(node@) == Err::<TestCaseModel, ParseErrorModel>(r->Err_0@),
{
    let description = match optional_child_required_content(node, "description") {
        Ok(d) => d,
        Err(e) => return Err(e),
    };
    let input_nodes = match parse_input_nodes(node) {
        Ok(v) => v,
        Err(e) => return Err(e),
    };
    let result_nodes = match parse_result_nodes(node) {
        Ok(v) => v,
        Err(e) => return Err(e),
    };
    let t = TestCase {
        id: optional_attribute(node, "id"),
        name: optional_attribute(node, "name"),
        typ: parse_test_case_type(node),
        description,
        invocable_name: optional_attribute(node, "invocableName"),
        input_nodes,
        result_nodes,
    };
    proof {
        assert(t@.input_nodes == input_nodes_model(input_nodes@));
        assert(t@.result_nodes == result_nodes_model(result_nodes@));
    }
    Ok(t)
}

pub open spec fn test_cases_model(v: Seq<TestCase>) -> Seq<TestCaseModel> {
    v.map_values(|c: TestCase| c@)
}

/// The test cases given by the `testCase` children.
fn parse_test_cases(node: &XmlElement) -> (r: Result<Vec<TestCase>, ParseError>)
    ensures
        r is Ok ==> test_cases_of(node@.children, 0) == Ok::<Seq<TestCaseModel>, ParseErrorModel>(
            test_cases_model(r->Ok_0@),
        ),
        r is Err ==> test_cases_of(node@.children, 0) == Err::<Seq<TestCaseModel>, ParseErrorModel>(
            r->Err_0@,
        ),
{
    let mut items: Vec<TestCase> = Vec::new();
    let ghost cs = node@.children;
    let len = node.children.len();
    let mut i: usize = 0;
    proof {
        let r0 = test_cases_of(cs, 0);
        if r0 is Ok {
            assert(test_cases_model(items@) + r0->Ok_0 =~= r0->Ok_0);
        }
    }
    while i < len
        invariant
            cs == node@.children,
            len == cs.len(),
            len == node.children@.len(),
            i <= len,
            test_cases_of(cs, 0) == prepend(test_cases_model(items@), test_cases_of(cs, i as int)),
        decreases len - i,
    {
        let c = &node.children[i];
        proof {
            assert(cs[i as int] == c@);
        }
        if text_equal(c.name.as_str(), "testCase") {
            match parse_test_case(c) {
                Ok(t) => {
                    let ghost before = test_cases_model(items@);
                    items.push(t);
                    proof {
                        assert(test_cases_model(items@) =~= before.push(t@));
                        let rest = test_cases_of(cs, i + 1);
                        if rest is Ok {
                            assert(before + (seq![t@] + rest->Ok_0) =~= before.push(t@)
                                + rest->Ok_0);
                        }
                    }
                },
                Err(e) => return Err(e),
            }
        }
        i = i + 1;
    }
    proof {
        assert(test_cases_model(items@) + Seq::<TestCaseModel>::empty() =~= test_cases_model(
            items@,
        ));
    }
    Ok(items)
}

/// Parses the `testCases` root element.
fn parse_root_node(node: &XmlElement) -> (r: Result<TestCases, ParseError>)
    ensures
        r is Ok ==> root_of(node@) == Ok::<TestCasesModel, ParseErrorModel>(r->Ok_0@),
        r is Err ==> root_of(node@) == Err::<TestCasesModel, ParseErrorModel>(r->Err_0@),
{
    let model_name = match optional_child_required_content(node, "modelName") {
        Ok(m) => m,
        Err(e) => return Err(e),
    };
    let labels = match parse_labels(node) {
        Ok(v) => v,
        Err(e) => return Err(e),
    };
    let test_cases = match parse_test_cases(node) {
        Ok(v) => v,
        Err(e) => return Err(e),
    };
    let r = TestCases { model_name, labels, test_cases };
    proof {
        assert(r@.labels == texts_model(labels@));
        assert(r@.test_cases == test_cases_model(test_cases@));
    }
    Ok(r)
}

/// Parses the text of a fixture document into its test cases.
pub fn parse_test_file(content: &str) -> (r: Result<TestCases, ParseError>)
    ensures
        r is Ok ==> fixture_of(content@) == Ok::<TestCasesModel, ParseErrorModel>(r->Ok_0@),
        r is Err ==> fixture_of(content@) == Err::<TestCasesModel, ParseErrorModel>(r->Err_0@),
{
    match parse_document(content) {
        Some(root) => parse_test_cases_root(&root),
        None => Err(ParseError::MalformedDocument),
    }
}

/// Parses the root element of a fixture document, which must be
/// `testCases`, into its test cases.
pub fn parse_test_cases_root(root: &XmlElement) -> (r: Result<TestCases, ParseError>)
    ensures
        r is Ok ==> test_cases_root_of(root@) == Ok::<TestCasesModel, ParseErrorModel>(r->Ok_0@),
        r is Err ==> test_cases_root_of(root@) == Err::<TestCasesModel, ParseErrorModel>(r->Err_0@),
{
    if text_equal(root.name.as_str(), "testCases") {
        parse_root_node(root)
    } else {
        Err(ParseError::UnexpectedRootElement { found: root.name.clone() })
    }
}

/// Components parsed from any element come ordered by name, a missing name
/// first: each name is at most the next one.
pub proof fn lemma_parsed_components_sorted(e: XmlElementModel)
    ensures
        value_of(e) matches Some(ValueModel::Components(cs)) ==> forall|i: int|
            0 <= i < cs.len() - 1 ==> name_le(#[trigger] cs[i].name, cs[i + 1].name),
{
    let cs = components_of(e.children);
    lemma_sort_by_name_sorted(cs);
    let s = sort_by_name(cs);
    assert forall|i: int| 0 <= i < s.len() - 1 implies name_le(#[trigger] s[i].name, s[i + 1].name) by {
        assert(name_le(s[i].name, s[i + 1].name));
    }
}

/// The first `list` child of an element decides its list: a nil one gives an
/// empty nil list whatever it holds, and one without the nil flag and without
/// children gives an empty list that is not nil.
pub proof fn lemma_list_nil_distinction(cs: Seq<XmlElementModel>)
    ensures
        child_index(cs, "list"@) matches Some(k) ==> (0 <= k < cs.len() && nil_of(cs[k]) ==> list_of(
            cs,
        ) == Some(ValueModel::List { items: Seq::empty(), nil: true })),
        child_index(cs, "list"@) matches Some(k) ==> (0 <= k < cs.len() && !nil_of(cs[k])
            && cs[k].children.len() == 0 ==> list_of(cs) == Some(
            ValueModel::List { items: Seq::empty(), nil: false },
        )),
{
}

} // verus!
