//! The value model of decision results and the test cases of a fixture.

use crate::text::{
    lemma_name_le_total, lemma_name_le_transitive, lower_of, lowercase, name_le, name_less_or_equal,
    text_equal, trim, trimmed, Strip,
};
use vstd::prelude::*;

verus! {

/// Type of the test case.
#[derive(Debug, Clone, Copy, PartialEq, Eq, Structural)]
pub enum TestCaseType {
    Decision,
    BusinessKnowledgeModel,
    DecisionService,
}

/// The type that a text names: `bkm` and `decisionservice` in any case and
/// with surrounding white space; anything else is a decision.
pub open spec fn type_of_text(s: Seq<char>) -> TestCaseType {
    type_of_lowercase(lower_of(s))
}

/// The type that a lower-case text names once trimmed.
pub open spec fn type_of_lowercase(s: Seq<char>) -> TestCaseType {
    let t = trimmed(s, Strip::WhiteSpace);
    if t == "bkm"@ {
        TestCaseType::BusinessKnowledgeModel
    } else if t == "decisionservice"@ {
        TestCaseType::DecisionService
    } else {
        TestCaseType::Decision
    }
}

pub open spec fn type_of_opt_text(s: Option<Seq<char>>) -> TestCaseType {
    match s {
        Some(t) => type_of_text(t),
        None => TestCaseType::Decision,
    }
}

impl TestCaseType {
    /// The type that a lower-case text names once trimmed: `bkm`,
    /// `decisionservice`, else a decision.
    pub fn from_lowercase(lower: &str) -> (r: TestCaseType)
        ensures
            r == type_of_lowercase(lower@),
    {
        let t = trim(lower, Strip::WhiteSpace);
        if text_equal(t.as_str(), "bkm") {
            TestCaseType::BusinessKnowledgeModel
        } else if text_equal(t.as_str(), "decisionservice") {
            TestCaseType::DecisionService
        } else {
            TestCaseType::Decision
        }
    }
}

impl From<String> for TestCaseType {
    fn from(value: String) -> (r: Self) {
        let lower = lowercase(value.as_str());
        TestCaseType::from_lowercase(lower.as_str())
    }
}

impl vstd::std_specs::convert::FromSpecImpl<String> for TestCaseType {
    open spec fn obeys_from_spec() -> bool {
        true
    }

    open spec fn from_spec(v: String) -> TestCaseType {
        type_of_text(v@)
    }
}

impl From<Option<String>> for TestCaseType {
    fn from(value: Option<String>) -> (r: Self) {
        match value {
            Some(s) => TestCaseType::from(s),
            None => TestCaseType::Decision,
        }
    }
}

impl vstd::std_specs::convert::FromSpecImpl<Option<String>> for TestCaseType {
    open spec fn obeys_from_spec() -> bool {
        true
    }

    open spec fn from_spec(v: Option<String>) -> TestCaseType {
        type_of_opt_text(v.deep_view())
    }
}

pub open spec fn case_type_name(t: TestCaseType) -> Seq<char> {
    match t {
        TestCaseType::Decision => "decision"@,
        TestCaseType::BusinessKnowledgeModel => "bkm"@,
        TestCaseType::DecisionService => "decisionService"@,
    }
}

impl TestCaseType {
    /// The name of the type: `decision`, `bkm` or `decisionService`.
    pub fn to_string(&self) -> (r: String)
        ensures
            r@ == case_type_name(*self),
    {
        match self {
            TestCaseType::Decision => String::from_str("decision"),
            TestCaseType::BusinessKnowledgeModel => String::from_str("bkm"),
            TestCaseType::DecisionService => String::from_str("decisionService"),
        }
    }
}

/// Test cases of one fixture.
#[derive(Debug)]
pub struct TestCases {
    pub model_name: Option<String>,
    pub labels: Vec<String>,
    pub test_cases: Vec<TestCase>,
}

/// Single test case.
#[derive(Debug)]
pub struct TestCase {
    /// Optional identifier of this test case.
    pub id: Option<String>,
    /// Optional name of this test case.
    pub name: Option<String>,
    /// Type of this test case, `Decision` by default.
    pub typ: TestCaseType,
    /// Optional description.
    pub description: Option<String>,
    /// Optional name of the invocable that all result nodes are checked against.
    pub invocable_name: Option<String>,
    pub input_nodes: Vec<InputNode>,
    pub result_nodes: Vec<ResultNode>,
}

/// Input node of a test case.
#[derive(Debug)]
pub struct InputNode {
    pub name: String,
    pub value: Option<Value>,
}

/// Result node of a test case.
#[derive(Debug)]
pub struct ResultNode {
    pub name: String,
    pub error_result: bool,
    pub typ: TestCaseType,
    pub cast: Option<String>,
    pub expected: Option<Value>,
    pub computed: Option<Value>,
}

pub struct InputNodeModel {
    pub name: Seq<char>,
    pub value: Option<ValueModel>,
}

pub struct ResultNodeModel {
    pub name: Seq<char>,
    pub error_result: bool,
    pub typ: TestCaseType,
    pub cast: Option<Seq<char>>,
    pub expected: Option<ValueModel>,
    pub computed: Option<ValueModel>,
}

pub struct TestCaseModel {
    pub id: Option<Seq<char>>,
    pub name: Option<Seq<char>>,
    pub typ: TestCaseType,
    pub description: Option<Seq<char>>,
    pub invocable_name: Option<Seq<char>>,
    pub input_nodes: Seq<InputNodeModel>,
    pub result_nodes: Seq<ResultNodeModel>,
}

pub struct TestCasesModel {
    pub model_name: Option<Seq<char>>,
    pub labels: Seq<Seq<char>>,
    pub test_cases: Seq<TestCaseModel>,
}

impl View for InputNode {
    type V = InputNodeModel;

    open spec fn view(&self) -> InputNodeModel {
        InputNodeModel { name: self.name@, value: opt_value_model(self.value) }
    }
}

impl View for ResultNode {
    type V = ResultNodeModel;

    open spec fn view(&self) -> ResultNodeModel {
        ResultNodeModel {
            name: self.name@,
            error_result: self.error_result,
            typ: self.typ,
            cast: self.cast.deep_view(),
            expected: opt_value_model(self.expected),
            computed: opt_value_model(self.computed),
        }
    }
}

impl View for TestCase {
    type V = TestCaseModel;

    open spec fn view(&self) -> TestCaseModel {
        TestCaseModel {
            id: self.id.deep_view(),
            name: self.name.deep_view(),
            typ: self.typ,
            description: self.description.deep_view(),
            invocable_name: self.invocable_name.deep_view(),
            input_nodes: self.input_nodes@.map_values(|n: InputNode| n@),
            result_nodes: self.result_nodes@.map_values(|n: ResultNode| n@),
        }
    }
}

impl View for TestCases {
    type V = TestCasesModel;

    open spec fn view(&self) -> TestCasesModel {
        TestCasesModel {
            model_name: self.model_name.deep_view(),
            labels: self.labels@.map_values(|l: String| l@),
            test_cases: self.test_cases@.map_values(|c: TestCase| c@),
        }
    }
}

/// Value: a simple value, a collection of components, or a list.
#[derive(Debug)]
pub enum Value {
    Simple(Simple),
    Components(Vec<Component>),
    List(List),
}

/// Simple value: an optional namespace-prefixed type, an optional text and
/// the nil flag.
#[derive(Debug)]
pub struct Simple {
    pub typ: Option<String>,
    pub text: Option<String>,
    pub nil: bool,
}

/// Named member of a collection of components.
#[derive(Debug)]
pub struct Component {
    pub name: Option<String>,
    pub value: Option<Value>,
    pub nil: bool,
}

/// List of values with its nil flag.
#[derive(Debug)]
pub struct List {
    pub items: Vec<Value>,
    pub nil: bool,
}

impl Default for List {
    /// An empty list that is nil.
    fn default() -> (r: Self)
        ensures
            r.items@.len() == 0,
            r.nil,
    {
        List { items: Vec::new(), nil: true }
    }
}

/// What a [`Value`] stands for.
pub enum ValueModel {
    Simple { typ: Option<Seq<char>>, text: Option<Seq<char>>, nil: bool },
    Components(Seq<ComponentModel>),
    List { items: Seq<ValueModel>, nil: bool },
}

/// What a [`Component`] stands for.
pub struct ComponentModel {
    pub name: Option<Seq<char>>,
    pub value: Option<ValueModel>,
    pub nil: bool,
}

pub open spec fn value_model(v: Value) -> ValueModel
    decreases v,
{
    match v {
        Value::Simple(s) => ValueModel::Simple {
            typ: s.typ.deep_view(),
            text: s.text.deep_view(),
            nil: s.nil,
        },
        Value::Components(cs) => ValueModel::Components(
            Seq::new(
                cs@.len(),
                |i: int|
                    if 0 <= i < cs@.len() {
                        component_model(cs@[i])
                    } else {
                        arbitrary()
                    },
            ),
        ),
        Value::List(l) => ValueModel::List {
            items: Seq::new(
                l.items@.len(),
                |i: int|
                    if 0 <= i < l.items@.len() {
                        value_model(l.items@[i])
                    } else {
                        arbitrary()
                    },
            ),
            nil: l.nil,
        },
    }
}

pub open spec fn component_model(c: Component) -> ComponentModel
    decreases c,
{
    ComponentModel {
        name: c.name.deep_view(),
        value: match c.value {
            Some(v) => Some(value_model(v)),
            None => None,
        },
        nil: c.nil,
    }
}

impl View for Value {
    type V = ValueModel;

    open spec fn view(&self) -> ValueModel {
        value_model(*self)
    }
}

impl View for Component {
    type V = ComponentModel;

    open spec fn view(&self) -> ComponentModel {
        component_model(*self)
    }
}

pub open spec fn opt_value_model(v: Option<Value>) -> Option<ValueModel> {
    match v {
        Some(v) => Some(v@),
        None => None,
    }
}

pub open spec fn components_model(cs: Seq<Component>) -> Seq<ComponentModel> {
    cs.map_values(|c: Component| c@)
}

/// Position at which `x` goes into `t` from position `k` on: before the first
/// member whose name comes strictly after the name of `x`.
pub open spec fn insert_index(t: Seq<ComponentModel>, x: ComponentModel, k: int) -> int
    decreases t.len() - k,
{
    if k < 0 || k >= t.len() {
        t.len() as int
    } else if !name_le(t[k].name, x.name) {
        k
    } else {
        insert_index(t, x, k + 1)
    }
}

/// Components ordered by name, a missing name first; members with equal
/// names keep their order.
pub open spec fn sort_by_name(s: Seq<ComponentModel>) -> Seq<ComponentModel>
    decreases s.len(),
{
    if s.len() == 0 {
        s
    } else {
        let t = sort_by_name(s.subrange(0, s.len() - 1));
        t.insert(insert_index(t, s[s.len() - 1], 0), s[s.len() - 1])
    }
}

pub open spec fn sorted_by_name(s: Seq<ComponentModel>) -> bool {
    forall|i: int, j: int| 0 <= i < j < s.len() ==> name_le(#[trigger] s[i].name, #[trigger] s[j].name)
}

proof fn lemma_insert_index(t: Seq<ComponentModel>, x: ComponentModel, k: int)
    requires
        0 <= k <= t.len(),
    ensures
        k <= insert_index(t, x, k) <= t.len(),
        forall|j: int| k <= j < insert_index(t, x, k) ==> name_le(#[trigger] t[j].name, x.name),
        insert_index(t, x, k) < t.len() ==> !name_le(t[insert_index(t, x, k)].name, x.name),
    decreases t.len() - k,
{
    if k < t.len() && name_le(t[k].name, x.name) {
        lemma_insert_index(t, x, k + 1);
    }
}

proof fn lemma_insert_sorted(t: Seq<ComponentModel>, x: ComponentModel)
    requires
        sorted_by_name(t),
    ensures
        sorted_by_name(t.insert(insert_index(t, x, 0), x)),
{
    lemma_insert_index(t, x, 0);
    let r = insert_index(t, x, 0);
    let u = t.insert(r, x);
    if r < t.len() {
        lemma_name_le_total(t[r].name, x.name);
    }
    assert forall|i: int, j: int| 0 <= i < j < u.len() implies name_le(#[trigger] u[i].name, #[trigger] u[j].name) by {
        if j < r {
        } else if j == r {
        } else if i < r {
            // u[i] = t[i], u[j] = t[j - 1]
        } else if i == r {
            if j - 1 > r {
                lemma_name_le_transitive(x.name, t[r].name, t[j - 1].name);
            }
        } else {
        }
    }
}

/// Sorting by name yields components whose names never decrease.
pub proof fn lemma_sort_by_name_sorted(s: Seq<ComponentModel>)
    ensures
        sorted_by_name(sort_by_name(s)),
    decreases s.len(),
{
    if s.len() > 0 {
        lemma_sort_by_name_sorted(s.subrange(0, s.len() - 1));
        lemma_insert_sorted(sort_by_name(s.subrange(0, s.len() - 1)), s[s.len() - 1]);
    }
}

/// Orders components by name, a missing name first; components with equal
/// names keep their order.
pub fn sort_components(items: Vec<Component>) -> (r: Vec<Component>)
    ensures
        components_model(r@) == sort_by_name(components_model(items@)),
{
    let ghost all = components_model(items@);
    let mut rest = items;
    let mut out: Vec<Component> = Vec::new();
    let ghost taken: int = 0;
    while rest.len() > 0
        invariant
            0 <= taken <= all.len(),
            components_model(rest@) == all.subrange(taken, all.len() as int),
            components_model(out@) == sort_by_name(all.subrange(0, taken)),
        decreases rest@.len(),
    {
        let ghost before = rest@;
        let x = rest.remove(0);
        proof {
            assert(before.len() > 0);
            assert(components_model(before).len() == before.len());
            assert(taken < all.len());
            assert(components_model(before)[0] == before[0]@);
            assert(all.subrange(taken, all.len() as int)[0] == all[taken]);
            assert(all[taken] == x@);
            assert forall|i: int| 0 <= i < rest@.len() implies components_model(rest@)[i] == all.subrange(taken + 1, all.len() as int)[i] by {
                assert(rest@[i] == before[i + 1]);
                assert(components_model(before)[i + 1] == before[i + 1]@);
                assert(all.subrange(taken, all.len() as int)[i + 1] == all[taken + 1 + i]);
            }
            assert(components_model(rest@) =~= all.subrange(taken + 1, all.len() as int));
        }
        let ghost t = components_model(out@);
        let mut k: usize = 0;
        loop
            invariant
                0 <= k <= out@.len(),
                t == components_model(out@),
                insert_index(t, x@, 0) == insert_index(t, x@, k as int),
            ensures
                0 <= k <= out@.len(),
                t == components_model(out@),
                insert_index(t, x@, 0) == k,
            decreases out@.len() - k,
        {
            if k == out.len() {
                break;
            }
            if !name_less_or_equal(&out[k].name, &x.name) {
                proof {
                    assert(t[k as int] == out@[k as int]@);
                }
                break;
            }
            k = k + 1;
        }
        out.insert(k, x);
        proof {
            let s = all.subrange(0, taken + 1);
            assert(s.subrange(0, s.len() - 1) =~= all.subrange(0, taken));
            assert(s[s.len() - 1] == x@);
            assert(sort_by_name(s) == t.insert(k as int, x@));
            assert(components_model(out@) =~= t.insert(k as int, x@));
            taken = taken + 1;
        }
    }
    proof {
        assert(all.subrange(0, taken) =~= all);
    }
    out
}

} // verus!
