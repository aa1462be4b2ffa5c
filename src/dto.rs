//! Wire form of values exchanged with the evaluation service, and the
//! comparison of values through it.

use crate::model::{opt_value_model, Component, ComponentModel, InputNode, List, Simple, Value, ValueModel};
use crate::text::{clone_text, same_text};
use vstd::prelude::*;

verus! {

/// Error reported by the evaluation service.
#[derive(Debug)]
pub struct ErrorDto {
    pub detail: String,
}

/// Response of the evaluation service: data, or errors.
#[derive(Debug)]
pub struct ResultDto<T> {
    pub data: Option<T>,
    pub errors: Option<Vec<ErrorDto>>,
}

/// Input value sent to the evaluation service.
#[derive(Debug)]
pub struct InputNodeDto {
    pub name: String,
    pub value: Option<ValueDto>,
}

/// Data of a response: an optional value.
#[derive(Debug)]
pub struct OptionalValueDto {
    pub value: Option<ValueDto>,
}

/// Wire form of a value: at most one branch is present.
#[derive(Debug)]
pub struct ValueDto {
    pub simple: Option<SimpleDto>,
    pub components: Option<Vec<ComponentDto>>,
    pub list: Option<ListDto>,
}

/// Wire form of a simple value.
#[derive(Debug)]
pub struct SimpleDto {
    pub typ: Option<String>,
    pub text: Option<String>,
    pub nil: bool,
}

/// Wire form of a component.
#[derive(Debug)]
pub struct ComponentDto {
    pub name: Option<String>,
    pub value: Option<ValueDto>,
    pub nil: bool,
}

/// Wire form of a list.
#[derive(Debug)]
pub struct ListDto {
    pub items: Vec<ValueDto>,
    pub nil: bool,
}

pub struct SimpleDtoModel {
    pub typ: Option<Seq<char>>,
    pub text: Option<Seq<char>>,
    pub nil: bool,
}

pub struct ComponentDtoModel {
    pub name: Option<Seq<char>>,
    pub value: Option<ValueDtoModel>,
    pub nil: bool,
}

pub struct ListDtoModel {
    pub items: Seq<ValueDtoModel>,
    pub nil: bool,
}

pub struct ValueDtoModel {
    pub simple: Option<SimpleDtoModel>,
    pub components: Option<Seq<ComponentDtoModel>>,
    pub list: Option<ListDtoModel>,
}

pub open spec fn simple_dto_model(s: SimpleDto) -> SimpleDtoModel {
    SimpleDtoModel { typ: s.typ.deep_view(), text: s.text.deep_view(), nil: s.nil }
}

pub open spec fn value_dto_model(v: ValueDto) -> ValueDtoModel
    decreases v,
{
    ValueDtoModel {
        simple: match v.simple {
            Some(s) => Some(simple_dto_model(s)),
            None => None,
        },
        components: match v.components {
            Some(cs) => Some(
                Seq::new(
                    cs@.len(),
                    |i: int|
                        if 0 <= i < cs@.len() {
                            component_dto_model(cs@[i])
                        } else {
                            arbitrary()
                        },
                ),
            ),
            None => None,
        },
        list: match v.list {
            Some(l) => Some(
                ListDtoModel {
                    items: Seq::new(
                        l.items@.len(),
                        |i: int|
                            if 0 <= i < l.items@.len() {
                                value_dto_model(l.items@[i])
                            } else {
                                arbitrary()
                            },
                    ),
                    nil: l.nil,
                },
            ),
            None => None,
        },
    }
}

pub open spec fn component_dto_model(c: ComponentDto) -> ComponentDtoModel
    decreases c,
{
    ComponentDtoModel {
        name: c.name.deep_view(),
        value: match c.value {
            Some(v) => Some(value_dto_model(v)),
            None => None,
        },
        nil: c.nil,
    }
}

impl View for ValueDto {
    type V = ValueDtoModel;

    open spec fn view(&self) -> ValueDtoModel {
        value_dto_model(*self)
    }
}

impl View for ComponentDto {
    type V = ComponentDtoModel;

    open spec fn view(&self) -> ComponentDtoModel {
        component_dto_model(*self)
    }
}

/// The wire form of a value: exactly the branch of its kind is present.
pub open spec fn dto_of(v: ValueModel) -> ValueDtoModel
    decreases v,
{
    match v {
        ValueModel::Simple { typ, text, nil } => ValueDtoModel {
            simple: Some(SimpleDtoModel { typ, text, nil }),
            components: None,
            list: None,
        },
        ValueModel::Components(cs) => ValueDtoModel {
            simple: None,
            components: Some(
                Seq::new(
                    cs.len(),
                    |i: int|
                        if 0 <= i < cs.len() {
                            component_dto_of(cs[i])
                        } else {
                            arbitrary()
                        },
                ),
            ),
            list: None,
        },
        ValueModel::List { items, nil } => ValueDtoModel {
            simple: None,
            components: None,
            list: Some(
                ListDtoModel {
                    items: Seq::new(
                        items.len(),
                        |i: int|
                            if 0 <= i < items.len() {
                                dto_of(items[i])
                            } else {
                                arbitrary()
                            },
                    ),
                    nil,
                },
            ),
        },
    }
}

pub open spec fn component_dto_of(c: ComponentModel) -> ComponentDtoModel
    decreases c,
{
    ComponentDtoModel {
        name: c.name,
        value: match c.value {
            Some(v) => Some(dto_of(v)),
            None => None,
        },
        nil: c.nil,
    }
}

/// Simple values are equal when type, text and nil flag are.
pub open spec fn simple_equal(a: Option<SimpleDtoModel>, b: Option<SimpleDtoModel>) -> bool {
    a == b
}

/// Structural equality of wire values: simple values by type, text and nil
/// flag; components pairwise in order by name, value and nil flag; lists by
/// nil flag and, when not nil, pairwise by items in order.
pub open spec fn dto_equal(a: ValueDtoModel, b: ValueDtoModel) -> bool
    decreases a,
{
    &&& simple_equal(a.simple, b.simple)
    &&& match (a.components, b.components) {
        (None, None) => true,
        (Some(x), Some(y)) => x.len() == y.len() && forall|i: int|
            0 <= i < x.len() ==> {
                &&& x[i].name == y[i].name
                &&& x[i].nil == y[i].nil
                &&& match (x[i].value, y[i].value) {
                    (None, None) => true,
                    (Some(p), Some(q)) => dto_equal(p, q),
                    _ => false,
                }
            },
        _ => false,
    }
    &&& match (a.list, b.list) {
        (None, None) => true,
        (Some(x), Some(y)) => x.nil == y.nil && (x.nil || (x.items.len() == y.items.len() && forall|
            i: int,
        |
            0 <= i < x.items.len() ==> dto_equal(x.items[i], y.items[i]))),
        _ => false,
    }
}

impl SimpleDto {
    /// Wire form of a simple value.
    pub fn from(simple: &Simple) -> (r: SimpleDto)
        ensures
            simple_dto_model(r) == (SimpleDtoModel {
                typ: simple.typ.deep_view(),
                text: simple.text.deep_view(),
                nil: simple.nil,
            }),
    {
        SimpleDto { typ: clone_text(&simple.typ), text: clone_text(&simple.text), nil: simple.nil }
    }
}

impl PartialEq for SimpleDto {
    fn eq(&self, rhs: &Self) -> (r: bool) {
        same_text(&self.typ, &rhs.typ) && same_text(&self.text, &rhs.text) && self.nil == rhs.nil
    }
}

impl vstd::std_specs::cmp::PartialEqSpecImpl for SimpleDto {
    open spec fn obeys_eq_spec() -> bool {
        true
    }

    open spec fn eq_spec(&self, rhs: &SimpleDto) -> bool {
        simple_dto_model(*self) == simple_dto_model(*rhs)
    }
}

impl ComponentDto {
    /// Wire form of a component.
    pub fn from(component: &Component) -> (r: ComponentDto)
        ensures
            r@ == component_dto_of(component@),
        decreases component,
    {
        let value = match &component.value {
            Some(v) => Some(ValueDto::from(v)),
            None => None,
        };
        ComponentDto { name: clone_text(&component.name), value, nil: component.nil }
    }
}

impl ListDto {
    /// Wire form of a list.
    pub fn from(list: &List) -> (r: ListDto)
        ensures
            r.nil == list.nil,
            r.items@.len() == list.items@.len(),
            forall|i: int| 0 <= i < list.items@.len() ==> #[trigger] r.items@[i]@ == dto_of(list.items@[i]@),
        decreases list,
    {
        let mut items: Vec<ValueDto> = Vec::new();
        let len = list.items.len();
        let mut i: usize = 0;
        while i < len
            invariant
                len == list.items@.len(),
                i <= len,
                items@.len() == i,
                forall|j: int| 0 <= j < i ==> #[trigger] items@[j]@ == dto_of(list.items@[j]@),
            decreases len - i,
        {
            let d = ValueDto::from(&list.items[i]);
            items.push(d);
            i = i + 1;
        }
        ListDto { items, nil: list.nil }
    }
}

impl InputNodeDto {
    /// Wire form of an input node.
    pub fn from(input_node: &InputNode) -> (r: InputNodeDto)
        ensures
            r.name@ == input_node.name@,
            r.value is Some <==> input_node.value is Some,
            r.value is Some ==> r.value->Some_0@ == dto_of(input_node.value->Some_0@),
    {
        let value = match &input_node.value {
            Some(v) => Some(ValueDto::from(v)),
            None => None,
        };
        InputNodeDto { name: input_node.name.clone(), value }
    }
}

impl ValueDto {
    /// Wire form of a value: the branch of the value's kind.
    pub fn from(value: &Value) -> (r: ValueDto)
        ensures
            r@ == dto_of(value@),
        decreases value,
    {
        match value {
            Value::Simple(simple) => ValueDto {
                simple: Some(SimpleDto::from(simple)),
                components: None,
                list: None,
            },
            Value::Components(components) => {
                let mut out: Vec<ComponentDto> = Vec::new();
                let len = components.len();
                let mut i: usize = 0;
                while i < len
                    invariant
                        *value == Value::Components(*components),
                        len == components@.len(),
                        i <= len,
                        out@.len() == i,
                        forall|j: int|
                            0 <= j < i ==> #[trigger] out@[j]@ == component_dto_of(components@[j]@),
                    decreases len - i,
                {
                    proof {
                        assert(decreases_to!(*value => (*value)->Components_0));
                        assert(decreases_to!(*components => components@));
                        assert(decreases_to!(components@ => components@[i as int]));
                    }
                    let d = ComponentDto::from(&components[i]);
                    out.push(d);
                    i = i + 1;
                }
                let r = ValueDto { simple: None, components: Some(out), list: None };
                proof {
                    let m = value@->Components_0;
                    assert(m.len() == len);
                    assert forall|j: int| 0 <= j < len implies r@.components->Some_0[j] == dto_of(
                        value@,
                    ).components->Some_0[j] by {
                        assert(m[j] == components@[j]@);
                        assert(r@.components->Some_0[j] == out@[j]@);
                    }
                    assert(r@.components->Some_0 =~= dto_of(value@).components->Some_0);
                }
                r
            },
            Value::List(list) => {
                let l = ListDto::from(list);
                let r = ValueDto { simple: None, components: None, list: Some(l) };
                proof {
                    let m = value@->List_items;
                    assert forall|j: int| 0 <= j < list.items@.len() implies r@.list->Some_0.items[j]
                        == dto_of(value@).list->Some_0.items[j] by {
                        assert(m[j] == list.items@[j]@);
                        assert(l.items@[j]@ == dto_of(list.items@[j]@));
                    }
                    assert(r@.list->Some_0.items =~= dto_of(value@).list->Some_0.items);
                }
                r
            },
        }
    }

    /// Structural equality of wire values; see [`dto_equal`].
    pub fn equals(&self, other: &ValueDto) -> (r: bool)
        ensures
            r == dto_equal(self@, other@),
        decreases self,
    {
        let simple_same = match (&self.simple, &other.simple) {
            (None, None) => true,
            (Some(x), Some(y)) => same_text(&x.typ, &y.typ) && same_text(&x.text, &y.text) && x.nil
                == y.nil,
            _ => false,
        };
        if !simple_same {
            return false;
        }
        match (&self.components, &other.components) {
            (None, None) => {},
            (Some(x), Some(y)) => {
                if x.len() != y.len() {
                    return false;
                }
                let ghost xm = self@.components->Some_0;
                let ghost ym = other@.components->Some_0;
                let len = x.len();
                let mut i: usize = 0;
                while i < len
                    invariant
                        len == x@.len(),
                        len == y@.len(),
                        xm.len() == len,
                        ym.len() == len,
                        self.components == Some(*x),
                        other.components == Some(*y),
                        xm == self@.components->Some_0,
                        ym == other@.components->Some_0,
                        i <= len,
                        forall|j: int|
                            0 <= j < i ==> {
                                &&& #[trigger] xm[j].name == ym[j].name
                                &&& xm[j].nil == ym[j].nil
                                &&& match (xm[j].value, ym[j].value) {
                                    (None, None) => true,
                                    (Some(p), Some(q)) => dto_equal(p, q),
                                    _ => false,
                                }
                            },
                    decreases len - i,
                {
                    let a = &x[i];
                    let b = &y[i];
                    proof {
                        assert(xm[i as int] == a@);
                        assert(ym[i as int] == b@);
                    }
                    if !same_text(&a.name, &b.name) || a.nil != b.nil {
                        return false;
                    }
                    let same_value = match (&a.value, &b.value) {
                        (None, None) => true,
                        (Some(p), Some(q)) => p.equals(q),
                        _ => false,
                    };
                    if !same_value {
                        return false;
                    }
                    i = i + 1;
                }
            },
            _ => return false,
        }
        match (&self.list, &other.list) {
            (None, None) => true,
            (Some(x), Some(y)) => {
                if x.nil != y.nil {
                    return false;
                }
                if x.nil {
                    return true;
                }
                if x.items.len() != y.items.len() {
                    return false;
                }
                let ghost xm = self@.list->Some_0.items;
                let ghost ym = other@.list->Some_0.items;
                let len = x.items.len();
                let mut i: usize = 0;
                while i < len
                    invariant
                        len == x.items@.len(),
                        len == y.items@.len(),
                        xm.len() == len,
                        ym.len() == len,
                        self.list == Some(*x),
                        other.list == Some(*y),
                        !x.nil,
                        x.nil == y.nil,
                        xm == self@.list->Some_0.items,
                        ym == other@.list->Some_0.items,
                        i <= len,
                        forall|j: int| 0 <= j < i ==> dto_equal(#[trigger] xm[j], ym[j]),
                    decreases len - i,
                {
                    proof {
                        assert(xm[i as int] == x.items@[i as int]@);
                        assert(ym[i as int] == y.items@[i as int]@);
                    }
                    if !x.items[i].equals(&y.items[i]) {
                        return false;
                    }
                    i = i + 1;
                }
                true
            },
            _ => false,
        }
    }
}

impl PartialEq for ValueDto {
    fn eq(&self, other: &Self) -> (r: bool) {
        self.equals(other)
    }
}

impl vstd::std_specs::cmp::PartialEqSpecImpl for ValueDto {
    open spec fn obeys_eq_spec() -> bool {
        true
    }

    open spec fn eq_spec(&self, other: &ValueDto) -> bool {
        dto_equal(self@, other@)
    }
}

/// Whether an expected value and a computed value are equal, compared in
/// their wire forms.
pub open spec fn values_equal(expected: ValueModel, computed: ValueModel) -> bool {
    dto_equal(dto_of(expected), dto_of(computed))
}

/// Compares an expected value with a computed one in their wire forms.
pub fn equal(expected: &Value, computed: &Value) -> (r: bool)
    ensures
        r == values_equal(expected@, computed@),
{
    let e = ValueDto::from(expected);
    let c = ValueDto::from(computed);
    e.equals(&c)
}

/// Every wire value equals itself.
pub proof fn lemma_dto_equal_reflexive(d: ValueDtoModel)
    ensures
        dto_equal(d, d),
    decreases d,
{
    if d.components is Some {
        let x = d.components->Some_0;
        assert forall|i: int| 0 <= i < x.len() implies match (#[trigger] x[i].value, x[i].value) {
            (None, None) => true,
            (Some(p), Some(q)) => dto_equal(p, q),
            _ => false,
        } by {
            if x[i].value is Some {
                lemma_dto_equal_reflexive(x[i].value->Some_0);
            }
        }
    }
    if d.list is Some {
        let x = d.list->Some_0;
        assert forall|i: int| 0 <= i < x.items.len() implies dto_equal(x.items[i], x.items[i]) by {
            lemma_dto_equal_reflexive(x.items[i]);
        }
    }
}

/// Every value equals itself, and a simple value never equals a list or a
/// collection of components, whatever they hold.
pub proof fn lemma_equal_reflexive_and_exclusive(v: Value, w: Value)
    ensures
        values_equal(v@, v@),
        (v@ is Simple && (w@ is List || w@ is Components)) ==> !values_equal(v@, w@),
        (v@ is Simple && (w@ is List || w@ is Components)) ==> !values_equal(w@, v@),
{
    lemma_dto_equal_reflexive(dto_of(v@));
}

/// Two lists whose nil flags differ are never equal, whatever they hold; in
/// particular an empty list differs from a nil list.
pub proof fn lemma_nil_flag_distinguishes_lists(a: Seq<ValueModel>, b: Seq<ValueModel>)
    ensures
        !values_equal(ValueModel::List { items: a, nil: false }, ValueModel::List { items: b, nil: true }),
        !values_equal(ValueModel::List { items: b, nil: true }, ValueModel::List { items: a, nil: false }),
{
}

/// The value that a wire value stands for: its simple branch if present,
/// else its components, else its list, else none. List items that stand for
/// no value are left out.
pub open spec fn value_of_dto(d: ValueDtoModel) -> Option<ValueModel>
    decreases d,
{
    match d.simple {
        Some(s) => Some(ValueModel::Simple { typ: s.typ, text: s.text, nil: s.nil }),
        None => match d.components {
            Some(cs) => Some(
                ValueModel::Components(
                    Seq::new(
                        cs.len(),
                        |i: int|
                            if 0 <= i < cs.len() {
                                component_of_dto(cs[i])
                            } else {
                                arbitrary()
                            },
                    ),
                ),
            ),
            None => match d.list {
                Some(l) => Some(ValueModel::List { items: items_of_dtos(l.items), nil: l.nil }),
                None => None,
            },
        },
    }
}

pub open spec fn component_of_dto(c: ComponentDtoModel) -> ComponentModel
    decreases c,
{
    ComponentModel {
        name: c.name,
        value: match c.value {
            Some(v) => value_of_dto(v),
            None => None,
        },
        nil: c.nil,
    }
}

pub open spec fn items_of_dtos(s: Seq<ValueDtoModel>) -> Seq<ValueModel>
    decreases s,
{
    if s.len() == 0 {
        Seq::empty()
    } else {
        let p = items_of_dtos(s.subrange(0, s.len() - 1));
        match value_of_dto(s[s.len() - 1]) {
            Some(v) => p.push(v),
            None => p,
        }
    }
}

/// Converting a value to its wire form and back gives the value again.
pub proof fn lemma_dto_round_trip(v: ValueModel)
    ensures
        value_of_dto(dto_of(v)) == Some(v),
    decreases v, 0nat,
{
    match v {
        ValueModel::Simple { typ, text, nil } => {
            assert(dto_of(v) == ValueDtoModel {
                simple: Some(SimpleDtoModel { typ, text, nil }),
                components: None,
                list: None,
            });
        },
        ValueModel::Components(cs) => {
            let d = dto_of(v);
            let back = value_of_dto(d)->Some_0->Components_0;
            assert forall|i: int| 0 <= i < cs.len() implies back[i] == cs[i] by {
                let c = cs[i];
                assert(d.components->Some_0[i] == component_dto_of(c));
                assert(back[i] == component_of_dto(component_dto_of(c)));
                if c.value is Some {
                    lemma_dto_round_trip(c.value->Some_0);
                }
            }
            assert(back =~= cs);
        },
        ValueModel::List { items, nil } => {
            let ds = dto_of(v).list->Some_0.items;
            lemma_items_round_trip(items, ds, items.len());
            assert(ds.subrange(0, items.len() as int) =~= ds);
            assert(items.subrange(0, items.len() as int) =~= items);
        },
    }
}

proof fn lemma_items_round_trip(items: Seq<ValueModel>, ds: Seq<ValueDtoModel>, k: nat)
    requires
        k <= items.len(),
        ds.len() == items.len(),
        forall|i: int| 0 <= i < items.len() ==> #[trigger] ds[i] == dto_of(items[i]),
    ensures
        items_of_dtos(ds.subrange(0, k as int)) == items.subrange(0, k as int),
    decreases items, k,
{
    if k == 0 {
        assert(items.subrange(0, 0) =~= Seq::<ValueModel>::empty());
    } else {
        lemma_items_round_trip(items, ds, (k - 1) as nat);
        lemma_dto_round_trip(items[k - 1]);
        let p = ds.subrange(0, k as int);
        assert(p.subrange(0, p.len() - 1) =~= ds.subrange(0, k - 1));
        assert(p[p.len() - 1] == dto_of(items[k - 1]));
        assert(items.subrange(0, k as int) =~= items.subrange(0, k - 1).push(items[k - 1]));
    }
}

impl ComponentDto {
    /// The component that a wire component stands for.
    pub fn to_component(&self) -> (r: Component)
        ensures
            r@ == component_of_dto(self@),
        decreases self,
    {
        let value = match &self.value {
            Some(v) => v.to_value(),
            None => None,
        };
        Component { name: clone_text(&self.name), value, nil: self.nil }
    }
}

impl ValueDto {
    /// The value that a wire value stands for; none when no branch is
    /// present.
    pub fn to_value(&self) -> (r: Option<Value>)
        ensures
            opt_value_model(r) == value_of_dto(self@),
        decreases self,
    {
        if let Some(s) = &self.simple {
            return Some(
                Value::Simple(
                    Simple { typ: clone_text(&s.typ), text: clone_text(&s.text), nil: s.nil },
                ),
            );
        }
        if let Some(cs) = &self.components {
            let mut out: Vec<Component> = Vec::new();
            let len = cs.len();
            let mut i: usize = 0;
            while i < len
                invariant
                    self.components == Some(*cs),
                    len == cs@.len(),
                    i <= len,
                    out@.len() == i,
                    forall|j: int| 0 <= j < i ==> #[trigger] out@[j]@ == component_of_dto(cs@[j]@),
                decreases len - i,
            {
                proof {
                    assert(decreases_to!(*self => self.components));
                    assert(decreases_to!(self.components => self.components->Some_0));
                    assert(decreases_to!(*cs => cs@));
                    assert(decreases_to!(cs@ => cs@[i as int]));
                }
                out.push(cs[i].to_component());
                i = i + 1;
            }
            let r = Value::Components(out);
            proof {
                let m = r@->Components_0;
                let d = value_of_dto(self@)->Some_0->Components_0;
                assert forall|j: int| 0 <= j < len implies m[j] == d[j] by {
                    assert(m[j] == out@[j]@);
                    assert(self@.components->Some_0[j] == cs@[j]@);
                    assert(d[j] == component_of_dto(cs@[j]@));
                }
                assert(m =~= d);
            }
            return Some(r);
        }
        if let Some(l) = &self.list {
            let ghost ds = self@.list->Some_0.items;
            let mut items: Vec<Value> = Vec::new();
            let len = l.items.len();
            let mut i: usize = 0;
            while i < len
                invariant
                    self.list == Some(*l),
                    ds == self@.list->Some_0.items,
                    len == l.items@.len(),
                    len == ds.len(),
                    i <= len,
                    items@.map_values(|v: Value| v@) == items_of_dtos(ds.subrange(0, i as int)),
                decreases len - i,
            {
                proof {
                    assert(ds[i as int] == l.items@[i as int]@);
                    let p = ds.subrange(0, i + 1);
                    assert(p.subrange(0, p.len() - 1) =~= ds.subrange(0, i as int));
                    assert(p[p.len() - 1] == ds[i as int]);
                    assert(decreases_to!(*self => self.list));
                    assert(decreases_to!(self.list => self.list->Some_0));
                    assert(decreases_to!(*l => l.items));
                    assert(decreases_to!(l.items => l.items@));
                    assert(decreases_to!(l.items@ => l.items@[i as int]));
                }
                match l.items[i].to_value() {
                    Some(v) => {
                        let ghost before = items@.map_values(|v: Value| v@);
                        items.push(v);
                        proof {
                            assert(items@.map_values(|v: Value| v@) =~= before.push(v@));
                        }
                    },
                    None => {},
                }
                i = i + 1;
            }
            proof {
                assert(ds.subrange(0, len as int) =~= ds);
            }
            let r = Value::List(List { items, nil: l.nil });
            proof {
                assert(r@->List_items =~= items@.map_values(|v: Value| v@));
            }
            return Some(r);
        }
        None
    }
}

} // verus!
