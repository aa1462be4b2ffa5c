use tck_runner::dto::{equal, ComponentDto, ListDto, SimpleDto, ValueDto};
use tck_runner::model::{Component, List, Simple, Value};

fn simple(typ: &str, text: &str) -> Value {
    Value::Simple(Simple { typ: Some(typ.to_string()), text: Some(text.to_string()), nil: false })
}

fn nested() -> Value {
    Value::Components(vec![
        Component { name: None, value: None, nil: true },
        Component { name: Some("a".to_string()), value: Some(simple("xsd:string", "x")), nil: false },
        Component {
            name: Some("b".to_string()),
            value: Some(Value::List(List { items: vec![simple("xsd:decimal", "1"), simple("xsd:decimal", "2")], nil: false })),
            nil: false,
        },
    ])
}

#[test]
fn every_value_equals_itself() {
    for v in [simple("xsd:string", "OK"), nested(), Value::List(List::default()), Value::List(List { items: vec![nested()], nil: false })] {
        assert!(equal(&v, &v));
    }
}

#[test]
fn simple_never_equals_list_or_components() {
    let s = simple("xsd:string", "OK");
    let l = Value::List(List { items: vec![], nil: false });
    let c = Value::Components(vec![]);
    assert!(!equal(&s, &l));
    assert!(!equal(&l, &s));
    assert!(!equal(&s, &c));
    assert!(!equal(&c, &s));
    assert!(!equal(&s, &Value::List(List::default())));
}

#[test]
fn simple_values_compare_exactly() {
    assert!(equal(&simple("xsd:decimal", "1.0"), &simple("xsd:decimal", "1.0")));
    assert!(!equal(&simple("xsd:decimal", "1.0"), &simple("xsd:decimal", "1.00")));
    assert!(!equal(&simple("xsd:decimal", "1"), &simple("xsd:double", "1")));
    let nil = Value::Simple(Simple { typ: Some("xsd:decimal".to_string()), text: Some("1".to_string()), nil: true });
    assert!(!equal(&simple("xsd:decimal", "1"), &nil));
    let untyped = Value::Simple(Simple { typ: None, text: Some("1".to_string()), nil: false });
    assert!(!equal(&simple("xsd:decimal", "1"), &untyped));
}

#[test]
fn lists_compare_in_order() {
    let a = Value::List(List { items: vec![simple("t", "1"), simple("t", "2")], nil: false });
    let b = Value::List(List { items: vec![simple("t", "2"), simple("t", "1")], nil: false });
    let c = Value::List(List { items: vec![simple("t", "1")], nil: false });
    assert!(!equal(&a, &b));
    assert!(!equal(&a, &c));
    let d = Value::List(List { items: vec![simple("t", "1"), simple("t", "2")], nil: false });
    assert!(equal(&a, &d));
}

#[test]
fn nil_lists_ignore_items() {
    let a = Value::List(List { items: vec![simple("t", "1")], nil: true });
    let b = Value::List(List::default());
    assert!(equal(&a, &b));
}

#[test]
fn components_compare_by_name_value_and_nil() {
    let a = nested();
    let mut b = nested();
    if let Value::Components(cs) = &mut b {
        cs[1].nil = true;
    }
    assert!(!equal(&a, &b));
    let mut c = nested();
    if let Value::Components(cs) = &mut c {
        cs[1].name = Some("z".to_string());
    }
    assert!(!equal(&a, &c));
    let mut d = nested();
    if let Value::Components(cs) = &mut d {
        cs.pop();
    }
    assert!(!equal(&a, &d));
}

#[test]
fn wire_form_has_one_branch() {
    let v = ValueDto::from(&simple("xsd:string", "OK"));
    assert!(v.simple.is_some() && v.components.is_none() && v.list.is_none());
    assert_eq!(v.simple.as_ref().unwrap().text.as_deref(), Some("OK"));
    let v = ValueDto::from(&nested());
    assert!(v.simple.is_none() && v.list.is_none());
    let cs = v.components.as_ref().unwrap();
    assert_eq!(cs.len(), 3);
    assert_eq!(cs[1].name.as_deref(), Some("a"));
    assert!(cs[0].nil && cs[0].value.is_none());
    let v = ValueDto::from(&Value::List(List::default()));
    assert!(v.list.as_ref().unwrap().nil);
}

#[test]
fn wire_values_compare_with_eq() {
    let a = ValueDto::from(&nested());
    let b = ValueDto::from(&nested());
    assert!(a == b);
    let empty = ValueDto { simple: None, components: None, list: None };
    assert!(empty == ValueDto { simple: None, components: None, list: None });
    assert!(!(empty == a));
    let s1 = SimpleDto::from(&Simple { typ: None, text: Some("1".to_string()), nil: false });
    let s2 = SimpleDto { typ: None, text: Some("1".to_string()), nil: false };
    assert!(s1 == s2);
    let c = ComponentDto::from(&Component { name: Some("n".to_string()), value: None, nil: false });
    assert_eq!(c.name.as_deref(), Some("n"));
    let l = ListDto::from(&List { items: vec![simple("t", "1")], nil: false });
    assert_eq!(l.items.len(), 1);
    assert!(!l.nil);
}

#[test]
fn wire_value_converts_back() {
    for v in [simple("xsd:string", "OK"), nested(), Value::List(List::default())] {
        let back = ValueDto::from(&v).to_value().unwrap();
        assert!(equal(&v, &back));
    }
    let none = ValueDto { simple: None, components: None, list: None };
    assert!(none.to_value().is_none());
    let list = ValueDto {
        simple: None,
        components: None,
        list: Some(ListDto { items: vec![ValueDto { simple: None, components: None, list: None }, ValueDto::from(&simple("t", "1"))], nil: false }),
    };
    match list.to_value() {
        Some(Value::List(l)) => {
            assert_eq!(l.items.len(), 1);
            assert!(!l.nil);
        }
        other => panic!("unexpected value {:?}", other),
    }
    let c = ComponentDto { name: Some("k".to_string()), value: None, nil: true }.to_component();
    assert_eq!(c.name.as_deref(), Some("k"));
    assert!(c.nil && c.value.is_none());
}
