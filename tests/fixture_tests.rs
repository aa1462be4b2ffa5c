use tck_runner::fixture::{parse_test_file, parse_value_components, parse_value_type, ParseError};
use tck_runner::model::{TestCaseType, Value};
use tck_runner::xml::parse_document;

const HEADER: &str = r#"<testCases xmlns="http://www.omg.org/spec/DMN/20160719/testcase" xmlns:xsi="http://www.w3.org/2001/XMLSchema-instance" xmlns:xsd="http://www.w3.org/2001/XMLSchema">"#;

fn fixture(body: &str) -> String {
    format!("{}{}</testCases>", HEADER, body)
}

#[test]
fn parses_model_name_labels_and_test_case() {
    let text = fixture(
        r#"<modelName>loan.dmn</modelName>
        <labels><label>Compliance Level 2</label><label>Data Type: string</label></labels>
        <testCase id="001" name="first" invocableName="Approve">
          <description>Checks approval</description>
          <inputNode name="Age"><value xsi:type="xsd:decimal">42</value></inputNode>
          <resultNode name="Result"><expected><value xsi:type="xsd:string">OK</value></expected></resultNode>
        </testCase>"#,
    );
    let cases = parse_test_file(&text).unwrap();
    assert_eq!(cases.model_name.as_deref(), Some("loan.dmn"));
    assert_eq!(cases.labels, vec!["Compliance Level 2".to_string(), "Data Type: string".to_string()]);
    assert_eq!(cases.test_cases.len(), 1);
    let tc = &cases.test_cases[0];
    assert_eq!(tc.id.as_deref(), Some("001"));
    assert_eq!(tc.name.as_deref(), Some("first"));
    assert_eq!(tc.invocable_name.as_deref(), Some("Approve"));
    assert_eq!(tc.description.as_deref(), Some("Checks approval"));
    assert_eq!(tc.typ, TestCaseType::Decision);
    assert_eq!(tc.input_nodes.len(), 1);
    assert_eq!(tc.input_nodes[0].name, "Age");
    match &tc.input_nodes[0].value {
        Some(Value::Simple(s)) => {
            assert_eq!(s.typ.as_deref(), Some("xsd:decimal"));
            assert_eq!(s.text.as_deref(), Some("42"));
            assert!(!s.nil);
        }
        other => panic!("unexpected value {:?}", other),
    }
    let rn = &tc.result_nodes[0];
    assert_eq!(rn.name, "Result");
    assert!(!rn.error_result);
    assert!(rn.computed.is_none());
    match &rn.expected {
        Some(Value::Simple(s)) => {
            assert_eq!(s.typ.as_deref(), Some("xsd:string"));
            assert_eq!(s.text.as_deref(), Some("OK"));
        }
        other => panic!("unexpected value {:?}", other),
    }
}

#[test]
fn typed_value_without_text_has_empty_text() {
    let text = fixture(r#"<testCase id="1"><inputNode name="a"><value xsi:type="xsd:string"/></inputNode></testCase>"#);
    let cases = parse_test_file(&text).unwrap();
    match &cases.test_cases[0].input_nodes[0].value {
        Some(Value::Simple(s)) => assert_eq!(s.text.as_deref(), Some("")),
        other => panic!("unexpected value {:?}", other),
    }
}

#[test]
fn nil_value_without_text_keeps_no_text() {
    let text = fixture(r#"<testCase id="1"><inputNode name="a"><value xsi:type="xsd:string" xsi:nil="true"/></inputNode></testCase>"#);
    let cases = parse_test_file(&text).unwrap();
    match &cases.test_cases[0].input_nodes[0].value {
        Some(Value::Simple(s)) => {
            assert!(s.nil);
            assert_eq!(s.text, None);
        }
        other => panic!("unexpected value {:?}", other),
    }
}

#[test]
fn components_are_sorted_by_name_missing_first() {
    let text = fixture(
        r#"<testCase id="1"><inputNode name="p">
          <component name="zeta"><value>1</value></component>
          <component name="alpha"><value>2</value></component>
          <component><value>3</value></component>
          <component name="Beta"><value>4</value></component>
        </inputNode></testCase>"#,
    );
    let cases = parse_test_file(&text).unwrap();
    match &cases.test_cases[0].input_nodes[0].value {
        Some(Value::Components(cs)) => {
            let names: Vec<Option<&str>> = cs.iter().map(|c| c.name.as_deref()).collect();
            assert_eq!(names, vec![None, Some("Beta"), Some("alpha"), Some("zeta")]);
            for w in cs.windows(2) {
                assert!(w[0].name <= w[1].name);
            }
        }
        other => panic!("unexpected value {:?}", other),
    }
}

#[test]
fn equal_component_names_keep_document_order() {
    let text = fixture(
        r#"<testCase id="1"><inputNode name="p">
          <component name="b"><value>first</value></component>
          <component name="a"><value>x</value></component>
          <component name="b"><value>second</value></component>
        </inputNode></testCase>"#,
    );
    let cases = parse_test_file(&text).unwrap();
    match &cases.test_cases[0].input_nodes[0].value {
        Some(Value::Components(cs)) => {
            let texts: Vec<&str> = cs
                .iter()
                .map(|c| match &c.value {
                    Some(Value::Simple(s)) => s.text.as_deref().unwrap(),
                    _ => panic!("not simple"),
                })
                .collect();
            assert_eq!(texts, vec!["x", "first", "second"]);
        }
        other => panic!("unexpected value {:?}", other),
    }
}

#[test]
fn empty_list_and_nil_list_differ() {
    let text = fixture(
        r#"<testCase id="1">
          <inputNode name="empty"><list/></inputNode>
          <inputNode name="nil"><list xsi:nil="true"><item><value>1</value></item></list></inputNode>
        </testCase>"#,
    );
    let cases = parse_test_file(&text).unwrap();
    let inputs = &cases.test_cases[0].input_nodes;
    let empty = inputs[0].value.as_ref().unwrap();
    let nil = inputs[1].value.as_ref().unwrap();
    match empty {
        Value::List(l) => {
            assert!(!l.nil);
            assert!(l.items.is_empty());
        }
        other => panic!("unexpected value {:?}", other),
    }
    match nil {
        Value::List(l) => {
            assert!(l.nil);
            assert!(l.items.is_empty());
        }
        other => panic!("unexpected value {:?}", other),
    }
    assert!(!tck_runner::dto::equal(empty, nil));
    assert!(!tck_runner::dto::equal(nil, empty));
}

#[test]
fn list_items_without_value_are_skipped() {
    let text = fixture(
        r#"<testCase id="1"><inputNode name="l"><list>
          <item><value>1</value></item><item/><item><value>3</value></item>
        </list></inputNode></testCase>"#,
    );
    let cases = parse_test_file(&text).unwrap();
    match &cases.test_cases[0].input_nodes[0].value {
        Some(Value::List(l)) => {
            assert!(!l.nil);
            assert_eq!(l.items.len(), 2);
        }
        other => panic!("unexpected value {:?}", other),
    }
}

#[test]
fn simple_value_wins_over_other_shapes() {
    let doc = parse_document(r#"<n><list/><component name="a"/><value>v</value></n>"#).unwrap();
    match parse_value_type(&doc) {
        Some(Value::Simple(s)) => assert_eq!(s.text.as_deref(), Some("v")),
        other => panic!("unexpected value {:?}", other),
    }
    let doc = parse_document(r#"<n><list/><component name="a"/></n>"#).unwrap();
    assert!(matches!(parse_value_type(&doc), Some(Value::Components(_))));
    let doc = parse_document(r#"<n/>"#).unwrap();
    assert!(parse_value_type(&doc).is_none());
}

#[test]
fn result_node_attributes() {
    let text = fixture(
        r#"<testCase id="7" type="bkm">
          <resultNode name="r1" errorResult="true" type=" BKM " cast="number"/>
          <resultNode name="r2" type="decisionService"/>
          <resultNode name="r3" type="other"/>
        </testCase>
        <testCase id="8" type="decisionService"/>
        <testCase id="9" type="BKM"/>"#,
    );
    let cases = parse_test_file(&text).unwrap();
    let tc = &cases.test_cases[0];
    assert_eq!(tc.typ, TestCaseType::BusinessKnowledgeModel);
    assert!(tc.result_nodes[0].error_result);
    assert_eq!(tc.result_nodes[0].typ, TestCaseType::BusinessKnowledgeModel);
    assert_eq!(tc.result_nodes[0].cast.as_deref(), Some("number"));
    assert_eq!(tc.result_nodes[1].typ, TestCaseType::DecisionService);
    assert_eq!(tc.result_nodes[2].typ, TestCaseType::Decision);
    assert!(!tc.result_nodes[1].error_result);
    assert_eq!(cases.test_cases[1].typ, TestCaseType::DecisionService);
    assert_eq!(cases.test_cases[2].typ, TestCaseType::Decision);
}

#[test]
fn test_case_type_from_text() {
    assert_eq!(TestCaseType::from("  DecisionService ".to_string()), TestCaseType::DecisionService);
    assert_eq!(TestCaseType::from("Bkm".to_string()), TestCaseType::BusinessKnowledgeModel);
    assert_eq!(TestCaseType::from("decision".to_string()), TestCaseType::Decision);
    assert_eq!(TestCaseType::from(None), TestCaseType::Decision);
    assert_eq!(TestCaseType::BusinessKnowledgeModel.to_string(), "bkm");
    assert_eq!(TestCaseType::DecisionService.to_string(), "decisionService");
    assert_eq!(TestCaseType::Decision.to_string(), "decision");
}

#[test]
fn missing_input_node_name_is_an_error() {
    let text = fixture(r#"<testCase id="1"><inputNode><value>1</value></inputNode></testCase>"#);
    match parse_test_file(&text) {
        Err(ParseError::MissingAttribute { attribute, element }) => {
            assert_eq!(attribute, "name");
            assert_eq!(element, "inputNode");
        }
        other => panic!("unexpected result {:?}", other.map(|_| ())),
    }
}

#[test]
fn missing_result_node_name_is_an_error() {
    let text = fixture(r#"<testCase id="1"><resultNode/></testCase>"#);
    match parse_test_file(&text) {
        Err(ParseError::MissingAttribute { attribute, element }) => {
            assert_eq!(attribute, "name");
            assert_eq!(element, "resultNode");
        }
        other => panic!("unexpected result {:?}", other.map(|_| ())),
    }
}

#[test]
fn label_without_text_is_an_error() {
    let text = fixture(r#"<labels><label/></labels>"#);
    match parse_test_file(&text) {
        Err(ParseError::MissingContent { element }) => assert_eq!(element, "label"),
        other => panic!("unexpected result {:?}", other.map(|_| ())),
    }
}

#[test]
fn empty_model_name_is_an_error() {
    let text = fixture(r#"<modelName/>"#);
    match parse_test_file(&text) {
        Err(ParseError::MissingContent { element }) => assert_eq!(element, "modelName"),
        other => panic!("unexpected result {:?}", other.map(|_| ())),
    }
}

#[test]
fn wrong_root_element_is_an_error() {
    match parse_test_file("<definitions/>") {
        Err(ParseError::UnexpectedRootElement { found }) => assert_eq!(found, "definitions"),
        other => panic!("unexpected result {:?}", other.map(|_| ())),
    }
}

#[test]
fn malformed_document_is_an_error() {
    assert!(matches!(parse_test_file("<testCases>"), Err(ParseError::MalformedDocument)));
    assert!(matches!(parse_test_file(""), Err(ParseError::MalformedDocument)));
}

#[test]
fn empty_fixture_has_no_test_cases() {
    let cases = parse_test_file(&fixture("")).unwrap();
    assert_eq!(cases.model_name, None);
    assert!(cases.labels.is_empty());
    assert!(cases.test_cases.is_empty());
}

#[test]
fn components_of_an_element_come_sorted() {
    let doc = parse_document(r#"<n><component name="b"/><component/><component name="a"/><x/></n>"#).unwrap();
    let cs = parse_value_components(&doc).unwrap();
    let names: Vec<Option<&str>> = cs.iter().map(|c| c.name.as_deref()).collect();
    assert_eq!(names, vec![None, Some("a"), Some("b")]);
    let doc = parse_document(r#"<n><value>1</value></n>"#).unwrap();
    assert!(parse_value_components(&doc).is_none());
}
