use tck_runner::identity::{rdnn_from_parts, workspace_from_relative, UrlParts};
use tck_runner::model::TestCaseType;
use tck_runner::xml::{root_element, XmlNode};
use tck_runner::context::{Context, ModelError, TestResult};
use tck_runner::dto::{ErrorDto, InputNodeDto, OptionalValueDto, ResultDto, SimpleDto, ValueDto};
use tck_runner::evaluation::{decimal_text, evaluate_params, evaluate_response, invocable_path, plan_requests, test_id};
use tck_runner::fixture::parse_test_file;
use tck_runner::identity::{dir_name, dir_name_stripped_prefix, file_stem, to_rdnn, workspace_name, RdnnError};
use tck_runner::model::{InputNode, Simple, Value};
use tck_runner::text::{join_texts, split_text, trim, Strip};

#[test]
fn rdnn_of_namespace_url() {
    assert_eq!(to_rdnn("https://dmntk.io/models/loan").unwrap(), "io/dmntk/models/loan");
    assert_eq!(to_rdnn("https://example.com/models/a").unwrap(), "com/example/models/a");
    assert_eq!(to_rdnn("https://example.com").unwrap(), "com/example");
    assert_eq!(to_rdnn("https://a.b.example.org//x/").unwrap(), "org/example/b/a/x");
}

#[test]
fn rdnn_errors() {
    assert_eq!(to_rdnn("not a url"), Err(RdnnError::InvalidUrl));
    assert_eq!(to_rdnn("data:text/plain,Hello"), Err(RdnnError::CannotBeABase));
    assert_eq!(to_rdnn("https://127.0.0.1/models"), Err(RdnnError::NoDomain));
}

#[test]
fn path_parts() {
    assert_eq!(dir_name("/tmp/tests/a/b.xml").as_deref(), Some("/tmp/tests/a"));
    assert_eq!(file_stem("/tmp/tests/a/b.xml").as_deref(), Some("b"));
    assert_eq!(dir_name("/"), None);
    assert_eq!(file_stem("/"), None);
    assert_eq!(dir_name_stripped_prefix("/root/tests/a", "/root/"), "tests/a");
    assert_eq!(dir_name_stripped_prefix("/other/a", "/root/"), "/other/a");
    assert_eq!(dir_name_stripped_prefix("/root", "/root/"), "/root");
}

#[test]
fn workspace_names() {
    assert_eq!(workspace_name("/tck", "/tck/compliance-level-2/0001/model.dmn").as_deref(), Some("compliance-level-2/0001"));
    assert_eq!(workspace_name("/tck", "/tck/model.dmn").as_deref(), Some(""));
    assert_eq!(workspace_name("/tck", "/elsewhere/model.dmn"), None);
}

#[test]
fn text_helpers() {
    assert_eq!(trim("  a b \t\n", Strip::WhiteSpace), "a b");
    assert_eq!(trim("//a/b//", Strip::Slash), "a/b");
    assert_eq!(trim("   ", Strip::WhiteSpace), "");
    assert_eq!(split_text("a.b..c", '.'), vec!["a", "b", "", "c"]);
    assert_eq!(split_text("", '.'), vec![""]);
    assert_eq!(join_texts(&vec!["x".to_string(), "y".to_string(), "z".to_string()], ", "), "x, y, z");
    assert_eq!(join_texts(&vec![], "/"), "");
}

#[test]
fn test_ids_and_paths() {
    assert_eq!(test_id("001", 0), "001");
    assert_eq!(test_id("001", 1), "001:1");
    assert_eq!(test_id("001", 12), "001:12");
    assert_eq!(invocable_path("", "io/dmntk/models/loan", "Approve"), "io/dmntk/models/loan/Approve");
    assert_eq!(invocable_path("level-2/0001", "com/example", "d"), "level-2/0001/com/example/d");
}

#[test]
fn params_use_invocable_name_or_result_node_name() {
    let text = r#"<testCases xmlns:xsi="http://www.w3.org/2001/XMLSchema-instance">
      <testCase id="1"><inputNode name="a"><value>1</value></inputNode><inputNode name="b"/>
        <resultNode name="r0"/><resultNode name="r1"/></testCase>
      <testCase id="2" invocableName="svc"><resultNode name="r0"/></testCase>
    </testCases>"#;
    let cases = parse_test_file(text).unwrap();
    let p = evaluate_params(&cases.test_cases[0], 1, "ws", "com/example");
    assert_eq!(p.invocable_path, "ws/com/example/r1");
    assert_eq!(p.input_values.len(), 2);
    assert_eq!(p.input_values[0].name, "a");
    assert!(p.input_values[0].value.as_ref().unwrap().simple.is_some());
    assert!(p.input_values[1].value.is_none());
    let p = evaluate_params(&cases.test_cases[1], 0, "", "com/example");
    assert_eq!(p.invocable_path, "com/example/svc");
    let dto = InputNodeDto::from(&InputNode { name: "n".to_string(), value: None });
    assert_eq!(dto.name, "n");
}

fn ok_response(typ: &str, text: &str) -> ResultDto<OptionalValueDto> {
    ResultDto {
        data: Some(OptionalValueDto {
            value: Some(ValueDto {
                simple: Some(SimpleDto { typ: Some(typ.to_string()), text: Some(text.to_string()), nil: false }),
                components: None,
                list: None,
            }),
        }),
        errors: None,
    }
}

fn expected_ok() -> Option<Value> {
    Some(Value::Simple(Simple { typ: Some("xsd:string".to_string()), text: Some("OK".to_string()), nil: false }))
}

#[test]
fn response_verdicts() {
    let (r, remark) = evaluate_response(&ok_response("xsd:string", "OK"), &expected_ok(), "12 µs");
    assert_eq!(r, TestResult::Success);
    assert_eq!(remark, "12 µs");
    let (r, remark) = evaluate_response(&ok_response("xsd:string", "KO"), &expected_ok(), "12 µs");
    assert_eq!(r, TestResult::Failure);
    assert_eq!(remark, "result differs from expected");
    let (r, remark) = evaluate_response(&ok_response("xsd:string", "OK"), &None, "");
    assert_eq!((r, remark.as_str()), (TestResult::Failure, "no expected value"));
    let no_value = ResultDto { data: Some(OptionalValueDto { value: None }), errors: None };
    let (r, remark) = evaluate_response(&no_value, &expected_ok(), "");
    assert_eq!((r, remark.as_str()), (TestResult::Failure, "no actual value"));
    let errors: ResultDto<OptionalValueDto> = ResultDto {
        data: None,
        errors: Some(vec![ErrorDto { detail: "first".to_string() }, ErrorDto { detail: "second".to_string() }]),
    };
    let (r, remark) = evaluate_response(&errors, &expected_ok(), "");
    assert_eq!((r, remark.as_str()), (TestResult::Failure, "first, second"));
    assert_eq!(errors.to_string(), "first, second");
    let nothing: ResultDto<OptionalValueDto> = ResultDto { data: None, errors: None };
    let (r, remark) = evaluate_response(&nothing, &expected_ok(), "");
    assert_eq!((r, remark.as_str()), (TestResult::Failure, "ResultDto { data: None, errors: None }"));
    assert_eq!(nothing.to_string(), "");
}

#[test]
fn result_names() {
    assert_eq!(TestResult::Success.to_string(), "SUCCESS");
    assert_eq!(TestResult::Failure.to_string(), "ERROR");
}

#[test]
fn model_definitions_are_recorded() {
    let mut ctx = Context::new(false, ".*".to_string(), "/tck".to_string());
    assert_eq!(ctx.root_dir_path, "/tck/");
    let dmn = r#"<definitions name="Loan" namespace="https://dmntk.io/models/loan"/>"#;
    ctx.process_model_definitions("/tck", "/tck/a/loan.dmn", "loan.dmn", dmn).unwrap();
    assert_eq!(ctx.get_model_name("loan.dmn").as_deref(), Some("Loan"));
    assert_eq!(ctx.get_model_rdnn("loan.dmn").as_deref(), Some("io/dmntk/models/loan"));
    assert_eq!(ctx.get_workspace_name("loan.dmn").as_deref(), Some("a"));
    assert_eq!(ctx.get_model_name("other.dmn"), None);
    let bad = r#"<definitions namespace="https://dmntk.io/x"/>"#;
    assert_eq!(ctx.process_model_definitions("/tck", "/tck/b.dmn", "b.dmn", bad), Err(ModelError::MissingName));
    let bad = r#"<definitions name="x"/>"#;
    assert_eq!(ctx.process_model_definitions("/tck", "/tck/b.dmn", "b.dmn", bad), Err(ModelError::MissingNamespace));
    let bad = r#"<definitions name="x" namespace="nope"/>"#;
    assert_eq!(
        ctx.process_model_definitions("/tck", "/tck/b.dmn", "b.dmn", bad),
        Err(ModelError::InvalidNamespace(RdnnError::InvalidUrl))
    );
    assert_eq!(ctx.process_model_definitions("/tck", "/tck/b.dmn", "b.dmn", "<x"), Err(ModelError::MalformedDocument));
    assert_eq!(ctx.process_model_definitions("/tck", "/other/b.dmn", "b.dmn", dmn), Err(ModelError::OutsideRoot));
    assert_eq!(ctx.get_model_name("b.dmn"), None);
    assert_eq!(ctx.model_names.len(), 1);
}

#[test]
fn one_failure_fails_the_test_case() {
    let mut ctx = Context::new(false, ".*".to_string(), "/tck".to_string());
    let line = ctx.write_line("/tck/dir/cases.xml", "001", "001", TestResult::Success, "5 µs").unwrap();
    assert_eq!(line, r#""dir","cases","001","SUCCESS","""#);
    let line = ctx.write_line("/tck/dir/cases.xml", "001", "001:1", TestResult::Failure, "result differs from expected").unwrap();
    assert_eq!(line, r#""dir","cases","001:1","ERROR","result differs from expected""#);
    assert_eq!(ctx.success_count, 1);
    assert_eq!(ctx.failure_count, 1);
    let report = ctx.display_test_cases_report();
    assert_eq!(report.total_count, 1);
    assert_eq!(report.success_count, 0);
    assert_eq!(report.failure_count, 1);
    assert_eq!(report.passed, vec![false]);
    assert_eq!(report.lines, vec![r#""dir","cases","001","ERROR","result differs from expected""#.to_string()]);
}

#[test]
fn report_orders_keys_and_joins_remarks() {
    let mut ctx = Context::new(true, ".*".to_string(), "/tck".to_string());
    ctx.write_line("/tck/b/x.xml", "2", "2", TestResult::Failure, "r1").unwrap();
    ctx.write_line("/tck/a/y.xml", "1", "1", TestResult::Success, "").unwrap();
    ctx.write_line("/tck/b/x.xml", "2", "2:1", TestResult::Failure, "r2").unwrap();
    ctx.write_line("/tck/a/y.xml", "1", "1:1", TestResult::Success, "").unwrap();
    assert!(ctx.should_stop(TestResult::Failure));
    assert!(!ctx.should_stop(TestResult::Success));
    let report = ctx.display_test_cases_report();
    assert_eq!(report.total_count, 2);
    assert_eq!(report.success_count, 1);
    assert_eq!(report.failure_count, 1);
    assert_eq!(
        report.lines,
        vec![r#""a","y","1","SUCCESS","""#.to_string(), r#""b","x","2","ERROR","r1,r2""#.to_string()]
    );
    assert!(ctx.write_line("", "1", "1", TestResult::Success, "").is_none());
}

#[test]
fn empty_run_has_no_test_cases() {
    let mut ctx = Context::new(false, ".*".to_string(), "/tck".to_string());
    let report = ctx.display_test_cases_report();
    assert_eq!(report.total_count, 0);
    assert!(report.lines.is_empty());
    assert!(ctx.finalized);
    assert!(ctx.write_line("/tck/a/b.xml", "1", "1", TestResult::Success, "").is_none());
    assert_eq!(ctx.success_count, 0);
}

#[test]
fn end_to_end_single_test_case() {
    let fixture = r#"<testCases xmlns:xsi="http://www.w3.org/2001/XMLSchema-instance">
      <modelName>model.dmn</modelName>
      <testCase id="001"><resultNode name="Greeting"><expected><value xsi:type="xsd:string">OK</value></expected></resultNode></testCase>
    </testCases>"#;
    let cases = parse_test_file(fixture).unwrap();
    let mut ctx = Context::new(false, ".*".to_string(), "/tck".to_string());
    let tc = &cases.test_cases[0];
    let tc_id = tc.id.clone().unwrap();
    let mut lines = vec![];
    for (i, node) in tc.result_nodes.iter().enumerate() {
        let id = test_id(&tc_id, i);
        let (result, remark) = evaluate_response(&ok_response("xsd:string", "OK"), &node.expected, "1 µs");
        lines.push(ctx.write_line("/tck/dir/stem.xml", &tc_id, &id, result, &remark).unwrap());
    }
    assert_eq!(lines, vec![r#""dir","stem","001","SUCCESS","""#.to_string()]);
    let report = ctx.display_test_cases_report();
    assert_eq!(report.lines, vec![r#""dir","stem","001","SUCCESS","""#.to_string()]);
    assert_eq!(report.keys, vec![("dir".to_string(), "stem".to_string(), "001".to_string())]);
}

#[test]
fn steps_after_outside_calls() {
    let parts = UrlParts {
        domain: Some("dmntk.io".to_string()),
        path_segments: Some(vec!["models".to_string(), " ".to_string(), "loan".to_string()]),
    };
    assert_eq!(rdnn_from_parts(&parts).unwrap(), "io/dmntk/models/loan");
    assert_eq!(rdnn_from_parts(&UrlParts { domain: None, path_segments: Some(vec![]) }), Err(RdnnError::NoDomain));
    assert_eq!(rdnn_from_parts(&UrlParts { domain: Some("a".to_string()), path_segments: None }), Err(RdnnError::CannotBeABase));
    assert_eq!(workspace_from_relative("\\a\\b\\"), "a/b");
    assert_eq!(workspace_from_relative(""), "");
    assert_eq!(TestCaseType::from_lowercase(" bkm\n"), TestCaseType::BusinessKnowledgeModel);
    assert_eq!(TestCaseType::from_lowercase("BKM"), TestCaseType::Decision);
    let node = |parent: Option<usize>, is_element: bool, name: &str| XmlNode {
        parent,
        is_element,
        namespace: None,
        name: name.to_string(),
        text: None,
        attributes: vec![],
    };
    let nodes = vec![
        node(None, false, ""),
        node(Some(0), false, ""),
        node(Some(0), true, "testCases"),
        node(Some(2), true, "testCase"),
        node(Some(3), true, "resultNode"),
        node(Some(2), true, "testCase"),
    ];
    let root = root_element(&nodes).unwrap();
    assert_eq!(root.name, "testCases");
    assert_eq!(root.children.len(), 2);
    assert_eq!(root.children[0].children.len(), 1);
    assert!(root_element(&vec![node(None, false, "")]).is_none());
    match tck_runner::fixture::parse_test_cases_root(&root) {
        Err(tck_runner::fixture::ParseError::MissingAttribute { element, .. }) => assert_eq!(element, "resultNode"),
        _ => panic!("expected a missing name"),
    }
}

#[test]
fn requests_follow_result_nodes_in_order() {
    let text = r#"<testCases>
      <testCase id="A"><resultNode name="r0"/><resultNode name="r1"/></testCase>
      <testCase><resultNode name="s"/></testCase>
      <testCase id="C"/>
      <testCase id="D" invocableName="svc"><resultNode name="t"/></testCase>
    </testCases>"#;
    let cases = parse_test_file(text).unwrap();
    let plan = plan_requests(&cases, "ws", "com/example");
    let got: Vec<(usize, usize, &str, &str, &str)> = plan
        .iter()
        .map(|q| (q.case_index, q.result_index, q.test_case_id.as_str(), q.test_id.as_str(), q.params.invocable_path.as_str()))
        .collect();
    assert_eq!(
        got,
        vec![
            (0, 0, "A", "A", "ws/com/example/r0"),
            (0, 1, "A", "A:1", "ws/com/example/r1"),
            (1, 0, "", "", "ws/com/example/s"),
            (3, 0, "D", "D", "ws/com/example/svc"),
        ]
    );
}

#[test]
fn decimal_digits() {
    assert_eq!(decimal_text(0), "0");
    assert_eq!(decimal_text(7), "7");
    assert_eq!(decimal_text(10), "10");
    assert_eq!(decimal_text(1234567890), "1234567890");
    assert_eq!(decimal_text(usize::MAX), usize::MAX.to_string());
}

#[test]
fn failure_record_grows_the_log_by_one() {
    let mut ctx = Context::new(false, ".*".to_string(), "/tck".to_string());
    ctx.write_line("/tck/d/s.xml", "001", "001", TestResult::Success, "x").unwrap();
    ctx.write_line("/tck/d/s.xml", "001", "001:1", TestResult::Failure, "r").unwrap();
    assert_eq!(ctx.success_count, 1);
    assert_eq!(ctx.failure_count, 1);
    assert_eq!(ctx.test_case_failure.len(), 1);
    assert_eq!(ctx.test_case_failure[0].1, "r");
    assert_eq!(ctx.test_case_success, vec![("d".to_string(), "s".to_string(), "001".to_string())]);
    let report = ctx.display_test_cases_report();
    assert_eq!(report.lines, vec![r#""d","s","001","ERROR","r""#.to_string()]);
    assert_eq!((report.total_count, report.success_count, report.failure_count), (1, 0, 1));
}
