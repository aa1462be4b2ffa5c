//! Decisions around one evaluation request: what is sent, and what verdict
//! the response gives.

use crate::context::TestResult;
use crate::dto::{dto_equal, dto_of, ErrorDto, InputNodeDto, OptionalValueDto, ResultDto, ValueDto};
use crate::model::{TestCase, TestCases, Value};
use crate::params::EvaluateParams;
use crate::text::{join, join_texts, texts_of};
use vstd::prelude::*;

verus! {

/// The details of a response's errors.
pub open spec fn error_details(errors: Seq<ErrorDto>) -> Seq<Seq<char>> {
    errors.map_values(|e: ErrorDto| e.detail@)
}

/// The error details of a response joined with `, `; empty without errors.
pub open spec fn errors_text<T>(r: ResultDto<T>) -> Seq<char> {
    match r.errors {
        Some(es) => join(error_details(es@), ", "@),
        None => Seq::empty(),
    }
}

impl<T> ResultDto<T> {
    /// The details of the errors, joined with `, `.
    pub fn to_string(&self) -> (r: String)
        ensures
            r@ == errors_text(*self),
    {
        match &self.errors {
            Some(es) => {
                let mut details: Vec<String> = Vec::new();
                let n = es.len();
                let mut i: usize = 0;
                while i < n
                    invariant
                        n == es@.len(),
                        i <= n,
                        texts_of(details@) == error_details(es@.take(i as int)),
                    decreases n - i,
                {
                    let ghost before = texts_of(details@);
                    details.push(es[i].detail.clone());
                    proof {
                        assert(texts_of(details@) =~= before.push(es@[i as int].detail@));
                        assert(error_details(es@.take(i + 1)) =~= error_details(es@.take(i as int)).push(
                            es@[i as int].detail@,
                        ));
                    }
                    i = i + 1;
                }
                proof {
                    assert(es@.take(n as int) =~= es@);
                }
                join_texts(&details, ", ")
            },
            None => String::new(),
        }
    }
}

/// The verdict that a response gives for a test, and its remark: a success
/// when the response holds a value equal to the expected one.
pub open spec fn verdict_of(
    result: ResultDto<OptionalValueDto>,
    expected: Option<Value>,
    success_remark: Seq<char>,
) -> (TestResult, Seq<char>) {
    match result.data {
        Some(data) => match data.value {
            Some(v) => match expected {
                Some(e) => if dto_equal(v@, dto_of(e@)) {
                    (TestResult::Success, success_remark)
                } else {
                    (TestResult::Failure, "result differs from expected"@)
                },
                None => (TestResult::Failure, "no expected value"@),
            },
            None => (TestResult::Failure, "no actual value"@),
        },
        None => match result.errors {
            Some(_) => (TestResult::Failure, errors_text(result)),
            None => (TestResult::Failure, "ResultDto { data: None, errors: None }"@),
        },
    }
}

/// Judges the response of the evaluation service against the expected value.
pub fn evaluate_response(
    result: &ResultDto<OptionalValueDto>,
    expected: &Option<Value>,
    success_remark: &str,
) -> (r: (TestResult, String))
    ensures
        r.0 == verdict_of(*result, *expected, success_remark@).0,
        r.1@ == verdict_of(*result, *expected, success_remark@).1,
{
    match &result.data {
        Some(data) => match &data.value {
            Some(v) => match expected {
                Some(e) => {
                    let expected_dto = ValueDto::from(e);
                    if v.equals(&expected_dto) {
                        (TestResult::Success, success_remark.to_string())
                    } else {
                        (TestResult::Failure, String::from_str("result differs from expected"))
                    }
                },
                None => (TestResult::Failure, String::from_str("no expected value")),
            },
            None => (TestResult::Failure, String::from_str("no actual value")),
        },
        None => match &result.errors {
            Some(_) => (TestResult::Failure, result.to_string()),
            None => (TestResult::Failure, String::from_str("ResultDto { data: None, errors: None }")),
        },
    }
}

pub open spec fn digit(d: nat) -> char {
    seq!['0', '1', '2', '3', '4', '5', '6', '7', '8', '9'][d as int]
}

/// Decimal digits of a number.
pub open spec fn decimal(n: nat) -> Seq<char>
    decreases n,
{
    if n < 10 {
        seq![digit(n)]
    } else {
        decimal(n / 10).push(digit(n % 10))
    }
}

/// The decimal digit for a number below ten.
fn digit_text(d: usize) -> (r: String)
    requires
        d < 10,
    ensures
        r@ == seq![digit(d as nat)],
{
    let r = match d {
        0 => String::from_str("0"),
        1 => String::from_str("1"),
        2 => String::from_str("2"),
        3 => String::from_str("3"),
        4 => String::from_str("4"),
        5 => String::from_str("5"),
        6 => String::from_str("6"),
        7 => String::from_str("7"),
        8 => String::from_str("8"),
        _ => String::from_str("9"),
    };
    proof {
        reveal_strlit("0");
        reveal_strlit("1");
        reveal_strlit("2");
        reveal_strlit("3");
        reveal_strlit("4");
        reveal_strlit("5");
        reveal_strlit("6");
        reveal_strlit("7");
        reveal_strlit("8");
        reveal_strlit("9");
        assert(r@ =~= seq![digit(d as nat)]);
    }
    r
}

/// The decimal digits of a number.
pub fn decimal_text(n: usize) -> (r: String)
    ensures
        r@ == decimal(n as nat),
    decreases n,
{
    if n < 10 {
        digit_text(n)
    } else {
        let mut r = decimal_text(n / 10);
        let d = digit_text(n % 10);
        r.append(d.as_str());
        proof {
            assert(r@ =~= decimal((n / 10) as nat).push(digit((n % 10) as nat)));
        }
        r
    }
}

/// Identifier of the test of the result node at `index`: the test case
/// identifier, followed by `:` and the index for every result node but the
/// first.
pub open spec fn test_id_of(test_case_id: Seq<char>, index: nat) -> Seq<char> {
    if index > 0 {
        test_case_id + ":"@ + decimal(index)
    } else {
        test_case_id
    }
}

/// Identifier of the test of the result node at `index` of a test case.
pub fn test_id(test_case_id: &str, index: usize) -> (r: String)
    ensures
        r@ == test_id_of(test_case_id@, index as nat),
{
    let mut r = test_case_id.to_string();
    if index > 0 {
        r.append(":");
        let digits = decimal_text(index);
        r.append(digits.as_str());
    }
    r
}

/// Path of an invocable: the workspace and `/` unless the workspace is
/// empty, then the model namespace, `/` and the invocable name.
pub open spec fn invocable_path_of(workspace: Seq<char>, namespace: Seq<char>, invocable: Seq<char>) -> Seq<char> {
    (if workspace.len() == 0 {
        Seq::empty()
    } else {
        workspace + "/"@
    }) + namespace + "/"@ + invocable
}

/// Builds the path of an invocable.
pub fn invocable_path(workspace_name: &str, model_namespace: &str, invocable_name: &str) -> (r: String)
    ensures
        r@ == invocable_path_of(workspace_name@, model_namespace@, invocable_name@),
{
    let mut r = String::new();
    if workspace_name.unicode_len() > 0 {
        r.append(workspace_name);
        r.append("/");
    }
    r.append(model_namespace);
    r.append("/");
    r.append(invocable_name);
    r
}

/// The invocable that the result node at `index` of a test case is checked
/// against: the test case's invocable name, else the result node's name.
pub open spec fn invocable_of(test_case: TestCase, index: int) -> Seq<char> {
    match test_case.invocable_name {
        Some(n) => n@,
        None => test_case.result_nodes@[index].name@,
    }
}

/// Whether `p` is the request that checks the result node at `index` of a
/// test case: its invocable path, and the test case's input values in wire
/// form, in order.
pub open spec fn params_for(
    p: EvaluateParams,
    test_case: TestCase,
    index: int,
    workspace: Seq<char>,
    namespace: Seq<char>,
) -> bool {
    &&& p.invocable_path@ == invocable_path_of(workspace, namespace, invocable_of(test_case, index))
    &&& p.input_values@.len() == test_case.input_nodes@.len()
    &&& forall|i: int|
        0 <= i < p.input_values@.len() ==> {
            &&& (#[trigger] p.input_values@[i]).name@ == test_case.input_nodes@[i].name@
            &&& p.input_values@[i].value is Some <==> test_case.input_nodes@[i].value is Some
            &&& p.input_values@[i].value is Some ==> p.input_values@[i].value->Some_0@ == dto_of(
                test_case.input_nodes@[i].value->Some_0@,
            )
        }
}

/// The request that checks the result node at `index` of a test case: its
/// invocable path, and the test case's input values in wire form.
pub fn evaluate_params(test_case: &TestCase, index: usize, workspace_name: &str, model_namespace: &str) -> (r: EvaluateParams)
    requires
        index < test_case.result_nodes@.len(),
    ensures
        params_for(r, *test_case, index as int, workspace_name@, model_namespace@),
{
    let path = match &test_case.invocable_name {
        Some(n) => invocable_path(workspace_name, model_namespace, n.as_str()),
        None => invocable_path(workspace_name, model_namespace, test_case.result_nodes[index].name.as_str()),
    };
    let mut inputs: Vec<InputNodeDto> = Vec::new();
    let n = test_case.input_nodes.len();
    let mut i: usize = 0;
    while i < n
        invariant
            n == test_case.input_nodes@.len(),
            i <= n,
            inputs@.len() == i,
            forall|j: int|
                0 <= j < i ==> {
                    &&& (#[trigger] inputs@[j]).name@ == test_case.input_nodes@[j].name@
                    &&& inputs@[j].value is Some <==> test_case.input_nodes@[j].value is Some
                    &&& inputs@[j].value is Some ==> inputs@[j].value->Some_0@ == dto_of(
                        test_case.input_nodes@[j].value->Some_0@,
                    )
                },
        decreases n - i,
    {
        inputs.push(InputNodeDto::from(&test_case.input_nodes[i]));
        i = i + 1;
    }
    EvaluateParams { invocable_path: path, input_values: inputs }
}

/// One evaluation request of a fixture: the result node it checks, the
/// identifiers it is recorded under, and its parameters.
#[derive(Debug)]
pub struct PlannedRequest {
    pub case_index: usize,
    pub result_index: usize,
    pub test_case_id: String,
    pub test_id: String,
    pub params: EvaluateParams,
}

/// Positions (test case, result node) of the requests of a fixture: one per
/// result node of each test case, in order.
pub open spec fn request_positions(tcs: Seq<TestCase>) -> Seq<(int, int)>
    decreases tcs.len(),
{
    if tcs.len() == 0 {
        Seq::empty()
    } else {
        request_positions(tcs.drop_last()) + Seq::new(
            tcs.last().result_nodes@.len(),
            |j: int| ((tcs.len() - 1) as int, j),
        )
    }
}

/// Identifier of a test case; empty when it has none.
pub open spec fn case_id_of(tc: TestCase) -> Seq<char> {
    match tc.id {
        Some(i) => i@,
        None => Seq::empty(),
    }
}

/// Whether `q` is the request for the result node at `pos`.
pub open spec fn request_for(
    q: PlannedRequest,
    tcs: Seq<TestCase>,
    pos: (int, int),
    workspace: Seq<char>,
    namespace: Seq<char>,
) -> bool {
    &&& q.case_index == pos.0
    &&& q.result_index == pos.1
    &&& q.test_case_id@ == case_id_of(tcs[pos.0])
    &&& q.test_id@ == test_id_of(case_id_of(tcs[pos.0]), pos.1 as nat)
    &&& params_for(q.params, tcs[pos.0], pos.1, workspace, namespace)
}

/// The requests that a fixture's test cases give, in order: one per result
/// node of each test case.
pub fn plan_requests(test_cases: &TestCases, workspace_name: &str, model_namespace: &str) -> (r: Vec<PlannedRequest>)
    ensures
        r@.len() == request_positions(test_cases.test_cases@).len(),
        forall|k: int|
            0 <= k < r@.len() ==> request_for(
                #[trigger] r@[k],
                test_cases.test_cases@,
                request_positions(test_cases.test_cases@)[k],
                workspace_name@,
                model_namespace@,
            ),
{
    let ghost tcs = test_cases.test_cases@;
    let mut r: Vec<PlannedRequest> = Vec::new();
    let n = test_cases.test_cases.len();
    let mut c: usize = 0;
    proof {
        assert(tcs.take(0) =~= Seq::<TestCase>::empty());
    }
    while c < n
        invariant
            tcs == test_cases.test_cases@,
            n == tcs.len(),
            c <= n,
            r@.len() == request_positions(tcs.take(c as int)).len(),
            forall|k: int|
                0 <= k < r@.len() ==> request_for(
                    #[trigger] r@[k],
                    tcs,
                    request_positions(tcs.take(c as int))[k],
                    workspace_name@,
                    model_namespace@,
                ),
        decreases n - c,
    {
        let tc = &test_cases.test_cases[c];
        let id = match &tc.id {
            Some(i) => i.clone(),
            None => String::new(),
        };
        let ghost before = request_positions(tcs.take(c as int));
        let ghost base = before.len();
        let m = tc.result_nodes.len();
        let mut j: usize = 0;
        while j < m
            invariant
                tcs == test_cases.test_cases@,
                n == tcs.len(),
                c < n,
                *tc == tcs[c as int],
                m == tc.result_nodes@.len(),
                id@ == case_id_of(tcs[c as int]),
                j <= m,
                base == before.len(),
                r@.len() == base + j,
                forall|k: int|
                    0 <= k < r@.len() ==> request_for(
                        #[trigger] r@[k],
                        tcs,
                        if k < base {
                            before[k]
                        } else {
                            (c as int, k - base)
                        },
                        workspace_name@,
                        model_namespace@,
                    ),
            decreases m - j,
        {
            let q = PlannedRequest {
                case_index: c,
                result_index: j,
                test_case_id: id.clone(),
                test_id: test_id(id.as_str(), j),
                params: evaluate_params(tc, j, workspace_name, model_namespace),
            };
            r.push(q);
            j = j + 1;
        }
        proof {
            let t = tcs.take(c + 1);
            assert(t.drop_last() =~= tcs.take(c as int));
            assert(t.last() == tcs[c as int]);
            let after = request_positions(t);
            assert(after =~= before + Seq::new(m as nat, |j: int| (c as int, j)));
            assert forall|k: int| 0 <= k < r@.len() implies request_for(
                #[trigger] r@[k],
                tcs,
                request_positions(tcs.take(c + 1))[k],
                workspace_name@,
                model_namespace@,
            ) by {
                if k < base {
                    assert(after[k] == before[k]);
                } else {
                    assert(after[k] == (c as int, k - base));
                }
            }
        }
        c = c + 1;
    }
    proof {
        assert(tcs.take(n as int) =~= tcs);
    }
    r
}

} // verus!
