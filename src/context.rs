//! Run-scoped state: identity metadata of model definitions, and the
//! aggregation of test outcomes into per-test and per-test-case reports.

use crate::fixture::{attribute_of, optional_attribute};
use crate::identity::{
    dir_name, dir_name_stripped_prefix, file_stem, path_file_stem_of, path_parent_of, to_rdnn,
    rdnn_result, without_prefix, workspace_name, workspace_of, RdnnError,
};
use crate::text::{
    join, join_texts, lemma_text_le_antisymmetric, lemma_text_le_total,
    lemma_text_le_transitive, text_equal, text_less_or_equal, text_lt, texts_of,
};
use crate::xml::{document_root, parse_document};
use vstd::prelude::*;

verus! {

/// Outcome of one test.
#[derive(Debug, Clone, Copy, PartialEq, Eq, Structural)]
pub enum TestResult {
    Success,
    Failure,
}

pub open spec fn result_name(r: TestResult) -> Seq<char> {
    match r {
        TestResult::Success => "SUCCESS"@,
        TestResult::Failure => "ERROR"@,
    }
}

impl TestResult {
    /// `SUCCESS` or `ERROR`.
    pub fn to_string(&self) -> (r: String)
        ensures
            r@ == result_name(*self),
    {
        match self {
            TestResult::Success => String::from_str("SUCCESS"),
            TestResult::Failure => String::from_str("ERROR"),
        }
    }
}

/// Key of a test case: directory, file stem and test case identifier.
pub type CaseKey = (String, String, String);

pub type KeyView = (Seq<char>, Seq<char>, Seq<char>);

pub open spec fn key_view(k: CaseKey) -> KeyView {
    (k.0@, k.1@, k.2@)
}

pub open spec fn keys_view(s: Seq<CaseKey>) -> Seq<KeyView> {
    s.map_values(|k: CaseKey| key_view(k))
}

/// Order of keys: by directory, then file stem, then identifier.
pub open spec fn key_lt(a: KeyView, b: KeyView) -> bool {
    text_lt(a.0, b.0) || (a.0 == b.0 && (text_lt(a.1, b.1) || (a.1 == b.1 && text_lt(a.2, b.2))))
}

proof fn lemma_text_lt_transitive(a: Seq<char>, b: Seq<char>, c: Seq<char>)
    requires
        text_lt(a, b),
        text_lt(b, c),
    ensures
        text_lt(a, c),
{
    lemma_text_le_transitive(a, b, c);
    if a == c {
        lemma_text_le_antisymmetric(a, b);
    }
}

proof fn lemma_text_trichotomy(a: Seq<char>, b: Seq<char>)
    ensures
        text_lt(a, b) || a == b || text_lt(b, a),
{
    lemma_text_le_total(a, b);
}

proof fn lemma_key_lt_transitive(a: KeyView, b: KeyView, c: KeyView)
    requires
        key_lt(a, b),
        key_lt(b, c),
    ensures
        key_lt(a, c),
{
    if text_lt(a.0, b.0) && text_lt(b.0, c.0) {
        lemma_text_lt_transitive(a.0, b.0, c.0);
    }
    if a.0 == b.0 && b.0 == c.0 && text_lt(a.1, b.1) && text_lt(b.1, c.1) {
        lemma_text_lt_transitive(a.1, b.1, c.1);
    }
    if a.0 == b.0 && b.0 == c.0 && a.1 == b.1 && b.1 == c.1 && text_lt(a.2, b.2) && text_lt(b.2, c.2) {
        lemma_text_lt_transitive(a.2, b.2, c.2);
    }
}

proof fn lemma_key_trichotomy(a: KeyView, b: KeyView)
    ensures
        key_lt(a, b) || a == b || key_lt(b, a),
{
    lemma_text_trichotomy(a.0, b.0);
    lemma_text_trichotomy(a.1, b.1);
    lemma_text_trichotomy(a.2, b.2);
}

fn text_less(a: &String, b: &String) -> (r: bool)
    ensures
        r == text_lt(a@, b@),
{
    text_less_or_equal(a.as_str(), b.as_str()) && !text_equal(a.as_str(), b.as_str())
}

fn key_less(a: &CaseKey, b: &CaseKey) -> (r: bool)
    ensures
        r == key_lt(key_view(*a), key_view(*b)),
{
    text_less(&a.0, &b.0) || (text_equal(a.0.as_str(), b.0.as_str()) && (text_less(&a.1, &b.1) || (
    text_equal(a.1.as_str(), b.1.as_str()) && text_less(&a.2, &b.2))))
}

fn key_equal(a: &CaseKey, b: &CaseKey) -> (r: bool)
    ensures
        r == (key_view(*a) == key_view(*b)),
{
    text_equal(a.0.as_str(), b.0.as_str()) && text_equal(a.1.as_str(), b.1.as_str()) && text_equal(
        a.2.as_str(),
        b.2.as_str(),
    )
}

fn clone_key(k: &CaseKey) -> (r: CaseKey)
    ensures
        key_view(r) == key_view(*k),
{
    (k.0.clone(), k.1.clone(), k.2.clone())
}

pub open spec fn strictly_sorted(s: Seq<KeyView>) -> bool {
    forall|i: int, j: int| 0 <= i < j < s.len() ==> key_lt(#[trigger] s[i], #[trigger] s[j])
}

/// Adds a key to strictly ordered keys, unless it is there already.
fn insert_key(keys: &mut Vec<CaseKey>, k: &CaseKey)
    requires
        strictly_sorted(keys_view(old(keys)@)),
    ensures
        strictly_sorted(keys_view(final(keys)@)),
        forall|x: KeyView|
            keys_view(final(keys)@).contains(x) <==> (keys_view(old(keys)@).contains(x) || x
                == key_view(*k)),
{
    let ghost s = keys_view(keys@);
    let ghost kv = key_view(*k);
    let len = keys.len();
    let mut p: usize = 0;
    while p < len && key_less(&keys[p], k)
        invariant
            len == keys@.len(),
            s == keys_view(keys@),
            p <= len,
            kv == key_view(*k),
            forall|i: int| 0 <= i < p ==> key_lt(#[trigger] s[i], kv),
        decreases len - p,
    {
        proof {
            assert(s[p as int] == key_view(keys@[p as int]));
        }
        p = p + 1;
    }
    if p < len && key_equal(&keys[p], k) {
        proof {
            assert(s[p as int] == kv);
        }
        return;
    }
    proof {
        if p < len {
            assert(s[p as int] == key_view(keys@[p as int]));
            lemma_key_trichotomy(s[p as int], kv);
        }
    }
    keys.insert(p, clone_key(k));
    proof {
        let u = keys_view(keys@);
        assert(u =~= s.insert(p as int, kv));
        assert forall|i: int, j: int| 0 <= i < j < u.len() implies key_lt(#[trigger] u[i], #[trigger] u[j]) by {
            if j == p {
            } else if i == p {
                if j - 1 > p {
                    lemma_key_lt_transitive(kv, s[p as int], s[j - 1]);
                }
            } else if i < p && j > p {
            }
        }
        assert forall|x: KeyView| u.contains(x) <==> (s.contains(x) || x == kv) by {
            if u.contains(x) {
                let i = choose|i: int| 0 <= i < u.len() && u[i] == x;
                if i < p {
                    assert(s[i] == x);
                } else if i > p {
                    assert(s[i - 1] == x);
                }
            }
            if s.contains(x) {
                let i = choose|i: int| 0 <= i < s.len() && s[i] == x;
                if i < p {
                    assert(u[i] == x);
                } else {
                    assert(u[i + 1] == x);
                }
            }
            if x == kv {
                assert(u[p as int] == x);
            }
        }
    }
}

/// A report line: every field in double quotes, separated by commas.
pub open spec fn csv_line(fields: Seq<Seq<char>>) -> Seq<char> {
    "\""@ + join(fields, "\",\""@) + "\""@
}

fn make_csv_line(fields: &Vec<String>) -> (r: String)
    ensures
        r@ == csv_line(texts_of(fields@)),
{
    let mut r = String::from_str("\"");
    let inner = join_texts(fields, "\",\"");
    r.append(inner.as_str());
    r.append("\"");
    r
}

/// The value stored last under a key in a sequence of key-value pairs.
pub open spec fn lookup(s: Seq<(String, String)>, k: Seq<char>) -> Option<Seq<char>>
    decreases s.len(),
{
    if s.len() == 0 {
        None
    } else if s.last().0@ == k {
        Some(s.last().1@)
    } else {
        lookup(s.drop_last(), k)
    }
}

fn find_value(s: &Vec<(String, String)>, k: &str) -> (r: Option<String>)
    ensures
        r.deep_view() == lookup(s@, k@),
{
    let mut i: usize = s.len();
    proof {
        assert(s@.take(i as int) =~= s@);
    }
    while i > 0
        invariant
            i <= s@.len(),
            lookup(s@, k@) == lookup(s@.take(i as int), k@),
        decreases i,
    {
        let e = &s[i - 1];
        proof {
            let t = s@.take(i as int);
            assert(t.drop_last() =~= s@.take(i - 1));
            assert(t.last() == *e);
        }
        if text_equal(e.0.as_str(), k) {
            return Some(e.1.clone());
        }
        i = i - 1;
    }
    None
}

/// Keys of the failures recorded in a failure log.
pub open spec fn failure_keys(log: Seq<(CaseKey, String)>) -> Seq<KeyView> {
    log.map_values(|e: (CaseKey, String)| key_view(e.0))
}

/// The remarks recorded under a key in a failure log, in order.
pub open spec fn remarks_of(log: Seq<(CaseKey, String)>, k: KeyView) -> Seq<Seq<char>>
    decreases log.len(),
{
    if log.len() == 0 {
        Seq::empty()
    } else {
        let p = remarks_of(log.drop_last(), k);
        if key_view(log.last().0) == k {
            p.push(log.last().1@)
        } else {
            p
        }
    }
}

/// The line of the aggregated report for one test case.
pub open spec fn case_line(k: KeyView, passed: bool, remarks: Seq<Seq<char>>) -> Seq<char> {
    if passed {
        csv_line(seq![k.0, k.1, k.2, "SUCCESS"@, Seq::empty()])
    } else {
        csv_line(seq![k.0, k.1, k.2, "ERROR"@, join(remarks, ","@)])
    }
}

/// The line of the per-test report for one test.
pub open spec fn test_line(
    directory: Seq<char>,
    stem: Seq<char>,
    test_id: Seq<char>,
    result: TestResult,
    remarks: Seq<char>,
) -> Seq<char> {
    csv_line(
        seq![
            directory,
            stem,
            test_id,
            result_name(result),
            if result == TestResult::Failure {
                remarks
            } else {
                Seq::empty()
            },
        ],
    )
}

pub open spec fn count_true(s: Seq<bool>) -> nat
    decreases s.len(),
{
    if s.len() == 0 {
        0
    } else {
        count_true(s.drop_last()) + if s.last() {
            1nat
        } else {
            0nat
        }
    }
}

/// Verdicts per test case, in the order of their keys.
pub struct TestCasesReport {
    /// Keys of the test cases with at least one recorded test.
    pub keys: Vec<CaseKey>,
    /// Whether each test case passed: none of its tests failed.
    pub passed: Vec<bool>,
    /// The aggregated report line of each test case.
    pub lines: Vec<String>,
    pub total_count: usize,
    pub success_count: usize,
    pub failure_count: usize,
}

/// Why a model definition gives no identity metadata.
#[derive(Debug, Clone, Copy, PartialEq, Eq, Structural)]
pub enum ModelError {
    /// The text is not a well-formed XML document.
    MalformedDocument,
    /// The root element has no `name` attribute.
    MissingName,
    /// The root element has no `namespace` attribute.
    MissingNamespace,
    /// The namespace gives no reverse-domain identifier.
    InvalidNamespace(RdnnError),
    /// The file has no directory, or lies outside the root directory.
    OutsideRoot,
}

/// Model name, namespace identifier and workspace name of a model
/// definition, or why it has none.
pub open spec fn model_definition_of(content: Seq<char>, root: Seq<char>, path: Seq<char>) -> Result<
    (Seq<char>, Seq<char>, Seq<char>),
    ModelError,
> {
    match document_root(content) {
        None => Err(ModelError::MalformedDocument),
        Some(e) => match attribute_of(e, "name"@) {
            None => Err(ModelError::MissingName),
            Some(name) => match attribute_of(e, "namespace"@) {
                None => Err(ModelError::MissingNamespace),
                Some(ns) => match rdnn_result(ns) {
                    Err(r) => Err(ModelError::InvalidNamespace(r)),
                    Ok(rdnn) => match workspace_of(root, path) {
                        None => Err(ModelError::OutsideRoot),
                        Some(w) => Ok((name, rdnn, w)),
                    },
                },
            },
        },
    }
}

/// State of a test run.
pub struct Context {
    /// Model RDNNs by model file name; a later pair overrides an earlier one.
    pub model_rdnns: Vec<(String, String)>,
    /// Model names by model file name.
    pub model_names: Vec<(String, String)>,
    /// Workspace names by model file name.
    pub workspace_names: Vec<(String, String)>,
    /// Number of tests that have passed.
    pub success_count: usize,
    /// Number of tests that have failed.
    pub failure_count: usize,
    /// Whether testing stops after the first failure.
    pub stop_on_failure: bool,
    /// Pattern for filtering files to be tested.
    pub file_search_pattern: String,
    /// Root directory of the tests, ending with `/`.
    pub root_dir_path: String,
    /// Keys of the test cases of the tests that passed, in order of record.
    pub test_case_success: Vec<CaseKey>,
    /// Keys and remarks of the tests that failed, in order of record.
    pub test_case_failure: Vec<(CaseKey, String)>,
    /// Whether the verdicts per test case were produced; no test is recorded
    /// afterwards.
    pub finalized: bool,
}

impl Context {
    /// A context with nothing recorded.
    pub fn new(stop_on_failure: bool, file_search_pattern: String, root_dir: String) -> (r: Context)
        ensures
            r.model_rdnns@.len() == 0,
            r.model_names@.len() == 0,
            r.workspace_names@.len() == 0,
            r.success_count == 0,
            r.failure_count == 0,
            r.stop_on_failure == stop_on_failure,
            r.file_search_pattern@ == file_search_pattern@,
            r.root_dir_path@ == root_dir@ + "/"@,
            r.test_case_success@.len() == 0,
            r.test_case_failure@.len() == 0,
            !r.finalized,
    {
        let mut root_dir_path = root_dir;
        root_dir_path.append("/");
        Context {
            model_rdnns: Vec::new(),
            model_names: Vec::new(),
            workspace_names: Vec::new(),
            success_count: 0,
            failure_count: 0,
            stop_on_failure,
            file_search_pattern,
            root_dir_path,
            test_case_success: Vec::new(),
            test_case_failure: Vec::new(),
            finalized: false,
        }
    }

    /// Records the identity metadata of a model definition under its file
    /// name, from the text of the file, the canonical path of the root
    /// directory and the canonical path of the file. On an error nothing is
    /// recorded.
    pub fn process_model_definitions(
        &mut self,
        root_dir_path: &str,
        file_path: &str,
        file_name: &str,
        content: &str,
    ) -> (r: Result<(), ModelError>)
        ensures
            r is Err ==> *final(self) == *old(self) && model_definition_of(
                content@,
                root_dir_path@,
                file_path@,
            ) == Err::<(Seq<char>, Seq<char>, Seq<char>), ModelError>(r->Err_0),
            r is Ok ==> model_definition_of(content@, root_dir_path@, file_path@) is Ok,
            r is Ok ==> ({
                let (name, rdnn, w) = model_definition_of(content@, root_dir_path@, file_path@)->Ok_0;
                &&& final(self).model_names@.len() == old(self).model_names@.len() + 1
                &&& final(self).model_names@.drop_last() == old(self).model_names@
                &&& final(self).model_names@.last().0@ == file_name@
                &&& final(self).model_names@.last().1@ == name
                &&& final(self).model_rdnns@.len() == old(self).model_rdnns@.len() + 1
                &&& final(self).model_rdnns@.drop_last() == old(self).model_rdnns@
                &&& final(self).model_rdnns@.last().0@ == file_name@
                &&& final(self).model_rdnns@.last().1@ == rdnn
                &&& final(self).workspace_names@.len() == old(self).workspace_names@.len() + 1
                &&& final(self).workspace_names@.drop_last() == old(self).workspace_names@
                &&& final(self).workspace_names@.last().0@ == file_name@
                &&& final(self).workspace_names@.last().1@ == w
            }),
            final(self).success_count == old(self).success_count,
            final(self).failure_count == old(self).failure_count,
            final(self).stop_on_failure == old(self).stop_on_failure,
            final(self).file_search_pattern == old(self).file_search_pattern,
            final(self).root_dir_path == old(self).root_dir_path,
            final(self).test_case_success == old(self).test_case_success,
            final(self).test_case_failure == old(self).test_case_failure,
            final(self).finalized == old(self).finalized,
    {
        let root = match parse_document(content) {
            Some(e) => e,
            None => return Err(ModelError::MalformedDocument),
        };
        let model_name = match optional_attribute(&root, "name") {
            Some(n) => n,
            None => return Err(ModelError::MissingName),
        };
        let namespace = match optional_attribute(&root, "namespace") {
            Some(n) => n,
            None => return Err(ModelError::MissingNamespace),
        };
        let rdnn = match to_rdnn(namespace.as_str()) {
            Ok(r) => r,
            Err(e) => return Err(ModelError::InvalidNamespace(e)),
        };
        let workspace = match workspace_name(root_dir_path, file_path) {
            Some(w) => w,
            None => return Err(ModelError::OutsideRoot),
        };
        self.model_names.push((file_name.to_string(), model_name));
        self.model_rdnns.push((file_name.to_string(), rdnn));
        self.workspace_names.push((file_name.to_string(), workspace));
        proof {
            assert(self.model_names@.drop_last() =~= old(self).model_names@);
            assert(self.model_rdnns@.drop_last() =~= old(self).model_rdnns@);
            assert(self.workspace_names@.drop_last() =~= old(self).workspace_names@);
        }
        Ok(())
    }

    /// The model name recorded for a model file.
    pub fn get_model_name(&self, file_name: &str) -> (r: Option<String>)
        ensures
            r.deep_view() == lookup(self.model_names@, file_name@),
    {
        find_value(&self.model_names, file_name)
    }

    /// The workspace name recorded for a model file.
    pub fn get_workspace_name(&self, file_name: &str) -> (r: Option<String>)
        ensures
            r.deep_view() == lookup(self.workspace_names@, file_name@),
    {
        find_value(&self.workspace_names, file_name)
    }

    /// The namespace identifier recorded for a model file.
    pub fn get_model_rdnn(&self, file_name: &str) -> (r: Option<String>)
        ensures
            r.deep_view() == lookup(self.model_rdnns@, file_name@),
    {
        find_value(&self.model_rdnns, file_name)
    }

    /// Whether the run stops after this outcome.
    pub fn should_stop(&self, test_result: TestResult) -> (r: bool)
        ensures
            r == (self.stop_on_failure && test_result == TestResult::Failure),
    {
        self.stop_on_failure && test_result == TestResult::Failure
    }

    /// Records the outcome of one test of a test file and returns its line of
    /// the per-test report. The test case is keyed by the test file's
    /// directory relative to the root, its stem and the test case identifier.
    /// Nothing is recorded once the context is finalized, or when the file
    /// name has no directory or no stem.
    pub fn write_line(
        &mut self,
        test_file_name: &str,
        test_case_id: &str,
        test_id: &str,
        test_result: TestResult,
        remarks: &str,
    ) -> (r: Option<String>)
        requires
            old(self).success_count < usize::MAX,
            old(self).failure_count < usize::MAX,
        ensures
            r is None <==> (old(self).finalized || path_parent_of(test_file_name@) is None
                || path_file_stem_of(test_file_name@) is None),
            r is None ==> *final(self) == *old(self),
            r is Some ==> ({
                let directory = without_prefix(
                    path_parent_of(test_file_name@)->Some_0,
                    old(self).root_dir_path@,
                );
                let stem = path_file_stem_of(test_file_name@)->Some_0;
                let key = (directory, stem, test_case_id@);
                &&& r->Some_0@ == test_line(directory, stem, test_id@, test_result, remarks@)
                &&& test_result == TestResult::Success ==> {
                    &&& final(self).success_count == old(self).success_count + 1
                    &&& final(self).failure_count == old(self).failure_count
                    &&& final(self).test_case_success@.len() == old(self).test_case_success@.len() + 1
                    &&& keys_view(final(self).test_case_success@) == keys_view(
                        old(self).test_case_success@,
                    ).push(key)
                    &&& final(self).test_case_failure == old(self).test_case_failure
                }
                &&& test_result == TestResult::Failure ==> {
                    &&& final(self).failure_count == old(self).failure_count + 1
                    &&& final(self).success_count == old(self).success_count
                    &&& final(self).test_case_success == old(self).test_case_success
                    &&& final(self).test_case_failure@.len() == old(self).test_case_failure@.len() + 1
                    &&& final(self).test_case_failure@.drop_last() == old(self).test_case_failure@
                    &&& key_view(final(self).test_case_failure@.last().0) == key
                    &&& final(self).test_case_failure@.last().1@ == remarks@
                }
                &&& final(self).model_rdnns == old(self).model_rdnns
                &&& final(self).model_names == old(self).model_names
                &&& final(self).workspace_names == old(self).workspace_names
                &&& final(self).stop_on_failure == old(self).stop_on_failure
                &&& final(self).root_dir_path == old(self).root_dir_path
                &&& final(self).file_search_pattern == old(self).file_search_pattern
                &&& final(self).finalized == old(self).finalized
            }),
    {
        if self.finalized {
            return None;
        }
        let dir = match dir_name(test_file_name) {
            Some(d) => d,
            None => return None,
        };
        let stem = match file_stem(test_file_name) {
            Some(s) => s,
            None => return None,
        };
        let directory = dir_name_stripped_prefix(dir.as_str(), self.root_dir_path.as_str());
        let mut fields: Vec<String> = Vec::new();
        fields.push(directory.clone());
        fields.push(stem.clone());
        fields.push(test_id.to_string());
        fields.push(test_result.to_string());
        if test_result == TestResult::Failure {
            fields.push(remarks.to_string());
        } else {
            fields.push(String::new());
        }
        proof {
            let f = texts_of(fields@);
            assert(f =~= seq![
                directory@,
                stem@,
                test_id@,
                result_name(test_result),
                if test_result == TestResult::Failure {
                    remarks@
                } else {
                    Seq::empty()
                },
            ]);
        }
        let line = make_csv_line(&fields);
        let key: CaseKey = (directory, stem, test_case_id.to_string());
        match test_result {
            TestResult::Success => {
                self.success_count = self.success_count + 1;
                let ghost before = self.test_case_success@;
                self.test_case_success.push(key);
                proof {
                    assert(keys_view(self.test_case_success@) =~= keys_view(before).push(
                        key_view(key),
                    ));
                }
            },
            TestResult::Failure => {
                self.failure_count = self.failure_count + 1;
                self.test_case_failure.push((key, remarks.to_string()));
                proof {
                    assert(self.test_case_failure@.drop_last() =~= old(self).test_case_failure@);
                }
            },
        }
        Some(line)
    }
}

impl Context {
    /// Verdicts per test case, to display and to write to the aggregated
    /// report: a test case passed when at least one of its
    /// tests passed and none failed. Keys come in increasing order, once
    /// each, for every test case with a recorded test; each has its line of
    /// the aggregated report, with all remarks of its failed tests.
    /// Afterwards the context is finalized and records no more tests.
    pub fn display_test_cases_report(&mut self) -> (r: TestCasesReport)
        ensures
            final(self).finalized,
            final(self).model_rdnns == old(self).model_rdnns,
            final(self).model_names == old(self).model_names,
            final(self).workspace_names == old(self).workspace_names,
            final(self).success_count == old(self).success_count,
            final(self).failure_count == old(self).failure_count,
            final(self).stop_on_failure == old(self).stop_on_failure,
            final(self).file_search_pattern == old(self).file_search_pattern,
            final(self).root_dir_path == old(self).root_dir_path,
            final(self).test_case_success == old(self).test_case_success,
            final(self).test_case_failure == old(self).test_case_failure,
            strictly_sorted(keys_view(r.keys@)),
            forall|x: KeyView|
                keys_view(r.keys@).contains(x) <==> (keys_view(old(self).test_case_success@).contains(x)
                    || failure_keys(old(self).test_case_failure@).contains(x)),
            r.passed@.len() == r.keys@.len(),
            r.lines@.len() == r.keys@.len(),
            forall|i: int|
                0 <= i < r.keys@.len() ==> #[trigger] r.passed@[i] == !failure_keys(
                    old(self).test_case_failure@,
                ).contains(key_view(r.keys@[i])),
            forall|i: int|
                0 <= i < r.keys@.len() ==> #[trigger] r.lines@[i]@ == case_line(
                    key_view(r.keys@[i]),
                    r.passed@[i],
                    remarks_of(old(self).test_case_failure@, key_view(r.keys@[i])),
                ),
            r.total_count == r.keys@.len(),
            r.success_count == count_true(r.passed@),
            r.success_count + r.failure_count == r.total_count,
    {
        let mut keys: Vec<CaseKey> = Vec::new();
        let ns = self.test_case_success.len();
        let mut i: usize = 0;
        while i < ns
            invariant
                ns == self.test_case_success@.len(),
                i <= ns,
                strictly_sorted(keys_view(keys@)),
                forall|x: KeyView|
                    keys_view(keys@).contains(x) <==> keys_view(
                        self.test_case_success@.take(i as int),
                    ).contains(x),
            decreases ns - i,
        {
            insert_key(&mut keys, &self.test_case_success[i]);
            proof {
                let a = keys_view(self.test_case_success@.take(i + 1));
                let b = keys_view(self.test_case_success@.take(i as int));
                assert(a =~= b.push(key_view(self.test_case_success@[i as int])));
                assert forall|x: KeyView| a.contains(x) <==> (b.contains(x) || x == key_view(
                    self.test_case_success@[i as int],
                )) by {
                    if a.contains(x) {
                        let j = choose|j: int| 0 <= j < a.len() && a[j] == x;
                        if j < b.len() {
                            assert(b[j] == x);
                        }
                    }
                    if b.contains(x) {
                        let j = choose|j: int| 0 <= j < b.len() && b[j] == x;
                        assert(a[j] == x);
                    }
                    if x == key_view(self.test_case_success@[i as int]) {
                        assert(a[i as int] == x);
                    }
                }
            }
            i = i + 1;
        }
        proof {
            assert(self.test_case_success@.take(ns as int) =~= self.test_case_success@);
        }
        let nf = self.test_case_failure.len();
        let mut j: usize = 0;
        while j < nf
            invariant
                ns == self.test_case_success@.len(),
                nf == self.test_case_failure@.len(),
                j <= nf,
                strictly_sorted(keys_view(keys@)),
                forall|x: KeyView|
                    keys_view(keys@).contains(x) <==> (keys_view(self.test_case_success@).contains(x)
                        || failure_keys(self.test_case_failure@.take(j as int)).contains(x)),
            decreases nf - j,
        {
            insert_key(&mut keys, &self.test_case_failure[j].0);
            proof {
                let a = failure_keys(self.test_case_failure@.take(j + 1));
                let b = failure_keys(self.test_case_failure@.take(j as int));
                let k = key_view(self.test_case_failure@[j as int].0);
                assert(a =~= b.push(k));
                assert forall|x: KeyView| a.contains(x) <==> (b.contains(x) || x == k) by {
                    if a.contains(x) {
                        let t = choose|t: int| 0 <= t < a.len() && a[t] == x;
                        if t < b.len() {
                            assert(b[t] == x);
                        }
                    }
                    if b.contains(x) {
                        let t = choose|t: int| 0 <= t < b.len() && b[t] == x;
                        assert(a[t] == x);
                    }
                    if x == k {
                        assert(a[j as int] == x);
                    }
                }
            }
            j = j + 1;
        }
        proof {
            assert(self.test_case_failure@.take(nf as int) =~= self.test_case_failure@);
        }
        let ghost log = self.test_case_failure@;
        let nk = keys.len();
        let mut passed: Vec<bool> = Vec::new();
        let mut lines: Vec<String> = Vec::new();
        let mut success_count: usize = 0;
        let mut t: usize = 0;
        while t < nk
            invariant
                nk == keys@.len(),
                nf == log.len(),
                log == self.test_case_failure@,
                t <= nk,
                passed@.len() == t,
                lines@.len() == t,
                success_count == count_true(passed@),
                success_count <= t,
                forall|i: int|
                    0 <= i < t ==> #[trigger] passed@[i] == !failure_keys(log).contains(
                        key_view(keys@[i]),
                    ),
                forall|i: int|
                    0 <= i < t ==> #[trigger] lines@[i]@ == case_line(
                        key_view(keys@[i]),
                        passed@[i],
                        remarks_of(log, key_view(keys@[i])),
                    ),
            decreases nk - t,
        {
            let key = &keys[t];
            let ghost kv = key_view(*key);
            let mut remarks: Vec<String> = Vec::new();
            let mut failed = false;
            let mut u: usize = 0;
            while u < nf
                invariant
                    nf == log.len(),
                    log == self.test_case_failure@,
                    kv == key_view(*key),
                    u <= nf,
                    texts_of(remarks@) == remarks_of(log.take(u as int), kv),
                    failed == failure_keys(log.take(u as int)).contains(kv),
                decreases nf - u,
            {
                let e = &self.test_case_failure[u];
                proof {
                    let a = log.take(u + 1);
                    assert(a.drop_last() =~= log.take(u as int));
                    assert(a.last() == *e);
                    assert(failure_keys(a) =~= failure_keys(log.take(u as int)).push(key_view(e.0)));
                    let fa = failure_keys(a);
                    let fb = failure_keys(log.take(u as int));
                    if fa.contains(kv) {
                        let w = choose|w: int| 0 <= w < fa.len() && fa[w] == kv;
                        if w < fb.len() {
                            assert(fb[w] == kv);
                        }
                    }
                    if fb.contains(kv) {
                        let w = choose|w: int| 0 <= w < fb.len() && fb[w] == kv;
                        assert(fa[w] == kv);
                    }
                    if key_view(e.0) == kv {
                        assert(fa[u as int] == kv);
                    }
                }
                if key_equal(&e.0, key) {
                    let ghost before = texts_of(remarks@);
                    remarks.push(e.1.clone());
                    failed = true;
                    proof {
                        assert(texts_of(remarks@) =~= before.push(e.1@));
                    }
                }
                u = u + 1;
            }
            proof {
                assert(log.take(nf as int) =~= log);
            }
            let mut fields: Vec<String> = Vec::new();
            fields.push(key.0.clone());
            fields.push(key.1.clone());
            fields.push(key.2.clone());
            if failed {
                fields.push(String::from_str("ERROR"));
                fields.push(join_texts(&remarks, ","));
            } else {
                fields.push(String::from_str("SUCCESS"));
                fields.push(String::new());
            }
            let line = make_csv_line(&fields);
            proof {
                assert(texts_of(fields@) =~= if !failed {
                    seq![kv.0, kv.1, kv.2, "SUCCESS"@, Seq::<char>::empty()]
                } else {
                    seq![kv.0, kv.1, kv.2, "ERROR"@, join(remarks_of(log, kv), ","@)]
                });
            }
            let ghost pb = passed@;
            passed.push(!failed);
            lines.push(line);
            if !failed {
                success_count = success_count + 1;
            }
            proof {
                assert(passed@.drop_last() =~= pb);
            }
            t = t + 1;
        }
        self.finalized = true;
        TestCasesReport {
            keys,
            passed,
            lines,
            total_count: nk,
            success_count,
            failure_count: nk - success_count,
        }
    }
}

/// A test case with one passed and one failed test does not pass: its key
/// is among the failures, with exactly the one remark of the failed test,
/// whatever the order in which the two were recorded.
pub proof fn lemma_failure_outweighs_success(
    success: Seq<CaseKey>,
    failure: Seq<(CaseKey, String)>,
    k: KeyView,
)
    requires
        keys_view(success) == seq![k],
        failure.len() == 1,
        key_view(failure[0].0) == k,
    ensures
        keys_view(success).contains(k),
        failure_keys(failure).contains(k),
        remarks_of(failure, k) == seq![failure[0].1@],
        case_line(k, !failure_keys(failure).contains(k), remarks_of(failure, k)) == csv_line(
            seq![k.0, k.1, k.2, "ERROR"@, failure[0].1@],
        ),
{
    assert(keys_view(success)[0] == k);
    assert(failure_keys(failure)[0] == k);
    assert(failure.drop_last() =~= Seq::<(CaseKey, String)>::empty());
    assert(remarks_of(failure.drop_last(), k) =~= Seq::<Seq<char>>::empty());
    assert(remarks_of(failure, k) =~= seq![failure[0].1@]);
    assert(join(seq![failure[0].1@], ","@) == failure[0].1@);
}

} // verus!
