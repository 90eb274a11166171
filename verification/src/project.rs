//! The project file `culebra.toml` and the decisions of the commands that run
//! it: which tests run and how each one ends, how the suite's counts and exit
//! status follow, what each pipeline stage runs and how it ends, what the
//! status summary lists, and when fixed-point detection stops.
use vstd::prelude::*;
use crate::schema::copy_opt_string;
use crate::session::{resolve_input, resolve_spec};
use crate::text::{contains, contains_str, split_words, trim, trim_str, words};

verus! {

// ---------------------------------------------------------------------------
// The project file
// ---------------------------------------------------------------------------

/// One `[[tests]]` entry; a key that is missing, or not a string, is `None`.
#[derive(Debug, Clone)]
pub struct TestSpec {
    pub name: Option<String>,
    pub source: Option<String>,
    pub expect: Option<String>,
    pub source_file: Option<String>,
}

/// One `[[stages]]` entry; `validate` is `false` unless it is `true` in the file.
#[derive(Debug, Clone)]
pub struct StageSpec {
    pub name: Option<String>,
    pub cmd: Option<String>,
    pub input: Option<String>,
    pub output: Option<String>,
    pub validate: bool,
    pub expect: Option<String>,
}

/// The `[project]` keys and the `[[tests]]` and `[[stages]]` arrays (`None`
/// when the file has no such array).
#[derive(Debug, Clone)]
pub struct ProjectConfig {
    pub name: Option<String>,
    pub compiler: Option<String>,
    pub runtime: Option<String>,
    pub tests: Option<Vec<TestSpec>>,
    pub stages: Option<Vec<StageSpec>>,
}

pub struct TestSpecView {
    pub name: Option<Seq<char>>,
    pub source: Option<Seq<char>>,
    pub expect: Option<Seq<char>>,
    pub source_file: Option<Seq<char>>,
}

pub struct StageSpecView {
    pub name: Option<Seq<char>>,
    pub cmd: Option<Seq<char>>,
    pub input: Option<Seq<char>>,
    pub output: Option<Seq<char>>,
    pub validate: bool,
    pub expect: Option<Seq<char>>,
}

pub struct ProjectConfigView {
    pub name: Option<Seq<char>>,
    pub compiler: Option<Seq<char>>,
    pub runtime: Option<Seq<char>>,
    pub tests: Option<Seq<TestSpecView>>,
    pub stages: Option<Seq<StageSpecView>>,
}

impl View for TestSpec {
    type V = TestSpecView;

    open spec fn view(&self) -> TestSpecView {
        TestSpecView {
            name: self.name.deep_view(),
            source: self.source.deep_view(),
            expect: self.expect.deep_view(),
            source_file: self.source_file.deep_view(),
        }
    }
}

impl View for StageSpec {
    type V = StageSpecView;

    open spec fn view(&self) -> StageSpecView {
        StageSpecView {
            name: self.name.deep_view(),
            cmd: self.cmd.deep_view(),
            input: self.input.deep_view(),
            output: self.output.deep_view(),
            validate: self.validate,
            expect: self.expect.deep_view(),
        }
    }
}

pub open spec fn test_views(ts: Seq<TestSpec>) -> Seq<TestSpecView> {
    ts.map_values(|t: TestSpec| t@)
}

pub open spec fn stage_views(ss: Seq<StageSpec>) -> Seq<StageSpecView> {
    ss.map_values(|s: StageSpec| s@)
}

impl View for ProjectConfig {
    type V = ProjectConfigView;

    open spec fn view(&self) -> ProjectConfigView {
        ProjectConfigView {
            name: self.name.deep_view(),
            compiler: self.compiler.deep_view(),
            runtime: self.runtime.deep_view(),
            tests: match &self.tests {
                Some(ts) => Some(test_views(ts@)),
                None => None,
            },
            stages: match &self.stages {
                Some(ss) => Some(stage_views(ss@)),
                None => None,
            },
        }
    }
}

/// A text value, or `d` when the key is absent.
pub open spec fn or_default(o: Option<Seq<char>>, d: Seq<char>) -> Seq<char> {
    match o {
        Some(s) => s,
        None => d,
    }
}

fn or_default_exec(o: &Option<String>, d: &str) -> (r: String)
    ensures
        r@ == or_default(o.deep_view(), d@),
{
    match o {
        Some(s) => s.clone(),
        None => d.to_string(),
    }
}

impl TestSpec {
    pub fn copy(&self) -> (r: TestSpec)
        ensures
            r@ == self@,
    {
        TestSpec {
            name: copy_opt_string(&self.name),
            source: copy_opt_string(&self.source),
            expect: copy_opt_string(&self.expect),
            source_file: copy_opt_string(&self.source_file),
        }
    }
}

// ---------------------------------------------------------------------------
// The test suite
// ---------------------------------------------------------------------------

/// Why a project file cannot run its tests.
#[derive(Debug, Clone, Copy, PartialEq, Eq, Structural)]
pub enum TestConfigError {
    /// `project.compiler` is missing or empty.
    NoCompiler,
    /// There is no `[[tests]]` array.
    NoTests,
}

/// What `test` refuses a project file for: no compiler first, then no tests.
pub open spec fn test_config_check(c: ProjectConfigView) -> Result<(), TestConfigError> {
    if or_default(c.compiler, Seq::empty()).len() == 0 {
        Err(TestConfigError::NoCompiler)
    } else if c.tests is None {
        Err(TestConfigError::NoTests)
    } else {
        Ok(())
    }
}

pub fn check_test_config(c: &ProjectConfig) -> (r: Result<(), TestConfigError>)
    ensures
        r == test_config_check(c@),
{
    let compiler = or_default_exec(&c.compiler, "");
    if compiler.as_str().is_empty() {
        return Err(TestConfigError::NoCompiler);
    }
    proof {
        reveal_strlit("");
    }
    if c.tests.is_none() {
        Err(TestConfigError::NoTests)
    } else {
        Ok(())
    }
}

/// The name a test shows: its `name`, or `?`.
pub open spec fn test_name(t: TestSpecView) -> Seq<char> {
    or_default(t.name, "?"@)
}

pub fn test_display_name(t: &TestSpec) -> (r: String)
    ensures
        r@ == test_name(t@),
{
    or_default_exec(&t.name, "?")
}

/// The test runs under the filter: there is none, or its name holds it.
pub open spec fn test_selected(t: TestSpecView, filter: Option<Seq<char>>) -> bool {
    match filter {
        Some(f) => contains(test_name(t), f),
        None => true,
    }
}

/// The first `n` tests that the filter selects, in order.
pub open spec fn selected_from(ts: Seq<TestSpecView>, filter: Option<Seq<char>>, n: nat) -> Seq<TestSpecView>
    decreases n,
{
    if n == 0 || n > ts.len() {
        Seq::empty()
    } else {
        let prev = selected_from(ts, filter, (n - 1) as nat);
        if test_selected(ts[n - 1], filter) {
            prev.push(ts[n - 1])
        } else {
            prev
        }
    }
}

proof fn lemma_selected_len(ts: Seq<TestSpecView>, filter: Option<Seq<char>>, n: nat)
    requires
        n <= ts.len(),
    ensures
        selected_from(ts, filter, n).len() <= n,
    decreases n,
{
    if n > 0 {
        lemma_selected_len(ts, filter, (n - 1) as nat);
    }
}

/// The tests that run, in order, and how many the filter skips.
pub fn select_tests(tests: &[TestSpec], filter: Option<&str>) -> (r: (Vec<TestSpec>, usize))
    ensures
        test_views(r.0@) == selected_from(
            test_views(tests@),
            match filter {
                Some(f) => Some(f@),
                None => None,
            },
            tests@.len() as nat,
        ),
        r.1 + r.0@.len() == tests@.len(),
{
    let ghost fv = match filter {
        Some(f) => Some(f@),
        None => None::<Seq<char>>,
    };
    let ghost tv = test_views(tests@);
    let mut r: Vec<TestSpec> = Vec::new();
    let mut i: usize = 0;
    while i < tests.len()
        invariant
            i <= tests@.len(),
            tv == test_views(tests@),
            fv == (match filter {
                Some(f) => Some(f@),
                None => None::<Seq<char>>,
            }),
            test_views(r@) == selected_from(tv, fv, i as nat),
        decreases tests@.len() - i,
    {
        assert(tv[i as int] == tests@[i as int]@);
        let keep = match filter {
            Some(f) => contains_str(test_display_name(&tests[i]).as_str(), f),
            None => true,
        };
        if keep {
            let ghost before = test_views(r@);
            r.push(tests[i].copy());
            assert(test_views(r@) =~= before.push(tv[i as int]));
        }
        i += 1;
    }
    proof {
        lemma_selected_len(tv, fv, tests@.len() as nat);
    }
    assert(test_views(r@).len() == r@.len());
    let skipped = tests.len() - r.len();
    (r, skipped)
}

/// What happened when a test was run, step by step.
#[derive(Debug, Clone)]
pub enum TestEvent {
    /// Its `source_file` does not exist.
    SourceMissing,
    /// Its source could not be written out.
    WriteFailed,
    /// The compiler failed or could not be started.
    CompileFailed,
    /// Linking failed or could not be started.
    LinkFailed,
    /// The program could not be started.
    NotStarted,
    /// The program ran: whether it exited successfully, and its standard output.
    Ran { success: bool, stdout: String },
}

#[derive(Debug, Clone, Copy, PartialEq, Eq, Structural)]
pub enum TestOutcome {
    /// The output was the expected one.
    Pass,
    /// It ran with no expected output given.
    Done,
    /// A step failed or the output was not the expected one.
    Fail,
    /// The program exited unsuccessfully.
    Crash,
    /// Its source file was missing.
    Skip,
}

pub open spec fn test_outcome_spec(t: TestSpecView, success: Option<(bool, Seq<char>)>, missing: bool) -> TestOutcome {
    if missing {
        TestOutcome::Skip
    } else {
        match success {
            None => TestOutcome::Fail,
            Some((ok, out)) => if !ok {
                TestOutcome::Crash
            } else {
                match t.expect {
                    Some(e) => if trim(out) == trim(e) {
                        TestOutcome::Pass
                    } else {
                        TestOutcome::Fail
                    },
                    None => TestOutcome::Done,
                }
            },
        }
    }
}

/// The event's parts the outcome depends on.
pub open spec fn event_run(e: TestEvent) -> Option<(bool, Seq<char>)> {
    match e {
        TestEvent::Ran { success, stdout } => Some((success, stdout@)),
        _ => None,
    }
}

/// How a test ends: skipped when its source file is missing; failed when a
/// step before running failed; a crash when the program exits unsuccessfully;
/// a pass when its trimmed output is the trimmed expected output (a failure
/// otherwise); done when no output is expected.
pub fn test_outcome(t: &TestSpec, e: &TestEvent) -> (o: TestOutcome)
    ensures
        o == test_outcome_spec(t@, event_run(*e), *e is SourceMissing),
{
    match e {
        TestEvent::SourceMissing => TestOutcome::Skip,
        TestEvent::Ran { success, stdout } => {
            if !*success {
                TestOutcome::Crash
            } else {
                match &t.expect {
                    Some(exp) => {
                        if trim_str(stdout.as_str()) == trim_str(exp.as_str()) {
                            TestOutcome::Pass
                        } else {
                            TestOutcome::Fail
                        }
                    },
                    None => TestOutcome::Done,
                }
            }
        },
        _ => TestOutcome::Fail,
    }
}

/// How many of the first `n` outcomes satisfy `p`.
pub open spec fn outcome_count(os: Seq<TestOutcome>, p: spec_fn(TestOutcome) -> bool, n: nat) -> nat
    decreases n,
{
    if n == 0 || n > os.len() {
        0
    } else {
        outcome_count(os, p, (n - 1) as nat) + if p(os[n - 1]) {
            1nat
        } else {
            0nat
        }
    }
}

pub open spec fn is_passed(o: TestOutcome) -> bool {
    o == TestOutcome::Pass || o == TestOutcome::Done
}

pub open spec fn is_failed(o: TestOutcome) -> bool {
    o == TestOutcome::Fail || o == TestOutcome::Crash
}

pub open spec fn is_skipped(o: TestOutcome) -> bool {
    o == TestOutcome::Skip
}

/// The suite's counts: passed, failed, and skipped (by the filter or for a
/// missing source file).
pub fn suite_tally(outcomes: &[TestOutcome], filtered_out: usize) -> (r: (usize, usize, usize))
    requires
        outcomes@.len() + filtered_out <= usize::MAX,
    ensures
        r.0 == outcome_count(outcomes@, |o: TestOutcome| is_passed(o), outcomes@.len() as nat),
        r.1 == outcome_count(outcomes@, |o: TestOutcome| is_failed(o), outcomes@.len() as nat),
        r.2 == filtered_out + outcome_count(outcomes@, |o: TestOutcome| is_skipped(o), outcomes@.len() as nat),
        r.0 + r.1 + r.2 == outcomes@.len() + filtered_out,
{
    let mut p: usize = 0;
    let mut f: usize = 0;
    let mut s: usize = filtered_out;
    let mut i: usize = 0;
    while i < outcomes.len()
        invariant
            i <= outcomes@.len(),
            outcomes@.len() + filtered_out <= usize::MAX,
            p == outcome_count(outcomes@, |o: TestOutcome| is_passed(o), i as nat),
            f == outcome_count(outcomes@, |o: TestOutcome| is_failed(o), i as nat),
            s == filtered_out + outcome_count(outcomes@, |o: TestOutcome| is_skipped(o), i as nat),
            p + f + s == i + filtered_out,
        decreases outcomes@.len() - i,
    {
        match outcomes[i] {
            TestOutcome::Pass | TestOutcome::Done => {
                p += 1;
            },
            TestOutcome::Fail | TestOutcome::Crash => {
                f += 1;
            },
            TestOutcome::Skip => {
                s += 1;
            },
        }
        i += 1;
    }
    (p, f, s)
}

/// The suite's exit status: 1 when a test failed, else 0.
pub fn suite_exit_code(failed: usize) -> (c: i32)
    ensures
        c == (if failed > 0 {
            1i32
        } else {
            0i32
        }),
{
    if failed > 0 {
        1
    } else {
        0
    }
}

// ---------------------------------------------------------------------------
// The stage pipeline
// ---------------------------------------------------------------------------

/// The placeholders a stage's command fills: `{input}`, then `{prev_output}`
/// (the previous stage's output file), then `{output}`, each when known.
pub open spec fn stage_vars(s: StageSpecView, prev: Option<Seq<char>>) -> Seq<(Seq<char>, Seq<char>)> {
    let a: Seq<(Seq<char>, Seq<char>)> = match s.input {
        Some(i) => seq![("input"@, i)],
        None => Seq::empty(),
    };
    let b: Seq<(Seq<char>, Seq<char>)> = match prev {
        Some(p) => seq![("prev_output"@, p)],
        None => Seq::empty(),
    };
    let c: Seq<(Seq<char>, Seq<char>)> = match s.output {
        Some(o) => seq![("output"@, o)],
        None => Seq::empty(),
    };
    a + b + c
}

/// The words of a stage's command with its placeholders filled: the program
/// and its arguments (none: the stage is skipped).
pub open spec fn stage_command_spec(s: StageSpecView, prev: Option<Seq<char>>) -> Seq<Seq<char>> {
    words(resolve_spec(or_default(s.cmd, Seq::empty()), stage_vars(s, prev), stage_vars(s, prev).len()))
}

pub fn stage_command(s: &StageSpec, prev: &Option<String>) -> (r: Vec<String>)
    ensures
        r.deep_view() == stage_command_spec(s@, prev.deep_view()),
{
    let mut vars: Vec<(String, String)> = Vec::new();
    let ghost sv = s@;
    match &s.input {
        Some(i) => {
            vars.push(("input".to_string(), i.clone()));
        },
        None => {},
    }
    let ghost va = vars.deep_view();
    match prev {
        Some(p) => {
            vars.push(("prev_output".to_string(), p.clone()));
        },
        None => {},
    }
    let ghost vb = vars.deep_view();
    match &s.output {
        Some(o) => {
            vars.push(("output".to_string(), o.clone()));
        },
        None => {},
    }
    proof {
        let a: Seq<(Seq<char>, Seq<char>)> = match sv.input {
            Some(i) => seq![("input"@, i)],
            None => Seq::empty(),
        };
        let b: Seq<(Seq<char>, Seq<char>)> = match prev.deep_view() {
            Some(p) => seq![("prev_output"@, p)],
            None => Seq::empty(),
        };
        let c: Seq<(Seq<char>, Seq<char>)> = match sv.output {
            Some(o) => seq![("output"@, o)],
            None => Seq::empty(),
        };
        assert(va =~= a);
        assert(vb =~= a + b);
        assert(vars.deep_view() =~= a + b + c);
    }
    let cmd = or_default_exec(&s.cmd, "");
    proof {
        reveal_strlit("");
        assert(""@ =~= Seq::<char>::empty());
        assert(cmd@ == or_default(sv.cmd, Seq::empty()));
        assert(vars.deep_view() == stage_vars(sv, prev.deep_view()));
    }
    let full = resolve_input(cmd.as_str(), &vars);
    split_words(full.as_str())
}

/// What happened when a stage's command was run.
#[derive(Debug, Clone)]
pub enum StageEvent {
    /// The command could not be started.
    NotStarted,
    /// It exited unsuccessfully.
    Failed,
    /// It exited successfully with this standard output.
    Succeeded(String),
}

#[derive(Debug, Clone, Copy, PartialEq, Eq, Structural)]
pub enum StageVerdict {
    /// It succeeded and its output held what was expected, or nothing was.
    Done,
    /// It succeeded but its output lacked what was expected.
    WrongOutput,
    /// It exited unsuccessfully.
    Failed,
    /// It could not be started.
    Error,
}

/// The pipeline between stages: the previous stage's output file, whether
/// every stage so far went well, and whether the run has stopped.
#[derive(Debug, Clone)]
pub struct PipelineState {
    pub prev_output: Option<String>,
    pub all_ok: bool,
    pub stopped: bool,
}

pub struct PipelineStateView {
    pub prev_output: Option<Seq<char>>,
    pub all_ok: bool,
    pub stopped: bool,
}

impl View for PipelineState {
    type V = PipelineStateView;

    open spec fn view(&self) -> PipelineStateView {
        PipelineStateView { prev_output: self.prev_output.deep_view(), all_ok: self.all_ok, stopped: self.stopped }
    }
}

pub open spec fn stage_event_view(e: StageEvent) -> Option<Option<Seq<char>>> {
    match e {
        StageEvent::NotStarted => None,
        StageEvent::Failed => Some(None),
        StageEvent::Succeeded(out) => Some(Some(out@)),
    }
}

/// The verdict of a stage and the state after it. A successful stage is done
/// when its output holds `expect` (or there is none), wrong output otherwise,
/// and hands on its `output` file (or none); a failed or unstartable stage
/// ends the run. A stage that is not ok leaves the pipeline failed.
pub open spec fn stage_step_spec(
    st: PipelineStateView,
    s: StageSpecView,
    e: Option<Option<Seq<char>>>,
) -> (PipelineStateView, StageVerdict) {
    match e {
        None => (PipelineStateView { prev_output: st.prev_output, all_ok: false, stopped: true }, StageVerdict::Error),
        Some(None) => (
            PipelineStateView { prev_output: st.prev_output, all_ok: false, stopped: true },
            StageVerdict::Failed,
        ),
        Some(Some(out)) => {
            let ok = match s.expect {
                Some(x) => contains(out, x),
                None => true,
            };
            (
                PipelineStateView { prev_output: s.output, all_ok: st.all_ok && ok, stopped: false },
                if ok {
                    StageVerdict::Done
                } else {
                    StageVerdict::WrongOutput
                },
            )
        },
    }
}

pub fn stage_step(st: &PipelineState, s: &StageSpec, e: &StageEvent) -> (r: (PipelineState, StageVerdict))
    ensures
        (r.0@, r.1) == stage_step_spec(st@, s@, stage_event_view(*e)),
{
    match e {
        StageEvent::NotStarted => (
            PipelineState { prev_output: copy_opt_string(&st.prev_output), all_ok: false, stopped: true },
            StageVerdict::Error,
        ),
        StageEvent::Failed => (
            PipelineState { prev_output: copy_opt_string(&st.prev_output), all_ok: false, stopped: true },
            StageVerdict::Failed,
        ),
        StageEvent::Succeeded(out) => {
            let ok = match &s.expect {
                Some(x) => contains_str(out.as_str(), x.as_str()),
                None => true,
            };
            (
                PipelineState { prev_output: copy_opt_string(&s.output), all_ok: st.all_ok && ok, stopped: false },
                if ok {
                    StageVerdict::Done
                } else {
                    StageVerdict::WrongOutput
                },
            )
        },
    }
}

/// A stage's output is checked for IR pathologies when it asks for it and
/// the output is not empty.
pub fn should_validate(s: &StageSpec, stdout: &str) -> (b: bool)
    ensures
        b == (s.validate && stdout@.len() > 0),
{
    s.validate && !stdout.is_empty()
}

/// The pipeline's exit status: 0 when every stage went well, else 1.
pub fn pipeline_exit_code(all_ok: bool) -> (c: i32)
    ensures
        c == (if all_ok {
            0i32
        } else {
            1i32
        }),
{
    if all_ok {
        0
    } else {
        1
    }
}

// ---------------------------------------------------------------------------
// The status summary
// ---------------------------------------------------------------------------

/// The project's name as the summary shows it: its `name`, or `unknown`.
pub fn project_display_name(c: &ProjectConfig) -> (r: String)
    ensures
        r@ == or_default(c@.name, "unknown"@),
{
    or_default_exec(&c.name, "unknown")
}

/// The stages the summary lists: each one's name (or `?`) and output file.
pub open spec fn stage_rows_spec(c: ProjectConfigView) -> Seq<(Seq<char>, Option<Seq<char>>)> {
    match c.stages {
        Some(ss) => ss.map_values(|s: StageSpecView| (or_default(s.name, "?"@), s.output)),
        None => Seq::empty(),
    }
}

pub fn stage_rows(c: &ProjectConfig) -> (r: Vec<(String, Option<String>)>)
    ensures
        r.deep_view() == stage_rows_spec(c@),
{
    let mut r: Vec<(String, Option<String>)> = Vec::new();
    match &c.stages {
        Some(ss) => {
            let ghost sv = stage_views(ss@);
            let mut i: usize = 0;
            while i < ss.len()
                invariant
                    i <= ss@.len(),
                    sv == stage_views(ss@),
                    r.deep_view() == sv.take(i as int).map_values(
                        |s: StageSpecView| (or_default(s.name, "?"@), s.output),
                    ),
                decreases ss@.len() - i,
            {
                assert(sv[i as int] == ss@[i as int]@);
                let ghost before = r.deep_view();
                r.push((or_default_exec(&ss[i].name, "?"), copy_opt_string(&ss[i].output)));
                assert(r.deep_view() =~= before.push((or_default(sv[i as int].name, "?"@), sv[i as int].output)));
                assert(sv.take(i + 1) =~= sv.take(i as int).push(sv[i as int]));
                i += 1;
            }
            assert(sv.take(i as int) =~= sv);
        },
        None => {
            assert(r.deep_view() =~= Seq::<(Seq<char>, Option<Seq<char>>)>::empty());
        },
    }
    r
}

// ---------------------------------------------------------------------------
// Fixed-point detection
// ---------------------------------------------------------------------------

#[derive(Debug, Clone, Copy, PartialEq, Eq, Structural)]
pub enum FixedPointStep {
    /// This iteration's IR hashes as the previous one's: the compiler is
    /// self-hosting.
    Converged,
    /// Build the next stage's compiler from this IR and go on.
    BuildNext,
    /// The last iteration ended without a fixed point.
    GiveUp,
}

/// After iteration `iteration` (counted from 1) of at most `max_iters`: a
/// fixed point when the IR hash equals the previous iteration's; else the
/// next stage is built while iterations remain.
pub open spec fn fixedpoint_step_spec(
    prev: Option<Seq<char>>,
    hash: Seq<char>,
    iteration: nat,
    max_iters: nat,
) -> FixedPointStep {
    if prev == Some(hash) {
        FixedPointStep::Converged
    } else if iteration < max_iters {
        FixedPointStep::BuildNext
    } else {
        FixedPointStep::GiveUp
    }
}

pub fn fixedpoint_step(prev: &Option<String>, hash: &String, iteration: usize, max_iters: usize) -> (r: FixedPointStep)
    ensures
        r == fixedpoint_step_spec(prev.deep_view(), hash@, iteration as nat, max_iters as nat),
{
    let same = match prev {
        Some(p) => *p == *hash,
        None => false,
    };
    if same {
        FixedPointStep::Converged
    } else if iteration < max_iters {
        FixedPointStep::BuildNext
    } else {
        FixedPointStep::GiveUp
    }
}

/// The exit status of fixed-point detection: 0 only when it converged.
pub fn fixedpoint_exit_code(converged: bool) -> (c: i32)
    ensures
        c == (if converged {
            0i32
        } else {
            1i32
        }),
{
    if converged {
        0
    } else {
        1
    }
}

} // verus!
