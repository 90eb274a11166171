use culebra::project::{
    check_test_config, fixedpoint_exit_code, fixedpoint_step, pipeline_exit_code, project_display_name, select_tests,
    should_validate, stage_command, stage_rows, stage_step, suite_exit_code, suite_tally, test_display_name,
    test_outcome, FixedPointStep, PipelineState, ProjectConfig, StageEvent, StageSpec, StageVerdict, TestConfigError,
    TestEvent, TestOutcome, TestSpec,
};
use culebra::text::split_words;

fn s(x: &str) -> Option<String> {
    Some(x.to_string())
}

fn test_spec(name: Option<&str>, expect: Option<&str>) -> TestSpec {
    TestSpec { name: name.map(|n| n.to_string()), source: s("print 1"), expect: expect.map(|e| e.to_string()), source_file: None }
}

fn stage(cmd: Option<&str>, input: Option<&str>, output: Option<&str>, expect: Option<&str>) -> StageSpec {
    StageSpec {
        name: s("stage"),
        cmd: cmd.map(|c| c.to_string()),
        input: input.map(|c| c.to_string()),
        output: output.map(|c| c.to_string()),
        validate: true,
        expect: expect.map(|c| c.to_string()),
    }
}

fn config(compiler: Option<&str>, tests: Option<Vec<TestSpec>>, stages: Option<Vec<StageSpec>>) -> ProjectConfig {
    ProjectConfig { name: None, compiler: compiler.map(|c| c.to_string()), runtime: None, tests, stages }
}

#[test]
fn test_config_needs_a_compiler_then_tests() {
    assert_eq!(check_test_config(&config(None, Some(vec![]), None)), Err(TestConfigError::NoCompiler));
    assert_eq!(check_test_config(&config(Some(""), Some(vec![]), None)), Err(TestConfigError::NoCompiler));
    assert_eq!(check_test_config(&config(Some("mnc"), None, None)), Err(TestConfigError::NoTests));
    assert_eq!(check_test_config(&config(Some("mnc"), Some(vec![]), None)), Ok(()));
}

#[test]
fn tests_are_selected_by_name() {
    let ts = vec![test_spec(Some("lexer_basic"), None), test_spec(None, None), test_spec(Some("parser"), None), test_spec(Some("lexer_str"), None)];
    let (sel, skipped) = select_tests(&ts, Some("lexer"));
    let names: Vec<String> = sel.iter().map(test_display_name).collect();
    assert_eq!(names, vec!["lexer_basic", "lexer_str"]);
    assert_eq!(skipped, 2);
    let (all, none_skipped) = select_tests(&ts, None);
    assert_eq!(all.len(), 4);
    assert_eq!(none_skipped, 0);
    let (unnamed, _) = select_tests(&ts, Some("?"));
    assert_eq!(unnamed.len(), 1);
    assert_eq!(test_display_name(&unnamed[0]), "?");
}

#[test]
fn test_outcomes_follow_each_step() {
    let with = test_spec(Some("t"), Some("  42\n"));
    let without = test_spec(Some("t"), None);
    let ran = |ok: bool, out: &str| TestEvent::Ran { success: ok, stdout: out.to_string() };
    assert_eq!(test_outcome(&with, &ran(true, "42\n")), TestOutcome::Pass);
    assert_eq!(test_outcome(&with, &ran(true, "43\n")), TestOutcome::Fail);
    assert_eq!(test_outcome(&with, &ran(false, "42\n")), TestOutcome::Crash);
    assert_eq!(test_outcome(&without, &ran(true, "anything")), TestOutcome::Done);
    assert_eq!(test_outcome(&with, &TestEvent::SourceMissing), TestOutcome::Skip);
    assert_eq!(test_outcome(&with, &TestEvent::CompileFailed), TestOutcome::Fail);
    assert_eq!(test_outcome(&with, &TestEvent::LinkFailed), TestOutcome::Fail);
    assert_eq!(test_outcome(&with, &TestEvent::WriteFailed), TestOutcome::Fail);
    assert_eq!(test_outcome(&with, &TestEvent::NotStarted), TestOutcome::Fail);
}

#[test]
fn suite_counts_and_exit_status() {
    let os = vec![TestOutcome::Pass, TestOutcome::Done, TestOutcome::Fail, TestOutcome::Crash, TestOutcome::Skip];
    assert_eq!(suite_tally(&os, 3), (2, 2, 4));
    assert_eq!(suite_tally(&[], 0), (0, 0, 0));
    assert_eq!(suite_exit_code(0), 0);
    assert_eq!(suite_exit_code(2), 1);
}

#[test]
fn stage_commands_fill_their_placeholders() {
    let st = stage(Some("mnc {input}  -o {output} --prev {prev_output}"), Some("a.mn"), Some("a.ll"), None);
    assert_eq!(stage_command(&st, &s("prev.ll")), vec!["mnc", "a.mn", "-o", "a.ll", "--prev", "prev.ll"]);
    assert_eq!(stage_command(&st, &None), vec!["mnc", "a.mn", "-o", "a.ll", "--prev", "{prev_output}"]);
    assert!(stage_command(&stage(None, None, None, None), &None).is_empty());
    assert!(stage_command(&stage(Some(" \t "), None, None, None), &None).is_empty());
    assert_eq!(split_words("  a\tb\n c  "), vec!["a", "b", "c"]);
}

#[test]
fn stage_steps_decide_the_pipeline() {
    let st = PipelineState { prev_output: s("old.ll"), all_ok: true, stopped: false };
    let expecting = stage(Some("x"), None, Some("new.ll"), Some("ok"));
    let (next, v) = stage_step(&st, &expecting, &StageEvent::Succeeded("all ok here".to_string()));
    assert_eq!(v, StageVerdict::Done);
    assert_eq!((next.prev_output.as_deref(), next.all_ok, next.stopped), (Some("new.ll"), true, false));
    let (next, v) = stage_step(&st, &expecting, &StageEvent::Succeeded("nope".to_string()));
    assert_eq!(v, StageVerdict::WrongOutput);
    assert_eq!((next.all_ok, next.stopped), (false, false));
    let (next, v) = stage_step(&st, &expecting, &StageEvent::Failed);
    assert_eq!(v, StageVerdict::Failed);
    assert_eq!((next.prev_output.as_deref(), next.all_ok, next.stopped), (Some("old.ll"), false, true));
    let (next, v) = stage_step(&st, &stage(Some("x"), None, None, None), &StageEvent::NotStarted);
    assert_eq!(v, StageVerdict::Error);
    assert!(next.stopped && !next.all_ok);
    let (next, _) = stage_step(&st, &stage(Some("x"), None, None, None), &StageEvent::Succeeded(String::new()));
    assert_eq!(next.prev_output, None);
    assert!(should_validate(&expecting, "define"));
    assert!(!should_validate(&expecting, ""));
    assert_eq!(pipeline_exit_code(true), 0);
    assert_eq!(pipeline_exit_code(false), 1);
}

#[test]
fn status_lists_the_stages() {
    let mut c = config(None, None, Some(vec![stage(Some("x"), None, Some("s1.ll"), None), StageSpec { name: None, ..stage(None, None, None, None) }]));
    assert_eq!(project_display_name(&c), "unknown");
    c.name = s("mapanare");
    assert_eq!(project_display_name(&c), "mapanare");
    assert_eq!(stage_rows(&c), vec![("stage".to_string(), s("s1.ll")), ("?".to_string(), None)]);
    assert!(stage_rows(&config(None, None, None)).is_empty());
}

#[test]
fn fixedpoint_stops_at_the_first_repeated_hash() {
    let h = "abc".to_string();
    assert_eq!(fixedpoint_step(&None, &h, 1, 3), FixedPointStep::BuildNext);
    assert_eq!(fixedpoint_step(&s("xyz"), &h, 2, 3), FixedPointStep::BuildNext);
    assert_eq!(fixedpoint_step(&s("abc"), &h, 2, 3), FixedPointStep::Converged);
    assert_eq!(fixedpoint_step(&s("xyz"), &h, 3, 3), FixedPointStep::GiveUp);
    assert_eq!(fixedpoint_exit_code(true), 0);
    assert_eq!(fixedpoint_exit_code(false), 1);
}
