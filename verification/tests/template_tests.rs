use culebra::workflow::{entry_templates, id_last_segment, merge_inputs, should_clear, should_stop, should_write_fixes, step_input, step_templates};
use culebra::schema::{DrainEntry, WorkflowStep, WorkflowTemplateSelector};
use culebra::triage::{findings_in_function, suggestion_picks};
use culebra::summary::findings_per_template;
use culebra::baseline::{findings_to_entries, scan_findings, sort_findings_by_severity};
use culebra::engine::{interpolate, run_template, Finding};
use culebra::ir::parse_ir;
use culebra::loader::{filter_templates, find_template, first_sentence, map_templates, parse_severities, sort_for_listing};
use culebra::report::{
    count_severity, finding_location, format_severity, markdown_report, sarif_level, sarif_results,
    severity_label, summary_parts, OutputFormat,
};
use culebra::schema::{
    Condition, FileType, MatchBlock, Matcher, MatcherCondition, MatcherType, Remediation, Report, Scope, Section,
    Severity, Template, TemplateInfo,
};

fn info(name: &str, severity: Severity, tags: &[&str]) -> TemplateInfo {
    TemplateInfo {
        name: name.to_string(),
        severity,
        author: "tests".to_string(),
        description: "A test template. It has two sentences.".to_string(),
        impact: String::new(),
        tags: tags.iter().map(|t| t.to_string()).collect(),
        references: Vec::new(),
        cwe: String::new(),
        created: String::new(),
        updated: String::new(),
    }
}

fn regex_matcher(pattern: &str) -> Matcher {
    Matcher {
        matcher_type: MatcherType::Regex,
        name: "m".to_string(),
        pattern: vec![pattern.to_string()],
        condition: None,
        value: None,
        byte_range: None,
        exclude: None,
        extractor: None,
    }
}

fn template(id: &str, severity: Severity, tags: &[&str], section: Section, matchers: Vec<Matcher>) -> Template {
    Template {
        id: id.to_string(),
        info: info(id, severity, tags),
        scope: Scope { file_type: FileType::LlvmIr, section, inputs: Vec::new() },
        match_block: MatchBlock::Matchers { matchers, condition: Condition::Or },
        extractors: Vec::new(),
        report: Some(Report { format: "found it".to_string(), evidence: None }),
        remediation: Some(Remediation {
            suggestion: "Add alignment\nsecond line".to_string(),
            autofix: None,
            difficulty: None,
        }),
        related: Vec::new(),
    }
}

const IR: &str = "@.str = private constant [3 x i8] c\"hi\\00\"\ndefine void @f() {\n  %p = alloca i64\n  ret void\n}\n";

#[test]
fn run_template_matches_lines_of_its_section() {
    let m = parse_ir(IR);
    let t = template("alloca-check", Severity::High, &["ir"], Section::All, vec![regex_matcher("alloca")]);
    let fs = run_template(&t, &m);
    assert_eq!(fs.len(), 1);
    assert_eq!(fs[0].template_id, "alloca-check");
    assert_eq!(fs[0].line, 3);
    assert_eq!(fs[0].matched_text, "  %p = alloca i64");
    assert_eq!(fs[0].report_format, "found it");
    assert_eq!(fs[0].suggestion, "Add alignment\nsecond line");
    let g = template("globals", Severity::Low, &[], Section::Globals, vec![regex_matcher("constant")]);
    let gs = run_template(&g, &m);
    assert_eq!(gs.len(), 1);
    assert_eq!(gs[0].line, 1);
}

#[test]
fn negated_and_contains_matchers() {
    let m = parse_ir(IR);
    let mut neg = regex_matcher("alloca");
    neg.condition = Some(MatcherCondition::NotContains);
    let mut has_ret = regex_matcher("unused");
    has_ret.matcher_type = MatcherType::Contains;
    has_ret.value = Some("ret void".to_string());
    let t = Template {
        match_block: MatchBlock::Matchers { matchers: vec![neg, has_ret], condition: Condition::And },
        ..template("x", Severity::Info, &[], Section::Functions, Vec::new())
    };
    let fs = run_template(&t, &m);
    assert_eq!(fs.len(), 1);
    assert_eq!(fs[0].matched_text, "  ret void");
}

#[test]
fn cross_reference_templates_do_not_run_on_ir_alone() {
    let m = parse_ir(IR);
    let mut t = template("xref", Severity::High, &[], Section::All, vec![regex_matcher("alloca")]);
    t.scope.file_type = FileType::CrossReference;
    assert!(run_template(&t, &m).is_empty());
}

#[test]
fn interpolate_replaces_known_names() {
    let vars = vec![("name".to_string(), "@.str".to_string())];
    assert_eq!(interpolate("constant {name} is {size}", &vars), "constant @.str is {size}");
}

#[test]
fn scan_orders_by_severity() {
    let m = parse_ir(IR);
    let low = template("low", Severity::Low, &[], Section::All, vec![regex_matcher("ret")]);
    let crit = template("crit", Severity::Critical, &[], Section::All, vec![regex_matcher("alloca")]);
    let fs = scan_findings(&[low, crit], &m);
    assert_eq!(fs.len(), 2);
    assert_eq!(fs[0].template_id, "crit");
    assert_eq!(fs[1].template_id, "low");
    let sorted = sort_findings_by_severity(fs.clone());
    assert_eq!(sorted[0].template_id, "crit");
    let entries = findings_to_entries(&fs);
    assert_eq!(entries[0].severity, "critical");
    assert_eq!(entries[0].line, 3);
}

#[test]
fn filter_by_tags_severities_and_ids() {
    let ts = vec![
        template("a", Severity::High, &["abi"], Section::All, Vec::new()),
        template("b", Severity::Low, &["ir"], Section::All, Vec::new()),
        template("c", Severity::Critical, &["abi", "ir"], Section::All, Vec::new()),
    ];
    let ids = |v: Vec<Template>| v.iter().map(|t| t.id.clone()).collect::<Vec<_>>();
    assert_eq!(ids(filter_templates(&ts, &[], &[], &[])), vec!["a", "b", "c"]);
    assert_eq!(ids(filter_templates(&ts, &["abi".to_string()], &[], &[])), vec!["a", "c"]);
    assert_eq!(ids(filter_templates(&ts, &[], &[Severity::Low], &[])), vec!["b"]);
    assert_eq!(ids(filter_templates(&ts, &["ir".to_string()], &[Severity::Critical], &[])), vec!["c"]);
    assert_eq!(ids(filter_templates(&ts, &[], &[], &["b".to_string()])), vec!["b"]);
    assert_eq!(find_template(&ts, "c"), Some(2));
    assert_eq!(find_template(&ts, "zz"), None);
    assert_eq!(ids(sort_for_listing(&ts)), vec!["c", "a", "b"]);
}

#[test]
fn parse_severities_reads_known_words() {
    assert_eq!(parse_severities("critical, High,bogus,info"), vec![Severity::Critical, Severity::High, Severity::Info]);
    assert!(parse_severities("").is_empty());
}

#[test]
fn first_sentence_cuts_after_period() {
    assert_eq!(first_sentence("A test template. It has two sentences."), "A test template.");
    assert_eq!(first_sentence("  one line\nsecond"), "one line");
    assert_eq!(first_sentence("   "), "");
}

#[test]
fn output_formats_and_labels() {
    assert_eq!(OutputFormat::from_str("JSON"), OutputFormat::Json);
    assert_eq!(OutputFormat::from_str("sarif"), OutputFormat::Sarif);
    assert_eq!(OutputFormat::from_str("md"), OutputFormat::Markdown);
    assert_eq!(OutputFormat::from_str("anything"), OutputFormat::Text);
    assert_eq!(sarif_level(&Severity::High), "error");
    assert_eq!(sarif_level(&Severity::Medium), "warning");
    assert_eq!(sarif_level(&Severity::Info), "note");
    assert_eq!(format_severity(&Severity::Critical), "CRITICAL");
    assert_eq!(severity_label(&Severity::Low), "low");
}

fn finding(id: &str, severity: Severity, line: usize, function: Option<&str>) -> Finding {
    Finding {
        template_id: id.to_string(),
        template_name: format!("{id} name"),
        severity,
        tags: Vec::new(),
        matched_text: "text".to_string(),
        line,
        function: function.map(|f| f.to_string()),
        extractions: Vec::new(),
        report_format: String::new(),
        suggestion: "Do this\nthen that".to_string(),
        description: String::new(),
        impact: String::new(),
        cwe: String::new(),
        autofix: None,
    }
}

#[test]
fn report_summaries_and_locations() {
    let fs = vec![
        finding("a", Severity::Critical, 3, Some("f")),
        finding("b", Severity::High, 5, None),
        finding("c", Severity::High, 7, None),
    ];
    assert_eq!(count_severity(&fs, Severity::High), 2);
    assert_eq!(summary_parts(&fs), vec!["1 critical".to_string(), "2 high".to_string()]);
    assert_eq!(finding_location(&fs[0], "x.ll"), "x.ll:3 (in f)");
    assert_eq!(finding_location(&fs[1], "x.ll"), "x.ll:5");
    let sr = sarif_results(&fs);
    assert_eq!(sr.len(), 3);
    assert_eq!(sr[0].level, "error");
}

#[test]
fn markdown_report_layout() {
    assert_eq!(
        markdown_report(&[], "x.ll"),
        "# Culebra Scan Report\n\n**File:** `x.ll`\n**Findings:** 0\n\nNo issues found.\n"
    );
    let md = markdown_report(&[finding("a", Severity::Critical, 3, Some("f"))], "x.ll");
    assert!(md.starts_with("# Culebra Scan Report\n\n**File:** `x.ll`\n**Findings:** 1\n\n| Severity | Count |\n|----------|-------|\n| Critical | 1 |\n"));
    assert!(md.contains("**Location:** `x.ll:3` (in `f`)\n"));
    assert!(md.contains("**Fix:** Do this\n"));
}

#[test]
fn map_templates_ranks_matches_and_adds_related_ones() {
    let mut t1 = template("phi-zeroinit", Severity::High, &["phi"], Section::All, Vec::new());
    t1.related = vec!["null-store".to_string()];
    let t2 = template("null-store", Severity::Medium, &["memory"], Section::All, Vec::new());
    let mut t3 = template("phi-loop", Severity::Critical, &[], Section::All, Vec::new());
    t3.related = vec!["ghost".to_string()];
    let t4 = template("other", Severity::Low, &["phi"], Section::All, Vec::new());
    let ts = vec![t1, t2, t3, t4];
    let m = map_templates(&ts, &["phi".to_string()]);
    assert_eq!(m.ranked, vec![(27, 0), (20, 2), (8, 3)]);
    assert_eq!(m.related_only, vec![1]);
    let none = map_templates(&ts, &["zzz".to_string()]);
    assert!(none.ranked.is_empty());
    assert!(none.related_only.is_empty());
}

#[test]
fn suggestions_pick_the_first_finding_of_each_template_by_severity() {
    let fs = vec![
        finding("h1", Severity::High, 1, Some("parse_expr")),
        finding("c1", Severity::Critical, 2, Some("parse_expr")),
        finding("h1", Severity::High, 3, Some("parse_expr")),
        finding("m1", Severity::Medium, 4, Some("parse_stmt")),
        finding("c1", Severity::Critical, 5, Some("other")),
        finding("l1", Severity::Low, 6, Some("parse_expr")),
        finding("c2", Severity::Critical, 7, None),
    ];
    let idx = findings_in_function(&fs, "parse");
    assert_eq!(idx, vec![0, 1, 2, 3, 5]);
    assert_eq!(suggestion_picks(&fs, &idx), vec![1, 0, 3]);
    assert!(findings_in_function(&fs, "zzz").is_empty());
}

#[test]
fn findings_per_template_counts_most_frequent_first() {
    let fs = vec![
        finding("a", Severity::High, 1, None),
        finding("b", Severity::Critical, 2, None),
        finding("b", Severity::Critical, 3, None),
        finding("c", Severity::Low, 4, None),
    ];
    assert_eq!(
        findings_per_template(&fs),
        vec![("b".to_string(), 2), ("a".to_string(), 1), ("c".to_string(), 1)]
    );
}

fn step(tags: &[&str], ids: &[&str], input: Option<&str>, inputs: Option<Vec<(&str, &str)>>) -> WorkflowStep {
    WorkflowStep {
        templates: WorkflowTemplateSelector {
            tags: tags.iter().map(|t| t.to_string()).collect(),
            ids: ids.iter().map(|t| t.to_string()).collect(),
        },
        input: input.map(|s| s.to_string()),
        inputs: inputs.map(|v| v.into_iter().map(|(k, x)| (k.to_string(), x.to_string())).collect()),
        stop_on: None,
    }
}

#[test]
fn workflow_steps_select_templates_and_inputs() {
    let ts = vec![
        template("abi/ret", Severity::Critical, &["abi"], Section::All, Vec::new()),
        template("str", Severity::High, &["string"], Section::All, Vec::new()),
    ];
    let by_tag = step_templates(&step(&["string"], &["abi/ret"], None, None), &ts);
    assert_eq!(by_tag.iter().map(|t| t.id.clone()).collect::<Vec<_>>(), vec!["str".to_string()]);
    let by_id = step_templates(&step(&[], &["abi/ret"], None, None), &ts);
    assert_eq!(by_id.iter().map(|t| t.id.clone()).collect::<Vec<_>>(), vec!["abi/ret".to_string()]);
    assert!(step_templates(&step(&[], &[], None, None), &ts).is_empty());
    let given = merge_inputs(&[("stage".to_string(), "1".to_string()), ("stage".to_string(), "2".to_string())]);
    assert_eq!(given, vec![("stage".to_string(), "2".to_string())]);
    assert_eq!(step_input(&step(&[], &[], Some("/tmp/s{stage}.ll"), None), &given), Some("/tmp/s2.ll".to_string()));
    let s = step(&[], &[], None, Some(vec![("other", "a.ll"), ("ir_file", "b{stage}.ll")]));
    assert_eq!(step_input(&s, &given), Some("b2.ll".to_string()));
    let s = step(&[], &[], None, Some(vec![("other", "a.ll")]));
    assert_eq!(step_input(&s, &given), Some("a.ll".to_string()));
    assert_eq!(step_input(&step(&[], &[], None, None), &given), None);
}

#[test]
fn stops_and_clearing_follow_the_severities() {
    let fs = vec![finding("a", Severity::Medium, 1, None), finding("b", Severity::High, 2, None)];
    assert!(should_stop(&fs, &Some(Severity::High)));
    assert!(should_stop(&fs, &Some(Severity::Low)));
    assert!(!should_stop(&fs, &Some(Severity::Critical)));
    assert!(!should_stop(&fs, &None));
    assert!(should_clear(true, false));
    assert!(!should_clear(true, true));
    assert!(!should_clear(false, false));
    assert!(!should_write_fixes(true, false, &fs));
    assert!(!should_write_fixes(true, true, &fs));
}

#[test]
fn drain_entries_select_by_id_segment_or_tags() {
    let ts = vec![
        template("return-type-divergence", Severity::Critical, &["abi"], Section::All, Vec::new()),
        template("str", Severity::High, &["string"], Section::All, Vec::new()),
    ];
    let entry = |template: Option<&str>, tags: &[&str]| DrainEntry {
        template: template.map(|s| s.to_string()),
        tags: tags.iter().map(|t| t.to_string()).collect(),
        target: "x.ll".to_string(),
        header: None,
        reason: None,
        stop_on: None,
    };
    assert_eq!(id_last_segment("abi/return-type-divergence"), "return-type-divergence");
    assert_eq!(id_last_segment("plain"), "plain");
    let by_id = entry_templates(&entry(Some("abi/return-type-divergence"), &[]), &ts);
    assert_eq!(by_id.len(), 1);
    assert_eq!(by_id[0].id, "return-type-divergence");
    let by_tag = entry_templates(&entry(None, &["string"]), &ts);
    assert_eq!(by_tag[0].id, "str");
    assert!(entry_templates(&entry(None, &[]), &ts).is_empty());
}

#[test]
fn severity_names_joined_parse_back() {
    let ss = vec![Severity::Info, Severity::Critical, Severity::Info, Severity::Low, Severity::Medium, Severity::High];
    let joined = ss.iter().map(|s| s.as_str().to_string()).collect::<Vec<_>>().join(",");
    assert_eq!(joined, "info,critical,info,low,medium,high");
    assert_eq!(parse_severities(&joined), ss);
    let none: Vec<Severity> = Vec::new();
    let joined_none = none.iter().map(|s| s.as_str().to_string()).collect::<Vec<_>>().join(",");
    assert_eq!(parse_severities(&joined_none), none);
}

#[test]
fn output_format_ignores_ascii_case() {
    for name in ["Json", "SARIF", "MarkDown", "mD", "Text", "xml"] {
        let lower = name.to_lowercase();
        assert_eq!(OutputFormat::from_str(name), OutputFormat::from_str(&lower));
    }
    assert_eq!(OutputFormat::from_str("MarkDown"), OutputFormat::Markdown);
    assert_eq!(OutputFormat::from_str("xml"), OutputFormat::Text);
}

#[test]
fn triage_groups_most_severe_then_largest() {
    let fs = vec![
        finding("low-many", Severity::Low, 1, None),
        finding("high-one", Severity::High, 2, None),
        finding("low-many", Severity::Low, 3, None),
        finding("low-few", Severity::Low, 4, None),
        finding("low-many", Severity::Info, 5, None),
    ];
    let gs = culebra::triage::triage_groups(&fs);
    let ids: Vec<&str> = gs.iter().map(|g| g.0.as_str()).collect();
    assert_eq!(ids, vec!["high-one", "low-many", "low-few"]);
    let lines: Vec<usize> = gs[1].1.iter().map(|f| f.line).collect();
    assert_eq!(lines, vec![1, 3, 5]);
    assert_eq!(gs.iter().map(|g| g.1.len()).sum::<usize>(), fs.len());
}

#[test]
fn exit_code_follows_critical_or_high_findings() {
    assert_eq!(culebra::workflow::findings_exit_code(&[]), 0);
    let mild = vec![finding("a", Severity::Medium, 1, None), finding("b", Severity::Info, 2, None)];
    assert_eq!(culebra::workflow::findings_exit_code(&mild), 0);
    let high = vec![finding("a", Severity::Low, 1, None), finding("b", Severity::High, 2, None)];
    assert_eq!(culebra::workflow::findings_exit_code(&high), 1);
    let critical = vec![finding("c", Severity::Critical, 3, None)];
    assert_eq!(culebra::workflow::findings_exit_code(&critical), 1);
}

fn with_fix(mut f: Finding, pattern: &str, replace: &str) -> Finding {
    f.autofix = Some(culebra::schema::Autofix {
        fix_type: "line_replace".to_string(),
        match_pattern: pattern.to_string(),
        replace: replace.to_string(),
    });
    f
}

#[test]
fn autofix_rewrite_only_when_asked_and_fixable() {
    let content = "  %x = alloca i64\n  ret void\n";
    let plain = vec![finding("a", Severity::High, 1, None)];
    let fixable = vec![finding("a", Severity::High, 1, None), with_fix(finding("b", Severity::Low, 2, None), "alloca i64", "alloca i64, align 8")];
    assert_eq!(culebra::workflow::autofix_rewrite(content, &fixable, false, false), None);
    assert_eq!(culebra::workflow::autofix_rewrite(content, &fixable, true, true), None);
    assert_eq!(culebra::workflow::autofix_rewrite(content, &plain, true, false), None);
    assert_eq!(
        culebra::workflow::autofix_rewrite(content, &fixable, true, false),
        Some("  %x = alloca i64, align 8\n  ret void\n".to_string())
    );
}

#[test]
fn workflow_and_drain_steps_stop_as_declared() {
    let mut acc = vec![finding("a", Severity::High, 1, None)];
    let stop = culebra::workflow::after_workflow_step(&mut acc, vec![finding("b", Severity::Low, 2, None)], &Some(Severity::High));
    assert!(stop);
    assert_eq!(acc.len(), 2);
    let mut acc2 = vec![finding("a", Severity::High, 1, None)];
    let stop2 = culebra::workflow::after_drain_entry(&mut acc2, vec![finding("b", Severity::Low, 2, None)], &Some(Severity::High));
    assert!(!stop2);
    assert_eq!(acc2.len(), 2);
    let stop3 = culebra::workflow::after_drain_entry(&mut acc2, vec![finding("c", Severity::Critical, 3, None)], &Some(Severity::High));
    assert!(stop3);
    assert!(!culebra::workflow::after_workflow_step(&mut acc2, vec![], &None));
}

#[test]
fn group_functions_sorted_once() {
    let fs = vec![finding("a", Severity::High, 1, Some("zeta")), finding("a", Severity::High, 2, None), finding("a", Severity::High, 3, Some("alpha")), finding("a", Severity::High, 4, Some("zeta"))];
    assert_eq!(culebra::triage::group_functions(&fs), vec!["alpha".to_string(), "zeta".to_string()]);
}
