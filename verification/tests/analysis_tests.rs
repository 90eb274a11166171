use culebra::probe::instrument_function;
use culebra::ir::count_actual_bytes;
use culebra::diagnose::size_mismatches;
use culebra::fingerprint::{hex_lower, ir_fingerprint, meaningful_lines};
use culebra::stages::stage_delta;
use culebra::abi::{abi_summary, header_checks, header_structs};
use culebra::callgraph::find_function_like;
use culebra::cfg::parse_blocks;
use culebra::diagnose::{duplicate_constants, duplicate_count, large_constants};
use culebra::dump::{alloca_uses, phi_entries, variable_dump};
use culebra::ir::parse_ir;
use culebra::learn::{error_labels_of, failure_percent, first_error_line, learn_report, Suggestion};
use culebra::metrics::{table_order, total_instructions};
use culebra::missing_types::{defined_types, missing_types};
use culebra::order::{group_keys, order_by_desc, sorted_unique, tally};
use culebra::pretty::{find_block, instruction_style, line_style, terminator_kind, InstrStyle, LineStyle, TermKind};
use culebra::session::LogEntry;
use culebra::stages::{
    call_pairs, caller_count, compare_rows, diff_functions, divergences, lost_functions, DiffStatus, DivergenceKind,
};
use culebra::summary::{
    count_matching_lines, health_score, progress_score, stuck_at_zero, type_census, zeroinit_counts,
    PHI_ZEROINIT_PATTERN,
};
use culebra::trace::{alloca_names, trace_var, var_name};

fn strings(v: &[&str]) -> Vec<String> {
    v.iter().map(|s| s.to_string()).collect()
}

#[test]
fn sorted_unique_sorts_and_drops_repeats() {
    assert_eq!(sorted_unique(&strings(&["b", "a", "b", "c", "a"])), strings(&["a", "b", "c"]));
    assert_eq!(sorted_unique(&strings(&["%struct.b", "%struct.B", "%enum.a"])), strings(&["%enum.a", "%struct.B", "%struct.b"]));
    assert!(sorted_unique(&Vec::new()).is_empty());
}

#[test]
fn tally_counts_most_frequent_first() {
    let t = tally(&strings(&["x", "y", "x", "z", "y", "x"]));
    assert_eq!(t, vec![("x".to_string(), 3), ("y".to_string(), 2), ("z".to_string(), 1)]);
    // Equal counts keep the order of first appearance.
    assert_eq!(tally(&strings(&["b", "a"])), vec![("b".to_string(), 1), ("a".to_string(), 1)]);
    let total: usize = t.iter().map(|e| e.1).sum();
    assert_eq!(total, 6);
}

#[test]
fn order_by_desc_is_a_stable_descending_order() {
    assert_eq!(order_by_desc(&vec![1, 3, 3, 2]), vec![1, 2, 3, 0]);
    assert_eq!(order_by_desc(&vec![]), Vec::<usize>::new());
    assert_eq!(order_by_desc(&vec![5, 5, 5]), vec![0, 1, 2]);
}

#[test]
fn group_keys_collects_positions() {
    let g = group_keys(&strings(&["a", "b", "a"]));
    assert_eq!(g, vec![("a".to_string(), vec![0, 2]), ("b".to_string(), vec![1])]);
}

const TYPES_IR: &str = "%struct.Known = type { i64 }
declare void @ext(%struct.Ghost*)

define void @f(%struct.Missing* %p) {
entry:
  %a = alloca %struct.Missing, align 8
  %b = load %struct.Known, ptr %x
  store %struct.Other zeroinitializer, ptr %a
  ret void
}
";

#[test]
fn missing_types_groups_uses_of_undefined_types() {
    let m = parse_ir(TYPES_IR);
    assert_eq!(defined_types(&m), strings(&["%struct.Known"]));
    let mt = missing_types(&m);
    let names: Vec<&str> = mt.iter().map(|t| t.named_type.as_str()).collect();
    assert_eq!(names, vec!["%struct.Missing", "%struct.Other", "%struct.Ghost"]);
    let missing = &mt[0];
    assert_eq!(missing.uses.len(), 2);
    assert_eq!(missing.uses[0].context, "signature");
    assert_eq!(missing.uses[0].line, 4);
    assert_eq!(missing.uses[1].context, "alloca");
    assert_eq!(missing.uses[1].line, 6);
    assert_eq!(missing.functions, vec![("f".to_string(), 2)]);
    assert_eq!(missing.contexts, strings(&["alloca", "signature"]));
    assert_eq!(mt[1].uses[0].context, "store");
    assert_eq!(mt[2].uses[0].function, "(declaration)");
    assert_eq!(mt[2].uses[0].context, "declare");
    assert_eq!(mt[2].uses[0].line, 0);
}

#[test]
fn type_census_reads_definitions_and_uses_of_the_text() {
    let (defined, missing) = type_census(TYPES_IR);
    assert_eq!(defined, strings(&["%struct.Known"]));
    assert_eq!(missing, strings(&["%struct.Ghost", "%struct.Missing", "%struct.Other"]));
}

const FIELDS_IR: &str = "define void @g() {
entry:
  %1 = extractvalue %struct.A %s, 0
  %2 = extractvalue %struct.A %s, 0
  %3 = extractvalue %struct.A %s, 0
  %4 = extractvalue %struct.A %s, 0
  %5 = extractvalue %struct.B %s, 0
  %6 = extractvalue %struct.B %s, 1
  %p = phi %struct.S [ zeroinitializer, %a ], [ %x, %b ]
  store %struct.S zeroinitializer, ptr %__sret__
  ret void
}
";

#[test]
fn stuck_at_zero_finds_structs_read_only_at_index_zero() {
    let m = parse_ir(FIELDS_IR);
    assert_eq!(stuck_at_zero(&m, None), vec![("%struct.A".to_string(), 4)]);
    assert!(stuck_at_zero(&m, Some("B")).is_empty());
    assert_eq!(stuck_at_zero(&m, Some("A")), vec![("%struct.A".to_string(), 4)]);
}

#[test]
fn zeroinit_counts_count_matching_lines() {
    let m = parse_ir(FIELDS_IR);
    assert_eq!(zeroinit_counts(&m), (1, 1, 1));
    assert_eq!(count_matching_lines(&m, PHI_ZEROINIT_PATTERN), 1);
    assert_eq!(count_matching_lines(&m, "extractvalue"), 6);
}

#[test]
fn health_and_progress_scores() {
    assert_eq!(health_score(0, 0, 0, 0), 100);
    assert_eq!(health_score(0, 3, 0, 0), 74);
    assert_eq!(health_score(0, 20, 0, 0), 50);
    assert_eq!(health_score(1, 0, 2, 0), 30);
    assert_eq!(health_score(2, 0, 1, 3), 0);
    assert_eq!(progress_score(0, 0), 100);
    assert_eq!(progress_score(0, 5), 70);
    assert_eq!(progress_score(1, 1), 38);
    assert_eq!(progress_score(5, 10), 0);
}

fn log(exit_code: i32, stdout: &str, stderr: &str) -> LogEntry {
    LogEntry {
        timestamp: 0,
        command: "cc main.c".to_string(),
        stdout: stdout.to_string(),
        stderr: stderr.to_string(),
        exit_code,
        duration_ms: 1,
        category: "compile".to_string(),
    }
}

fn session() -> Vec<LogEntry> {
    vec![
        log(0, "ok", ""),
        log(
            139,
            "Segmentation fault",
            "Invalid read of size 8\nat: in parse_expr (main.c)\nAddress 0x0 is not mapped\n%struct.Node here",
        ),
        log(
            1,
            "",
            "error: use of undeclared identifier 'foo' here\nPHINode should have one entry for each predecessor of its parent",
        ),
        log(134, "", "Aborted (core dumped)"),
    ]
}

#[test]
fn error_labels_follow_the_order_of_the_checks() {
    let es = session();
    assert_eq!(error_labels_of(&es[1]), strings(&["SIGSEGV (segfault)", "Invalid memory read (valgrind)"]));
    assert_eq!(
        error_labels_of(&es[2]),
        strings(&["PHI predecessor mismatch", "clang: use of undeclared identifier 'foo' here"])
    );
    let long = log(1, "", &format!("error: {}", "x".repeat(100)));
    assert_eq!(error_labels_of(&long), vec![format!("clang: {}...", "x".repeat(80))]);
    let mismatch = log(1, "", "defined with type 'i32' but expected 'i64'");
    assert_eq!(error_labels_of(&mismatch), strings(&["Type mismatch: i32 vs i64"]));
}

#[test]
fn learn_report_counts_patterns_and_suggests_checks() {
    let r = learn_report(&session());
    assert_eq!(r.total, 4);
    assert_eq!(r.failures, 3);
    assert_eq!(r.crashes, 2);
    let labels: Vec<&str> = r.error_types.iter().map(|e| e.0.as_str()).collect();
    assert_eq!(
        labels,
        vec![
            "SIGSEGV (segfault)",
            "Invalid memory read (valgrind)",
            "PHI predecessor mismatch",
            "clang: use of undeclared identifier 'foo' here",
            "SIGABRT (abort)",
        ]
    );
    assert!(r.error_types.iter().all(|e| e.1 == 1));
    assert_eq!(r.crash_functions, vec![("parse_expr".to_string(), 1)]);
    assert_eq!(r.affected_structs, vec![("Node".to_string(), 1)]);
    assert_eq!(r.suggestions, vec![Suggestion::SmallOffsetCrash("0x0".to_string()), Suggestion::PhiPredecessor]);
    assert_eq!(failure_percent(r.failures, r.total), 75);
    assert_eq!(failure_percent(0, 0), 0);
}

#[test]
fn first_error_line_finds_the_first_error() {
    assert_eq!(first_error_line("warning: x\nerror: bad\nError two"), "error: bad");
    assert_eq!(first_error_line("all good"), "");
}

const STAGE_A: &str = "define i64 @f() {
entry:
  %x = call i64 @g()
  ret i64 %x
}

define i64 @g() {
entry:
  ret i64 1
}

define i64 @h() {
entry:
  %y = call i64 @g()
  ret i64 %y
}
";

const STAGE_B: &str = "define i64 @f() {
entry:
  %x = call i64 @g()
  ret i64 %x
}

define i64 @g() {
entry:
  %t = add i64 1, 2
  ret i64 %t
}

define i64 @k() {
entry:
  ret i64 0
}
";

#[test]
fn diff_functions_classifies_every_name() {
    let a = parse_ir(STAGE_A);
    let b = parse_ir(STAGE_B);
    let d = diff_functions(&a, &b);
    let names: Vec<&str> = d.iter().map(|r| r.name.as_str()).collect();
    assert_eq!(names, vec!["f", "g", "h", "k"]);
    let st: Vec<DiffStatus> = d.iter().map(|r| r.status).collect();
    assert_eq!(st, vec![DiffStatus::Matched, DiffStatus::Diverged, DiffStatus::OnlyA, DiffStatus::OnlyB]);
    assert_eq!(d[2].instructions_b, 0);
    assert_eq!(d[3].instructions_a, 0);
    assert_eq!(d[0].instructions_a, d[0].instructions_b);
}

#[test]
fn lost_functions_are_the_ones_only_before_has() {
    let a = parse_ir(STAGE_A);
    let b = parse_ir(STAGE_B);
    assert_eq!(lost_functions(&a, &b), strings(&["h"]));
    assert_eq!(lost_functions(&b, &a), strings(&["k"]));
    assert!(lost_functions(&a, &a).is_empty());
}

#[test]
fn callers_are_counted_once_per_function() {
    let pairs = call_pairs(STAGE_A);
    assert_eq!(pairs, vec![("g".to_string(), "f".to_string()), ("g".to_string(), "h".to_string())]);
    assert_eq!(caller_count(&pairs, "g"), 2);
    assert_eq!(caller_count(&pairs, "f"), 0);
    let twice = call_pairs("define void @m() {\n  call void @n()\n  call void @n()\n}\n");
    assert_eq!(caller_count(&twice, "n"), 1);
}

#[test]
fn divergences_list_changed_missing_then_added() {
    let a = parse_ir(STAGE_A);
    let b = parse_ir(STAGE_B);
    let d = divergences(&a, &b);
    let kinds: Vec<(String, DivergenceKind, usize)> = d.iter().map(|x| (x.name.clone(), x.kind, x.impact)).collect();
    assert_eq!(
        kinds,
        vec![
            ("g".to_string(), DivergenceKind::Changed, 2),
            ("h".to_string(), DivergenceKind::Missing, 0),
            ("k".to_string(), DivergenceKind::Added, 0),
        ]
    );
    assert_eq!(d[1].size_b, 0);
    assert_eq!(d[2].size_a, 0);
}

#[test]
fn compare_rows_keep_functions_with_the_metric() {
    let a = parse_ir(STAGE_A);
    let b = parse_ir(STAGE_B);
    let rows = compare_rows(&a, &b, "calls");
    let got: Vec<(String, i64, i64, bool)> = rows.iter().map(|r| (r.name.clone(), r.value_a, r.value_b, r.in_b)).collect();
    assert_eq!(got, vec![("f".to_string(), 1, 1, true), ("h".to_string(), 1, 0, false)]);
}

const ABI_IR: &str = "%struct.Big = type { i64 }

define void @s(ptr sret(%struct.Big) %out, ptr byval(%struct.P) %p) {
entry:
  ret void
}

define { i64, i64, i64 } @triple() {
entry:
  ret { i64, i64, i64 } zeroinitializer
}

define void @r(ptr %x.byref) {
entry:
  ret void
}
";

const HEADER: &str = "typedef struct {\n  int a;\n  long b;\n} Pair;\ntypedef struct {\n  int x;\n} Big;\ntypedef struct {\n  int y;\n  int z;\n  int w;\n} Pair;\n";

#[test]
fn abi_summary_counts_calling_conventions() {
    let m = parse_ir(ABI_IR);
    let s = abi_summary(&m);
    assert_eq!((s.sret, s.byref, s.byval), (1, 1, 1));
    assert_eq!(s.large_returns, vec![("triple".to_string(), "{ i64, i64, i64 }".to_string(), 3)]);
}

#[test]
fn header_structs_keep_the_last_definition() {
    let hs = header_structs(HEADER);
    assert_eq!(
        hs,
        vec![
            ("Pair".to_string(), strings(&["int y;", "int z;", "int w;"])),
            ("Big".to_string(), strings(&["int x;"])),
        ]
    );
    let m = parse_ir(ABI_IR);
    let checks = header_checks(&m, HEADER);
    assert_eq!(checks.len(), 2);
    assert_eq!((checks[0].fields, checks[0].c_size, checks[0].ir_size), (3, 24, None));
    assert_eq!((checks[1].fields, checks[1].c_size, checks[1].ir_size), (1, 8, Some(8)));
}

#[test]
fn line_styles_of_a_body() {
    assert_eq!(line_style("entry:"), LineStyle::Label("entry".to_string()));
    assert_eq!(line_style("  %a = alloca i32, align 4"), LineStyle::Alloca);
    assert_eq!(line_style("%p = phi i32 [ 0, %a ]"), LineStyle::Phi);
    assert_eq!(line_style("  ret void"), LineStyle::Terminator);
    assert_eq!(line_style("call void @f()"), LineStyle::Call);
    assert_eq!(line_style("store i32 1, ptr %a"), LineStyle::Store);
    assert_eq!(line_style("%v = load i32, ptr %a"), LineStyle::Dim);
    assert_eq!(line_style("%s = add i32 1, 2"), LineStyle::Plain);
    assert_eq!(line_style("   "), LineStyle::Blank);
}

#[test]
fn terminators_and_instructions_are_classified() {
    assert_eq!(terminator_kind(&Some("ret void".to_string())), TermKind::Ret);
    assert_eq!(terminator_kind(&Some("br i1 %c, label %a, label %b".to_string())), TermKind::Cond);
    assert_eq!(terminator_kind(&Some("br label %x".to_string())), TermKind::Jump);
    assert_eq!(terminator_kind(&Some("switch i64 %x, label %d [ ]".to_string())), TermKind::Switch);
    assert_eq!(terminator_kind(&Some("unreachable".to_string())), TermKind::Other);
    assert_eq!(terminator_kind(&None), TermKind::Missing);
    assert_eq!(instruction_style("%a = alloca i32"), InstrStyle::Alloca);
    assert_eq!(instruction_style("store i32 1, ptr %a"), InstrStyle::Store);
    assert_eq!(instruction_style("%r = call i32 @f()"), InstrStyle::Call);
    assert_eq!(instruction_style("%p = phi i32 [0, %a]"), InstrStyle::Phi);
    assert_eq!(instruction_style("%s = add i32 1, 2"), InstrStyle::Other);
}

#[test]
fn find_block_matches_label_or_part_of_it() {
    let blocks = parse_blocks("entry:\n  br label %loop\nloop:\n  ret void\n");
    assert_eq!(find_block(&blocks, "loop"), Some(1));
    assert_eq!(find_block(&blocks, "loo"), Some(1));
    assert_eq!(find_block(&blocks, "nope"), None);
}

const DUMP_IR: &str = "define void @d() {
entry:
  %a = alloca i32, align 4
  %s = alloca { i64, i64 }, align 8
  store i32 1, ptr %a
  store i32 2, ptr %a
  %v = load i32, ptr %a
  %c = call i32 @get(i32 1)
  %p = phi i32 [ 0, %entry ], [ zeroinitializer, %x ]
  %g = getelementptr inbounds %struct.S, ptr %s, i32 0, i32 1
  ret void
}
";

#[test]
fn variable_dump_reads_each_kind_of_instruction() {
    let m = parse_ir(DUMP_IR);
    let d = variable_dump(&m.functions[0]);
    assert_eq!(
        d.allocas,
        vec![("%a".to_string(), "i32".to_string(), 3), ("%s".to_string(), "{ i64, i64 }".to_string(), 4)]
    );
    assert_eq!(d.stores.len(), 2);
    assert_eq!(d.stores[0], ("%a".to_string(), "i32".to_string(), "1".to_string()));
    assert_eq!(d.loads, vec![("%v".to_string(), "i32".to_string(), "%a".to_string())]);
    assert_eq!(d.calls, vec![("%c".to_string(), "i32".to_string(), "get".to_string())]);
    assert_eq!(d.phis.len(), 1);
    assert_eq!(d.geps, vec![("%g".to_string(), "%s".to_string(), ", i32 0, i32 1".to_string())]);
    assert_eq!(alloca_uses(&d), vec![(4, 2, 1), (16, 0, 0)]);
    assert_eq!(phi_entries(&d.phis[0].2), (2, true));
}

#[test]
fn string_constant_duplicates_and_large_ones() {
    let ir = "@.a = private unnamed_addr constant [3 x i8] c\"hi\\00\"
@.b = private unnamed_addr constant [3 x i8] c\"hi\\00\"
@.c = private unnamed_addr constant [4 x i8] c\"bye\\00\"
@.d = private unnamed_addr constant [3 x i8] c\"hi\\00\"
@.e = private unnamed_addr constant [4 x i8] c\"bye\\00\"
@.f = private unnamed_addr constant [600 x i8] c\"x\\00\"
@.g = private unnamed_addr constant [700 x i8] c\"y\\00\"
";
    let m = parse_ir(ir);
    assert_eq!(duplicate_count(&m), 3);
    let dups = duplicate_constants(&m);
    assert_eq!(
        dups,
        vec![
            ("hi\\00".to_string(), strings(&["@.a", "@.b", "@.d"])),
            ("bye\\00".to_string(), strings(&["@.c", "@.e"])),
        ]
    );
    let lc = large_constants(&m, 512);
    let large: Vec<&str> = lc.iter().map(|c| c.name.as_str()).collect();
    assert_eq!(large, vec!["@.g", "@.f"]);
}

#[test]
fn table_order_sorts_by_the_chosen_metric() {
    let m = parse_ir(STAGE_B);
    // f has one call, g and k none: calls order keeps ties in module order.
    assert_eq!(table_order(&m, "calls"), vec![0, 1, 2]);
    let order = table_order(&m, "instructions");
    let keys: Vec<usize> = order.iter().map(|&i| m.functions[i].metrics.instructions).collect();
    assert!(keys.windows(2).all(|w| w[0] >= w[1]));
    let mut seen = order.clone();
    seen.sort();
    assert_eq!(seen, vec![0, 1, 2]);
    let total: usize = m.functions.iter().map(|f| f.metrics.instructions).sum();
    assert_eq!(total_instructions(&m), total);
}

#[test]
fn find_function_like_takes_the_first_name_holding_the_query() {
    let m = parse_ir(STAGE_A);
    assert_eq!(find_function_like(&m, "g"), Some(1));
    assert_eq!(find_function_like(&m, "h"), Some(2));
    assert_eq!(find_function_like(&m, "zz"), None);
}

#[test]
fn trace_follows_a_variable_through_its_function() {
    let m = parse_ir(DUMP_IR);
    let f = &m.functions[0];
    assert_eq!(var_name("a"), "%a");
    assert_eq!(var_name("%a"), "%a");
    let hits = trace_var(f, "a");
    let got: Vec<(usize, bool, String)> = hits.iter().map(|h| (h.line, h.is_def, h.block.clone())).collect();
    assert_eq!(
        got,
        vec![
            (3, true, "entry".to_string()),
            (5, false, "entry".to_string()),
            (6, false, "entry".to_string()),
            (7, false, "entry".to_string()),
        ]
    );
    assert_eq!(alloca_names(f), strings(&["%a", "%s"]));
}

#[test]
fn fingerprint_hashes_only_meaningful_lines() {
    let text = "; ModuleID = 'x'\n  define void @f() {  \n\n   ret void\n}\n";
    assert_eq!(meaningful_lines(text), "define void @f() {\nret void\n}\n");
    assert_eq!(ir_fingerprint(text), "8a0c5c88194d66131848f154ba09cc187d8fe9edd7d68de41deedead9aea94b2");
    assert_eq!(ir_fingerprint("define void @f() {\nret void\n}"), ir_fingerprint(text));
    assert_eq!(ir_fingerprint("; only a comment\n"), "e3b0c44298fc1c149afbf4c8996fb92427ae41e4649b934ca495991b7852b855");
    assert_eq!(hex_lower(&[0x00, 0xab, 0x7f]), "00ab7f");
}

#[test]
fn stage_delta_counts_kept_changed_and_new_functions() {
    let a = parse_ir(STAGE_A);
    let b = parse_ir(STAGE_B);
    // In b: f kept, g changed, k new.
    assert_eq!(stage_delta(&a, &b), (1, 1, 1));
    assert_eq!(stage_delta(&a, &a), (3, 0, 0));
}

#[test]
fn probe_header_constants_have_their_byte_counts() {
    let out = instrument_function("define void @f() {\nentry:\n  ret void\n}\n", "f", &[], None);
    let m = parse_ir(&out);
    assert_eq!(m.string_constants.len(), 3);
    for c in &m.string_constants {
        assert_eq!(c.declared_size, count_actual_bytes(&c.content));
        assert_eq!(c.actual_size + 1, c.declared_size);
    }
    let sizes: Vec<usize> = m.string_constants.iter().map(|c| c.declared_size).collect();
    assert_eq!(sizes, vec![31, 33, 27]);
}

#[test]
fn hello_world_constant_content_excludes_terminator() {
    // The content before the terminator is thirteen bytes, so the
    // [14 x i8] declaration is reported with a fix to [13 x i8].
    assert_eq!(count_actual_bytes("Hello, world!\\00"), 14);
    assert_eq!(culebra::ir::content_bytes("Hello, world!\\00"), 13);
    assert_eq!(culebra::ir::content_bytes("Hello"), 5);
    let long = parse_ir("@.str.47 = private constant [14 x i8] c\"Hello, world!\\00\"\n");
    let bad = size_mismatches(&long);
    assert_eq!(bad.len(), 1);
    assert_eq!(bad[0].name, "@.str.47");
    assert_eq!(bad[0].declared_size, 14);
    assert_eq!(bad[0].actual_size, 13);
    let exact = parse_ir("@.str.47 = private constant [13 x i8] c\"Hello, world!\\00\"\n");
    assert!(size_mismatches(&exact).is_empty());
}

#[test]
fn parsed_c_functions_have_distinct_plain_names() {
    let src = "#include <stdio.h>\nint add(int a, int b) {\n    if (a) {\n        return a + b;\n    }\n    return b;\n}\nint add(int a, int b) {\n    return a;\n}\nstatic void run(void) {\n    while (1) {\n    }\n}\n";
    let m = culebra::c_parser::parse_c(src);
    assert_eq!(m.source, src);
    assert!(m.typedefs.is_empty());
    let names: Vec<&str> = m.functions.iter().map(|f| f.name.as_str()).collect();
    assert_eq!(names, vec!["add", "run"]);
    assert_eq!(m.functions[0].body.trim(), "return a;");
    let blank = culebra::c_parser::parse_c("  \n\t\n");
    assert!(blank.functions.is_empty() && blank.structs.is_empty() && blank.enums.is_empty());
    assert!(blank.includes.is_empty() && blank.forward_decls.is_empty());
}

#[test]
fn parsed_ir_functions_carry_their_hashes() {
    let src = "%struct.P = type { i64, i32 }\ndefine i64 @f(i64 %x) {\nentry:\n  %a = add i64 %x, 1\n  ret i64 %a\n}\ndefine i64 @g(i64 %y) {\nentry:\n  %t = add i64 %y, 1\n  ret i64 %t\n}\n";
    let m = parse_ir(src);
    assert_eq!(m.source, src);
    assert_eq!(m.functions.len(), 2);
    for f in &m.functions {
        assert_eq!(f.body_hash.len(), 16);
        assert!(f.body_hash.chars().all(|c| c.is_ascii_digit() || ('a'..='f').contains(&c)));
        assert_eq!(f.body_hash, culebra::ir::structural_hash(&f.body));
    }
    assert_eq!(m.functions[0].body_hash, m.functions[1].body_hash);
    assert_eq!(m.struct_types.len(), 1);
    assert_eq!(m.struct_types[0].estimated_size, 12);
}

#[test]
fn generated_wrapper_constants_have_their_byte_counts() {
    let ir = "define i64 @add(i64 %a, ptr %b) {\nentry:\n  ret i64 %a\n}\ndefine i32 @main() {\nentry:\n  ret i32 0\n}\n";
    let args = vec!["2".to_string(), "\"h\u{e9}\\i\"".to_string()];
    let types = vec!["i64".to_string(), "ptr".to_string()];
    let out = culebra::eval::generate_wrapper(ir, "add", "i64", &types, &args, &[false, false], false);
    assert!(out.starts_with("define i64 @add(i64 %a, ptr %b) {\n"));
    assert_eq!(out.matches("define i32 @main()").count(), 1);
    assert!(out.contains("\ndeclare i32 @printf(ptr, ...)\n"));
    assert!(out.contains("@.culebra_str_1 = private constant [6 x i8] c\"h\\C3\\A9\\5Ci\\00\"\n"));
    assert!(out.contains("  %rv = call i64 @add(i64 2, { ptr, i64 } @.culebra_str_arg_1)\n"));
    assert!(out.ends_with("  ret i32 0\n}\n"));
    let m = parse_ir(&out);
    assert_eq!(m.string_constants.len(), 3);
    for c in &m.string_constants {
        assert_eq!(c.declared_size, count_actual_bytes(&c.content));
    }
}

fn journal_entry(action: &str, message: &str, tags: &[&str], function: Option<&str>) -> culebra::journal::JournalEntry {
    culebra::journal::JournalEntry {
        timestamp: 100,
        action: action.to_string(),
        message: message.to_string(),
        tags: tags.iter().map(|t| t.to_string()).collect(),
        ir_file: None,
        function: function.map(|f| f.to_string()),
    }
}

#[test]
fn journal_shows_the_last_matching_entries() {
    let es = vec![
        journal_entry("bug", "Tokenizer yields 0 tokens", &["stage2"], None),
        journal_entry("note", "looked at layout", &[], Some("Emit_Line")),
        journal_entry("fix", "aligned string constants", &["ABI"], None),
        journal_entry("milestone", "stage 3 builds", &[], None),
        journal_entry("bug", "phi mismatch", &["abi"], None),
    ];
    let names = |v: &[culebra::journal::JournalEntry]| v.iter().map(|e| e.message.clone()).collect::<Vec<_>>();
    assert_eq!(names(&culebra::journal::journal_shown(&es, None, 2)), vec!["stage 3 builds", "phi mismatch"]);
    assert_eq!(culebra::journal::journal_shown(&es, None, 10).len(), 5);
    assert_eq!(names(&culebra::journal::journal_shown(&es, Some("abi"), 10)), vec!["aligned string constants", "phi mismatch"]);
    assert_eq!(names(&culebra::journal::journal_shown(&es, Some("EMIT"), 10)), vec!["looked at layout"]);
    assert_eq!(names(&culebra::journal::journal_shown(&es, Some("BUG"), 1)), vec!["phi mismatch"]);
    assert!(culebra::journal::journal_shown(&es, Some("nothing"), 3).is_empty());
    assert_eq!(culebra::journal::journal_tally(&es), (2, 1, 1));
}

#[test]
fn grep_lines_lists_matching_lines_with_indices() {
    let text = "define void @f() {\n  call void @g()\nret void\n  %x = call i64 @h()\n";
    let r = culebra::diagnose::grep_lines(text, "call");
    assert_eq!(r, vec![(1, "  call void @g()".to_string()), (3, "  %x = call i64 @h()".to_string())]);
    assert!(culebra::diagnose::grep_lines(text, "store").is_empty());
}

#[test]
fn instrumentation_with_a_stop_point_keeps_every_line() {
    let ir = "; module\ndefine void @f() {\nentry:\n  br label %loop\nloop:\n  br label %loop\n}\ndefine void @g() {\nloop:\n  ret void\n}\n";
    let out = instrument_function(ir, "f", &[], Some("loop"));
    assert_eq!(out.matches("  ; PROBE: stop at loop\n").count(), 1);
    assert!(out.contains("loop:\n  ; PROBE: stop at loop\n"));
    let kept: Vec<&str> = out
        .lines()
        .filter(|l| !l.starts_with("  ; PROBE: stop at"))
        .filter(|l| !l.starts_with("declare i32 @printf") && !l.starts_with("@.probe_"))
        .collect();
    assert_eq!(kept, ir.lines().collect::<Vec<_>>());
}
