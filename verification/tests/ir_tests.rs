use culebra::callgraph::{build_call_graph, callees, find_paths, resolve_fn};
use culebra::cfg::{extract_successors, parse_blocks};
use culebra::diagnose::size_mismatches;
use culebra::index_audit::{collect_index_stats, function_totals, indices_ascending, only_zero, zero_count, IndexStats};
use culebra::ir::{
    count_actual_bytes, detect_duplicate_switch_cases, detect_empty_switches, detect_missing_percent,
    detect_ret_type_mismatch, parse_ir, run_all_detectors, structural_hash, IRModule,
};
use culebra::metrics::{classify_operation, estimate_size, get_metric, get_single_metric};

const SAMPLE: &str = "%struct.Pair = type { i64, i8* }
@.str.0 = private unnamed_addr constant [6 x i8] c\"hello\\00\"
@.str.1 = private unnamed_addr constant [3 x i8] c\"a\\0Ab\\00\"
declare i32 @printf(i8*, ...)

define i64 @add(i64 %a, i64 %b) {
entry:
  %sum = add i64 %a, %b
  ret i64 %sum
}

define void @caller() {
entry:
  %x = call i64 @add(i64 1, i64 2)
  switch i64 %x, label %done [ ]
done:
  ret void
}
";

fn sample() -> IRModule {
    parse_ir(SAMPLE)
}

fn func<'a>(m: &'a IRModule, name: &str) -> &'a culebra::ir::IRFunction {
    m.functions.iter().find(|f| f.name == name).expect("function present")
}

#[test]
fn count_actual_bytes_counts_hex_escapes_once() {
    assert_eq!(count_actual_bytes("hello\\00"), 6);
    assert_eq!(count_actual_bytes("a\\0Ab\\00"), 4);
    assert_eq!(count_actual_bytes(""), 0);
    // A backslash not followed by two hex digits is a byte of its own.
    assert_eq!(count_actual_bytes("\\zz"), 3);
}

#[test]
fn parse_ir_reads_structs_constants_and_declares() {
    let m = sample();
    assert_eq!(m.struct_types.len(), 1);
    assert_eq!(m.struct_types[0].name, "%struct.Pair");
    assert_eq!(m.struct_types[0].fields, vec!["i64".to_string(), "i8*".to_string()]);
    assert_eq!(m.struct_types[0].estimated_size, 16);
    assert_eq!(m.string_constants.len(), 2);
    assert_eq!(m.string_constants[0].name, "@.str.0");
    assert_eq!(m.string_constants[0].declared_size, 6);
    assert_eq!(m.string_constants[0].actual_size, 5);
    assert_eq!(m.string_constants[0].line, 2);
    assert_eq!(m.string_constants[1].declared_size, 3);
    assert_eq!(m.string_constants[1].actual_size, 3);
    assert_eq!(m.declares, vec!["declare i32 @printf(i8*, ...)".to_string()]);
}

#[test]
fn parse_ir_reads_functions_with_lines_and_metrics() {
    let m = sample();
    assert_eq!(m.functions.len(), 2);
    let add = func(&m, "add");
    assert_eq!(add.signature, "define i64 @add(i64 %a, i64 %b)");
    assert_eq!(add.body, "\nentry:\n  %sum = add i64 %a, %b\n  ret i64 %sum\n");
    assert_eq!(add.line_start, 6);
    assert_eq!(add.line_end, 10);
    assert_eq!(add.metrics.instructions, 2);
    assert_eq!(add.metrics.basic_blocks, 2);
    assert_eq!(add.metrics.rets, 1);
    assert_eq!(add.metrics.calls, 0);
    let caller = func(&m, "caller");
    assert_eq!(caller.metrics.instructions, 3);
    assert_eq!(caller.metrics.calls, 1);
    assert_eq!(caller.metrics.switches, 1);
    assert_eq!(caller.metrics.basic_blocks, 3);
}

#[test]
fn parse_ir_later_definition_replaces_earlier() {
    let text = "define void @f() {\n  ret void\n}\ndefine i32 @f() {\n  ret i32 0\n}\n";
    let m = parse_ir(text);
    assert_eq!(m.functions.len(), 1);
    assert_eq!(m.functions[0].signature, "define i32 @f()");
}

#[test]
fn structural_hash_ignores_register_names() {
    let a = structural_hash("  %x = add i64 %a, %b\n  ret i64 %x\n");
    let b = structural_hash("  %y = add i64 %c, %d\n  ret i64 %y\n");
    let c = structural_hash("  %y = sub i64 %c, %d\n  ret i64 %y\n");
    assert_eq!(a, b);
    assert_ne!(a, c);
    assert_eq!(a.len(), 16);
}

#[test]
fn detectors_find_empty_switch() {
    let m = sample();
    let p = detect_empty_switches(&m);
    assert_eq!(p.len(), 1);
    assert_eq!(p[0].code, "EMPTY_SWITCH");
    assert_eq!(p[0].severity, "error");
    assert_eq!(p[0].function, "caller");
    assert_eq!(p[0].line, 12);
}

#[test]
fn detectors_find_ret_type_mismatch() {
    let m = parse_ir("define i64 @f() {\nentry:\n  ret i32 0\n}\n");
    let p = detect_ret_type_mismatch(&m);
    assert_eq!(p.len(), 1);
    assert_eq!(p[0].code, "RET_TYPE_MISMATCH");
    assert_eq!(p[0].message, "ret i32 but function declares i64");
    let ok = parse_ir("define { i64, i8* } @g() {\n  ret { i64, i8* } %v\n}\n");
    assert!(detect_ret_type_mismatch(&ok).is_empty());
}

#[test]
fn detectors_find_missing_percent_and_duplicate_cases() {
    let m = parse_ir(
        "define void @f() {\n  store i64 1, i64* x.addr\n  switch i64 %v, label %d [ i64 1, label %a i64 1, label %b ]\n}\n",
    );
    let mp = detect_missing_percent(&m);
    assert_eq!(mp.len(), 1);
    assert_eq!(mp[0].severity, "warning");
    assert_eq!(mp[0].message, "Bare identifier 'x.addr' — missing % prefix?");
    let dup = detect_duplicate_switch_cases(&m);
    assert_eq!(dup.len(), 1);
    assert_eq!(dup[0].message, "Duplicate switch case value: 1");
    let all = run_all_detectors(&m);
    assert_eq!(all.len(), 2);
    assert_eq!(all[0].code, "DUPLICATE_CASE");
    assert_eq!(all[1].code, "MISSING_PERCENT");
}

#[test]
fn size_mismatches_lists_wrong_declared_sizes() {
    let m = sample();
    let bad = size_mismatches(&m);
    assert_eq!(bad.len(), 1);
    assert_eq!(bad[0].name, "@.str.0");
    assert_eq!(bad[0].actual_size, 5);
}

#[test]
fn call_graph_and_paths() {
    let m = sample();
    assert_eq!(callees("  %x = call i64 @add(i64 1)\n  call void @add()\n"), vec!["add".to_string()]);
    let g = build_call_graph(&m);
    assert_eq!(g.len(), 2);
    let paths = find_paths(&g, "caller", "add", 5);
    assert_eq!(paths, vec![vec!["caller".to_string(), "add".to_string()]]);
    assert!(find_paths(&g, "add", "caller", 5).is_empty());
    assert_eq!(resolve_fn(&m, "add"), Some("add".to_string()));
    assert_eq!(resolve_fn(&m, "missing"), None);
}

#[test]
fn find_paths_stops_at_depth_and_avoids_cycles() {
    let g = vec![
        ("a".to_string(), vec!["b".to_string()]),
        ("b".to_string(), vec!["c".to_string(), "a".to_string()]),
        ("c".to_string(), vec![]),
    ];
    assert_eq!(find_paths(&g, "a", "c", 2).len(), 1);
    assert!(find_paths(&g, "a", "c", 1).is_empty());
    let p = find_paths(&g, "a", "c", 10);
    assert_eq!(p[0], vec!["a".to_string(), "b".to_string(), "c".to_string()]);
}

#[test]
fn blocks_and_successors() {
    assert_eq!(
        extract_successors("br i1 %c, label %then, label %else"),
        vec!["then".to_string(), "else".to_string()]
    );
    assert_eq!(extract_successors("br label %exit"), vec!["exit".to_string()]);
    assert!(extract_successors("ret void").is_empty());
    let blocks = parse_blocks("entry:\n  br label %exit\nexit:\n  ret void\n");
    assert_eq!(blocks.len(), 2);
    assert_eq!(blocks[0].label, "entry");
    assert_eq!(blocks[0].successors, vec!["exit".to_string()]);
    assert_eq!(blocks[1].label, "exit");
    assert_eq!(blocks[1].predecessors, vec!["entry".to_string()]);
}

#[test]
fn metrics_and_operation_classes() {
    let m = sample();
    let add = func(&m, "add");
    let caller = func(&m, "caller");
    assert_eq!(get_single_metric(caller, "calls"), 1);
    assert_eq!(get_metric(add, caller, "calls"), (0, 1));
    assert_eq!(estimate_size("i64"), 8);
    assert_eq!(estimate_size("i32"), 4);
    assert_eq!(classify_operation("  store i64 %v, ptr %p"), "store");
    assert_eq!(classify_operation("  %v = load i64, ptr %p"), "load");
}

#[test]
fn index_audit_counts_field_indices() {
    let text = "define void @f() {\n  %a = extractvalue %struct.S %v, 0\n  %b = extractvalue %struct.S %v, 0\n  %c = insertvalue %struct.S %v, i64 1, 2\n}\ndefine void @g() {\n  %a = extractvalue %struct.T %w, 0\n}\n";
    let m = parse_ir(text);
    let stats = collect_index_stats(&m, None);
    assert_eq!(stats.len(), 2);
    assert_eq!(stats[0].0, "%struct.S");
    assert_eq!(stats[0].1.total, 3);
    assert_eq!(stats[0].1.index_counts, vec![(0, 2), (2, 1)]);
    assert_eq!(zero_count(&stats[0].1), Some(2));
    assert!(!only_zero(&stats[0].1));
    assert_eq!(stats[1].0, "%struct.T");
    assert_eq!(function_totals(&stats[0].1), vec![("f".to_string(), 3)]);
    assert_eq!(indices_ascending(&stats[0].1), vec![(0, 2), (2, 1)]);
    let filtered = collect_index_stats(&m, Some("T"));
    assert_eq!(filtered.len(), 1);
    assert_eq!(filtered[0].0, "%struct.T");
}

#[test]
fn index_stats_record_and_only_zero() {
    let mut s = IndexStats::new();
    assert_eq!(s.total, 0);
    for _ in 0..4 {
        s.record("f", 0);
    }
    assert_eq!(s.total, 4);
    assert!(only_zero(&s));
    s.record("g", 3);
    assert!(!only_zero(&s));
    assert_eq!(function_totals(&s), vec![("f".to_string(), 4), ("g".to_string(), 1)]);
}
