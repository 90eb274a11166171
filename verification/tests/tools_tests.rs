use culebra::baseline::{diff_baselines, diff_exit_code, fingerprint, group_by_template, BaselineEntry};
use culebra::binary::{context_window, count_function_symbols, describe_binary, extract_strings, find_all, preview, BinaryReport};
use culebra::cli::{parse_kv, parse_offset};
use culebra::diagnose::{
    compare_output, detect_shift, differing_positions, extract_crash_address, extract_signal, find_shift,
    hex_dump, parse_crash_output, truncate, truncate_name,
};
use culebra::eval::{escape_llvm_string, parse_signature, result_value};
use culebra::fix::{apply_align_fix, count_c_string_bytes, fix_kind, is_c_file, FixKind};
use culebra::ir::{count_actual_bytes, parse_ir};
use culebra::layout::{align_to, alignment_of, compute_struct_layout_size, estimate_field_size, find_field_at_offset, map_struct_offset};
use culebra::session::{categorize_command, format_timestamp, resolve_input, truncate_log};

fn entry(tid: &str, line: usize, func: Option<&str>) -> BaselineEntry {
    BaselineEntry {
        template_id: tid.to_string(),
        severity: "high".to_string(),
        line,
        function: func.map(|f| f.to_string()),
        matched_text: String::new(),
    }
}

#[test]
fn escape_then_count_gives_length_back() {
    for s in ["hello", "a\"b\\c", "tab\there\n", "ünï", ""] {
        let e = escape_llvm_string(s);
        assert_eq!(count_actual_bytes(&e), s.len());
        assert_eq!(count_c_string_bytes(&e), s.len());
    }
    assert_eq!(escape_llvm_string("a\"\\\n"), "a\\22\\5C\\0A");
}

#[test]
fn align_to_rounds_up_to_multiples() {
    assert_eq!(align_to(0, 8), 0);
    assert_eq!(align_to(1, 8), 8);
    assert_eq!(align_to(9, 4), 12);
    assert_eq!(align_to(5, 1), 5);
    assert_eq!(align_to(7, 0), 7);
    assert_eq!(alignment_of("i16"), 2);
    assert_eq!(alignment_of(" i8 "), 1);
    assert_eq!(alignment_of("ptr"), 8);
}

#[test]
fn struct_layout_sizes_and_offsets() {
    let fields = vec!["i8".to_string(), "i64".to_string(), "i32".to_string()];
    assert_eq!(estimate_field_size("i32"), 4);
    assert_eq!(estimate_field_size("[4 x i16]"), 8);
    assert_eq!(compute_struct_layout_size(&fields), 24);
    assert_eq!(find_field_at_offset(&fields, 8), Some((1, 8, "i64".to_string())));
    assert_eq!(find_field_at_offset(&fields, 4), None);
    assert_eq!(find_field_at_offset(&fields, 17), Some((2, 16, "i32".to_string())));
}

#[test]
fn crash_map_of_struct_offset() {
    let m = parse_ir("%struct.S = type { i8, i64 }\n");
    let cm = map_struct_offset(&m, "%struct.S = type { i8, i64 }\n", "S", 8).ok().expect("found");
    assert_eq!(cm.total_size, 16);
    assert_eq!(cm.rows.len(), 2);
    assert!(!cm.rows[0].holds_target);
    assert!(cm.rows[1].holds_target);
    assert_eq!(cm.hit, Some((1, 8, "i64".to_string())));
    let missing = map_struct_offset(&m, "", "Nope", 0).err().expect("not found");
    assert_eq!(missing, vec!["%struct.S".to_string()]);
}

#[test]
fn shift_and_differing_positions() {
    assert_eq!(find_shift(b"abc", b"abc"), None);
    assert_eq!(find_shift(b"", b""), Some(-1));
    assert_eq!(find_shift(b"ab", b"abc"), None);
    assert_eq!(detect_shift(b"abc", b"abd"), "");
    assert_eq!(detect_shift(b"", b""), " [STRING_SHIFT by -1]");
    assert_eq!(differing_positions(b"abcd", b"abXY"), vec![2, 3]);
    assert!(differing_positions(b"same", b"same").is_empty());
}

#[test]
fn hex_dump_and_output_comparison() {
    assert_eq!(hex_dump(&[0x00, 0xab, 0x10]), "00 ab 10 ");
    let ok = compare_output("hello\n", "  hello ");
    assert!(ok.matches);
    assert!(ok.differing.is_empty());
    let bad = compare_output("helo", "hell");
    assert!(!bad.matches);
    assert_eq!(bad.differing, vec![3]);
    assert_eq!(bad.hex, Some("68 65 6c 6f ".to_string()));
}

#[test]
fn truncation_helpers() {
    assert_eq!(truncate("hello", 10), "hello");
    assert_eq!(truncate("hello world", 5), "hello...");
    assert_eq!(truncate_name("a_long_function_name", 10), "a_long_...");
    assert_eq!(truncate_name("short", 10), "short");
    assert_eq!(truncate_log("abcdef", 4), "abcd\n... (2 bytes truncated)");
    assert_eq!(truncate_log("abc", 4), "abc");
}

#[test]
fn crash_report_reading() {
    assert_eq!(extract_signal("Program received SIGSEGV"), Some("SIGSEGV (segmentation fault)".to_string()));
    assert_eq!(extract_signal("all fine"), None);
    assert_eq!(extract_crash_address("Invalid read at address 0x1f"), Some("0x1f".to_string()));
    let frames = parse_crash_output("#0  0x0000abcd in emit_line (x=1)\n#1  0x0000beef in main ()\n");
    assert_eq!(frames.len(), 2);
    assert_eq!(frames[0].function, "emit_line");
    assert_eq!(frames[0].address, Some("0000abcd".to_string()));
    assert_eq!(frames[1].function, "main");
}

#[test]
fn parse_offset_accepts_hex_and_decimal() {
    assert_eq!(parse_offset("0x10"), Ok(16));
    assert_eq!(parse_offset("0X1f"), Ok(31));
    assert_eq!(parse_offset("42"), Ok(42));
    assert_eq!(parse_offset("zz"), Err("invalid offset: invalid digit found in string".to_string()));
    assert_eq!(parse_offset("0xg"), Err("invalid hex offset: invalid digit found in string".to_string()));
    assert_eq!(parse_offset(""), Err("invalid offset: cannot parse integer from empty string".to_string()));
}

#[test]
fn parse_kv_splits_at_first_equals() {
    assert_eq!(parse_kv("a=b=c"), Ok(("a".to_string(), "b=c".to_string())));
    assert_eq!(parse_kv("key="), Ok(("key".to_string(), String::new())));
    assert_eq!(parse_kv("novalue"), Err("expected key=value, got 'novalue'".to_string()));
}

#[test]
fn session_helpers() {
    assert_eq!(categorize_command("/usr/bin/clang"), "compile");
    assert_eq!(categorize_command("llc"), "llvm");
    assert_eq!(format_timestamp(100, 130), "just now");
    assert_eq!(format_timestamp(0, 120), "2m ago");
    assert_eq!(format_timestamp(0, 7200), "2h ago");
    assert_eq!(format_timestamp(0, 172800), "2d ago");
    assert_eq!(format_timestamp(500, 100), "just now");
    let inputs = vec![("ir_file".to_string(), "main.ll".to_string())];
    assert_eq!(resolve_input("{ir_file}", &inputs), "main.ll");
    assert_eq!(resolve_input("scan {other}", &inputs), "scan {other}");
}

#[test]
fn baseline_diff_sorts_fixed_remaining_new() {
    let saved = vec![entry("a", 1, Some("f")), entry("b", 2, None)];
    let current = vec![entry("b", 2, None), entry("c", 3, Some("g"))];
    let d = diff_baselines(&saved, &current);
    assert_eq!(d.fixed.len(), 1);
    assert_eq!(d.fixed[0].template_id, "a");
    assert_eq!(d.remaining.len(), 1);
    assert_eq!(d.remaining[0].template_id, "b");
    assert_eq!(d.new_findings.len(), 1);
    assert_eq!(d.new_findings[0].template_id, "c");
    assert_eq!(diff_exit_code(&d), 1);
    let same = diff_baselines(&saved, &saved);
    assert!(same.fixed.is_empty() && same.new_findings.is_empty());
    assert_eq!(same.remaining.len(), 2);
    assert_eq!(diff_exit_code(&same), 0);
    assert_eq!(fingerprint(&entry("a", 7, Some("f"))), "a:f:7");
    assert_eq!(fingerprint(&entry("a", 7, None)), "a::7");
}

#[test]
fn triage_groups_largest_first() {
    let es = vec![entry("x", 1, None), entry("y", 2, None), entry("y", 3, None)];
    let gs = group_by_template(&es);
    assert_eq!(gs.len(), 2);
    assert_eq!(gs[0].0, "y");
    assert_eq!(gs[0].1.len(), 2);
    assert_eq!(gs[1].0, "x");
}

#[test]
fn eval_helpers() {
    let (ret, params) = parse_signature("define i64 @add(i64 %a, ptr %b)");
    assert_eq!(ret, "i64");
    assert_eq!(params, vec!["i64".to_string(), "ptr".to_string()]);
    assert_eq!(result_value("noise\nculebra_result: 42\n"), Some("42".to_string()));
    assert_eq!(result_value("nothing"), None);
}

#[test]
fn fix_helpers() {
    assert_eq!(fix_kind("byte-count-mismatch"), FixKind::ByteCount);
    assert_eq!(fix_kind("something-else"), FixKind::TemplateAutofix);
    assert!(is_c_file("runtime.c"));
    assert!(is_c_file("runtime.h"));
    assert!(!is_c_file("main.ll"));
    let (out, n) = apply_align_fix("x\n", &[]);
    assert_eq!(out, "x");
    assert_eq!(n, 0);
}

#[test]
fn binary_strings_and_search() {
    let data = b"\x00abc\x01hello world\x02hi";
    assert_eq!(extract_strings(data, 4), vec![(5, "hello world".to_string())]);
    assert_eq!(extract_strings(data, 2), vec![(1, "abc".to_string()), (5, "hello world".to_string()), (17, "hi".to_string())]);
    assert_eq!(find_all(b"abcabc", b"bc"), vec![1, 4]);
    assert!(find_all(b"abc", b"zz").is_empty());
    assert_eq!(context_window(2, 3, 6), (0, 6));
    assert_eq!(context_window(10, 2, 100), (6, 16));
    assert_eq!(preview("short"), "short");
    assert_eq!(preview(&"x".repeat(61)), format!("{}...", "x".repeat(60)));
    assert_eq!(count_function_symbols(&vec![0x12, 0x11, 0x02, 0x22]), 3);
    assert!(matches!(describe_binary(b"not a binary at all"), BinaryReport::Unsupported | BinaryReport::Invalid(_)));
}
