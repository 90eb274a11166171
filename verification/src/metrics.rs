//! Reading function metrics by name, classifying IR instructions, and
//! recognizing type names.
use vstd::prelude::*;
use crate::ir::{FnMetrics, IRFunction};
use crate::text::{contains, contains_str, count_matches, count_occ, push_all, starts_with, starts_with_str, trim, trim_str};

verus! {

/// The metric that a name selects; instructions for an unknown name.
pub open spec fn metric_value(m: FnMetrics, name: Seq<char>) -> usize {
    if name == "instructions"@ || name == "insns"@ {
        m.instructions
    } else if name == "blocks"@ {
        m.basic_blocks
    } else if name == "calls"@ {
        m.calls
    } else if name == "allocas"@ {
        m.allocas
    } else if name == "stores"@ {
        m.stores
    } else if name == "loads"@ {
        m.loads
    } else if name == "pushes"@ || name == "list_pushes"@ {
        m.list_pushes
    } else if name == "rets"@ {
        m.rets
    } else if name == "branches"@ {
        m.branches
    } else {
        m.instructions
    }
}

fn metric_value_exec(m: &FnMetrics, name: &str) -> (r: usize)
    ensures
        r == metric_value(*m, name@),
{
    let n = name.to_string();
    if n == "instructions".to_string() || n == "insns".to_string() {
        m.instructions
    } else if n == "blocks".to_string() {
        m.basic_blocks
    } else if n == "calls".to_string() {
        m.calls
    } else if n == "allocas".to_string() {
        m.allocas
    } else if n == "stores".to_string() {
        m.stores
    } else if n == "loads".to_string() {
        m.loads
    } else if n == "pushes".to_string() || n == "list_pushes".to_string() {
        m.list_pushes
    } else if n == "rets".to_string() {
        m.rets
    } else if n == "branches".to_string() {
        m.branches
    } else {
        m.instructions
    }
}

/// One metric of a function, as a signed count.
pub fn get_single_metric(f: &IRFunction, metric: &str) -> (r: i64)
    ensures
        r == metric_value(f.metrics, metric@) as i64,
{
    metric_value_exec(&f.metrics, metric) as i64
}

/// One metric of two functions, as signed counts.
pub fn get_metric(fa: &IRFunction, fb: &IRFunction, metric: &str) -> (r: (i64, i64))
    ensures
        r == (metric_value(fa.metrics, metric@) as i64, metric_value(fb.metrics, metric@) as i64),
{
    (metric_value_exec(&fa.metrics, metric) as i64, metric_value_exec(&fb.metrics, metric) as i64)
}

/// Size in bytes of a field type for a struct dump: scalars by width, a literal
/// struct 8 bytes per field, anything else 8. Arithmetic wraps.
pub open spec fn dump_size(ty: Seq<char>) -> usize {
    let t = trim(ty);
    if t == "i1"@ || t == "i8"@ {
        1
    } else if t == "i16"@ {
        2
    } else if t == "i32"@ || t == "float"@ {
        4
    } else if t == "i64"@ || t == "double"@ || t == "ptr"@ {
        8
    } else if starts_with(t, "{"@) {
        (count_occ(t, ","@) as usize).wrapping_add(1).wrapping_mul(8)
    } else {
        8
    }
}

pub fn estimate_size(ty: &str) -> (r: usize)
    ensures
        r == dump_size(ty@),
{
    let t = trim_str(ty);
    if t == "i1".to_string() || t == "i8".to_string() {
        return 1;
    }
    if t == "i16".to_string() {
        return 2;
    }
    if t == "i32".to_string() || t == "float".to_string() {
        return 4;
    }
    if t == "i64".to_string() || t == "double".to_string() || t == "ptr".to_string() {
        return 8;
    }
    if starts_with_str(t.as_str(), "{") {
        return count_matches(t.as_str(), ",").wrapping_add(1).wrapping_mul(8);
    }
    8
}

/// The kind of operation an IR line performs.
pub open spec fn operation_of(line: Seq<char>) -> Seq<char> {
    let t = trim(line);
    if contains(t, "= alloca "@) {
        "alloca"@
    } else if contains(t, "= load "@) {
        "load"@
    } else if starts_with(t, "store "@) {
        "store"@
    } else if contains(t, "= phi "@) {
        "phi"@
    } else if contains(t, "= call "@) || starts_with(t, "call "@) {
        "call"@
    } else if contains(t, "= getelementptr "@) {
        "gep"@
    } else if contains(t, "= insertvalue "@) {
        "insert"@
    } else if contains(t, "= extractvalue "@) {
        "extract"@
    } else if contains(t, "= icmp "@) {
        "cmp"@
    } else if starts_with(t, "br "@) {
        "branch"@
    } else if starts_with(t, "ret "@) {
        "ret"@
    } else if contains(t, "= add "@) || contains(t, "= sub "@) {
        "arith"@
    } else {
        "other"@
    }
}

pub fn classify_operation(line: &str) -> (r: &'static str)
    ensures
        r@ == operation_of(line@),
{
    let t = trim_str(line);
    let ts = t.as_str();
    if contains_str(ts, "= alloca ") {
        return "alloca";
    }
    if contains_str(ts, "= load ") {
        return "load";
    }
    if starts_with_str(ts, "store ") {
        return "store";
    }
    if contains_str(ts, "= phi ") {
        return "phi";
    }
    if contains_str(ts, "= call ") || starts_with_str(ts, "call ") {
        return "call";
    }
    if contains_str(ts, "= getelementptr ") {
        return "gep";
    }
    if contains_str(ts, "= insertvalue ") {
        return "insert";
    }
    if contains_str(ts, "= extractvalue ") {
        return "extract";
    }
    if contains_str(ts, "= icmp ") {
        return "cmp";
    }
    if starts_with_str(ts, "br ") {
        return "branch";
    }
    if starts_with_str(ts, "ret ") {
        return "ret";
    }
    if contains_str(ts, "= add ") || contains_str(ts, "= sub ") {
        return "arith";
    }
    "other"
}

/// A type name is one of the patterns, or a name that extends one with `.`.
pub open spec fn matches_any_spec(ty: Seq<char>, patterns: Seq<Seq<char>>) -> bool {
    exists|i: int|
        0 <= i < patterns.len() && (ty == patterns[i] || starts_with(ty, #[trigger] patterns[i] + "."@))
}

pub fn matches_any(ty: &str, patterns: &[String]) -> (b: bool)
    ensures
        b == matches_any_spec(ty@, patterns.deep_view()),
{
    let mut i: usize = 0;
    while i < patterns.len()
        invariant
            i <= patterns@.len(),
            forall|j: int|
                0 <= j < i ==> !(ty@ == patterns.deep_view()[j] || starts_with(
                    ty@,
                    #[trigger] patterns.deep_view()[j] + "."@,
                )),
        decreases patterns@.len() - i,
    {
        let p = patterns[i].as_str();
        assert(patterns.deep_view()[i as int] == p@);
        let mut dotted = p.to_string();
        push_all(&mut dotted, ".");
        if ty.to_string() == p.to_string() || starts_with_str(ty, dotted.as_str()) {
            return true;
        }
        i += 1;
    }
    false
}

/// The metric that a table sorts by: allocas, alloca bytes, calls, blocks,
/// stores, loads or GEPs by name; instructions for any other name.
pub open spec fn table_key(m: FnMetrics, key: Seq<char>) -> usize {
    if key == "allocas"@ {
        m.allocas
    } else if key == "alloca_bytes"@ {
        m.alloca_bytes
    } else if key == "calls"@ {
        m.calls
    } else if key == "blocks"@ {
        m.basic_blocks
    } else if key == "stores"@ {
        m.stores
    } else if key == "loads"@ {
        m.loads
    } else if key == "geps"@ {
        m.geps
    } else {
        m.instructions
    }
}

fn table_key_exec(m: &FnMetrics, key: &str) -> (r: usize)
    ensures
        r == table_key(*m, key@),
{
    let k = key.to_string();
    if k == "allocas".to_string() {
        m.allocas
    } else if k == "alloca_bytes".to_string() {
        m.alloca_bytes
    } else if k == "calls".to_string() {
        m.calls
    } else if k == "blocks".to_string() {
        m.basic_blocks
    } else if k == "stores".to_string() {
        m.stores
    } else if k == "loads".to_string() {
        m.loads
    } else if k == "geps".to_string() {
        m.geps
    } else {
        m.instructions
    }
}

/// The sort keys of the functions.
pub open spec fn table_keys(fs: Seq<crate::ir::IRFunctionView>, key: Seq<char>) -> Seq<usize> {
    fs.map_values(|f: crate::ir::IRFunctionView| table_key(f.metrics, key))
}

/// The positions of the module's functions, the largest by `key` first;
/// equal ones keep module order.
pub fn table_order(module: &crate::ir::IRModule, key: &str) -> (r: Vec<usize>)
    ensures
        r@ == crate::order::order_desc(
            table_keys(module@.functions, key@),
            module@.functions.len(),
        ),
        forall|k: int| 0 <= k < r@.len() ==> (#[trigger] r@[k]) < module@.functions.len(),
        r@.len() == module@.functions.len(),
{
    let mut keys: Vec<usize> = Vec::new();
    let mut i: usize = 0;
    while i < module.functions.len()
        invariant
            i <= module.functions@.len(),
            keys@ =~= table_keys(module@.functions, key@).take(i as int),
        decreases module.functions@.len() - i,
    {
        assert(module@.functions[i as int] == module.functions@[i as int]@);
        keys.push(table_key_exec(&module.functions[i].metrics, key));
        assert(table_keys(module@.functions, key@).take(i + 1) =~= table_keys(module@.functions, key@).take(
            i as int,
        ).push(table_key(module@.functions[i as int].metrics, key@)));
        i += 1;
    }
    assert(keys@ =~= table_keys(module@.functions, key@));
    let r = crate::order::order_by_desc(&keys);
    proof {
        crate::order::lemma_order_desc_perm(keys@, keys@.len() as nat);
    }
    r
}

/// The instructions of the first `n` functions, summed (wrapping, as a
/// release build adds).
pub open spec fn instruction_total(fs: Seq<crate::ir::IRFunctionView>, n: nat) -> usize
    decreases n,
{
    if n == 0 || n > fs.len() {
        0
    } else {
        let t = instruction_total(fs, (n - 1) as nat) + fs[n - 1].metrics.instructions;
        if t > usize::MAX {
            (t - usize::MAX - 1) as usize
        } else {
            t as usize
        }
    }
}

/// The instructions of all the module's functions.
pub fn total_instructions(module: &crate::ir::IRModule) -> (r: usize)
    ensures
        r == instruction_total(module@.functions, module@.functions.len()),
{
    let mut t: usize = 0;
    let mut i: usize = 0;
    while i < module.functions.len()
        invariant
            i <= module.functions@.len(),
            t == instruction_total(module@.functions, i as nat),
        decreases module.functions@.len() - i,
    {
        assert(module@.functions[i as int] == module.functions@[i as int]@);
        t = t.wrapping_add(module.functions[i].metrics.instructions);
        i += 1;
    }
    t
}

} // verus!
