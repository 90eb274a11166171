//! LLVM IR reader: functions with their metrics, struct types, string
//! constants, declarations and globals, and the pathology detectors.
use vstd::prelude::*;
use vstd::string::StringSliceAdditionalSpecFns;
use crate::rx::{
    captures, captures_ok, group_str, group_text, regex_captures, regex_compiles, rx_caps,
    rx_count, span_ok,
};
use crate::rx::{match_end, match_start, regex_replace_all, rx_replace, substring, text_between};
use vstd::utf8::{encode_utf8, is_char_boundary};
use crate::text::{
    chars_of, count_matches, count_occ, is_ws, push_all, ends_with, ends_with_str, hex16, hex_digits, join_lines,
    join_newline, lines, lines_of, parse_usize, parse_usize_spec, split, split_str, starts_with,
    starts_with_str, strip_braces, strip_braces_str, trim, trim_str,
};
use std::hash::Hash;
use std::hash::Hasher;

verus! {

// ---------------------------------------------------------------------------
// IR data structures
// ---------------------------------------------------------------------------

#[derive(Debug, Clone, Copy)]
pub struct FnMetrics {
    pub instructions: usize,
    pub basic_blocks: usize,
    pub allocas: usize,
    pub stores: usize,
    pub loads: usize,
    pub calls: usize,
    pub switches: usize,
    pub phis: usize,
    pub branches: usize,
    pub rets: usize,
    pub geps: usize,
    pub list_pushes: usize,
    pub insertvalues: usize,
    pub extractvalues: usize,
    pub alloca_bytes: usize,
}

#[derive(Debug, Clone)]
pub struct IRFunction {
    pub name: String,
    pub signature: String,
    pub body: String,
    pub line_start: usize,
    pub line_end: usize,
    pub metrics: FnMetrics,
    pub body_hash: String,
}

#[derive(Debug, Clone)]
pub struct StringConstant {
    pub name: String,
    pub declared_size: usize,
    pub actual_size: usize,
    pub content: String,
    pub line: usize,
}

#[derive(Debug, Clone)]
pub struct StructType {
    pub name: String,
    pub definition: String,
    pub fields: Vec<String>,
    pub estimated_size: usize,
}

/// A parsed module. `functions` is keyed by name: no two entries share one, and
/// they stand in the order in which their names first appear.
#[derive(Debug, Clone)]
pub struct IRModule {
    pub source: String,
    pub functions: Vec<IRFunction>,
    pub declares: Vec<String>,
    pub globals: Vec<String>,
    pub struct_types: Vec<StructType>,
    pub string_constants: Vec<StringConstant>,
}

/// A detected issue in the IR.
#[derive(Debug, Clone)]
pub struct Pathology {
    pub severity: String,
    pub code: String,
    pub function: String,
    pub line: usize,
    pub message: String,
    pub detail: String,
}

// ---------------------------------------------------------------------------
// String constant byte counts
// ---------------------------------------------------------------------------

pub open spec fn is_hex_byte(b: u8) -> bool {
    (0x30 <= b && b <= 0x39) || (0x41 <= b && b <= 0x46) || (0x61 <= b && b <= 0x66)
}

/// Bytes denoted by `b[i..]` as the body of a `c"..."` constant: a backslash
/// followed by two hex digits is one byte, every other byte is itself.
pub open spec fn c_bytes_from(b: Seq<u8>, i: int) -> nat
    decreases b.len() - i,
{
    if i < 0 || i >= b.len() {
        0
    } else if b[i] == 0x5C && i + 2 < b.len() && is_hex_byte(b[i + 1]) && is_hex_byte(b[i + 2]) {
        1 + c_bytes_from(b, i + 3)
    } else {
        1 + c_bytes_from(b, i + 1)
    }
}

pub open spec fn c_byte_count(b: Seq<u8>) -> nat {
    c_bytes_from(b, 0)
}

fn is_hex(b: u8) -> (r: bool)
    ensures
        r == is_hex_byte(b),
{
    (0x30 <= b && b <= 0x39) || (0x41 <= b && b <= 0x46) || (0x61 <= b && b <= 0x66)
}

/// Number of bytes that the content of a `c"..."` constant denotes: each `\XX`
/// hex escape counts once.
pub fn count_actual_bytes(content: &str) -> (n: usize)
    ensures
        n == c_byte_count(content.spec_bytes()),
{
    let bytes = content.as_bytes();
    let mut count: usize = 0;
    let mut i: usize = 0;
    while i < bytes.len()
        invariant
            i <= bytes@.len(),
            count <= i,
            c_byte_count(bytes@) == count + c_bytes_from(bytes@, i as int),
        decreases bytes@.len() - i,
    {
        if bytes[i] == 0x5C && bytes.len() > 2 && i < bytes.len() - 2 && is_hex(bytes[i + 1])
            && is_hex(bytes[i + 2]) {
            count += 1;
            i += 3;
        } else {
            count += 1;
            i += 1;
        }
    }
    count
}

/// The bytes end with the `\00` terminator of a C string.
pub open spec fn ends_with_terminator(b: Seq<u8>) -> bool {
    b.len() >= 3 && b[b.len() - 3] == 0x5C && b[b.len() - 2] == 0x30 && b[b.len() - 1] == 0x30
}

/// The bytes that the content of a `c"..."` constant holds before its `\00`
/// terminator (all of them when it has none): the size a declaration is
/// checked against, so that `[14 x i8] c"Hello, world!\00"` holds 13.
pub open spec fn content_byte_count(b: Seq<u8>) -> nat {
    if ends_with_terminator(b) {
        c_byte_count(b.take(b.len() - 3))
    } else {
        c_byte_count(b)
    }
}

/// `c_byte_count` of the first `end` bytes.
fn count_bytes_upto(bytes: &[u8], end: usize) -> (n: usize)
    requires
        end <= bytes@.len(),
    ensures
        n == c_byte_count(bytes@.take(end as int)),
{
    let ghost t = bytes@.take(end as int);
    let mut count: usize = 0;
    let mut i: usize = 0;
    while i < end
        invariant
            i <= end <= bytes@.len(),
            t == bytes@.take(end as int),
            count <= i,
            c_byte_count(t) == count + c_bytes_from(t, i as int),
        decreases end - i,
    {
        if bytes[i] == 0x5C && end > 2 && i < end - 2 && is_hex(bytes[i + 1]) && is_hex(bytes[i + 2]) {
            assert(t[i as int] == bytes@[i as int] && t[i + 1] == bytes@[i + 1] && t[i + 2] == bytes@[i + 2]);
            count += 1;
            i += 3;
        } else {
            assert(t[i as int] == bytes@[i as int]);
            if end > 2 && i < end - 2 {
                assert(t[i + 1] == bytes@[i + 1] && t[i + 2] == bytes@[i + 2]);
            }
            count += 1;
            i += 1;
        }
    }
    count
}

/// Bytes that the content of a `c"..."` constant holds before its `\00`
/// terminator (see `content_byte_count`).
pub fn content_bytes(content: &str) -> (n: usize)
    ensures
        n == content_byte_count(content.spec_bytes()),
{
    let bytes = content.as_bytes();
    let len = bytes.len();
    if len >= 3 && bytes[len - 3] == 0x5C && bytes[len - 2] == 0x30 && bytes[len - 1] == 0x30 {
        count_bytes_upto(bytes, len - 3)
    } else {
        let n = count_bytes_upto(bytes, len);
        assert(bytes@.take(len as int) =~= bytes@);
        n
    }
}

// ---------------------------------------------------------------------------
// Type sizes
// ---------------------------------------------------------------------------

pub const ARRAY_TYPE_PATTERN: &'static str = r"^\[(\d+)\s*x\s*(.+)\]$";

/// Estimated size in bytes of an IR type. Arithmetic wraps as in a release build.
pub open spec fn type_size(ty: Seq<char>) -> usize
    decreases ty.len(),
{
    let t = trim(ty);
    if starts_with(t, "i1"@) {
        1
    } else if starts_with(t, "i8"@) && !starts_with(t, "i8*"@) {
        1
    } else if starts_with(t, "i32"@) {
        4
    } else if starts_with(t, "i64"@) || t == "double"@ || ends_with(t, "*"@) || t == "ptr"@ {
        8
    } else if t == "float"@ {
        4
    } else if starts_with(t, "{"@) {
        (count_occ(t, ","@) as usize).wrapping_add(1).wrapping_mul(8)
    } else if rx_count(ARRAY_TYPE_PATTERN@, t) > 0 {
        let c = rx_caps(ARRAY_TYPE_PATTERN@, t)[0];
        let n = match parse_usize_spec(group_text(t, c, 1)) {
            Some(v) => v,
            None => 1,
        };
        let inner = group_text(t, c, 2);
        if inner.len() < ty.len() {
            n.wrapping_mul(type_size(inner))
        } else {
            8
        }
    } else {
        8
    }
}

/// Estimated size in bytes of an IR type (`i64` 8, `{..}` 8 per field,
/// `[N x T]` N times T, 8 otherwise).
pub fn estimate_type_size(ty: &str) -> (n: usize)
    ensures
        n == type_size(ty@),
    decreases ty@.len(),
{
    let t = trim_str(ty);
    let ts = t.as_str();
    if starts_with_str(ts, "i1") {
        return 1;
    }
    if starts_with_str(ts, "i8") && !starts_with_str(ts, "i8*") {
        return 1;
    }
    if starts_with_str(ts, "i32") {
        return 4;
    }
    if starts_with_str(ts, "i64") || t == "double".to_string() || ends_with_str(ts, "*") || t
        == "ptr".to_string() {
        return 8;
    }
    if t == "float".to_string() {
        return 4;
    }
    if starts_with_str(ts, "{") {
        return count_matches(ts, ",").wrapping_add(1).wrapping_mul(8);
    }
    let caps = captures(ARRAY_TYPE_PATTERN, ts);
    if caps.len() > 0 {
        let c = &caps[0];
        proof {
            assert(caps.deep_view()[0] == c.deep_view());
            assert forall|j: int| 0 <= j < c@.len() implies span_ok(
                #[trigger] c.deep_view()[j],
                ts.spec_bytes(),
            ) by {
                assert(span_ok(caps.deep_view()[0][j], ts.spec_bytes()));
            }
        }
        let n = match parse_usize(group_str(ts, c, 1).as_str()) {
            Some(v) => v,
            None => 1,
        };
        let inner = group_str(ts, c, 2);
        let inner_len = chars_of(inner.as_str()).len();
        let ty_len = chars_of(ty).len();
        if inner_len < ty_len {
            return n.wrapping_mul(estimate_type_size(inner.as_str()));
        } else {
            return 8;
        }
    }
    8
}

// ---------------------------------------------------------------------------
// Per-function metrics
// ---------------------------------------------------------------------------

pub const BLOCK_LABEL_PATTERN: &'static str = r"(?m)^\w[\w.]*:";
pub const CALL_PATTERN: &'static str = r"(?:= )?call ";
pub const RET_PATTERN: &'static str = r"(?m)^\s*ret\s";
pub const ALLOCA_PATTERN: &'static str = r"=\s*alloca\s+(.+?)(?:\s*,|\s*$)";

/// A body line that is an instruction: not blank and not a block label.
pub open spec fn is_instr_line(l: Seq<char>) -> bool {
    let t = trim(l);
    !(t.len() == 0 || ends_with(t, ":"@))
}

pub open spec fn count_instr_lines(ls: Seq<Seq<char>>) -> nat
    decreases ls.len(),
{
    if ls.len() == 0 {
        0
    } else {
        count_instr_lines(ls.drop_last()) + if is_instr_line(ls.last()) {
            1nat
        } else {
            0nat
        }
    }
}

/// Sum (wrapping) of the sizes of the types that the first `n` alloca matches allocate.
pub open spec fn alloca_bytes_sum(
    body: Seq<char>,
    caps: Seq<Seq<Option<(usize, usize)>>>,
    n: nat,
) -> usize
    decreases n,
{
    if n == 0 || n > caps.len() {
        0
    } else {
        alloca_bytes_sum(body, caps, (n - 1) as nat).wrapping_add(
            type_size(group_text(body, caps[n - 1], 1)),
        )
    }
}

/// The metrics of a function body.
pub open spec fn metrics_of(body: Seq<char>) -> FnMetrics {
    FnMetrics {
        instructions: count_instr_lines(lines(body)) as usize,
        basic_blocks: (rx_count(BLOCK_LABEL_PATTERN@, body) as usize).wrapping_add(1),
        allocas: count_occ(body, "= alloca "@) as usize,
        stores: count_occ(body, "store "@) as usize,
        loads: count_occ(body, "= load "@) as usize,
        calls: rx_count(CALL_PATTERN@, body) as usize,
        switches: count_occ(body, "switch i64"@) as usize,
        phis: count_occ(body, " = phi "@) as usize,
        branches: count_occ(body, "br "@) as usize,
        rets: rx_count(RET_PATTERN@, body) as usize,
        geps: count_occ(body, "getelementptr"@) as usize,
        list_pushes: count_occ(body, "@__mn_list_push"@) as usize,
        insertvalues: count_occ(body, "insertvalue"@) as usize,
        extractvalues: count_occ(body, "extractvalue"@) as usize,
        alloca_bytes: alloca_bytes_sum(
            body,
            rx_caps(ALLOCA_PATTERN@, body),
            rx_caps(ALLOCA_PATTERN@, body).len(),
        ),
    }
}

/// Bytes allocated by the allocas of a body, as far as their types tell.
pub fn sum_alloca_bytes(body: &str) -> (n: usize)
    ensures
        n == alloca_bytes_sum(body@, rx_caps(ALLOCA_PATTERN@, body@), rx_caps(ALLOCA_PATTERN@, body@).len()),
{
    let alloca_caps = captures(ALLOCA_PATTERN, body);
    let mut alloca_bytes: usize = 0;
    let mut k: usize = 0;
    while k < alloca_caps.len()
        invariant
            k <= alloca_caps@.len(),
            captures_ok(alloca_caps.deep_view(), body.spec_bytes()),
            alloca_bytes == alloca_bytes_sum(body@, alloca_caps.deep_view(), k as nat),
        decreases alloca_caps@.len() - k,
    {
        let c = &alloca_caps[k];
        proof {
            assert(alloca_caps.deep_view()[k as int] == c.deep_view());
            assert forall|j: int| 0 <= j < c@.len() implies span_ok(
                #[trigger] c.deep_view()[j],
                body.spec_bytes(),
            ) by {
                assert(span_ok(alloca_caps.deep_view()[k as int][j], body.spec_bytes()));
            }
        }
        let ty = group_str(body, c, 1);
        alloca_bytes = alloca_bytes.wrapping_add(estimate_type_size(ty.as_str()));
        k += 1;
    }
    alloca_bytes
}

/// Counts instructions, blocks, allocas, stores, loads, calls, switches, phis,
/// branches, rets, GEPs, list pushes, insert/extractvalues and alloca bytes.
/// Lines of a body that are instructions.
pub fn count_instructions(body: &str) -> (n: usize)
    ensures
        n == count_instr_lines(lines(body@)),
{
    let ls = lines_of(body);
    let mut instructions: usize = 0;
    let mut i: usize = 0;
    while i < ls.len()
        invariant
            i <= ls@.len(),
            instructions <= i,
            instructions == count_instr_lines(ls.deep_view().take(i as int)),
        decreases ls@.len() - i,
    {
        let t = trim_str(ls[i].as_str());
        proof {
            assert(ls.deep_view().take(i + 1).drop_last() =~= ls.deep_view().take(i as int));
        }
        if !(t.as_str().is_empty() || ends_with_str(t.as_str(), ":")) {
            instructions += 1;
        }
        i += 1;
    }
    assert(ls.deep_view().take(i as int) =~= ls.deep_view());
    instructions
}

pub fn analyze_function(body: &str) -> (m: FnMetrics)
    ensures
        m == metrics_of(body@),
{
    let instructions = count_instructions(body);
    let blocks = captures(BLOCK_LABEL_PATTERN, body).len();
    let calls = captures(CALL_PATTERN, body).len();
    let rets = captures(RET_PATTERN, body).len();
    let alloca_bytes = sum_alloca_bytes(body);
    FnMetrics {
        instructions,
        basic_blocks: blocks.wrapping_add(1),
        allocas: count_matches(body, "= alloca "),
        stores: count_matches(body, "store "),
        loads: count_matches(body, "= load "),
        calls,
        switches: count_matches(body, "switch i64"),
        phis: count_matches(body, " = phi "),
        branches: count_matches(body, "br "),
        rets,
        geps: count_matches(body, "getelementptr"),
        list_pushes: count_matches(body, "@__mn_list_push"),
        insertvalues: count_matches(body, "insertvalue"),
        extractvalues: count_matches(body, "extractvalue"),
        alloca_bytes,
    }
}

// ---------------------------------------------------------------------------
// Structural hash
// ---------------------------------------------------------------------------

pub const REG_PATTERN: &'static str = r"%[a-zA-Z_][\w.]*";
pub const STR_REF_PATTERN: &'static str = r"@\.?str\.\d+";
pub const LABEL_REF_PATTERN: &'static str = r"label\s+%[\w.]+";
pub const BLOCK_DEF_PATTERN: &'static str = r"(?m)^[\w.]+:";

/// Trimmed lines, blank ones dropped.
pub open spec fn nonblank_trimmed(ls: Seq<Seq<char>>) -> Seq<Seq<char>>
    decreases ls.len(),
{
    if ls.len() == 0 {
        Seq::empty()
    } else {
        let rest = nonblank_trimmed(ls.drop_last());
        let t = trim(ls.last());
        if t.len() == 0 {
            rest
        } else {
            rest.push(t)
        }
    }
}

/// A body with registers, string constants, label operands and block labels
/// replaced by placeholders, trimmed, blank lines dropped.
pub open spec fn normalize_ir(body: Seq<char>) -> Seq<char> {
    let n1 = rx_replace(REG_PATTERN@, body, "%R"@);
    let n2 = rx_replace(STR_REF_PATTERN@, n1, "@S"@);
    let n3 = rx_replace(LABEL_REF_PATTERN@, n2, "label %L"@);
    let n4 = rx_replace(BLOCK_DEF_PATTERN@, n3, "L:"@);
    join_lines(nonblank_trimmed(lines(n4)))
}

/// `lines` trimmed with blank ones dropped, joined by `\n`.
pub fn normalize_lines(text: &str) -> (r: String)
    ensures
        r@ == join_lines(nonblank_trimmed(lines(text@))),
{
    let ls = lines_of(text);
    let mut kept: Vec<String> = Vec::new();
    let mut i: usize = 0;
    while i < ls.len()
        invariant
            i <= ls@.len(),
            kept.deep_view() == nonblank_trimmed(ls.deep_view().take(i as int)),
        decreases ls@.len() - i,
    {
        let t = trim_str(ls[i].as_str());
        proof {
            assert(ls.deep_view().take(i + 1).drop_last() =~= ls.deep_view().take(i as int));
        }
        if !t.as_str().is_empty() {
            kept.push(t);
        }
        proof {
            assert(kept.deep_view() =~= nonblank_trimmed(ls.deep_view().take(i + 1)));
        }
        i += 1;
    }
    assert(ls.deep_view().take(i as int) =~= ls.deep_view());
    join_newline(&kept)
}

/// The register-normalized form of a function body.
pub fn normalize_ir_body(body: &str) -> (r: String)
    ensures
        r@ == normalize_ir(body@),
{
    let n1 = regex_replace_all(REG_PATTERN, body, "%R");
    let n2 = regex_replace_all(STR_REF_PATTERN, n1.as_str(), "@S");
    let n3 = regex_replace_all(LABEL_REF_PATTERN, n2.as_str(), "label %L");
    let n4 = regex_replace_all(BLOCK_DEF_PATTERN, n3.as_str(), "L:");
    normalize_lines(n4.as_str())
}

/// The value that `std::collections::hash_map::DefaultHasher` computes for a string.
pub uninterp spec fn default_hash(s: Seq<char>) -> u64;

/// Hashes `s` with a fresh `DefaultHasher` (`DefaultHasher::new`, `Hash::hash`,
/// `Hasher::finish`); the result is named by `default_hash`.
#[verifier::external_body]
pub(crate) fn default_hasher_hash(s: &str) -> (h: u64)
    ensures
        h == default_hash(s@),
{
    let mut hasher = std::collections::hash_map::DefaultHasher::new();
    s.hash(&mut hasher);
    hasher.finish()
}

/// The structural hash of a body: 16 hex digits of the hash of its normalized form.
pub open spec fn structural_hash_spec(body: Seq<char>) -> Seq<char> {
    hex_digits(default_hash(normalize_ir(body)) as nat, 16)
}

/// Hash of the register-normalized body, so that bodies that differ only in
/// register, string-constant and label names hash alike.
pub fn structural_hash(body: &str) -> (r: String)
    ensures
        r@ == structural_hash_spec(body@),
{
    let norm = normalize_ir_body(body);
    hex16(default_hasher_hash(norm.as_str()))
}

// ---------------------------------------------------------------------------
// Views
// ---------------------------------------------------------------------------

pub struct IRFunctionView {
    pub name: Seq<char>,
    pub signature: Seq<char>,
    pub body: Seq<char>,
    pub line_start: usize,
    pub line_end: usize,
    pub metrics: FnMetrics,
    pub body_hash: Seq<char>,
}

impl View for IRFunction {
    type V = IRFunctionView;

    open spec fn view(&self) -> IRFunctionView {
        IRFunctionView {
            name: self.name@,
            signature: self.signature@,
            body: self.body@,
            line_start: self.line_start,
            line_end: self.line_end,
            metrics: self.metrics,
            body_hash: self.body_hash@,
        }
    }
}

pub struct StringConstantView {
    pub name: Seq<char>,
    pub declared_size: usize,
    pub actual_size: usize,
    pub content: Seq<char>,
    pub line: usize,
}

impl View for StringConstant {
    type V = StringConstantView;

    open spec fn view(&self) -> StringConstantView {
        StringConstantView {
            name: self.name@,
            declared_size: self.declared_size,
            actual_size: self.actual_size,
            content: self.content@,
            line: self.line,
        }
    }
}

pub struct StructTypeView {
    pub name: Seq<char>,
    pub definition: Seq<char>,
    pub fields: Seq<Seq<char>>,
    pub estimated_size: usize,
}

impl View for StructType {
    type V = StructTypeView;

    open spec fn view(&self) -> StructTypeView {
        StructTypeView {
            name: self.name@,
            definition: self.definition@,
            fields: self.fields.deep_view(),
            estimated_size: self.estimated_size,
        }
    }
}

pub struct IRModuleView {
    pub source: Seq<char>,
    pub functions: Seq<IRFunctionView>,
    pub declares: Seq<Seq<char>>,
    pub globals: Seq<Seq<char>>,
    pub struct_types: Seq<StructTypeView>,
    pub string_constants: Seq<StringConstantView>,
}

impl View for IRModule {
    type V = IRModuleView;

    open spec fn view(&self) -> IRModuleView {
        IRModuleView {
            source: self.source@,
            functions: self.functions@.map_values(|f: IRFunction| f@),
            declares: self.declares.deep_view(),
            globals: self.globals.deep_view(),
            struct_types: self.struct_types@.map_values(|t: StructType| t@),
            string_constants: self.string_constants@.map_values(|c: StringConstant| c@),
        }
    }
}

// ---------------------------------------------------------------------------
// Parsing
// ---------------------------------------------------------------------------

pub const FN_PATTERN: &'static str = r#"(?m)^(define\s+(?:internal\s+)?(?:dso_local\s+)?[\w{}<>*,%\s]+?\s+@([^\s("]+)\s*\(.*?\))(?:\s*#\d+)?\s*\{"#;
pub const STRUCT_PATTERN: &'static str = r"(?m)^(%[\w.]+)\s*=\s*type\s+(\{.+\})";
pub const STRING_CONST_PATTERN: &'static str = r#"(?m)^(@[\w.]+)\s*=\s*(?:private\s+|internal\s+)?(?:unnamed_addr\s+)?constant\s+\[(\d+)\s+x\s+i8\]\s+c"(.*?)""#;
pub const DECLARE_PATTERN: &'static str = r"(?m)^declare\s+.+";
pub const GLOBAL_PATTERN: &'static str = r"(?m)^@[\w.]+\s*=\s*(?:private\s+|internal\s+)?(?:unnamed_addr\s+)?(?:constant|global)\s+.+";

/// Occurrences of byte `x` in `b`.
pub open spec fn count_byte(b: Seq<u8>, x: u8) -> nat
    decreases b.len(),
{
    if b.len() == 0 {
        0
    } else {
        count_byte(b.drop_last(), x) + if b.last() == x {
            1nat
        } else {
            0nat
        }
    }
}

/// 1-based line number of byte offset `pos` of `text`.
pub open spec fn line_at(text: Seq<char>, pos: int) -> usize {
    (count_byte(encode_utf8(text).subrange(0, pos), 10) + 1) as usize
}

/// A byte occurs at most as often as the sequence is long.
pub proof fn lemma_count_le(s: Seq<u8>, x: u8)
    ensures
        count_byte(s, x) <= s.len(),
    decreases s.len(),
{
    if s.len() > 0 {
        lemma_count_le(s.drop_last(), x);
    }
}

/// Newlines before an offset grow with the offset and never outnumber it.
pub proof fn lemma_count_prefix(b: Seq<u8>, x: u8, p: int, q: int)
    requires
        0 <= p <= q <= b.len(),
    ensures
        count_byte(b.subrange(0, p), x) <= count_byte(b.subrange(0, q), x),
        count_byte(b.subrange(0, q), x) <= q,
    decreases q - p,
{
    lemma_count_le(b.subrange(0, q), x);
    if p < q {
        assert(b.subrange(0, q).drop_last() =~= b.subrange(0, q - 1));
        lemma_count_prefix(b, x, p, q - 1);
    }
}

/// Line numbers start at 1 and do not decrease along the text.
pub proof fn lemma_line_at_mono(text: Seq<char>, p: int, q: int)
    requires
        0 <= p <= q <= encode_utf8(text).len(),
        encode_utf8(text).len() < usize::MAX,
    ensures
        1 <= line_at(text, p) <= line_at(text, q),
{
    lemma_count_prefix(encode_utf8(text), 10, p, q);
}

/// Line number of a byte offset: newlines before it, plus one.
pub fn line_of_offset(text: &str, pos: usize) -> (n: usize)
    requires
        pos <= text.spec_bytes().len(),
        text.spec_bytes().len() < usize::MAX,
    ensures
        n == line_at(text@, pos as int),
{
    let b = text.as_bytes();
    let mut c: usize = 0;
    let mut i: usize = 0;
    while i < pos
        invariant
            i <= pos <= b@.len(),
            b@ == text.spec_bytes(),
            b@.len() < usize::MAX,
            c <= i,
            c == count_byte(b@.subrange(0, i as int), 10),
        decreases pos - i,
    {
        assert(b@.subrange(0, i + 1).drop_last() =~= b@.subrange(0, i as int));
        if b[i] == 10 {
            c += 1;
        }
        i += 1;
    }
    c + 1
}

/// Position after the brace that closes the one before `pos` (or the end of the
/// input), with `depth` braces still open. The depth wraps as an `i32`.
pub open spec fn brace_scan(b: Seq<u8>, pos: int, depth: i32) -> int
    decreases b.len() - pos,
{
    if pos < 0 || pos >= b.len() || depth <= 0 {
        pos
    } else {
        let d = if b[pos] == 0x7B {
            depth.wrapping_add(1)
        } else if b[pos] == 0x7D {
            depth.wrapping_sub(1)
        } else {
            depth
        };
        brace_scan(b, pos + 1, d)
    }
}

/// End of the body of the function whose header match is `c`.
pub open spec fn fn_scan_end(text: Seq<char>, c: Seq<Option<(usize, usize)>>) -> int {
    brace_scan(encode_utf8(text), match_end(c), 1)
}

/// The body of the function whose header match is `c` can be sliced out: the
/// header does not end the text, and the body ends on a character boundary.
pub open spec fn fn_body_ok(text: Seq<char>, c: Seq<Option<(usize, usize)>>) -> bool {
    match_end(c) < encode_utf8(text).len() && is_char_boundary(
        encode_utf8(text),
        fn_scan_end(text, c) - 1,
    )
}

pub open spec fn fn_view_of(text: Seq<char>, c: Seq<Option<(usize, usize)>>) -> IRFunctionView {
    let pos = fn_scan_end(text, c);
    let body = text_between(text, match_end(c), pos - 1);
    IRFunctionView {
        name: group_text(text, c, 2),
        signature: group_text(text, c, 1),
        body,
        line_start: line_at(text, match_start(c)),
        line_end: line_at(text, pos),
        metrics: metrics_of(body),
        body_hash: structural_hash_spec(body),
    }
}

/// Insert `f` keyed by name: replace the entry of the same name, or append.
pub open spec fn upsert_fn(fs: Seq<IRFunctionView>, f: IRFunctionView) -> Seq<IRFunctionView> {
    if exists|i: int| 0 <= i < fs.len() && fs[i].name == f.name {
        fs.update(choose|i: int| 0 <= i < fs.len() && fs[i].name == f.name, f)
    } else {
        fs.push(f)
    }
}

pub open spec fn fold_fns(
    text: Seq<char>,
    caps: Seq<Seq<Option<(usize, usize)>>>,
    n: nat,
) -> Seq<IRFunctionView>
    decreases n,
{
    if n == 0 || n > caps.len() {
        Seq::empty()
    } else {
        upsert_fn(fold_fns(text, caps, (n - 1) as nat), fn_view_of(text, caps[n - 1]))
    }
}

pub open spec fn names_unique(fs: Seq<IRFunctionView>) -> bool {
    forall|i: int, j: int| 0 <= i < j < fs.len() ==> fs[i].name != fs[j].name
}

pub open spec fn struct_fields(def: Seq<char>) -> Seq<Seq<char>> {
    split(strip_braces(def), ',').map_values(|f: Seq<char>| trim(f))
}

pub open spec fn sum_type_sizes(fs: Seq<Seq<char>>) -> usize
    decreases fs.len(),
{
    if fs.len() == 0 {
        0
    } else {
        sum_type_sizes(fs.drop_last()).wrapping_add(type_size(fs.last()))
    }
}

pub open spec fn struct_view_of(text: Seq<char>, c: Seq<Option<(usize, usize)>>) -> StructTypeView {
    let def = group_text(text, c, 2);
    StructTypeView {
        name: group_text(text, c, 1),
        definition: def,
        fields: struct_fields(def),
        estimated_size: sum_type_sizes(struct_fields(def)),
    }
}

pub open spec fn string_const_view_of(
    text: Seq<char>,
    c: Seq<Option<(usize, usize)>>,
) -> StringConstantView {
    let content = group_text(text, c, 3);
    StringConstantView {
        name: group_text(text, c, 1),
        declared_size: match parse_usize_spec(group_text(text, c, 2)) {
            Some(v) => v,
            None => 0,
        },
        actual_size: content_byte_count(encode_utf8(content)) as usize,
        content,
        line: line_at(text, match_start(c)),
    }
}

/// What `parse_ir` returns for `text`.
pub open spec fn parse_ir_spec(text: Seq<char>) -> IRModuleView {
    let fcaps = rx_caps(FN_PATTERN@, text);
    let scaps = rx_caps(STRUCT_PATTERN@, text);
    let ccaps = rx_caps(STRING_CONST_PATTERN@, text);
    IRModuleView {
        source: text,
        functions: fold_fns(text, fcaps, fcaps.len()),
        declares: rx_caps(DECLARE_PATTERN@, text).map_values(
            |c: Seq<Option<(usize, usize)>>| group_text(text, c, 0),
        ),
        globals: rx_caps(GLOBAL_PATTERN@, text).map_values(
            |c: Seq<Option<(usize, usize)>>| group_text(text, c, 0),
        ),
        struct_types: scaps.map_values(|c: Seq<Option<(usize, usize)>>| struct_view_of(text, c)),
        string_constants: ccaps.map_values(
            |c: Seq<Option<(usize, usize)>>| string_const_view_of(text, c),
        ),
    }
}

/// Every function header of `text` is followed by a body that can be sliced.
pub open spec fn ir_bodies_ok(text: Seq<char>) -> bool {
    forall|i: int|
        0 <= i < rx_caps(FN_PATTERN@, text).len() ==> fn_body_ok(
            text,
            #[trigger] rx_caps(FN_PATTERN@, text)[i],
        )
}

pub proof fn lemma_brace_scan_bounds(b: Seq<u8>, pos: int, depth: i32)
    requires
        0 <= pos <= b.len(),
    ensures
        pos <= brace_scan(b, pos, depth) <= b.len(),
        pos < b.len() && depth > 0 ==> pos < brace_scan(b, pos, depth),
    decreases b.len() - pos,
{
    if pos < b.len() && depth > 0 {
        let d = if b[pos] == 0x7B {
            depth.wrapping_add(1)
        } else if b[pos] == 0x7D {
            depth.wrapping_sub(1)
        } else {
            depth
        };
        lemma_brace_scan_bounds(b, pos + 1, d);
    }
}

/// The spans of match `i` lie in the text on character boundaries.
pub proof fn lemma_match_spans(caps: Seq<Seq<Option<(usize, usize)>>>, i: int, bytes: Seq<u8>)
    requires
        captures_ok(caps, bytes),
        0 <= i < caps.len(),
    ensures
        forall|j: int| 0 <= j < caps[i].len() ==> span_ok(#[trigger] caps[i][j], bytes),
        caps[i].len() >= 1,
        caps[i][0] is Some,
        0 <= match_start(caps[i]) <= match_end(caps[i]) <= bytes.len(),
        is_char_boundary(bytes, match_start(caps[i])),
        is_char_boundary(bytes, match_end(caps[i])),
{
    assert(span_ok(caps[i][0], bytes));
}

/// Position after the brace that closes the body starting at `start`.
pub fn scan_braces(text: &str, start: usize) -> (pos: usize)
    requires
        start <= text.spec_bytes().len(),
    ensures
        pos == brace_scan(text.spec_bytes(), start as int, 1),
{
    let b = text.as_bytes();
    let mut depth: i32 = 1;
    let mut pos = start;
    while pos < b.len() && depth > 0
        invariant
            start <= pos <= b@.len(),
            b@ == text.spec_bytes(),
            brace_scan(b@, start as int, 1) == brace_scan(b@, pos as int, depth),
        decreases b@.len() - pos,
    {
        if b[pos] == 0x7B {
            depth = depth.wrapping_add(1);
        } else if b[pos] == 0x7D {
            depth = depth.wrapping_sub(1);
        }
        pos += 1;
    }
    pos
}

/// One struct type from its `%name = type {..}` match.
pub fn struct_type_of(text: &str, c: &Vec<Option<(usize, usize)>>) -> (t: StructType)
    requires
        forall|j: int| 0 <= j < c@.len() ==> span_ok(#[trigger] c.deep_view()[j], text.spec_bytes()),
    ensures
        t@ == struct_view_of(text@, c.deep_view()),
{
    let name = group_str(text, c, 1);
    let def = group_str(text, c, 2);
    let inner = strip_braces_str(def.as_str());
    let pieces = split_str(inner.as_str(), ',');
    let mut fields: Vec<String> = Vec::new();
    let mut size: usize = 0;
    let mut i: usize = 0;
    let ghost want = struct_fields(def@);
    while i < pieces.len()
        invariant
            i <= pieces@.len(),
            pieces.deep_view() == split(strip_braces(def@), ','),
            want == struct_fields(def@),
            fields.deep_view() == want.take(i as int),
            size == sum_type_sizes(want.take(i as int)),
        decreases pieces@.len() - i,
    {
        let f = trim_str(pieces[i].as_str());
        let n = estimate_type_size(f.as_str());
        fields.push(f);
        size = size.wrapping_add(n);
        proof {
            assert(want[i as int] == trim(pieces.deep_view()[i as int]));
            assert(want.take(i + 1).drop_last() =~= want.take(i as int));
            assert(fields.deep_view() =~= want.take(i + 1));
        }
        i += 1;
    }
    assert(want.take(i as int) =~= want);
    StructType { name, definition: def, fields, estimated_size: size }
}

/// One string constant from its `@name = .. constant [N x i8] c"..."` match.
pub fn string_constant_of(text: &str, c: &Vec<Option<(usize, usize)>>) -> (k: StringConstant)
    requires
        forall|j: int| 0 <= j < c@.len() ==> span_ok(#[trigger] c.deep_view()[j], text.spec_bytes()),
        c@.len() >= 1,
        c@[0] is Some,
        text.spec_bytes().len() < usize::MAX,
    ensures
        k@ == string_const_view_of(text@, c.deep_view()),
        k.line >= 1,
{
    let name = group_str(text, c, 1);
    let declared = match parse_usize(group_str(text, c, 2).as_str()) {
        Some(v) => v,
        None => 0,
    };
    let content = group_str(text, c, 3);
    let actual = content_bytes(content.as_str());
    let start = match c[0] {
        Some((s, _)) => s,
        None => 0,
    };
    assert(span_ok(c.deep_view()[0], text.spec_bytes()));
    let line = line_of_offset(text, start);
    proof {
        lemma_line_at_mono(text@, start as int, start as int);
    }
    StringConstant { name, declared_size: declared, actual_size: actual, content, line }
}

/// The bytes of `part` stand, in one piece, among the bytes of `text`.
pub open spec fn bytes_within(part: Seq<char>, text: Seq<char>) -> bool {
    exists|a: int, b: int|
        0 <= a <= b <= encode_utf8(text).len() && encode_utf8(part) == encode_utf8(text).subrange(a, b)
}

/// Where a parsed function stands in its text: its lines count from 1, the
/// first not after the last, and its body is a piece of the text.
pub open spec fn fn_located(f: IRFunctionView, text: Seq<char>) -> bool {
    1 <= f.line_start <= f.line_end && bytes_within(f.body, text)
}

/// One function from its `define .. {` header match.
pub fn function_of(text: &str, c: &Vec<Option<(usize, usize)>>) -> (f: IRFunction)
    requires
        forall|j: int| 0 <= j < c@.len() ==> span_ok(#[trigger] c.deep_view()[j], text.spec_bytes()),
        c@.len() >= 1,
        c@[0] is Some,
        fn_body_ok(text@, c.deep_view()),
        text.spec_bytes().len() < usize::MAX,
    ensures
        f@ == fn_view_of(text@, c.deep_view()),
        fn_located(f@, text@),
{
    let sig = group_str(text, c, 1);
    let name = group_str(text, c, 2);
    let (mstart, start) = match c[0] {
        Some((s, e)) => (s, e),
        None => (0, 0),
    };
    assert(span_ok(c.deep_view()[0], text.spec_bytes()));
    let pos = scan_braces(text, start);
    proof {
        lemma_brace_scan_bounds(text.spec_bytes(), start as int, 1);
    }
    let body = substring(text, start, pos - 1);
    let line_start = line_of_offset(text, mstart);
    let line_end = line_of_offset(text, pos);
    proof {
        lemma_line_at_mono(text@, mstart as int, pos as int);
        assert(encode_utf8(body@) == encode_utf8(text@).subrange(start as int, pos - 1));
    }
    let metrics = analyze_function(body.as_str());
    let hash = structural_hash(body.as_str());
    IRFunction { name, signature: sig, body, line_start, line_end, metrics, body_hash: hash }
}

/// Index of the function named `name`.
pub fn find_function(fs: &Vec<IRFunction>, name: &String) -> (r: Option<usize>)
    ensures
        r matches Some(i) ==> i < fs@.len() && fs@[i as int].name@ == name@ && forall|j: int|
            0 <= j < i ==> fs@[j].name@ != name@,
        r is None ==> forall|i: int| 0 <= i < fs@.len() ==> fs@[i].name@ != name@,
{
    let mut i: usize = 0;
    while i < fs.len()
        invariant
            i <= fs@.len(),
            forall|j: int| 0 <= j < i ==> fs@[j].name@ != name@,
        decreases fs@.len() - i,
    {
        if fs[i].name == *name {
            return Some(i);
        }
        i += 1;
    }
    None
}

/// Whole-match texts of every match.
pub fn match_texts(text: &str, caps: &Vec<Vec<Option<(usize, usize)>>>) -> (r: Vec<String>)
    requires
        captures_ok(caps.deep_view(), text.spec_bytes()),
    ensures
        r.deep_view() == caps.deep_view().map_values(
            |c: Seq<Option<(usize, usize)>>| group_text(text@, c, 0),
        ),
{
    let mut r: Vec<String> = Vec::new();
    let mut i: usize = 0;
    while i < caps.len()
        invariant
            i <= caps@.len(),
            captures_ok(caps.deep_view(), text.spec_bytes()),
            r@.len() == i,
            forall|j: int| 0 <= j < i ==> r.deep_view()[j] == group_text(text@, caps.deep_view()[j], 0),
        decreases caps@.len() - i,
    {
        proof {
            lemma_match_spans(caps.deep_view(), i as int, text.spec_bytes());
            assert(caps.deep_view()[i as int] == caps[i as int].deep_view());
        }
        let g = group_str(text, &caps[i], 0);
        let ghost old_r = r.deep_view();
        r.push(g);
        assert(r.deep_view() =~= old_r.push(g@));
        i += 1;
    }
    assert(r.deep_view() =~= caps.deep_view().map_values(
        |c: Seq<Option<(usize, usize)>>| group_text(text@, c, 0),
    ));
    r
}

/// The struct types of every `%name = type {..}` match.
pub fn parse_struct_types(text: &str) -> (r: Vec<StructType>)
    ensures
        r@.map_values(|t: StructType| t@) == rx_caps(STRUCT_PATTERN@, text@).map_values(
            |c: Seq<Option<(usize, usize)>>| struct_view_of(text@, c),
        ),
{
    let scaps = captures(STRUCT_PATTERN, text);
    let mut r: Vec<StructType> = Vec::new();
    let mut i: usize = 0;
    while i < scaps.len()
        invariant
            i <= scaps@.len(),
            captures_ok(scaps.deep_view(), text.spec_bytes()),
            r@.len() == i,
            forall|j: int| 0 <= j < i ==> (#[trigger] r@[j])@ == struct_view_of(text@, scaps.deep_view()[j]),
        decreases scaps@.len() - i,
    {
        proof {
            lemma_match_spans(scaps.deep_view(), i as int, text.spec_bytes());
            assert(scaps.deep_view()[i as int] == scaps[i as int].deep_view());
        }
        let t = struct_type_of(text, &scaps[i]);
        r.push(t);
        i += 1;
    }
    assert(r@.map_values(|t: StructType| t@) =~= scaps.deep_view().map_values(
        |c: Seq<Option<(usize, usize)>>| struct_view_of(text@, c),
    ));
    r
}

/// The string constants of every `@name = .. constant [N x i8] c"..."` match.
pub fn parse_string_constants(text: &str) -> (r: Vec<StringConstant>)
    requires
        text.spec_bytes().len() < usize::MAX,
    ensures
        r@.map_values(|k: StringConstant| k@) == rx_caps(STRING_CONST_PATTERN@, text@).map_values(
            |c: Seq<Option<(usize, usize)>>| string_const_view_of(text@, c),
        ),
        forall|j: int| 0 <= j < r@.len() ==> (#[trigger] r@[j]).line >= 1,
{
    let ccaps = captures(STRING_CONST_PATTERN, text);
    let mut r: Vec<StringConstant> = Vec::new();
    let mut i: usize = 0;
    while i < ccaps.len()
        invariant
            i <= ccaps@.len(),
            text.spec_bytes().len() < usize::MAX,
            captures_ok(ccaps.deep_view(), text.spec_bytes()),
            r@.len() == i,
            forall|j: int| 0 <= j < i ==> (#[trigger] r@[j])@ == string_const_view_of(text@, ccaps.deep_view()[j]),
            forall|j: int| 0 <= j < i ==> (#[trigger] r@[j]).line >= 1,
        decreases ccaps@.len() - i,
    {
        proof {
            lemma_match_spans(ccaps.deep_view(), i as int, text.spec_bytes());
            assert(ccaps.deep_view()[i as int] == ccaps[i as int].deep_view());
        }
        let k = string_constant_of(text, &ccaps[i]);
        r.push(k);
        i += 1;
    }
    assert(r@.map_values(|k: StringConstant| k@) =~= ccaps.deep_view().map_values(
        |c: Seq<Option<(usize, usize)>>| string_const_view_of(text@, c),
    ));
    r
}

proof fn lemma_upsert_found(fs: Seq<IRFunctionView>, f: IRFunctionView, i: int)
    requires
        names_unique(fs),
        0 <= i < fs.len(),
        fs[i].name == f.name,
    ensures
        upsert_fn(fs, f) == fs.update(i, f),
        names_unique(fs.update(i, f)),
{
    let k = choose|k: int| 0 <= k < fs.len() && fs[k].name == f.name;
    assert(k == i);
}

proof fn lemma_upsert_new(fs: Seq<IRFunctionView>, f: IRFunctionView)
    requires
        names_unique(fs),
        forall|i: int| 0 <= i < fs.len() ==> fs[i].name != f.name,
    ensures
        upsert_fn(fs, f) == fs.push(f),
        names_unique(fs.push(f)),
{
}

pub open spec fn fn_views(fs: Seq<IRFunction>) -> Seq<IRFunctionView> {
    fs.map_values(|f: IRFunction| f@)
}

/// The function definitions of every `define .. {` match, keyed by name.
pub fn parse_functions(text: &str) -> (r: Vec<IRFunction>)
    requires
        ir_bodies_ok(text@),
        text.spec_bytes().len() < usize::MAX,
    ensures
        fn_views(r@) == fold_fns(text@, rx_caps(FN_PATTERN@, text@), rx_caps(FN_PATTERN@, text@).len()),
        names_unique(fn_views(r@)),
        forall|j: int| 0 <= j < r@.len() ==> fn_located((#[trigger] r@[j])@, text@),
{
    let fcaps = captures(FN_PATTERN, text);
    let mut functions: Vec<IRFunction> = Vec::new();
    let mut i: usize = 0;
    while i < fcaps.len()
        invariant
            i <= fcaps@.len(),
            text.spec_bytes().len() < usize::MAX,
            fcaps.deep_view() == rx_caps(FN_PATTERN@, text@),
            ir_bodies_ok(text@),
            captures_ok(fcaps.deep_view(), text.spec_bytes()),
            fn_views(functions@) == fold_fns(text@, fcaps.deep_view(), i as nat),
            names_unique(fn_views(functions@)),
            forall|j: int| 0 <= j < functions@.len() ==> fn_located((#[trigger] functions@[j])@, text@),
        decreases fcaps@.len() - i,
    {
        proof {
            lemma_match_spans(fcaps.deep_view(), i as int, text.spec_bytes());
            assert(fcaps.deep_view()[i as int] == fcaps[i as int].deep_view());
            assert(fn_body_ok(text@, rx_caps(FN_PATTERN@, text@)[i as int]));
        }
        let f = function_of(text, &fcaps[i]);
        let ghost fs = fn_views(functions@);
        match find_function(&functions, &f.name) {
            Some(k) => {
                proof {
                    assert(fs[k as int].name == f@.name);
                    lemma_upsert_found(fs, f@, k as int);
                }
                functions.set(k, f);
                proof {
                    assert(fn_views(functions@) =~= fs.update(k as int, f@));
                }
            },
            None => {
                proof {
                    assert forall|j: int| 0 <= j < fs.len() implies fs[j].name != f@.name by {
                        assert(fs[j] == functions@[j]@);
                    }
                    lemma_upsert_new(fs, f@);
                }
                functions.push(f);
                proof {
                    assert(fn_views(functions@) =~= fs.push(f@));
                }
            },
        }
        i += 1;
    }
    functions
}

/// Parses LLVM IR text: struct types, declarations, globals, string constants,
/// and function definitions with their bodies, line ranges, metrics and hashes.
/// Functions are keyed by name; a later definition replaces an earlier one.
pub fn parse_ir(text: &str) -> (m: IRModule)
    requires
        ir_bodies_ok(text@),
        text.spec_bytes().len() < usize::MAX,
    ensures
        m@ == parse_ir_spec(text@),
        names_unique(m@.functions),
        forall|j: int| 0 <= j < m@.functions.len() ==> fn_located(#[trigger] m@.functions[j], text@),
        forall|j: int| 0 <= j < m@.string_constants.len() ==> (#[trigger] m@.string_constants[j]).line >= 1,
{
    let struct_types = parse_struct_types(text);
    let dcaps = captures(DECLARE_PATTERN, text);
    let declares = match_texts(text, &dcaps);
    let gcaps = captures(GLOBAL_PATTERN, text);
    let globals = match_texts(text, &gcaps);
    let string_constants = parse_string_constants(text);
    let functions = parse_functions(text);
    proof {
        assert forall|j: int| 0 <= j < fn_views(functions@).len() implies fn_located(
            #[trigger] fn_views(functions@)[j],
            text@,
        ) by {
            assert(fn_views(functions@)[j] == functions@[j]@);
        }
        let cv = string_constants@.map_values(|k: StringConstant| k@);
        assert forall|j: int| 0 <= j < cv.len() implies (#[trigger] cv[j]).line >= 1 by {
            assert(cv[j] == string_constants@[j]@);
        }
    }
    IRModule {
        source: text.to_string(),
        functions,
        declares,
        globals,
        struct_types,
        string_constants,
    }
}

/// `parse_ir` where every function body can be sliced out; `None` when a
/// function header ends the text or its body would end inside a character
/// (where slicing the body would panic), or the text is `usize::MAX` bytes long.
pub fn try_parse_ir(text: &str) -> (r: Option<IRModule>)
    ensures
        r is Some <==> (ir_bodies_ok(text@) && text.spec_bytes().len() < usize::MAX),
        r matches Some(m) ==> m@ == parse_ir_spec(text@) && names_unique(m@.functions),
        r matches Some(m) ==> (forall|j: int|
            0 <= j < m@.functions.len() ==> fn_located(#[trigger] m@.functions[j], text@)),
        r matches Some(m) ==> (forall|j: int|
            0 <= j < m@.string_constants.len() ==> (#[trigger] m@.string_constants[j]).line >= 1),
{
    let b = text.as_bytes();
    if b.len() == usize::MAX {
        return None;
    }
    let fcaps = captures(FN_PATTERN, text);
    let mut i: usize = 0;
    while i < fcaps.len()
        invariant
            i <= fcaps@.len(),
            b@ == text.spec_bytes(),
            fcaps.deep_view() == rx_caps(FN_PATTERN@, text@),
            captures_ok(fcaps.deep_view(), text.spec_bytes()),
            forall|j: int| 0 <= j < i ==> fn_body_ok(text@, #[trigger] fcaps.deep_view()[j]),
        decreases fcaps@.len() - i,
    {
        proof {
            lemma_match_spans(fcaps.deep_view(), i as int, text.spec_bytes());
            assert(fcaps.deep_view()[i as int] == fcaps[i as int].deep_view());
        }
        let start = match fcaps[i][0] {
            Some((_, e)) => e,
            None => 0,
        };
        if start >= b.len() {
            return None;
        }
        let pos = scan_braces(text, start);
        proof {
            lemma_brace_scan_bounds(text.spec_bytes(), start as int, 1);
        }
        if !text.is_char_boundary(pos - 1) {
            return None;
        }
        i += 1;
    }
    Some(parse_ir(text))
}

// ---------------------------------------------------------------------------
// Pathology detectors
// ---------------------------------------------------------------------------

pub struct PathologyView {
    pub severity: Seq<char>,
    pub code: Seq<char>,
    pub function: Seq<char>,
    pub line: usize,
    pub message: Seq<char>,
    pub detail: Seq<char>,
}

impl View for Pathology {
    type V = PathologyView;

    open spec fn view(&self) -> PathologyView {
        PathologyView {
            severity: self.severity@,
            code: self.code@,
            function: self.function@,
            line: self.line,
            message: self.message@,
            detail: self.detail@,
        }
    }
}

pub open spec fn path_views(ps: Seq<Pathology>) -> Seq<PathologyView> {
    ps.map_values(|p: Pathology| p@)
}

pub open spec fn flatten(ss: Seq<Seq<PathologyView>>) -> Seq<PathologyView>
    decreases ss.len(),
{
    if ss.len() == 0 {
        Seq::empty()
    } else {
        flatten(ss.drop_last()) + ss.last()
    }
}

pub open spec fn pathology(
    severity: Seq<char>,
    code: Seq<char>,
    f: IRFunctionView,
    message: Seq<char>,
) -> PathologyView {
    PathologyView {
        severity,
        code,
        function: f.name,
        line: f.line_start,
        message,
        detail: Seq::empty(),
    }
}

fn make_pathology(severity: &str, code: &str, f: &IRFunction, message: String) -> (p: Pathology)
    ensures
        p@ == pathology(severity@, code@, f@, message@),
{
    Pathology {
        severity: severity.to_string(),
        code: code.to_string(),
        function: f.name.clone(),
        line: f.line_start,
        message,
        detail: String::new(),
    }
}

pub const EMPTY_SWITCH_PATTERN: &'static str = r"switch\s+i64\s+%[\w.]+,\s*label\s+%[\w.]+\s*\[\s*\]";

pub open spec fn empty_switch_paths(f: IRFunctionView) -> Seq<PathologyView> {
    Seq::new(
        rx_count(EMPTY_SWITCH_PATTERN@, f.body),
        |i: int|
            pathology(
                "error"@,
                "EMPTY_SWITCH"@,
                f,
                "Switch with 0 cases \u{2014} match arms not generated"@,
            ),
    )
}

fn push_paths(dst: &mut Vec<Pathology>, src: Vec<Pathology>)
    ensures
        path_views(final(dst)@) == path_views(old(dst)@) + path_views(src@),
{
    let mut i: usize = 0;
    while i < src.len()
        invariant
            i <= src@.len(),
            path_views(dst@) == path_views(old(dst)@) + path_views(src@.take(i as int)),
        decreases src@.len() - i,
    {
        let ghost before = dst@;
        dst.push(src[i].clone_pathology());
        proof {
            assert(path_views(dst@) =~= path_views(before).push(src@[i as int]@));
            assert(path_views(src@.take(i + 1)) =~= path_views(src@.take(i as int)).push(
                src@[i as int]@,
            ));
        }
        i += 1;
    }
    assert(src@.take(i as int) =~= src@);
}

impl Pathology {
    /// A copy with equal fields.
    pub fn clone_pathology(&self) -> (p: Pathology)
        ensures
            p@ == self@,
    {
        Pathology {
            severity: self.severity.clone(),
            code: self.code.clone(),
            function: self.function.clone(),
            line: self.line,
            message: self.message.clone(),
            detail: self.detail.clone(),
        }
    }
}

/// Switches with no cases.
pub fn detect_empty_switches(module: &IRModule) -> (r: Vec<Pathology>)
    ensures
        path_views(r@) == flatten(module@.functions.map_values(|f: IRFunctionView| empty_switch_paths(f))),
{
    let mut r: Vec<Pathology> = Vec::new();
    let ghost fs = module@.functions;
    let mut i: usize = 0;
    while i < module.functions.len()
        invariant
            i <= module.functions@.len(),
            fs == module@.functions,
            path_views(r@) == flatten(fs.take(i as int).map_values(|f: IRFunctionView| empty_switch_paths(f))),
        decreases module.functions@.len() - i,
    {
        let f = &module.functions[i];
        let caps = captures(EMPTY_SWITCH_PATTERN, f.body.as_str());
        let n = caps.len();
        assert(caps.deep_view().len() == caps@.len());
        let mut k: usize = 0;
        let ghost before = path_views(r@);
        while k < n
            invariant
                k <= n,
                n == rx_count(EMPTY_SWITCH_PATTERN@, f.body@),
                path_views(r@) == before + empty_switch_paths(f@).take(k as int),
            decreases n - k,
        {
            let p = make_pathology(
                "error",
                "EMPTY_SWITCH",
                f,
                "Switch with 0 cases \u{2014} match arms not generated".to_string(),
            );
            let ghost b2 = r@;
            r.push(p);
            proof {
                assert(path_views(r@) =~= path_views(b2).push(p@));
                assert(empty_switch_paths(f@).take(k + 1) =~= empty_switch_paths(f@).take(
                    k as int,
                ).push(p@));
            }
            k += 1;
        }
        proof {
            assert(empty_switch_paths(f@).take(k as int) =~= empty_switch_paths(f@));
            let m = fs.take(i + 1).map_values(|f: IRFunctionView| empty_switch_paths(f));
            assert(m.drop_last() =~= fs.take(i as int).map_values(
                |f: IRFunctionView| empty_switch_paths(f),
            ));
            assert(fs[i as int] == f@);
        }
        i += 1;
    }
    assert(fs.take(i as int) =~= fs);
    r
}

pub const MISSING_PERCENT_PATTERN: &'static str = r"(?m)(?:load|store|alloca|getelementptr|call)\s.*\s([a-zA-Z_]\w*\.addr|[a-zA-Z_]\w*\.ptr)\b";

pub open spec fn missing_pct_from(
    f: IRFunctionView,
    caps: Seq<Seq<Option<(usize, usize)>>>,
    n: nat,
) -> Seq<PathologyView>
    decreases n,
{
    if n == 0 || n > caps.len() {
        Seq::empty()
    } else {
        let prev = missing_pct_from(f, caps, (n - 1) as nat);
        let bare = group_text(f.body, caps[n - 1], 1);
        if !starts_with(bare, "%"@) && !starts_with(bare, "@"@) {
            prev.push(
                pathology(
                    "warning"@,
                    "MISSING_PERCENT"@,
                    f,
                    "Bare identifier '"@ + bare + "' \u{2014} missing % prefix?"@,
                ),
            )
        } else {
            prev
        }
    }
}

pub open spec fn missing_pct_paths(f: IRFunctionView) -> Seq<PathologyView> {
    let caps = rx_caps(MISSING_PERCENT_PATTERN@, f.body);
    missing_pct_from(f, caps, caps.len())
}

fn missing_pct_of(f: &IRFunction) -> (r: Vec<Pathology>)
    ensures
        path_views(r@) == missing_pct_paths(f@),
{
    let body = f.body.as_str();
    let caps = captures(MISSING_PERCENT_PATTERN, body);
    let mut r: Vec<Pathology> = Vec::new();
    let mut k: usize = 0;
    while k < caps.len()
        invariant
            k <= caps@.len(),
            body@ == f@.body,
            caps.deep_view() == rx_caps(MISSING_PERCENT_PATTERN@, f@.body),
            captures_ok(caps.deep_view(), body.spec_bytes()),
            path_views(r@) == missing_pct_from(f@, caps.deep_view(), k as nat),
        decreases caps@.len() - k,
    {
        proof {
            lemma_match_spans(caps.deep_view(), k as int, body.spec_bytes());
            assert(caps.deep_view()[k as int] == caps[k as int].deep_view());
        }
        let bare = group_str(body, &caps[k], 1);
        if !starts_with_str(bare.as_str(), "%") && !starts_with_str(bare.as_str(), "@") {
            let mut msg = "Bare identifier '".to_string();
            push_all(&mut msg, bare.as_str());
            push_all(&mut msg, "' \u{2014} missing % prefix?");
            let p = make_pathology("warning", "MISSING_PERCENT", f, msg);
            let ghost before = r@;
            r.push(p);
            assert(path_views(r@) =~= path_views(before).push(p@));
        }
        k += 1;
    }
    r
}

/// Identifiers like `x.addr` or `x.ptr` used without a `%` prefix.
pub fn detect_missing_percent(module: &IRModule) -> (r: Vec<Pathology>)
    ensures
        path_views(r@) == flatten(module@.functions.map_values(|f: IRFunctionView| missing_pct_paths(f))),
{
    let mut r: Vec<Pathology> = Vec::new();
    let ghost fs = module@.functions;
    let mut i: usize = 0;
    while i < module.functions.len()
        invariant
            i <= module.functions@.len(),
            fs == module@.functions,
            path_views(r@) == flatten(fs.take(i as int).map_values(|f: IRFunctionView| missing_pct_paths(f))),
        decreases module.functions@.len() - i,
    {
        let ps = missing_pct_of(&module.functions[i]);
        push_paths(&mut r, ps);
        proof {
            let m = fs.take(i + 1).map_values(|f: IRFunctionView| missing_pct_paths(f));
            assert(m.drop_last() =~= fs.take(i as int).map_values(
                |f: IRFunctionView| missing_pct_paths(f),
            ));
        }
        i += 1;
    }
    assert(fs.take(i as int) =~= fs);
    r
}

pub const SWITCH_CASES_PATTERN: &'static str = r"switch\s+i64\s+%[\w.]+,\s*label\s+%[\w.]+\s*\[([^\]]+)\]";
pub const CASE_VALUE_PATTERN: &'static str = r"i64\s+(\d+),";

/// The case values of a switch's case list.
pub open spec fn case_values(cases: Seq<char>) -> Seq<Seq<char>> {
    rx_caps(CASE_VALUE_PATTERN@, cases).map_values(
        |c: Seq<Option<(usize, usize)>>| group_text(cases, c, 1),
    )
}

/// One report for each case value that repeats an earlier one.
pub open spec fn dup_paths(f: IRFunctionView, vals: Seq<Seq<char>>, n: nat) -> Seq<PathologyView>
    decreases n,
{
    if n == 0 || n > vals.len() {
        Seq::empty()
    } else {
        let prev = dup_paths(f, vals, (n - 1) as nat);
        if vals.take(n - 1).contains(vals[n - 1]) {
            prev.push(
                pathology(
                    "error"@,
                    "DUPLICATE_CASE"@,
                    f,
                    "Duplicate switch case value: "@ + vals[n - 1],
                ),
            )
        } else {
            prev
        }
    }
}

pub open spec fn switch_dup_paths(f: IRFunctionView, c: Seq<Option<(usize, usize)>>) -> Seq<
    PathologyView,
> {
    let vals = case_values(group_text(f.body, c, 1));
    dup_paths(f, vals, vals.len())
}

pub open spec fn switch_dup_lists(f: IRFunctionView, cs: Seq<Seq<Option<(usize, usize)>>>) -> Seq<
    Seq<PathologyView>,
> {
    cs.map_values(|c: Seq<Option<(usize, usize)>>| switch_dup_paths(f, c))
}

pub open spec fn dup_case_paths(f: IRFunctionView) -> Seq<PathologyView> {
    flatten(switch_dup_lists(f, rx_caps(SWITCH_CASES_PATTERN@, f.body)))
}

proof fn lemma_switch_dup_lists_step(f: IRFunctionView, cs: Seq<Seq<Option<(usize, usize)>>>, k: int)
    requires
        0 <= k < cs.len(),
    ensures
        switch_dup_lists(f, cs.take(k + 1)).drop_last() == switch_dup_lists(f, cs.take(k)),
        switch_dup_lists(f, cs.take(k + 1)).last() == switch_dup_paths(f, cs[k]),
        flatten(switch_dup_lists(f, cs.take(k + 1))) == flatten(switch_dup_lists(f, cs.take(k))) + switch_dup_paths(f, cs[k]),
{
    assert(switch_dup_lists(f, cs.take(k + 1)).drop_last() =~= switch_dup_lists(f, cs.take(k)));
}

fn vec_contains_string(v: &Vec<String>, x: &String) -> (b: bool)
    ensures
        b == v.deep_view().contains(x@),
{
    let mut i: usize = 0;
    while i < v.len()
        invariant
            i <= v@.len(),
            forall|j: int| 0 <= j < i ==> v.deep_view()[j] != x@,
        decreases v@.len() - i,
    {
        if v[i] == *x {
            assert(v.deep_view()[i as int] == x@);
            return true;
        }
        i += 1;
    }
    false
}

fn switch_dups_of(f: &IRFunction, cases: &String) -> (r: Vec<Pathology>)
    ensures
        path_views(r@) == dup_paths(f@, case_values(cases@), case_values(cases@).len()),
{
    let ct = cases.as_str();
    let caps = captures(CASE_VALUE_PATTERN, ct);
    let mut seen: Vec<String> = Vec::new();
    let mut r: Vec<Pathology> = Vec::new();
    let ghost vals = case_values(cases@);
    let mut k: usize = 0;
    while k < caps.len()
        invariant
            k <= caps@.len(),
            caps.deep_view() == rx_caps(CASE_VALUE_PATTERN@, ct@),
            captures_ok(caps.deep_view(), ct.spec_bytes()),
            vals == case_values(cases@),
            ct@ == cases@,
            seen.deep_view() == vals.take(k as int),
            path_views(r@) == dup_paths(f@, vals, k as nat),
        decreases caps@.len() - k,
    {
        proof {
            lemma_match_spans(caps.deep_view(), k as int, ct.spec_bytes());
            assert(caps.deep_view()[k as int] == caps[k as int].deep_view());
        }
        let v = group_str(ct, &caps[k], 1);
        assert(v@ == vals[k as int]);
        if vec_contains_string(&seen, &v) {
            let mut msg = "Duplicate switch case value: ".to_string();
            push_all(&mut msg, v.as_str());
            let p = make_pathology("error", "DUPLICATE_CASE", f, msg);
            let ghost before = r@;
            r.push(p);
            assert(path_views(r@) =~= path_views(before).push(p@));
        }
        let ghost sb = seen.deep_view();
        seen.push(v);
        proof {
            assert(seen.deep_view() =~= sb.push(vals[k as int]));
            assert(vals.take(k + 1) =~= vals.take(k as int).push(vals[k as int]));
        }
        k += 1;
    }
    r
}

#[verifier::rlimit(40)]
fn dup_cases_of(f: &IRFunction) -> (r: Vec<Pathology>)
    ensures
        path_views(r@) == dup_case_paths(f@),
{
    let body = f.body.as_str();
    let caps = captures(SWITCH_CASES_PATTERN, body);
    let mut r: Vec<Pathology> = Vec::new();
    let ghost cs = caps.deep_view();
    let mut k: usize = 0;
    while k < caps.len()
        invariant
            k <= caps@.len(),
            body@ == f@.body,
            cs == caps.deep_view(),
            cs == rx_caps(SWITCH_CASES_PATTERN@, f@.body),
            captures_ok(cs, body.spec_bytes()),
            path_views(r@) == flatten(switch_dup_lists(f@, cs.take(k as int))),
        decreases caps@.len() - k,
    {
        proof {
            lemma_match_spans(cs, k as int, body.spec_bytes());
            assert(cs[k as int] == caps[k as int].deep_view());
        }
        let ct = group_str(body, &caps[k], 1);
        let ps = switch_dups_of(f, &ct);
        push_paths(&mut r, ps);
        proof {
            lemma_switch_dup_lists_step(f@, cs, k as int);
        }
        k += 1;
    }
    assert(cs.take(k as int) =~= cs);
    r
}

/// Switch case values that occur twice in one switch.
pub fn detect_duplicate_switch_cases(module: &IRModule) -> (r: Vec<Pathology>)
    ensures
        path_views(r@) == flatten(module@.functions.map_values(|f: IRFunctionView| dup_case_paths(f))),
{
    let mut r: Vec<Pathology> = Vec::new();
    let ghost fs = module@.functions;
    let mut i: usize = 0;
    while i < module.functions.len()
        invariant
            i <= module.functions@.len(),
            fs == module@.functions,
            path_views(r@) == flatten(fs.take(i as int).map_values(|f: IRFunctionView| dup_case_paths(f))),
        decreases module.functions@.len() - i,
    {
        let ps = dup_cases_of(&module.functions[i]);
        push_paths(&mut r, ps);
        proof {
            let m = fs.take(i + 1).map_values(|f: IRFunctionView| dup_case_paths(f));
            assert(m.drop_last() =~= fs.take(i as int).map_values(|f: IRFunctionView| dup_case_paths(f)));
        }
        i += 1;
    }
    assert(fs.take(i as int) =~= fs);
    r
}

pub const SIG_RET_PATTERN: &'static str = r"define\s+(?:internal\s+)?(?:dso_local\s+)?(.+?)\s+@";
pub const RET_LINE_PATTERN: &'static str = r"(?m)^\s*ret\s+(.*)";

/// Character index at or after `i` where the brace depth (starting from `depth`,
/// wrapping as an `i32`) returns to zero on a `}`.
pub open spec fn brace_close(s: Seq<char>, i: int, depth: i32) -> Option<int>
    decreases s.len() - i,
{
    if i < 0 || i >= s.len() {
        None
    } else if s[i] == '{' {
        brace_close(s, i + 1, depth.wrapping_add(1))
    } else if s[i] == '}' {
        if depth.wrapping_sub(1) == 0 {
            Some(i)
        } else {
            brace_close(s, i + 1, depth.wrapping_sub(1))
        }
    } else {
        brace_close(s, i + 1, depth)
    }
}

/// Where the type of a `ret {..}` operand ends: one past the character index of
/// the closing brace, taken as a byte offset, or the byte length. Using a
/// character index as a byte offset is kept on purpose: it is how the
/// detector has always cut the operand, it agrees on ASCII lines (all LLVM
/// type syntax), and `ret_type_ok` keeps out the lines where the cut would not
/// fall on a character boundary.
pub open spec fn ret_type_end(rest: Seq<char>) -> int {
    match brace_close(rest, 0, 0) {
        Some(i) => i + 1,
        None => encode_utf8(rest).len() as int,
    }
}

/// Index of the first whitespace character (or the length).
pub open spec fn ws_index(s: Seq<char>, i: int) -> int
    decreases s.len() - i,
{
    if i < 0 || i >= s.len() {
        s.len() as int
    } else if is_ws(s[i]) {
        i
    } else {
        ws_index(s, i + 1)
    }
}

/// The type of a returned value: a braced aggregate, or the first word.
pub open spec fn ret_type_of(rest: Seq<char>) -> Seq<char> {
    if starts_with(rest, "{"@) {
        text_between(rest, 0, ret_type_end(rest))
    } else {
        rest.take(ws_index(rest, 0))
    }
}

/// Slicing the type out of a `ret {..}` operand lands on a character boundary.
pub open spec fn ret_type_ok(rest: Seq<char>) -> bool {
    starts_with(rest, "{"@) ==> is_char_boundary(encode_utf8(rest), ret_type_end(rest))
}

pub open spec fn ret_rest(f: IRFunctionView, c: Seq<Option<(usize, usize)>>) -> Seq<char> {
    trim(group_text(f.body, c, 1))
}

/// The first `ret` at or after `k` whose type differs from `declared`.
pub open spec fn ret_scan(
    f: IRFunctionView,
    declared: Seq<char>,
    caps: Seq<Seq<Option<(usize, usize)>>>,
    k: int,
) -> Seq<PathologyView>
    decreases caps.len() - k,
{
    if k < 0 || k >= caps.len() {
        Seq::empty()
    } else {
        let rest = ret_rest(f, caps[k]);
        if rest == "void"@ {
            ret_scan(f, declared, caps, k + 1)
        } else {
            let ty = ret_type_of(rest);
            if ty != declared && ty != "void"@ {
                seq![
                    pathology(
                        "error"@,
                        "RET_TYPE_MISMATCH"@,
                        f,
                        "ret "@ + ty + " but function declares "@ + declared,
                    ),
                ]
            } else {
                ret_scan(f, declared, caps, k + 1)
            }
        }
    }
}

/// Every `ret` that the scan looks at has a type that can be sliced out.
pub open spec fn ret_scan_ok(
    f: IRFunctionView,
    declared: Seq<char>,
    caps: Seq<Seq<Option<(usize, usize)>>>,
    k: int,
) -> bool
    decreases caps.len() - k,
{
    if k < 0 || k >= caps.len() {
        true
    } else {
        let rest = ret_rest(f, caps[k]);
        if rest == "void"@ {
            ret_scan_ok(f, declared, caps, k + 1)
        } else {
            let ty = ret_type_of(rest);
            ret_type_ok(rest) && (ty != declared && ty != "void"@ || ret_scan_ok(
                f,
                declared,
                caps,
                k + 1,
            ))
        }
    }
}

pub open spec fn declared_ret(f: IRFunctionView) -> Seq<char> {
    trim(group_text(f.signature, rx_caps(SIG_RET_PATTERN@, f.signature)[0], 1))
}

pub open spec fn ret_mismatch_paths(f: IRFunctionView) -> Seq<PathologyView> {
    if rx_caps(SIG_RET_PATTERN@, f.signature).len() == 0 || declared_ret(f) == "void"@ {
        Seq::empty()
    } else {
        ret_scan(f, declared_ret(f), rx_caps(RET_LINE_PATTERN@, f.body), 0)
    }
}

pub open spec fn ret_paths_ok(f: IRFunctionView) -> bool {
    rx_caps(SIG_RET_PATTERN@, f.signature).len() == 0 || declared_ret(f) == "void"@ || ret_scan_ok(
        f,
        declared_ret(f),
        rx_caps(RET_LINE_PATTERN@, f.body),
        0,
    )
}

/// The returned types of every function can be sliced out.
pub open spec fn module_rets_ok(m: IRModuleView) -> bool {
    forall|i: int| 0 <= i < m.functions.len() ==> ret_paths_ok(#[trigger] m.functions[i])
}

/// `brace_close(s, 0, 0)`.
fn brace_close_exec(v: &Vec<char>) -> (r: Option<usize>)
    ensures
        r matches Some(i) ==> brace_close(v@, 0, 0) == Some(i as int) && i < v@.len(),
        r is None ==> brace_close(v@, 0, 0) is None,
{
    let mut depth: i32 = 0;
    let mut i: usize = 0;
    while i < v.len()
        invariant
            i <= v@.len(),
            brace_close(v@, 0, 0) == brace_close(v@, i as int, depth),
        decreases v@.len() - i,
    {
        if v[i] == '{' {
            depth = depth.wrapping_add(1);
        } else if v[i] == '}' {
            depth = depth.wrapping_sub(1);
            if depth == 0 {
                return Some(i);
            }
        }
        i += 1;
    }
    None
}

fn ws_index_exec(v: &Vec<char>) -> (r: usize)
    ensures
        r == ws_index(v@, 0),
        r <= v@.len(),
{
    let mut i: usize = 0;
    while i < v.len()
        invariant
            i <= v@.len(),
            ws_index(v@, 0) == ws_index(v@, i as int),
        decreases v@.len() - i,
    {
        if crate::text::is_whitespace(v[i]) {
            return i;
        }
        i += 1;
    }
    i
}

/// The type of a returned value (`ret_type_of`), where it can be sliced.
fn ret_type_exec(rest: &str) -> (ty: String)
    requires
        ret_type_ok(rest@),
    ensures
        ty@ == ret_type_of(rest@),
{
    let v = chars_of(rest);
    if starts_with_str(rest, "{") {
        let vl = v.len();
        let end = match brace_close_exec(&v) {
            Some(i) => {
                assert(i < vl);
                i + 1
            },
            None => rest.as_bytes().len(),
        };
        proof {
            vstd::utf8::encode_utf8_valid_utf8(rest@);
            assert(end as int == ret_type_end(rest@));
            assert(is_char_boundary(rest.spec_bytes(), end as int));
            assert(end <= rest.spec_bytes().len()) by {
                lemma_encode_len(rest@);
            }
        }
        crate::rx::substring(rest, 0, end)
    } else {
        let k = ws_index_exec(&v);
        crate::text::string_of(v.as_slice(), 0, k)
    }
}

/// A character encodes to at least one byte.
proof fn lemma_encode_len(s: Seq<char>)
    ensures
        s.len() <= encode_utf8(s).len(),
    decreases s.len(),
{
    if s.len() > 0 {
        lemma_encode_len(s.drop_first());
        vstd::utf8::encode_utf8_first_scalar(s);
        assert(encode_utf8(s) =~= vstd::utf8::encode_scalar(s[0] as u32) + encode_utf8(s.drop_first()));
    }
}

fn ret_mismatch_of(f: &IRFunction) -> (r: Vec<Pathology>)
    requires
        ret_paths_ok(f@),
    ensures
        path_views(r@) == ret_mismatch_paths(f@),
{
    let sig = f.signature.as_str();
    let scaps = captures(SIG_RET_PATTERN, sig);
    if scaps.len() == 0 {
        return Vec::new();
    }
    proof {
        lemma_match_spans(scaps.deep_view(), 0, sig.spec_bytes());
        assert(scaps.deep_view()[0] == scaps[0].deep_view());
    }
    let declared = trim_str(group_str(sig, &scaps[0], 1).as_str());
    if declared == "void".to_string() {
        return Vec::new();
    }
    let body = f.body.as_str();
    let caps = captures(RET_LINE_PATTERN, body);
    let mut k: usize = 0;
    while k < caps.len()
        invariant
            k <= caps@.len(),
            body@ == f@.body,
            declared@ == declared_ret(f@),
            caps.deep_view() == rx_caps(RET_LINE_PATTERN@, f@.body),
            captures_ok(caps.deep_view(), body.spec_bytes()),
            ret_mismatch_paths(f@) == ret_scan(f@, declared@, caps.deep_view(), k as int),
            ret_scan_ok(f@, declared@, caps.deep_view(), k as int),
        decreases caps@.len() - k,
    {
        proof {
            lemma_match_spans(caps.deep_view(), k as int, body.spec_bytes());
            assert(caps.deep_view()[k as int] == caps[k as int].deep_view());
        }
        let rest = trim_str(group_str(body, &caps[k], 1).as_str());
        if rest == "void".to_string() {
            k += 1;
            continue;
        }
        let ty = ret_type_exec(rest.as_str());
        if ty != declared && ty != "void".to_string() {
            let mut msg = "ret ".to_string();
            push_all(&mut msg, ty.as_str());
            push_all(&mut msg, " but function declares ");
            push_all(&mut msg, declared.as_str());
            let p = make_pathology("error", "RET_TYPE_MISMATCH", f, msg);
            let mut r: Vec<Pathology> = Vec::new();
            r.push(p);
            assert(path_views(r@) =~= seq![p@]);
            return r;
        }
        k += 1;
    }
    Vec::new()
}

/// `ret` instructions whose type differs from the declared return type.
pub fn detect_ret_type_mismatch(module: &IRModule) -> (r: Vec<Pathology>)
    requires
        module_rets_ok(module@),
    ensures
        path_views(r@) == flatten(module@.functions.map_values(|f: IRFunctionView| ret_mismatch_paths(f))),
{
    let mut r: Vec<Pathology> = Vec::new();
    let ghost fs = module@.functions;
    let mut i: usize = 0;
    while i < module.functions.len()
        invariant
            i <= module.functions@.len(),
            fs == module@.functions,
            module_rets_ok(module@),
            path_views(r@) == flatten(fs.take(i as int).map_values(|f: IRFunctionView| ret_mismatch_paths(f))),
        decreases module.functions@.len() - i,
    {
        proof {
            assert(ret_paths_ok(fs[i as int]));
        }
        let ps = ret_mismatch_of(&module.functions[i]);
        push_paths(&mut r, ps);
        proof {
            let m = fs.take(i + 1).map_values(|f: IRFunctionView| ret_mismatch_paths(f));
            assert(m.drop_last() =~= fs.take(i as int).map_values(
                |f: IRFunctionView| ret_mismatch_paths(f),
            ));
        }
        i += 1;
    }
    assert(fs.take(i as int) =~= fs);
    r
}

// ---------------------------------------------------------------------------
// All detectors, sorted
// ---------------------------------------------------------------------------

/// Sort rank of a severity: errors first, then warnings, then the rest.
pub open spec fn severity_rank(s: Seq<char>) -> nat {
    if s == "error"@ {
        0
    } else if s == "warning"@ {
        1
    } else {
        2
    }
}

/// Lexicographic `<=` on strings (`str` ordering: UTF-8 bytes order as code points do).
pub open spec fn lex_le(a: Seq<char>, b: Seq<char>) -> bool
    decreases a.len(),
{
    if a.len() == 0 {
        true
    } else if b.len() == 0 {
        false
    } else if (a[0] as u32) < (b[0] as u32) {
        true
    } else if (a[0] as u32) > (b[0] as u32) {
        false
    } else {
        lex_le(a.drop_first(), b.drop_first())
    }
}

/// `a` sorts no later than `b`: by severity rank, then by function name.
pub open spec fn path_le(a: PathologyView, b: PathologyView) -> bool {
    severity_rank(a.severity) < severity_rank(b.severity) || (severity_rank(a.severity)
        == severity_rank(b.severity) && lex_le(a.function, b.function))
}

/// `x` inserted after every element that sorts no later than it.
pub open spec fn insert_sorted(s: Seq<PathologyView>, x: PathologyView) -> Seq<PathologyView>
    decreases s.len(),
{
    if s.len() == 0 {
        seq![x]
    } else if path_le(s.last(), x) {
        s.push(x)
    } else {
        insert_sorted(s.drop_last(), x).push(s.last())
    }
}

/// Stable sort by `path_le` (`sort_by` with that comparison).
pub open spec fn sort_paths(s: Seq<PathologyView>) -> Seq<PathologyView>
    decreases s.len(),
{
    if s.len() == 0 {
        Seq::empty()
    } else {
        insert_sorted(sort_paths(s.drop_last()), s.last())
    }
}

fn severity_rank_exec(s: &String) -> (r: u8)
    ensures
        r as nat == severity_rank(s@),
{
    if *s == "error".to_string() {
        0
    } else if *s == "warning".to_string() {
        1
    } else {
        2
    }
}

pub fn lex_le_str(a: &str, b: &str) -> (r: bool)
    ensures
        r == lex_le(a@, b@),
{
    let av = chars_of(a);
    let bv = chars_of(b);
    let mut i: usize = 0;
    assert(av@.skip(0) =~= av@);
    assert(bv@.skip(0) =~= bv@);
    while i < av.len()
        invariant
            i <= av@.len(),
            i <= bv@.len(),
            lex_le(a@, b@) == lex_le(av@.skip(i as int), bv@.skip(i as int)),
            av@ == a@,
            bv@ == b@,
        decreases av@.len() - i,
    {
        if i >= bv.len() {
            return false;
        }
        let x = av[i] as u32;
        let y = bv[i] as u32;
        if x < y {
            return true;
        }
        if x > y {
            return false;
        }
        proof {
            assert(av@.skip(i as int).drop_first() =~= av@.skip(i + 1));
            assert(bv@.skip(i as int).drop_first() =~= bv@.skip(i + 1));
        }
        i += 1;
    }
    true
}

fn path_le_exec(a: &Pathology, b: &Pathology) -> (r: bool)
    ensures
        r == path_le(a@, b@),
{
    let ra = severity_rank_exec(&a.severity);
    let rb = severity_rank_exec(&b.severity);
    ra < rb || (ra == rb && lex_le_str(a.function.as_str(), b.function.as_str()))
}

proof fn lemma_insert_sorted_at(s: Seq<PathologyView>, x: PathologyView, j: int)
    requires
        0 <= j <= s.len(),
        j == 0 || path_le(s[j - 1], x),
        forall|k: int| j <= k < s.len() ==> !path_le(#[trigger] s[k], x),
    ensures
        insert_sorted(s, x) == s.insert(j, x),
    decreases s.len(),
{
    if s.len() == 0 {
        assert(s.insert(j, x) =~= seq![x]);
    } else if j == s.len() {
        assert(s.insert(j, x) =~= s.push(x));
    } else {
        assert(!path_le(s.last(), x));
        lemma_insert_sorted_at(s.drop_last(), x, j);
        assert(s.insert(j, x) =~= s.drop_last().insert(j, x).push(s.last()));
    }
}

/// Stable insertion sort by severity rank, then function name.
pub fn sort_pathologies(v: Vec<Pathology>) -> (r: Vec<Pathology>)
    ensures
        path_views(r@) == sort_paths(path_views(v@)),
{
    let mut r: Vec<Pathology> = Vec::new();
    let mut i: usize = 0;
    while i < v.len()
        invariant
            i <= v@.len(),
            path_views(r@) == sort_paths(path_views(v@.take(i as int))),
        decreases v@.len() - i,
    {
        let x = v[i].clone_pathology();
        let mut j = r.len();
        while j > 0 && !path_le_exec(&r[j - 1], &x)
            invariant
                j <= r@.len(),
                forall|k: int| j <= k < r@.len() ==> !path_le(#[trigger] r@[k]@, x@),
            decreases j,
        {
            j -= 1;
        }
        proof {
            let pv = path_views(r@);
            assert forall|k: int| j <= k < pv.len() implies !path_le(#[trigger] pv[k], x@) by {
                assert(pv[k] == r@[k]@);
            }
            if j > 0 {
                assert(pv[j - 1] == r@[j - 1]@);
            }
            lemma_insert_sorted_at(pv, x@, j as int);
            assert(path_views(v@.take(i + 1)).drop_last() =~= path_views(v@.take(i as int)));
            assert(path_views(v@.take(i + 1)).last() == v@[i as int]@);
        }
        let ghost before = r@;
        r.insert(j, x);
        proof {
            assert(path_views(r@) =~= path_views(before).insert(j as int, x@));
        }
        i += 1;
    }
    assert(v@.take(i as int) =~= v@);
    r
}

/// Everything the four detectors report, in detector order.
pub open spec fn all_pathologies(m: IRModuleView) -> Seq<PathologyView> {
    flatten(m.functions.map_values(|f: IRFunctionView| empty_switch_paths(f))) + flatten(
        m.functions.map_values(|f: IRFunctionView| ret_mismatch_paths(f)),
    ) + flatten(m.functions.map_values(|f: IRFunctionView| missing_pct_paths(f))) + flatten(
        m.functions.map_values(|f: IRFunctionView| dup_case_paths(f)),
    )
}

/// Runs all detectors and sorts their reports by severity (errors first), then
/// by function name; reports that tie keep detector order.
pub fn run_all_detectors(module: &IRModule) -> (r: Vec<Pathology>)
    requires
        module_rets_ok(module@),
    ensures
        path_views(r@) == sort_paths(all_pathologies(module@)),
{
    let mut all: Vec<Pathology> = Vec::new();
    push_paths(&mut all, detect_empty_switches(module));
    push_paths(&mut all, detect_ret_type_mismatch(module));
    push_paths(&mut all, detect_missing_percent(module));
    push_paths(&mut all, detect_duplicate_switch_cases(module));
    assert(path_views(all@) =~= all_pathologies(module@));
    sort_pathologies(all)
}

/// Whether the type of a returned value can be sliced out (`ret_type_ok`).
fn ret_type_sliceable(rest: &str) -> (b: bool)
    ensures
        b == ret_type_ok(rest@),
{
    if !starts_with_str(rest, "{") {
        return true;
    }
    let v = chars_of(rest);
    let vl = v.len();
    match brace_close_exec(&v) {
        Some(i) => {
            assert(i < vl);
            assert((i + 1) as int == ret_type_end(rest@));
            rest.is_char_boundary(i + 1)
        },
        None => {
            proof {
                vstd::utf8::encode_utf8_valid_utf8(rest@);
                vstd::utf8::is_char_boundary_start_end_of_seq(rest.spec_bytes());
            }
            true
        },
    }
}

/// Whether every `ret` that the mismatch scan of `f` looks at can be sliced.
pub fn rets_sliceable(f: &IRFunction) -> (b: bool)
    ensures
        b == ret_paths_ok(f@),
{
    let sig = f.signature.as_str();
    let scaps = captures(SIG_RET_PATTERN, sig);
    if scaps.len() == 0 {
        return true;
    }
    proof {
        lemma_match_spans(scaps.deep_view(), 0, sig.spec_bytes());
        assert(scaps.deep_view()[0] == scaps[0].deep_view());
    }
    let declared = trim_str(group_str(sig, &scaps[0], 1).as_str());
    if declared == "void".to_string() {
        return true;
    }
    let body = f.body.as_str();
    let caps = captures(RET_LINE_PATTERN, body);
    let mut k: usize = 0;
    while k < caps.len()
        invariant
            k <= caps@.len(),
            body@ == f@.body,
            declared@ == declared_ret(f@),
            declared@ != "void"@,
            rx_caps(SIG_RET_PATTERN@, f@.signature).len() != 0,
            caps.deep_view() == rx_caps(RET_LINE_PATTERN@, f@.body),
            captures_ok(caps.deep_view(), body.spec_bytes()),
            ret_paths_ok(f@) == ret_scan_ok(f@, declared@, caps.deep_view(), k as int),
        decreases caps@.len() - k,
    {
        proof {
            lemma_match_spans(caps.deep_view(), k as int, body.spec_bytes());
            assert(caps.deep_view()[k as int] == caps[k as int].deep_view());
        }
        let rest = trim_str(group_str(body, &caps[k], 1).as_str());
        if rest == "void".to_string() {
            k += 1;
            continue;
        }
        if !ret_type_sliceable(rest.as_str()) {
            return false;
        }
        let ty = ret_type_exec(rest.as_str());
        if ty != declared && ty != "void".to_string() {
            return true;
        }
        k += 1;
    }
    true
}

/// `run_all_detectors` where every returned type can be sliced out; `None`
/// where slicing one would panic.
pub fn try_run_all_detectors(module: &IRModule) -> (r: Option<Vec<Pathology>>)
    ensures
        r is Some <==> module_rets_ok(module@),
        r matches Some(v) ==> path_views(v@) == sort_paths(all_pathologies(module@)),
{
    let mut i: usize = 0;
    while i < module.functions.len()
        invariant
            i <= module.functions@.len(),
            forall|j: int| 0 <= j < i ==> ret_paths_ok(#[trigger] module@.functions[j]),
        decreases module.functions@.len() - i,
    {
        if !rets_sliceable(&module.functions[i]) {
            assert(!ret_paths_ok(module@.functions[i as int]));
            return None;
        }
        i += 1;
    }
    Some(run_all_detectors(module))
}

} // verus!
