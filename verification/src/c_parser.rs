//! C source reader: includes, forward declarations, structs with their fields,
//! enums with their variants, and function definitions with their metrics and
//! structural hashes.
use vstd::prelude::*;
use vstd::string::StringSliceAdditionalSpecFns;
use vstd::utf8::{encode_utf8, is_char_boundary};
use crate::rx::{
    captures, captures_ok, group_str, group_text, match_end, match_start, regex_replace_all,
    rx_caps, rx_count, rx_replace, span_ok, substring, text_between,
};
use crate::ir::{
    brace_scan, default_hash, default_hasher_hash, fn_body_ok, lemma_brace_scan_bounds,
    lemma_match_spans, line_at, line_of_offset, match_texts, scan_braces,
};
use crate::text::{
    count_matches, count_occ, ends_with, ends_with_str, hex16, strip_trailing, strip_trailing_str, hex_digits, join_lines,
    join_newline, lines, lines_of, split, split_str, starts_with, starts_with_str, trim, trim_str,
};

verus! {

// ---------------------------------------------------------------------------
// C data structures
// ---------------------------------------------------------------------------

#[derive(Debug, Clone, Copy, Default)]
pub struct CFnMetrics {
    pub lines: usize,
    pub statements: usize,
    pub locals: usize,
    pub calls: usize,
    pub ifs: usize,
    pub switches: usize,
    pub gotos: usize,
    pub returns: usize,
    pub loops: usize,
    pub mallocs: usize,
    pub frees: usize,
}

#[derive(Debug, Clone)]
pub struct CFunction {
    pub name: String,
    pub return_type: String,
    pub params: Vec<String>,
    pub body: String,
    pub line_start: usize,
    pub line_end: usize,
    pub metrics: CFnMetrics,
    pub body_hash: String,
}

#[derive(Debug, Clone)]
pub struct CField {
    pub name: String,
    pub field_type: String,
}

#[derive(Debug, Clone)]
pub struct CStruct {
    pub name: String,
    pub fields: Vec<CField>,
    pub line: usize,
    pub is_typedef: bool,
}

#[derive(Debug, Clone)]
pub struct CEnum {
    pub name: String,
    pub variants: Vec<String>,
    pub line: usize,
}

/// A parsed C file. `functions` is keyed by name: no two entries share one, and
/// they stand in the order in which their names first appear.
#[derive(Debug, Clone)]
pub struct CModule {
    pub source: String,
    pub functions: Vec<CFunction>,
    pub structs: Vec<CStruct>,
    pub enums: Vec<CEnum>,
    pub typedefs: Vec<String>,
    pub includes: Vec<String>,
    pub forward_decls: Vec<String>,
}

// ---------------------------------------------------------------------------
// Views
// ---------------------------------------------------------------------------

pub struct CFunctionView {
    pub name: Seq<char>,
    pub return_type: Seq<char>,
    pub params: Seq<Seq<char>>,
    pub body: Seq<char>,
    pub line_start: usize,
    pub line_end: usize,
    pub metrics: CFnMetrics,
    pub body_hash: Seq<char>,
}

impl View for CFunction {
    type V = CFunctionView;

    open spec fn view(&self) -> CFunctionView {
        CFunctionView {
            name: self.name@,
            return_type: self.return_type@,
            params: self.params.deep_view(),
            body: self.body@,
            line_start: self.line_start,
            line_end: self.line_end,
            metrics: self.metrics,
            body_hash: self.body_hash@,
        }
    }
}

pub struct CFieldView {
    pub name: Seq<char>,
    pub field_type: Seq<char>,
}

impl View for CField {
    type V = CFieldView;

    open spec fn view(&self) -> CFieldView {
        CFieldView { name: self.name@, field_type: self.field_type@ }
    }
}

pub struct CStructView {
    pub name: Seq<char>,
    pub fields: Seq<CFieldView>,
    pub line: usize,
    pub is_typedef: bool,
}

impl View for CStruct {
    type V = CStructView;

    open spec fn view(&self) -> CStructView {
        CStructView {
            name: self.name@,
            fields: self.fields@.map_values(|f: CField| f@),
            line: self.line,
            is_typedef: self.is_typedef,
        }
    }
}

pub struct CEnumView {
    pub name: Seq<char>,
    pub variants: Seq<Seq<char>>,
    pub line: usize,
}

impl View for CEnum {
    type V = CEnumView;

    open spec fn view(&self) -> CEnumView {
        CEnumView { name: self.name@, variants: self.variants.deep_view(), line: self.line }
    }
}

pub struct CModuleView {
    pub source: Seq<char>,
    pub functions: Seq<CFunctionView>,
    pub structs: Seq<CStructView>,
    pub enums: Seq<CEnumView>,
    pub typedefs: Seq<Seq<char>>,
    pub includes: Seq<Seq<char>>,
    pub forward_decls: Seq<Seq<char>>,
}

impl View for CModule {
    type V = CModuleView;

    open spec fn view(&self) -> CModuleView {
        CModuleView {
            source: self.source@,
            functions: self.functions@.map_values(|f: CFunction| f@),
            structs: self.structs@.map_values(|s: CStruct| s@),
            enums: self.enums@.map_values(|e: CEnum| e@),
            typedefs: self.typedefs.deep_view(),
            includes: self.includes.deep_view(),
            forward_decls: self.forward_decls.deep_view(),
        }
    }
}

// ---------------------------------------------------------------------------
// Function bodies: brace matching that skips comments and string literals
// ---------------------------------------------------------------------------

/// Bytes scanned for the end of one function body at most.
pub const MAX_BODY_SCAN: usize = 50_000_000;

/// First newline at or after `p`, or the end of `b`.
pub open spec fn skip_line(b: Seq<u8>, p: int) -> int
    decreases b.len() - p,
{
    if p < 0 || p >= b.len() || b[p] == 0x0A {
        p
    } else {
        skip_line(b, p + 1)
    }
}

/// The closing quote of a string literal whose contents start at `p` (a
/// backslash skips the byte after it), or a position at or past the end of `b`.
pub open spec fn skip_string(b: Seq<u8>, p: int) -> int
    decreases b.len() + 2 - p,
{
    if p < 0 || p >= b.len() || b[p] == 0x22 {
        p
    } else if b[p] == 0x5C {
        skip_string(b, p + 2)
    } else {
        skip_string(b, p + 1)
    }
}

pub proof fn lemma_skip_line(b: Seq<u8>, p: int)
    requires
        0 <= p <= b.len(),
    ensures
        p <= skip_line(b, p) <= b.len(),
        skip_line(b, p) < b.len() ==> b[skip_line(b, p)] == 0x0A,
    decreases b.len() - p,
{
    if p < b.len() && b[p] != 0x0A {
        lemma_skip_line(b, p + 1);
    }
}

pub proof fn lemma_skip_string(b: Seq<u8>, p: int)
    requires
        0 <= p <= b.len() + 1,
    ensures
        p <= skip_string(b, p) <= b.len() + 1,
        skip_string(b, p) < b.len() ==> b[skip_string(b, p)] == 0x22,
    decreases b.len() + 2 - p,
{
    if p < b.len() && b[p] != 0x22 {
        if b[p] == 0x5C {
            lemma_skip_string(b, p + 2);
        } else {
            lemma_skip_string(b, p + 1);
        }
    }
}

/// Scans from `pos` with `depth` braces open, below `max`: `{` opens, `}`
/// closes, a `//` comment runs to the end of its line, a string literal runs to
/// its closing quote. The position after the brace that closes the body, or
/// `None` when the scan reaches `max` first.
pub open spec fn c_scan(b: Seq<u8>, pos: int, depth: int, max: int) -> Option<int>
    decreases b.len() + 3 - pos,
{
    if depth <= 0 {
        Some(pos)
    } else if pos < 0 || pos >= max || pos >= b.len() {
        None
    } else if b[pos] == 0x7B {
        c_scan(b, pos + 1, depth + 1, max)
    } else if b[pos] == 0x7D {
        c_scan(b, pos + 1, depth - 1, max)
    } else if b[pos] == 0x2F && pos + 1 < b.len() && b[pos + 1] == 0x2F {
        proof {
            lemma_skip_line(b, pos);
        }
        c_scan(b, skip_line(b, pos) + 1, depth, max)
    } else if b[pos] == 0x22 {
        proof {
            lemma_skip_string(b, pos + 1);
        }
        c_scan(b, skip_string(b, pos + 1) + 1, depth, max)
    } else {
        c_scan(b, pos + 1, depth, max)
    }
}

/// End of the body that opens just before `start`: the scan stops after
/// `MAX_BODY_SCAN` bytes or at the end of the text.
pub open spec fn c_body_end(b: Seq<u8>, start: int) -> Option<int> {
    let max = if start + MAX_BODY_SCAN < b.len() {
        start + MAX_BODY_SCAN
    } else {
        b.len() as int
    };
    c_scan(b, start, 1, max)
}

pub proof fn lemma_c_scan(b: Seq<u8>, pos: int, depth: int, max: int)
    requires
        0 <= pos,
        depth > 0,
        max <= b.len(),
    ensures
        c_scan(b, pos, depth, max) matches Some(p) ==> pos < p <= max && b[p - 1] == 0x7D,
    decreases b.len() + 3 - pos,
{
    if pos < max && pos < b.len() {
        if b[pos] == 0x7B {
            lemma_c_scan(b, pos + 1, depth + 1, max);
        } else if b[pos] == 0x7D {
            if depth - 1 > 0 {
                lemma_c_scan(b, pos + 1, depth - 1, max);
            }
        } else if b[pos] == 0x2F && pos + 1 < b.len() && b[pos + 1] == 0x2F {
            lemma_skip_line(b, pos);
            lemma_c_scan(b, skip_line(b, pos) + 1, depth, max);
        } else if b[pos] == 0x22 {
            lemma_skip_string(b, pos + 1);
            lemma_c_scan(b, skip_string(b, pos + 1) + 1, depth, max);
        } else {
            lemma_c_scan(b, pos + 1, depth, max);
        }
    }
}

/// `skip_line` on a byte slice.
fn skip_line_at(b: &[u8], p: usize) -> (q: usize)
    requires
        p <= b@.len(),
    ensures
        q == skip_line(b@, p as int),
{
    proof {
        lemma_skip_line(b@, p as int);
    }
    let mut q = p;
    while q < b.len() && b[q] != 0x0A
        invariant
            p <= q <= b@.len(),
            skip_line(b@, p as int) == skip_line(b@, q as int),
        decreases b@.len() - q,
    {
        q = q + 1;
    }
    q
}

/// `skip_string` on a byte slice, where every position past the end reads as
/// the end.
fn skip_string_at(b: &[u8], p: usize) -> (q: usize)
    requires
        p <= b@.len(),
    ensures
        skip_string(b@, p as int) < b@.len() ==> q == skip_string(b@, p as int),
        skip_string(b@, p as int) >= b@.len() ==> q == b@.len(),
{
    proof {
        lemma_skip_string(b@, p as int);
    }
    let mut q = p;
    while q < b.len() && b[q] != 0x22
        invariant
            p <= q <= b@.len(),
            skip_string(b@, p as int) == skip_string(b@, q as int),
        decreases b@.len() - q,
    {
        if b[q] == 0x5C {
            if q + 1 >= b.len() {
                assert(skip_string(b@, q + 2) == q + 2);
                return b.len();
            }
            q = q + 2;
        } else {
            q = q + 1;
        }
    }
    q
}

/// Position after the brace that closes the body starting at `start`, if it
/// closes within the scanned bytes.
pub fn find_body_end(text: &str, start: usize) -> (r: Option<usize>)
    requires
        start <= text.spec_bytes().len(),
        text.spec_bytes().len() < usize::MAX,
    ensures
        r matches Some(p) ==> c_body_end(text.spec_bytes(), start as int) == Some(p as int),
        r is None ==> c_body_end(text.spec_bytes(), start as int) is None,
        r matches Some(p) ==> start < p <= text.spec_bytes().len() && text.spec_bytes()[p - 1]
            == 0x7D,
{
    let b = text.as_bytes();
    let len = b.len();
    let max = if len - start > MAX_BODY_SCAN {
        start + MAX_BODY_SCAN
    } else {
        len
    };
    let ghost bs = b@;
    proof {
        lemma_c_scan(bs, start as int, 1, max as int);
    }
    let mut depth: i32 = 1;
    let mut pos: usize = start;
    while pos < max && depth > 0
        invariant
            bs == b@,
            bs == text.spec_bytes(),
            len == bs.len(),
            len < usize::MAX,
            start <= pos <= len + 1,
            max <= len,
            max - start <= MAX_BODY_SCAN,
            pos < max ==> depth <= 1 + pos - start,
            0 <= depth,
            c_body_end(bs, start as int) == c_scan(bs, pos as int, depth as int, max as int),
        decreases len + 3 - pos,
    {
        let x = b[pos];
        if x == 0x7B {
            depth = depth + 1;
            pos = pos + 1;
        } else if x == 0x7D {
            depth = depth - 1;
            pos = pos + 1;
        } else if x == 0x2F && pos + 1 < len && b[pos + 1] == 0x2F {
            proof {
                lemma_skip_line(bs, pos as int);
            }
            pos = skip_line_at(b, pos) + 1;
        } else if x == 0x22 {
            proof {
                lemma_skip_string(bs, pos + 1);
            }
            let q = skip_string_at(b, pos + 1);
            if q >= len {
                // the literal runs to the end of the text: the body never closes
                let ghost nq = skip_string(bs, pos + 1) + 1;
                assert(c_scan(bs, nq, depth as int, max as int) is None);
                return None;
            }
            pos = q + 1;
        } else {
            pos = pos + 1;
        }
    }
    if depth != 0 {
        return None;
    }
    Some(pos)
}

// ---------------------------------------------------------------------------
// Function metrics
// ---------------------------------------------------------------------------

pub const C_CALL_PATTERN: &'static str = r"\w+\s*\(";
pub const C_LOCAL_PATTERN: &'static str = r"(?m)^\s+\w[\w\s*]*\s+\w+\s*[=;]";
pub const C_GOTO_PATTERN: &'static str = r"\bgoto\s+\w+";
pub const C_RETURN_PATTERN: &'static str = r"\breturn\b";

/// A trimmed body line that counts as code: not blank, not a comment opener.
pub open spec fn is_code_line(t: Seq<char>) -> bool {
    !(t.len() == 0 || starts_with(t, "//"@) || starts_with(t, "/*"@))
}

/// A trimmed code line that ends a statement or opens or closes a block.
pub open spec fn is_statement_line(t: Seq<char>) -> bool {
    ends_with(t, ";"@) || ends_with(t, "{"@) || ends_with(t, "}"@)
}

pub open spec fn code_line_count(ls: Seq<Seq<char>>) -> nat
    decreases ls.len(),
{
    if ls.len() == 0 {
        0
    } else {
        code_line_count(ls.drop_last()) + if is_code_line(trim(ls.last())) {
            1nat
        } else {
            0nat
        }
    }
}

pub open spec fn statement_count(ls: Seq<Seq<char>>) -> nat
    decreases ls.len(),
{
    if ls.len() == 0 {
        0
    } else {
        statement_count(ls.drop_last()) + if is_code_line(trim(ls.last())) && is_statement_line(
            trim(ls.last()),
        ) {
            1nat
        } else {
            0nat
        }
    }
}

/// The callee word of a call match `name (`.
pub open spec fn call_word(m: Seq<char>) -> Seq<char> {
    trim(strip_trailing(m, '('))
}

/// Words that a call match may catch but that are no calls.
pub open spec fn is_c_keyword(w: Seq<char>) -> bool {
    w == "if"@ || w == "for"@ || w == "while"@ || w == "switch"@ || w == "return"@ || w == "goto"@
        || w == "else"@
}

/// Call matches among the first `n` whose word is not a keyword.
pub open spec fn call_count(body: Seq<char>, caps: Seq<Seq<Option<(usize, usize)>>>, n: nat) -> nat
    decreases n,
{
    if n == 0 || n > caps.len() {
        0
    } else {
        call_count(body, caps, (n - 1) as nat) + if is_c_keyword(
            call_word(group_text(body, caps[n - 1], 0)),
        ) {
            0nat
        } else {
            1nat
        }
    }
}

/// `if` keywords after a space, a tab or a newline.
pub open spec fn c_if_count(body: Seq<char>) -> usize {
    (count_occ(body, " if "@) as usize).wrapping_add(count_occ(body, "\tif "@) as usize).wrapping_add(
        count_occ(body, "\nif "@) as usize,
    )
}

pub open spec fn c_switch_count(body: Seq<char>) -> usize {
    (count_occ(body, "switch "@) as usize).wrapping_add(count_occ(body, "switch("@) as usize)
}

pub open spec fn c_loop_count(body: Seq<char>) -> usize {
    (count_occ(body, "for "@) as usize).wrapping_add(count_occ(body, "for("@) as usize).wrapping_add(
        count_occ(body, "while "@) as usize,
    ).wrapping_add(count_occ(body, "while("@) as usize)
}

pub open spec fn c_malloc_count(body: Seq<char>) -> usize {
    (count_occ(body, "malloc("@) as usize).wrapping_add(count_occ(body, "calloc("@) as usize)
}

/// The metrics of a C function body.
pub open spec fn c_metrics_of(body: Seq<char>) -> CFnMetrics {
    let ls = lines(body);
    let calls = rx_caps(C_CALL_PATTERN@, body);
    CFnMetrics {
        lines: code_line_count(ls) as usize,
        statements: statement_count(ls) as usize,
        locals: rx_count(C_LOCAL_PATTERN@, body) as usize,
        calls: call_count(body, calls, calls.len()) as usize,
        ifs: c_if_count(body),
        switches: c_switch_count(body),
        gotos: rx_count(C_GOTO_PATTERN@, body) as usize,
        returns: rx_count(C_RETURN_PATTERN@, body) as usize,
        loops: c_loop_count(body),
        mallocs: c_malloc_count(body),
        frees: count_occ(body, "free("@) as usize,
    }
}

fn if_count(body: &str) -> (n: usize)
    ensures
        n == c_if_count(body@),
{
    count_matches(body, " if ").wrapping_add(count_matches(body, "\tif ")).wrapping_add(
        count_matches(body, "\nif "),
    )
}

fn switch_count(body: &str) -> (n: usize)
    ensures
        n == c_switch_count(body@),
{
    count_matches(body, "switch ").wrapping_add(count_matches(body, "switch("))
}

fn loop_count(body: &str) -> (n: usize)
    ensures
        n == c_loop_count(body@),
{
    count_matches(body, "for ").wrapping_add(count_matches(body, "for(")).wrapping_add(
        count_matches(body, "while "),
    ).wrapping_add(count_matches(body, "while("))
}

fn malloc_count(body: &str) -> (n: usize)
    ensures
        n == c_malloc_count(body@),
{
    count_matches(body, "malloc(").wrapping_add(count_matches(body, "calloc("))
}

/// Lines that are code, and lines that end a statement or open or close a block.
pub fn count_code_lines(body: &str) -> (r: (usize, usize))
    ensures
        r.0 == code_line_count(lines(body@)),
        r.1 == statement_count(lines(body@)),
{
    let ls = lines_of(body);
    let mut n: usize = 0;
    let mut st: usize = 0;
    let mut i: usize = 0;
    while i < ls.len()
        invariant
            i <= ls@.len(),
            n <= i,
            st <= i,
            n == code_line_count(ls.deep_view().take(i as int)),
            st == statement_count(ls.deep_view().take(i as int)),
        decreases ls@.len() - i,
    {
        let t = trim_str(ls[i].as_str());
        proof {
            assert(ls.deep_view().take(i + 1).drop_last() =~= ls.deep_view().take(i as int));
        }
        let ts = t.as_str();
        if !(ts.is_empty() || starts_with_str(ts, "//") || starts_with_str(ts, "/*")) {
            n += 1;
            if ends_with_str(ts, ";") || ends_with_str(ts, "{") || ends_with_str(ts, "}") {
                st += 1;
            }
        }
        i += 1;
    }
    assert(ls.deep_view().take(i as int) =~= ls.deep_view());
    (n, st)
}

fn is_c_keyword_exec(w: &String) -> (b: bool)
    ensures
        b == is_c_keyword(w@),
{
    *w == "if".to_string() || *w == "for".to_string() || *w == "while".to_string() || *w
        == "switch".to_string() || *w == "return".to_string() || *w == "goto".to_string() || *w
        == "else".to_string()
}

/// Call matches whose callee word is not a keyword.
pub fn count_calls(body: &str) -> (n: usize)
    ensures
        n == call_count(body@, rx_caps(C_CALL_PATTERN@, body@), rx_caps(C_CALL_PATTERN@, body@).len()),
{
    let caps = captures(C_CALL_PATTERN, body);
    let mut n: usize = 0;
    let mut k: usize = 0;
    while k < caps.len()
        invariant
            k <= caps@.len(),
            n <= k,
            captures_ok(caps.deep_view(), body.spec_bytes()),
            caps.deep_view() == rx_caps(C_CALL_PATTERN@, body@),
            n == call_count(body@, caps.deep_view(), k as nat),
        decreases caps@.len() - k,
    {
        proof {
            lemma_match_spans(caps.deep_view(), k as int, body.spec_bytes());
            assert(caps.deep_view()[k as int] == caps[k as int].deep_view());
        }
        let m = group_str(body, &caps[k], 0);
        let w = trim_str(strip_trailing_str(m.as_str(), '(').as_str());
        if !is_c_keyword_exec(&w) {
            n += 1;
        }
        k += 1;
    }
    n
}

/// Counts code lines, statements, locals, calls, ifs, switches, gotos,
/// returns, loops, allocations and frees of a C function body.
pub fn analyze_c_function(body: &str) -> (m: CFnMetrics)
    ensures
        m == c_metrics_of(body@),
{
    let (lines, statements) = count_code_lines(body);
    let calls = count_calls(body);
    let locals = captures(C_LOCAL_PATTERN, body).len();
    let gotos = captures(C_GOTO_PATTERN, body).len();
    let rets = captures(C_RETURN_PATTERN, body).len();
    let m = CFnMetrics {
        lines,
        statements,
        locals,
        calls,
        ifs: if_count(body),
        switches: switch_count(body),
        gotos,
        returns: rets,
        loops: loop_count(body),
        mallocs: malloc_count(body),
        frees: count_matches(body, "free("),
    };
    let ghost want = c_metrics_of(body@);
    assert(m.lines == want.lines);
    assert(m.statements == want.statements);
    assert(m.locals == want.locals);
    assert(m.calls == want.calls);
    assert(m.ifs == want.ifs);
    assert(m.gotos == want.gotos);
    assert(m.returns == want.returns);
    assert(m.loops == want.loops);
    assert(m.frees == want.frees);
    m
}

// ---------------------------------------------------------------------------
// Structural hash
// ---------------------------------------------------------------------------

pub const C_VAR_PATTERN: &'static str = r"\b[a-z_]\w*\b";

/// Trimmed lines, blank ones and `//` comment lines dropped.
pub open spec fn kept_c_lines(ls: Seq<Seq<char>>) -> Seq<Seq<char>>
    decreases ls.len(),
{
    if ls.len() == 0 {
        Seq::empty()
    } else {
        let rest = kept_c_lines(ls.drop_last());
        let t = trim(ls.last());
        if t.len() == 0 || starts_with(t, "//"@) {
            rest
        } else {
            rest.push(t)
        }
    }
}

/// A C body with every lower-case identifier replaced by `V`, trimmed, blank and
/// comment lines dropped.
pub open spec fn normalize_c(body: Seq<char>) -> Seq<char> {
    join_lines(kept_c_lines(lines(rx_replace(C_VAR_PATTERN@, body, "V"@))))
}

pub open spec fn structural_hash_c_spec(body: Seq<char>) -> Seq<char> {
    hex_digits(default_hash(normalize_c(body)) as nat, 16)
}

/// The identifier-normalized form of a C function body.
pub fn normalize_c_body(body: &str) -> (r: String)
    ensures
        r@ == normalize_c(body@),
{
    let n1 = regex_replace_all(C_VAR_PATTERN, body, "V");
    let ls = lines_of(n1.as_str());
    let mut kept: Vec<String> = Vec::new();
    let mut i: usize = 0;
    while i < ls.len()
        invariant
            i <= ls@.len(),
            kept.deep_view() == kept_c_lines(ls.deep_view().take(i as int)),
        decreases ls@.len() - i,
    {
        let t = trim_str(ls[i].as_str());
        proof {
            assert(ls.deep_view().take(i + 1).drop_last() =~= ls.deep_view().take(i as int));
        }
        if !(t.as_str().is_empty() || starts_with_str(t.as_str(), "//")) {
            kept.push(t);
        }
        proof {
            assert(kept.deep_view() =~= kept_c_lines(ls.deep_view().take(i + 1)));
        }
        i += 1;
    }
    assert(ls.deep_view().take(i as int) =~= ls.deep_view());
    join_newline(&kept)
}

/// Hash of the identifier-normalized body, so that bodies that differ only in
/// the names of their variables and functions hash alike.
pub fn structural_hash_c(body: &str) -> (r: String)
    ensures
        r@ == structural_hash_c_spec(body@),
{
    let norm = normalize_c_body(body);
    hex16(default_hasher_hash(norm.as_str()))
}

// ---------------------------------------------------------------------------
// Includes, forward declarations, structs and enums
// ---------------------------------------------------------------------------

pub const C_FN_PATTERN: &'static str = r"(?m)^(?:static\s+|inline\s+|MN_EXPORT\s+|extern\s+)*([\w\s*]+?)\s+(\w+)\s*\(([^)]*)\)\s*\{";
pub const C_STRUCT_PATTERN: &'static str = r"(?m)^(?:typedef\s+)?struct\s+(\w+)?\s*\{";
pub const C_TYPEDEF_NAME_PATTERN: &'static str = r"(?m)^\}\s*(\w+)\s*;";
pub const C_ENUM_PATTERN: &'static str = r"(?m)^(?:typedef\s+)?enum\s+(\w+)?\s*\{";
pub const C_INCLUDE_PATTERN: &'static str = r#"(?m)^#include\s+[<"](.+)[>"]"#;
pub const C_FORWARD_PATTERN: &'static str = r"(?m)^(?:extern\s+)?\w[\w\s*]*\s+\w+\s*\([^)]*\)\s*;";
pub const C_FIELD_PATTERN: &'static str = r"(?m)^\s+([\w\s*]+?)\s+(\w+)\s*(?:\[[\w\s]*\])?\s*;";
pub const C_VARIANT_PATTERN: &'static str = r"(\w+)\s*(?:=\s*\d+)?\s*[,}]";

/// Texts of capture group `g` of every match.
pub fn group_texts(text: &str, caps: &Vec<Vec<Option<(usize, usize)>>>, g: usize) -> (r: Vec<String>)
    requires
        captures_ok(caps.deep_view(), text.spec_bytes()),
    ensures
        r.deep_view() == caps.deep_view().map_values(
            |c: Seq<Option<(usize, usize)>>| group_text(text@, c, g as int),
        ),
{
    let mut r: Vec<String> = Vec::new();
    let mut i: usize = 0;
    while i < caps.len()
        invariant
            i <= caps@.len(),
            captures_ok(caps.deep_view(), text.spec_bytes()),
            r@.len() == i,
            forall|j: int| 0 <= j < i ==> r.deep_view()[j] == group_text(text@, caps.deep_view()[j], g as int),
        decreases caps@.len() - i,
    {
        proof {
            lemma_match_spans(caps.deep_view(), i as int, text.spec_bytes());
            assert(caps.deep_view()[i as int] == caps[i as int].deep_view());
        }
        let t = group_str(text, &caps[i], g);
        let ghost old_r = r.deep_view();
        r.push(t);
        assert(r.deep_view() =~= old_r.push(t@));
        i += 1;
    }
    assert(r.deep_view() =~= caps.deep_view().map_values(
        |c: Seq<Option<(usize, usize)>>| group_text(text@, c, g as int),
    ));
    r
}

/// The declarations among `ds` that hold no `{`.
pub open spec fn without_braces(ds: Seq<Seq<char>>) -> Seq<Seq<char>>
    decreases ds.len(),
{
    if ds.len() == 0 {
        Seq::empty()
    } else {
        let r = without_braces(ds.drop_last());
        if crate::text::contains(ds.last(), "{"@) {
            r
        } else {
            r.push(ds.last())
        }
    }
}

pub open spec fn c_includes(text: Seq<char>) -> Seq<Seq<char>> {
    rx_caps(C_INCLUDE_PATTERN@, text).map_values(
        |c: Seq<Option<(usize, usize)>>| group_text(text, c, 1),
    )
}

pub open spec fn c_forward_decls(text: Seq<char>) -> Seq<Seq<char>> {
    without_braces(
        rx_caps(C_FORWARD_PATTERN@, text).map_values(
            |c: Seq<Option<(usize, usize)>>| group_text(text, c, 0),
        ),
    )
}

/// The included paths of every `#include <..>` or `#include ".."` line.
pub fn parse_includes(text: &str) -> (r: Vec<String>)
    ensures
        r.deep_view() == c_includes(text@),
{
    let caps = captures(C_INCLUDE_PATTERN, text);
    group_texts(text, &caps, 1)
}

/// The prototypes that end in `;` and hold no `{`.
pub fn parse_forward_decls(text: &str) -> (r: Vec<String>)
    ensures
        r.deep_view() == c_forward_decls(text@),
{
    let caps = captures(C_FORWARD_PATTERN, text);
    let ds = match_texts(text, &caps);
    let mut r: Vec<String> = Vec::new();
    let mut i: usize = 0;
    while i < ds.len()
        invariant
            i <= ds@.len(),
            r.deep_view() == without_braces(ds.deep_view().take(i as int)),
        decreases ds@.len() - i,
    {
        proof {
            assert(ds.deep_view().take(i + 1).drop_last() =~= ds.deep_view().take(i as int));
        }
        let ghost before = r.deep_view();
        if !crate::text::contains_str(ds[i].as_str(), "{") {
            let d = ds[i].clone();
            r.push(d);
            assert(r.deep_view() =~= before.push(ds.deep_view()[i as int]));
        }
        i += 1;
    }
    assert(ds.deep_view().take(i as int) =~= ds.deep_view());
    r
}

/// `w` stands in `b` at byte `i`.
pub open spec fn bytes_at(b: Seq<u8>, i: int, w: Seq<u8>) -> bool {
    0 <= i && i + w.len() <= b.len() && b.subrange(i, i + w.len()) == w
}

fn bytes_at_exec(b: &[u8], i: usize, w: &[u8]) -> (r: bool)
    ensures
        r == bytes_at(b@, i as int, w@),
{
    let bl = b.len();
    let n = w.len();
    if i > bl || n > bl - i {
        return false;
    }
    let end = i + n;
    let mut k: usize = 0;
    while k < n
        invariant
            k <= n,
            n == w@.len(),
            bl == b@.len(),
            end == i + n,
            end <= bl,
            forall|j: int| 0 <= j < k ==> b@[i + j] == w@[j],
        decreases n - k,
    {
        if b[i + k] != w[k] {
            assert(b@.subrange(i as int, i + w@.len())[k as int] != w@[k as int]);
            return false;
        }
        k += 1;
    }
    assert(b@.subrange(i as int, i + w@.len()) =~= w@);
    true
}

/// A struct match is a typedef: `typedef ` just before it, or it starts with
/// `typedef`.
pub open spec fn typedef_at(b: Seq<u8>, ms: int) -> bool {
    bytes_at(b, ms - 8, encode_utf8("typedef "@)) || bytes_at(b, ms, encode_utf8("typedef"@))
}

/// End of the (at most fifty) bytes after a struct body that may name its typedef.
pub open spec fn after_struct_end(text: Seq<char>, c: Seq<Option<(usize, usize)>>) -> int {
    let p = crate::ir::fn_scan_end(text, c);
    if p + 50 < encode_utf8(text).len() {
        p + 50
    } else {
        encode_utf8(text).len() as int
    }
}

/// The typedef name that the first `}` line after a struct body gives.
pub open spec fn typedef_name_in(after: Seq<char>) -> Option<Seq<char>> {
    let t = rx_caps(C_TYPEDEF_NAME_PATTERN@, after);
    if t.len() > 0 {
        Some(group_text(after, t[0], 1))
    } else {
        None
    }
}

pub open spec fn c_field_of(body: Seq<char>, fc: Seq<Option<(usize, usize)>>) -> CFieldView {
    CFieldView { name: group_text(body, fc, 2), field_type: trim(group_text(body, fc, 1)) }
}

/// The struct of a `struct name {` match; `None` when it has no name.
pub open spec fn c_struct_of(text: Seq<char>, c: Seq<Option<(usize, usize)>>) -> Option<CStructView> {
    let p = crate::ir::fn_scan_end(text, c);
    let body = text_between(text, match_end(c), p - 1);
    let after = text_between(text, p, after_struct_end(text, c));
    let name = match typedef_name_in(after) {
        Some(n) => n,
        None => group_text(text, c, 1),
    };
    if name.len() == 0 {
        None
    } else {
        Some(
            CStructView {
                name,
                fields: rx_caps(C_FIELD_PATTERN@, body).map_values(
                    |fc: Seq<Option<(usize, usize)>>| c_field_of(body, fc),
                ),
                line: line_at(text, match_start(c)),
                is_typedef: typedef_at(encode_utf8(text), match_start(c)),
            },
        )
    }
}

/// The slices that reading a struct takes lie on character boundaries: its body,
/// and the bytes after it.
pub open spec fn c_struct_ok(text: Seq<char>, c: Seq<Option<(usize, usize)>>) -> bool {
    &&& fn_body_ok(text, c)
    &&& is_char_boundary(encode_utf8(text), crate::ir::fn_scan_end(text, c))
    &&& is_char_boundary(encode_utf8(text), after_struct_end(text, c))
}

/// The enum of an `enum name {` match; `None` when it has neither a name nor
/// variants.
pub open spec fn c_enum_of(text: Seq<char>, c: Seq<Option<(usize, usize)>>) -> Option<CEnumView> {
    let p = crate::ir::fn_scan_end(text, c);
    let body = text_between(text, match_end(c), p - 1);
    let variants = rx_caps(C_VARIANT_PATTERN@, body).map_values(
        |vc: Seq<Option<(usize, usize)>>| group_text(body, vc, 1),
    );
    let name = group_text(text, c, 1);
    if name.len() == 0 && variants.len() == 0 {
        None
    } else {
        Some(
            CEnumView {
                name: if name.len() == 0 {
                    "(anonymous)"@
                } else {
                    name
                },
                variants,
                line: line_at(text, match_start(c)),
            },
        )
    }
}

/// The values of the `Some` entries, in order.
pub open spec fn somes<T>(s: Seq<Option<T>>) -> Seq<T>
    decreases s.len(),
{
    if s.len() == 0 {
        Seq::empty()
    } else {
        match s.last() {
            Some(x) => somes(s.drop_last()).push(x),
            None => somes(s.drop_last()),
        }
    }
}

pub open spec fn c_structs(text: Seq<char>) -> Seq<CStructView> {
    somes(
        rx_caps(C_STRUCT_PATTERN@, text).map_values(
            |c: Seq<Option<(usize, usize)>>| c_struct_of(text, c),
        ),
    )
}

pub open spec fn c_enums(text: Seq<char>) -> Seq<CEnumView> {
    somes(
        rx_caps(C_ENUM_PATTERN@, text).map_values(
            |c: Seq<Option<(usize, usize)>>| c_enum_of(text, c),
        ),
    )
}

pub open spec fn c_structs_ok(text: Seq<char>) -> bool {
    forall|i: int|
        0 <= i < rx_caps(C_STRUCT_PATTERN@, text).len() ==> c_struct_ok(
            text,
            #[trigger] rx_caps(C_STRUCT_PATTERN@, text)[i],
        )
}

pub open spec fn c_enums_ok(text: Seq<char>) -> bool {
    forall|i: int|
        0 <= i < rx_caps(C_ENUM_PATTERN@, text).len() ==> fn_body_ok(
            text,
            #[trigger] rx_caps(C_ENUM_PATTERN@, text)[i],
        )
}

pub open spec fn opt_struct_view(r: Option<CStruct>) -> Option<CStructView> {
    match r {
        Some(x) => Some(x@),
        None => None,
    }
}

pub open spec fn opt_enum_view(r: Option<CEnum>) -> Option<CEnumView> {
    match r {
        Some(x) => Some(x@),
        None => None,
    }
}

/// The fields of a struct body, one per `type name;` line.
pub fn parse_c_fields(body: &str) -> (r: Vec<CField>)
    ensures
        r@.map_values(|f: CField| f@) == rx_caps(C_FIELD_PATTERN@, body@).map_values(
            |fc: Seq<Option<(usize, usize)>>| c_field_of(body@, fc),
        ),
{
    let caps = captures(C_FIELD_PATTERN, body);
    let mut r: Vec<CField> = Vec::new();
    let mut i: usize = 0;
    while i < caps.len()
        invariant
            i <= caps@.len(),
            captures_ok(caps.deep_view(), body.spec_bytes()),
            r@.len() == i,
            forall|j: int| 0 <= j < i ==> (#[trigger] r@[j])@ == c_field_of(body@, caps.deep_view()[j]),
        decreases caps@.len() - i,
    {
        proof {
            lemma_match_spans(caps.deep_view(), i as int, body.spec_bytes());
            assert(caps.deep_view()[i as int] == caps[i as int].deep_view());
        }
        let ty = group_str(body, &caps[i], 1);
        let name = group_str(body, &caps[i], 2);
        r.push(CField { name, field_type: trim_str(ty.as_str()) });
        i += 1;
    }
    assert(r@.map_values(|f: CField| f@) =~= caps.deep_view().map_values(
        |fc: Seq<Option<(usize, usize)>>| c_field_of(body@, fc),
    ));
    r
}

/// The struct that a `struct name {` match opens, unless it has no name.
pub fn struct_of_match(text: &str, c: &Vec<Option<(usize, usize)>>) -> (r: Option<CStruct>)
    requires
        forall|j: int| 0 <= j < c@.len() ==> span_ok(#[trigger] c.deep_view()[j], text.spec_bytes()),
        c@.len() >= 1,
        c@[0] is Some,
        c_struct_ok(text@, c.deep_view()),
        text.spec_bytes().len() < usize::MAX,
    ensures
        opt_struct_view(r) == c_struct_of(text@, c.deep_view()),
{
    let (ms, me) = match c[0] {
        Some((s, e)) => (s, e),
        None => (0, 0),
    };
    assert(span_ok(c.deep_view()[0], text.spec_bytes()));
    let pos = scan_braces(text, me);
    proof {
        lemma_brace_scan_bounds(text.spec_bytes(), me as int, 1);
    }
    let body = substring(text, me, pos - 1);
    let len = text.as_bytes().len();
    let ae = if len - pos > 50 {
        pos + 50
    } else {
        len
    };
    let after = substring(text, pos, ae);
    let tcaps = captures(C_TYPEDEF_NAME_PATTERN, after.as_str());
    let name = if tcaps.len() > 0 {
        proof {
            lemma_match_spans(tcaps.deep_view(), 0, encode_utf8(after@));
            assert(tcaps.deep_view()[0] == tcaps[0].deep_view());
        }
        group_str(after.as_str(), &tcaps[0], 1)
    } else {
        group_str(text, c, 1)
    };
    if name.as_str().is_empty() {
        return None;
    }
    let fields = parse_c_fields(body.as_str());
    let line = line_of_offset(text, ms);
    let b = text.as_bytes();
    let is_typedef = (ms >= 8 && bytes_at_exec(b, ms - 8, "typedef ".as_bytes())) || bytes_at_exec(
        b,
        ms,
        "typedef".as_bytes(),
    );
    Some(CStruct { name, fields, line, is_typedef })
}

/// The enum that an `enum name {` match opens, unless it has neither a name
/// nor variants.
pub fn enum_of_match(text: &str, c: &Vec<Option<(usize, usize)>>) -> (r: Option<CEnum>)
    requires
        forall|j: int| 0 <= j < c@.len() ==> span_ok(#[trigger] c.deep_view()[j], text.spec_bytes()),
        c@.len() >= 1,
        c@[0] is Some,
        fn_body_ok(text@, c.deep_view()),
        text.spec_bytes().len() < usize::MAX,
    ensures
        opt_enum_view(r) == c_enum_of(text@, c.deep_view()),
{
    let (ms, me) = match c[0] {
        Some((s, e)) => (s, e),
        None => (0, 0),
    };
    assert(span_ok(c.deep_view()[0], text.spec_bytes()));
    let pos = scan_braces(text, me);
    proof {
        lemma_brace_scan_bounds(text.spec_bytes(), me as int, 1);
    }
    let body = substring(text, me, pos - 1);
    let vcaps = captures(C_VARIANT_PATTERN, body.as_str());
    let variants = group_texts(body.as_str(), &vcaps, 1);
    let name = group_str(text, c, 1);
    if name.as_str().is_empty() && variants.len() == 0 {
        return None;
    }
    let line = line_of_offset(text, ms);
    let name = if name.as_str().is_empty() {
        "(anonymous)".to_string()
    } else {
        name
    };
    Some(CEnum { name, variants, line })
}

proof fn lemma_somes_push<T>(s: Seq<Option<T>>, x: Option<T>)
    ensures
        somes(s.push(x)) == match x {
            Some(v) => somes(s).push(v),
            None => somes(s),
        },
{
    assert(s.push(x).drop_last() =~= s);
}

/// Every named struct of the text, in order.
pub fn parse_structs(text: &str) -> (r: Vec<CStruct>)
    requires
        c_structs_ok(text@),
        text.spec_bytes().len() < usize::MAX,
    ensures
        r@.map_values(|x: CStruct| x@) == c_structs(text@),
{
    let caps = captures(C_STRUCT_PATTERN, text);
    let ghost opts = caps.deep_view().map_values(
        |c: Seq<Option<(usize, usize)>>| c_struct_of(text@, c),
    );
    let mut r: Vec<CStruct> = Vec::new();
    let mut i: usize = 0;
    while i < caps.len()
        invariant
            i <= caps@.len(),
            text.spec_bytes().len() < usize::MAX,
            caps.deep_view() == rx_caps(C_STRUCT_PATTERN@, text@),
            c_structs_ok(text@),
            captures_ok(caps.deep_view(), text.spec_bytes()),
            opts == caps.deep_view().map_values(
                |c: Seq<Option<(usize, usize)>>| c_struct_of(text@, c),
            ),
            r@.map_values(|x: CStruct| x@) == somes(opts.take(i as int)),
        decreases caps@.len() - i,
    {
        proof {
            lemma_match_spans(caps.deep_view(), i as int, text.spec_bytes());
            assert(caps.deep_view()[i as int] == caps[i as int].deep_view());
            assert(c_struct_ok(text@, rx_caps(C_STRUCT_PATTERN@, text@)[i as int]));
            assert(opts.take(i + 1) =~= opts.take(i as int).push(opts[i as int]));
            lemma_somes_push(opts.take(i as int), opts[i as int]);
        }
        let ghost before = r@;
        match struct_of_match(text, &caps[i]) {
            Some(x) => {
                r.push(x);
                assert(r@.map_values(|x: CStruct| x@) =~= before.map_values(|x: CStruct| x@).push(
                    x@,
                ));
            },
            None => {},
        }
        i += 1;
    }
    assert(opts.take(i as int) =~= opts);
    r
}

/// Every enum of the text that has a name or variants, in order.
pub fn parse_enums(text: &str) -> (r: Vec<CEnum>)
    requires
        c_enums_ok(text@),
        text.spec_bytes().len() < usize::MAX,
    ensures
        r@.map_values(|x: CEnum| x@) == c_enums(text@),
{
    let caps = captures(C_ENUM_PATTERN, text);
    let ghost opts = caps.deep_view().map_values(
        |c: Seq<Option<(usize, usize)>>| c_enum_of(text@, c),
    );
    let mut r: Vec<CEnum> = Vec::new();
    let mut i: usize = 0;
    while i < caps.len()
        invariant
            i <= caps@.len(),
            text.spec_bytes().len() < usize::MAX,
            caps.deep_view() == rx_caps(C_ENUM_PATTERN@, text@),
            c_enums_ok(text@),
            captures_ok(caps.deep_view(), text.spec_bytes()),
            opts == caps.deep_view().map_values(
                |c: Seq<Option<(usize, usize)>>| c_enum_of(text@, c),
            ),
            r@.map_values(|x: CEnum| x@) == somes(opts.take(i as int)),
        decreases caps@.len() - i,
    {
        proof {
            lemma_match_spans(caps.deep_view(), i as int, text.spec_bytes());
            assert(caps.deep_view()[i as int] == caps[i as int].deep_view());
            assert(fn_body_ok(text@, rx_caps(C_ENUM_PATTERN@, text@)[i as int]));
            assert(opts.take(i + 1) =~= opts.take(i as int).push(opts[i as int]));
            lemma_somes_push(opts.take(i as int), opts[i as int]);
        }
        let ghost before = r@;
        match enum_of_match(text, &caps[i]) {
            Some(x) => {
                r.push(x);
                assert(r@.map_values(|x: CEnum| x@) =~= before.map_values(|x: CEnum| x@).push(
                    x@,
                ));
            },
            None => {},
        }
        i += 1;
    }
    assert(opts.take(i as int) =~= opts);
    r
}

// ---------------------------------------------------------------------------
// Functions and the whole file
// ---------------------------------------------------------------------------

/// The parameters of a parameter list: none for `void` or an empty list, else
/// the trimmed comma-separated pieces.
pub open spec fn c_params(p: Seq<char>) -> Seq<Seq<char>> {
    if trim(p) == "void"@ || trim(p).len() == 0 {
        Seq::empty()
    } else {
        split(p, ',').map_values(|x: Seq<char>| trim(x))
    }
}

/// Names that the function pattern catches in `if (..) {` and the like.
pub open spec fn is_control_word(n: Seq<char>) -> bool {
    n == "if"@ || n == "for"@ || n == "while"@ || n == "switch"@
}

/// The function that a `type name(params) {` match opens; `None` for a control
/// statement, or when its body does not close within the scanned bytes.
pub open spec fn c_function_of(text: Seq<char>, c: Seq<Option<(usize, usize)>>) -> Option<
    CFunctionView,
> {
    let name = group_text(text, c, 2);
    if is_control_word(name) {
        None
    } else {
        match c_body_end(encode_utf8(text), match_end(c)) {
            None => None,
            Some(p) => {
                let body = text_between(text, match_end(c), p - 1);
                Some(
                    CFunctionView {
                        name,
                        return_type: trim(group_text(text, c, 1)),
                        params: c_params(group_text(text, c, 3)),
                        body,
                        line_start: line_at(text, match_start(c)),
                        line_end: line_at(text, p),
                        metrics: c_metrics_of(body),
                        body_hash: structural_hash_c_spec(body),
                    },
                )
            },
        }
    }
}

/// Insert `f` keyed by name: replace the entry of the same name, or append.
pub open spec fn upsert_c_fn(fs: Seq<CFunctionView>, f: CFunctionView) -> Seq<CFunctionView> {
    if exists|i: int| 0 <= i < fs.len() && fs[i].name == f.name {
        fs.update(choose|i: int| 0 <= i < fs.len() && fs[i].name == f.name, f)
    } else {
        fs.push(f)
    }
}

pub open spec fn fold_c_fns(
    text: Seq<char>,
    caps: Seq<Seq<Option<(usize, usize)>>>,
    n: nat,
) -> Seq<CFunctionView>
    decreases n,
{
    if n == 0 || n > caps.len() {
        Seq::empty()
    } else {
        let prev = fold_c_fns(text, caps, (n - 1) as nat);
        match c_function_of(text, caps[n - 1]) {
            Some(f) => upsert_c_fn(prev, f),
            None => prev,
        }
    }
}

pub open spec fn c_names_unique(fs: Seq<CFunctionView>) -> bool {
    forall|i: int, j: int| 0 <= i < j < fs.len() ==> fs[i].name != fs[j].name
}

pub open spec fn c_functions(text: Seq<char>) -> Seq<CFunctionView> {
    let caps = rx_caps(C_FN_PATTERN@, text);
    fold_c_fns(text, caps, caps.len())
}

pub fn parse_params(p: &str) -> (r: Vec<String>)
    ensures
        r.deep_view() == c_params(p@),
{
    let t = trim_str(p);
    if t == "void".to_string() || t.as_str().is_empty() {
        return Vec::new();
    }
    let pieces = split_str(p, ',');
    let mut r: Vec<String> = Vec::new();
    let mut i: usize = 0;
    while i < pieces.len()
        invariant
            i <= pieces@.len(),
            pieces.deep_view() == split(p@, ','),
            r.deep_view() == pieces.deep_view().take(i as int).map_values(|x: Seq<char>| trim(x)),
        decreases pieces@.len() - i,
    {
        let x = trim_str(pieces[i].as_str());
        let ghost before = r.deep_view();
        r.push(x);
        proof {
            assert(r.deep_view() =~= before.push(x@));
            assert(pieces.deep_view().take(i + 1).map_values(|x: Seq<char>| trim(x))
                =~= pieces.deep_view().take(i as int).map_values(|x: Seq<char>| trim(x)).push(x@));
        }
        i += 1;
    }
    assert(pieces.deep_view().take(i as int) =~= pieces.deep_view());
    r
}

pub open spec fn opt_fn_view(r: Option<CFunction>) -> Option<CFunctionView> {
    match r {
        Some(x) => Some(x@),
        None => None,
    }
}

/// Where a parsed C function stands in its text: its lines count from 1, the
/// first not after the last, and its body is a piece of the text.
pub open spec fn c_fn_located(f: CFunctionView, text: Seq<char>) -> bool {
    1 <= f.line_start <= f.line_end && crate::ir::bytes_within(f.body, text)
}

/// The function that a `type name(params) {` match opens, if it is one.
pub fn function_of_match(text: &str, c: &Vec<Option<(usize, usize)>>) -> (r: Option<CFunction>)
    requires
        forall|j: int| 0 <= j < c@.len() ==> span_ok(#[trigger] c.deep_view()[j], text.spec_bytes()),
        c@.len() >= 1,
        c@[0] is Some,
        text.spec_bytes().len() < usize::MAX,
    ensures
        opt_fn_view(r) == c_function_of(text@, c.deep_view()),
        r matches Some(f) ==> c_fn_located(f@, text@),
{
    let name = group_str(text, c, 2);
    if name == "if".to_string() || name == "for".to_string() || name == "while".to_string() || name
        == "switch".to_string() {
        return None;
    }
    let (ms, me) = match c[0] {
        Some((s, e)) => (s, e),
        None => (0, 0),
    };
    assert(span_ok(c.deep_view()[0], text.spec_bytes()));
    match find_body_end(text, me) {
        None => None,
        Some(pos) => {
            proof {
                broadcast use vstd::utf8::group_utf8_lib;

                vstd::utf8::is_char_boundary_iff_not_is_continuation_byte(
                    text.spec_bytes(),
                    pos - 1,
                );
            }
            let body = substring(text, me, pos - 1);
            let ret = trim_str(group_str(text, c, 1).as_str());
            let params = parse_params(group_str(text, c, 3).as_str());
            let line_start = line_of_offset(text, ms);
            let line_end = line_of_offset(text, pos);
            proof {
                crate::ir::lemma_line_at_mono(text@, ms as int, pos as int);
                assert(vstd::utf8::encode_utf8(body@) == vstd::utf8::encode_utf8(text@).subrange(me as int, pos - 1));
            }
            let metrics = analyze_c_function(body.as_str());
            let hash = structural_hash_c(body.as_str());
            Some(
                CFunction {
                    name,
                    return_type: ret,
                    params,
                    body,
                    line_start,
                    line_end,
                    metrics,
                    body_hash: hash,
                },
            )
        },
    }
}

/// Index of the function named `name`.
pub fn find_c_function(fs: &Vec<CFunction>, name: &String) -> (r: Option<usize>)
    ensures
        r matches Some(i) ==> i < fs@.len() && fs@[i as int].name@ == name@,
        r is None ==> forall|i: int| 0 <= i < fs@.len() ==> fs@[i].name@ != name@,
{
    let mut i: usize = 0;
    while i < fs.len()
        invariant
            i <= fs@.len(),
            forall|j: int| 0 <= j < i ==> fs@[j].name@ != name@,
        decreases fs@.len() - i,
    {
        if fs[i].name == *name {
            return Some(i);
        }
        i += 1;
    }
    None
}

proof fn lemma_upsert_c_found(fs: Seq<CFunctionView>, f: CFunctionView, i: int)
    requires
        c_names_unique(fs),
        0 <= i < fs.len(),
        fs[i].name == f.name,
    ensures
        upsert_c_fn(fs, f) == fs.update(i, f),
        c_names_unique(fs.update(i, f)),
{
    let k = choose|k: int| 0 <= k < fs.len() && fs[k].name == f.name;
    assert(k == i);
}

pub open spec fn c_fn_views(fs: Seq<CFunction>) -> Seq<CFunctionView> {
    fs.map_values(|f: CFunction| f@)
}

/// The function definitions of the text, keyed by name: a later definition of
/// a name replaces the earlier one in its place.
pub fn parse_functions_c(text: &str) -> (r: Vec<CFunction>)
    requires
        text.spec_bytes().len() < usize::MAX,
    ensures
        c_fn_views(r@) == c_functions(text@),
        c_names_unique(c_fn_views(r@)),
        forall|j: int| 0 <= j < r@.len() ==> c_fn_located((#[trigger] r@[j])@, text@),
{
    let caps = captures(C_FN_PATTERN, text);
    let mut functions: Vec<CFunction> = Vec::new();
    let mut i: usize = 0;
    while i < caps.len()
        invariant
            i <= caps@.len(),
            text.spec_bytes().len() < usize::MAX,
            caps.deep_view() == rx_caps(C_FN_PATTERN@, text@),
            captures_ok(caps.deep_view(), text.spec_bytes()),
            c_fn_views(functions@) == fold_c_fns(text@, caps.deep_view(), i as nat),
            c_names_unique(c_fn_views(functions@)),
            forall|j: int| 0 <= j < functions@.len() ==> c_fn_located((#[trigger] functions@[j])@, text@),
        decreases caps@.len() - i,
    {
        proof {
            lemma_match_spans(caps.deep_view(), i as int, text.spec_bytes());
            assert(caps.deep_view()[i as int] == caps[i as int].deep_view());
        }
        let ghost fs = c_fn_views(functions@);
        match function_of_match(text, &caps[i]) {
            Some(f) => {
                match find_c_function(&functions, &f.name) {
                    Some(k) => {
                        proof {
                            assert(fs[k as int].name == f@.name);
                            lemma_upsert_c_found(fs, f@, k as int);
                        }
                        functions.set(k, f);
                        proof {
                            assert(c_fn_views(functions@) =~= fs.update(k as int, f@));
                        }
                    },
                    None => {
                        proof {
                            assert forall|j: int| 0 <= j < fs.len() implies fs[j].name
                                != f@.name by {
                                assert(fs[j] == functions@[j]@);
                            }
                        }
                        functions.push(f);
                        proof {
                            assert(c_fn_views(functions@) =~= fs.push(f@));
                        }
                    },
                }
            },
            None => {},
        }
        i += 1;
    }
    functions
}

/// What `parse_c` returns for `text`.
pub open spec fn parse_c_spec(text: Seq<char>) -> CModuleView {
    if trim(text).len() == 0 {
        CModuleView {
            source: text,
            functions: Seq::empty(),
            structs: Seq::empty(),
            enums: Seq::empty(),
            typedefs: Seq::empty(),
            includes: Seq::empty(),
            forward_decls: Seq::empty(),
        }
    } else {
        CModuleView {
            source: text,
            functions: c_functions(text),
            structs: c_structs(text),
            enums: c_enums(text),
            typedefs: Seq::empty(),
            includes: c_includes(text),
            forward_decls: c_forward_decls(text),
        }
    }
}

/// The struct and enum bodies of `text` can be sliced out (see `c_struct_ok`).
pub open spec fn c_blocks_ok(text: Seq<char>) -> bool {
    c_structs_ok(text) && c_enums_ok(text)
}

/// Parses C source text: includes, forward declarations, structs with their
/// fields, enums with their variants, and function definitions with their
/// bodies, line ranges, metrics and hashes. Blank text gives an empty module.
pub fn parse_c(text: &str) -> (m: CModule)
    requires
        c_blocks_ok(text@),
        text.spec_bytes().len() < usize::MAX,
    ensures
        m@ == parse_c_spec(text@),
        c_names_unique(m@.functions),
        forall|j: int| 0 <= j < m@.functions.len() ==> c_fn_located(#[trigger] m@.functions[j], text@),
{
    if trim_str(text).as_str().is_empty() {
        let m = CModule {
            source: text.to_string(),
            functions: Vec::new(),
            structs: Vec::new(),
            enums: Vec::new(),
            typedefs: Vec::new(),
            includes: Vec::new(),
            forward_decls: Vec::new(),
        };
        assert(m@.functions =~= Seq::empty());
        assert(m@.structs =~= Seq::empty());
        assert(m@.enums =~= Seq::empty());
        assert(m@.typedefs =~= Seq::empty());
        assert(m@.includes =~= Seq::empty());
        assert(m@.forward_decls =~= Seq::empty());
        return m;
    }
    let includes = parse_includes(text);
    let forward_decls = parse_forward_decls(text);
    let structs = parse_structs(text);
    let enums = parse_enums(text);
    let functions = parse_functions_c(text);
    let m = CModule {
        source: text.to_string(),
        functions,
        structs,
        enums,
        typedefs: Vec::new(),
        includes,
        forward_decls,
    };
    assert(m@.typedefs =~= Seq::empty());
    assert(m@.functions == c_fn_views(m.functions@));
    assert forall|j: int| 0 <= j < m@.functions.len() implies c_fn_located(#[trigger] m@.functions[j], text@) by {
        assert(m@.functions[j] == m.functions@[j]@);
    }
    m
}

/// Whether the match `c` opens a block that can be sliced out: the match does
/// not end the text and the block ends on a character boundary; for a struct
/// also the bytes after it (`with_after`).
fn block_sliceable(text: &str, c: &Vec<Option<(usize, usize)>>, with_after: bool) -> (b: bool)
    requires
        forall|j: int| 0 <= j < c@.len() ==> span_ok(#[trigger] c.deep_view()[j], text.spec_bytes()),
        c@.len() >= 1,
        c@[0] is Some,
    ensures
        with_after ==> (b == c_struct_ok(text@, c.deep_view())),
        !with_after ==> (b == fn_body_ok(text@, c.deep_view())),
{
    let me = match c[0] {
        Some((_, e)) => e,
        None => 0,
    };
    assert(span_ok(c.deep_view()[0], text.spec_bytes()));
    let len = text.as_bytes().len();
    if me >= len {
        return false;
    }
    let pos = scan_braces(text, me);
    proof {
        lemma_brace_scan_bounds(text.spec_bytes(), me as int, 1);
    }
    if !text.is_char_boundary(pos - 1) {
        return false;
    }
    if !with_after {
        return true;
    }
    let ae = if len - pos > 50 {
        pos + 50
    } else {
        len
    };
    text.is_char_boundary(pos) && text.is_char_boundary(ae)
}

/// Every struct match of the text opens a block that can be sliced out.
pub fn structs_sliceable(text: &str) -> (b: bool)
    ensures
        b == c_structs_ok(text@),
{
    let scaps = captures(C_STRUCT_PATTERN, text);
    let mut i: usize = 0;
    while i < scaps.len()
        invariant
            i <= scaps@.len(),
            scaps.deep_view() == rx_caps(C_STRUCT_PATTERN@, text@),
            captures_ok(scaps.deep_view(), text.spec_bytes()),
            forall|j: int| 0 <= j < i ==> c_struct_ok(text@, #[trigger] scaps.deep_view()[j]),
        decreases scaps@.len() - i,
    {
        proof {
            lemma_match_spans(scaps.deep_view(), i as int, text.spec_bytes());
            assert(scaps.deep_view()[i as int] == scaps[i as int].deep_view());
        }
        if !block_sliceable(text, &scaps[i], true) {
            return false;
        }
        i += 1;
    }
    true
}

/// Every enum match of the text opens a block that can be sliced out.
pub fn enums_sliceable(text: &str) -> (b: bool)
    ensures
        b == c_enums_ok(text@),
{
    let ecaps = captures(C_ENUM_PATTERN, text);
    let mut k: usize = 0;
    while k < ecaps.len()
        invariant
            k <= ecaps@.len(),
            ecaps.deep_view() == rx_caps(C_ENUM_PATTERN@, text@),
            captures_ok(ecaps.deep_view(), text.spec_bytes()),
            forall|j: int| 0 <= j < k ==> fn_body_ok(text@, #[trigger] ecaps.deep_view()[j]),
        decreases ecaps@.len() - k,
    {
        proof {
            lemma_match_spans(ecaps.deep_view(), k as int, text.spec_bytes());
            assert(ecaps.deep_view()[k as int] == ecaps[k as int].deep_view());
        }
        if !block_sliceable(text, &ecaps[k], false) {
            return false;
        }
        k += 1;
    }
    true
}

/// `parse_c` where every struct and enum body can be sliced out; `None` when a
/// struct or enum opener ends the text, or a body or the bytes after a struct
/// would end inside a character (where slicing panics), or the text is
/// `usize::MAX` bytes long.
pub fn try_parse_c(text: &str) -> (r: Option<CModule>)
    ensures
        r is Some <==> (c_blocks_ok(text@) && text.spec_bytes().len() < usize::MAX),
        r matches Some(m) ==> m@ == parse_c_spec(text@) && c_names_unique(m@.functions),
        r matches Some(m) ==> (forall|j: int|
            0 <= j < m@.functions.len() ==> c_fn_located(#[trigger] m@.functions[j], text@)),
{
    if text.as_bytes().len() == usize::MAX || !structs_sliceable(text) || !enums_sliceable(text) {
        return None;
    }
    Some(parse_c(text))
}

} // verus!
