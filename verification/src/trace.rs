//! Tracing a variable through a function: every line that defines or uses it,
//! with the basic block it is in and the kind of operation.
use vstd::prelude::*;
use crate::ir::{IRFunction, IRFunctionView};
use crate::metrics::{classify_operation, operation_of};
use crate::rx::{captures, group_str, group_text, regex_escape, regex_escaped, rx_caps, rx_count};
use crate::text::{lines, lines_of, push_all, starts_with, starts_with_str, trim, trim_str};

verus! {

pub const TRACE_BLOCK_PATTERN: &'static str = r"^([a-zA-Z_][\w.]*):";
pub const DEF_SUFFIX: &'static str = r"(?:\.\w+)?\s*=";
pub const USE_PREFIX: &'static str = r"(?:store|load|call|phi|insertvalue|extractvalue|getelementptr|icmp|br|ret|add|sub|mul|and|or|xor)\s+.*";
pub const ALLOCA_NAME_PATTERN: &'static str = r"(%[\w.]+)\s*=\s*alloca";

/// The variable's name with its `%`.
pub open spec fn var_name_spec(var: Seq<char>) -> Seq<char> {
    if starts_with(var, "%"@) {
        var
    } else {
        "%"@ + var
    }
}

/// One line that defines or uses the variable.
#[derive(Debug, Clone)]
pub struct TraceHit {
    pub line: usize,
    pub block: String,
    pub is_def: bool,
    pub operation: String,
    pub text: String,
}

pub struct TraceHitView {
    pub line: usize,
    pub block: Seq<char>,
    pub is_def: bool,
    pub operation: Seq<char>,
    pub text: Seq<char>,
}

impl View for TraceHit {
    type V = TraceHitView;

    open spec fn view(&self) -> TraceHitView {
        TraceHitView {
            line: self.line,
            block: self.block@,
            is_def: self.is_def,
            operation: self.operation@,
            text: self.text@,
        }
    }
}

pub open spec fn hit_views(hs: Seq<TraceHit>) -> Seq<TraceHitView> {
    hs.map_values(|h: TraceHit| h@)
}

/// The pattern of a line that defines the variable.
pub open spec fn def_pattern(v: Seq<char>) -> Seq<char> {
    regex_escaped(v) + DEF_SUFFIX@
}

/// The pattern of a line that uses the variable.
pub open spec fn use_pattern(v: Seq<char>) -> Seq<char> {
    USE_PREFIX@ + regex_escaped(v)
}

/// The line number of line `offset` of a function body (wrapping).
pub open spec fn trace_line(f: IRFunctionView, offset: int) -> usize {
    let t = f.line_start + offset;
    if t > usize::MAX {
        (t - usize::MAX - 1) as usize
    } else {
        t as usize
    }
}

/// The block that line `t` opens, if it is a label.
pub open spec fn block_label(t: Seq<char>) -> Option<Seq<char>> {
    let caps = rx_caps(TRACE_BLOCK_PATTERN@, t);
    if caps.len() > 0 {
        Some(group_text(t, caps[0], 1))
    } else {
        None
    }
}

/// The scan after the first `n` lines: the current block and the hits so far.
pub open spec fn trace_scan(f: IRFunctionView, v: Seq<char>, n: nat) -> (Seq<char>, Seq<TraceHitView>)
    decreases n,
{
    let ls = lines(f.body);
    if n == 0 || n > ls.len() {
        ("entry"@, Seq::empty())
    } else {
        let (prev_block, hits) = trace_scan(f, v, (n - 1) as nat);
        let t = trim(ls[n - 1]);
        let block = match block_label(t) {
            Some(b) => b,
            None => prev_block,
        };
        if t.len() == 0 {
            (block, hits)
        } else {
            let is_def = rx_count(def_pattern(v), t) > 0;
            let is_use = !is_def && rx_count(use_pattern(v), t) > 0;
            if is_def || is_use {
                (
                    block,
                    hits.push(
                        TraceHitView {
                            line: trace_line(f, n - 1),
                            block,
                            is_def,
                            operation: operation_of(t),
                            text: t,
                        },
                    ),
                )
            } else {
                (block, hits)
            }
        }
    }
}

/// The definitions and uses of variable `var` (with `%` added when missing) in `f`.
pub open spec fn trace_spec(f: IRFunctionView, var: Seq<char>) -> Seq<TraceHitView> {
    trace_scan(f, var_name_spec(var), lines(f.body).len()).1
}

/// The variable's name with its `%` prefix.
pub fn var_name(var: &str) -> (r: String)
    ensures
        r@ == var_name_spec(var@),
{
    if starts_with_str(var, "%") {
        var.to_string()
    } else {
        let mut r = "%".to_string();
        push_all(&mut r, var);
        proof {
            reveal_strlit("%");
        }
        r
    }
}

fn matches_pattern(pattern: &str, text: &str) -> (b: bool)
    ensures
        b == (rx_count(pattern@, text@) > 0),
{
    crate::engine::regex_matches(pattern, text)
}

fn block_label_exec(t: &str) -> (r: Option<String>)
    ensures
        r.deep_view() == block_label(t@),
{
    let caps = captures(TRACE_BLOCK_PATTERN, t);
    if caps.len() == 0 {
        return None;
    }
    proof {
        crate::ir::lemma_match_spans(caps.deep_view(), 0, vstd::string::StringSliceAdditionalSpecFns::spec_bytes(t));
        assert(caps.deep_view()[0] == caps[0].deep_view());
    }
    Some(group_str(t, &caps[0], 1))
}

/// One step of the trace: line `i` of the body, read after the first `i`.
fn trace_step(
    f: &IRFunction,
    i: usize,
    raw: &str,
    defp: &str,
    usep: &str,
    block: &mut String,
    hits: &mut Vec<TraceHit>,
    Ghost(v): Ghost<Seq<char>>,
)
    requires
        i < lines(f@.body).len(),
        raw@ == lines(f@.body)[i as int],
        defp@ == def_pattern(v),
        usep@ == use_pattern(v),
        (old(block)@, hit_views(old(hits)@)) == trace_scan(f@, v, i as nat),
    ensures
        (final(block)@, hit_views(final(hits)@)) == trace_scan(f@, v, (i + 1) as nat),
{
    let t = trim_str(raw);
    match block_label_exec(t.as_str()) {
        Some(b) => {
            *block = b;
        },
        None => {},
    }
    if !t.as_str().is_empty() {
        let is_def = matches_pattern(defp, t.as_str());
        let is_use = !is_def && matches_pattern(usep, t.as_str());
        if is_def || is_use {
            let line = f.line_start.wrapping_add(i);
            let op = classify_operation(t.as_str()).to_string();
            let ghost before = hit_views(hits@);
            let hit = TraceHit { line, block: block.clone(), is_def, operation: op, text: t };
            let ghost hv = hit@;
            hits.push(hit);
            assert(hit_views(hits@) =~= before.push(hv));
        }
    }
}

/// Every line of `f` that defines or uses the variable `var`: its line
/// number, the block it is in, whether it defines the variable, the kind of
/// operation and the trimmed line.
pub fn trace_var(f: &IRFunction, var: &str) -> (r: Vec<TraceHit>)
    ensures
        hit_views(r@) == trace_spec(f@, var@),
{
    let v = var_name(var);
    let esc = regex_escape(v.as_str());
    let mut defp = esc.clone();
    push_all(&mut defp, DEF_SUFFIX);
    let mut usep = USE_PREFIX.to_string();
    push_all(&mut usep, esc.as_str());
    let ls = lines_of(f.body.as_str());
    let ghost lv = ls.deep_view();
    let mut block = "entry".to_string();
    let mut hits: Vec<TraceHit> = Vec::new();
    let mut i: usize = 0;
    while i < ls.len()
        invariant
            i <= ls@.len(),
            lv == ls.deep_view(),
            lv == lines(f@.body),
            defp@ == def_pattern(v@),
            usep@ == use_pattern(v@),
            (block@, hit_views(hits@)) == trace_scan(f@, v@, i as nat),
        decreases ls@.len() - i,
    {
        assert(lv[i as int] == ls@[i as int]@);
        trace_step(f, i, ls[i].as_str(), defp.as_str(), usep.as_str(), &mut block, &mut hits, Ghost(v@));
        i += 1;
    }
    hits
}

/// The names of the first `n` allocas in the lines, at most twenty.
pub open spec fn alloca_names_of(ls: Seq<Seq<char>>, n: nat) -> Seq<Seq<char>>
    decreases n,
{
    if n == 0 || n > ls.len() {
        Seq::empty()
    } else {
        let prev = alloca_names_of(ls, (n - 1) as nat);
        let caps = rx_caps(ALLOCA_NAME_PATTERN@, ls[n - 1]);
        if caps.len() > 0 && prev.len() < 20 {
            prev.push(group_text(ls[n - 1], caps[0], 1))
        } else {
            prev
        }
    }
}

/// The first twenty allocas of a function, by name: what a trace can follow.
#[verifier::rlimit(40)]
pub fn alloca_names(f: &IRFunction) -> (r: Vec<String>)
    ensures
        r.deep_view() == alloca_names_of(lines(f@.body), lines(f@.body).len()),
{
    let ls = lines_of(f.body.as_str());
    let ghost lv = ls.deep_view();
    let mut r: Vec<String> = Vec::new();
    let mut i: usize = 0;
    while i < ls.len()
        invariant
            i <= ls@.len(),
            lv == ls.deep_view(),
            lv == lines(f@.body),
            r.deep_view() == alloca_names_of(lv, i as nat),
        decreases ls@.len() - i,
    {
        assert(lv[i as int] == ls@[i as int]@);
        let l = ls[i].as_str();
        let caps = captures(ALLOCA_NAME_PATTERN, l);
        if caps.len() > 0 && r.len() < 20 {
            proof {
                crate::ir::lemma_match_spans(caps.deep_view(), 0, vstd::string::StringSliceAdditionalSpecFns::spec_bytes(l));
                assert(caps.deep_view()[0] == caps[0].deep_view());
            }
            let name = group_str(l, &caps[0], 1);
            let ghost before = r.deep_view();
            r.push(name);
            assert(r.deep_view() =~= before.push(name@));
        }
        i += 1;
    }
    r
}

} // verus!
