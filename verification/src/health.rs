//! Struct health: PHI nodes and stores that put a `zeroinitializer` into a
//! struct, stores of another type into a struct's alloca (a type pun), and
//! loads of a struct from a null pointer.
use vstd::prelude::*;
use vstd::string::StringSliceAdditionalSpecFns;
use crate::engine::{find_key_str, insert_pair, key_index, map_get, map_insert};
use crate::ir::{IRFunction, IRFunctionView, IRModule, StructTypeView};
use crate::metrics::{matches_any, matches_any_spec};
use crate::rx::{captures, group_str, group_text, rx_caps};
use crate::text::{contains, contains_str, lines, lines_of, push_all, trim, trim_str};

verus! {

pub const PHI_ZEROINIT_PATTERN: &'static str = r"= phi (%[\w.]+) .+zeroinitializer";
pub const STORE_ZEROINIT_PATTERN: &'static str = r"store (%[\w.]+) zeroinitializer, ptr (%[\w.]+)";
pub const STRUCT_ALLOCA_PATTERN: &'static str = r"(%[\w.]+)\s*=\s*alloca\s+(%[\w.]+(?:\s*\{[^}]*\})?)";
pub const TYPED_STORE_PATTERN: &'static str = r"store\s+(\S+)\s+.+,\s*ptr\s+(%[\w.]+)";
pub const NULL_LOAD_PATTERN: &'static str = r"= load (%[\w.]+), ptr null";

/// What a health issue is.
#[derive(Debug, Clone, Copy, PartialEq, Eq, Structural)]
pub enum HealthKind {
    /// A PHI of a struct type with a `zeroinitializer` arm.
    PhiZeroinit,
    /// A struct stored as `zeroinitializer`.
    StoreZeroinit,
    /// A value of another type stored into a struct's alloca.
    TypePun,
    /// A struct loaded from a null pointer.
    NullLoad,
}

/// One health issue: its kind, the line, the function, the struct type, for a
/// type pun the stored type and the alloca stored to, and the trimmed line.
#[derive(Debug, Clone)]
pub struct HealthIssue {
    pub kind: HealthKind,
    pub line: usize,
    pub function: String,
    pub struct_type: String,
    pub stored_type: String,
    pub dest: String,
    pub text: String,
}

pub struct HealthIssueView {
    pub kind: HealthKind,
    pub line: usize,
    pub function: Seq<char>,
    pub struct_type: Seq<char>,
    pub stored_type: Seq<char>,
    pub dest: Seq<char>,
    pub text: Seq<char>,
}

impl View for HealthIssue {
    type V = HealthIssueView;

    open spec fn view(&self) -> HealthIssueView {
        HealthIssueView {
            kind: self.kind,
            line: self.line,
            function: self.function@,
            struct_type: self.struct_type@,
            stored_type: self.stored_type@,
            dest: self.dest@,
            text: self.text@,
        }
    }
}

pub open spec fn issue_views(v: Seq<HealthIssue>) -> Seq<HealthIssueView> {
    v.map_values(|i: HealthIssue| i@)
}

/// The struct type names checked: `%struct.N`, `%enum.N` and `%N` for a named
/// struct, every struct type of the module otherwise.
pub open spec fn struct_patterns_spec(types: Seq<StructTypeView>, name: Option<Seq<char>>) -> Seq<Seq<char>> {
    match name {
        Some(n) => seq!["%struct."@ + n, "%enum."@ + n, "%"@ + n],
        None => types.map_values(|t: StructTypeView| t.name),
    }
}

/// The line number of line `offset` of a function body.
pub open spec fn body_line(f: IRFunctionView, offset: int) -> usize {
    let t = f.line_start + offset;
    if t > usize::MAX {
        (t - usize::MAX - 1) as usize
    } else {
        t as usize
    }
}

fn body_line_exec(f: &IRFunction, offset: usize) -> (r: usize)
    ensures
        r == body_line(f@, offset as int),
{
    f.line_start.wrapping_add(offset)
}

/// The issue a single-type check finds on one line: the first match of the
/// pattern in the trimmed line, when its type is one of the patterns.
pub open spec fn simple_issue(
    kind: HealthKind,
    pattern: Seq<char>,
    f: IRFunctionView,
    offset: int,
    line: Seq<char>,
    patterns: Seq<Seq<char>>,
) -> Option<HealthIssueView> {
    let t = trim(line);
    let caps = rx_caps(pattern, t);
    if caps.len() > 0 && matches_any_spec(group_text(t, caps[0], 1), patterns) {
        Some(
            HealthIssueView {
                kind,
                line: body_line(f, offset),
                function: f.name,
                struct_type: group_text(t, caps[0], 1),
                stored_type: Seq::empty(),
                dest: Seq::empty(),
                text: t,
            },
        )
    } else {
        None
    }
}

/// The allocas of the first `n` lines: name to allocated type, a later alloca
/// of a name replacing an earlier one.
pub open spec fn allocas_of(ls: Seq<Seq<char>>, n: nat) -> Seq<(Seq<char>, Seq<char>)>
    decreases n,
{
    if n == 0 || n > ls.len() {
        Seq::empty()
    } else {
        let prev = allocas_of(ls, (n - 1) as nat);
        let t = trim(ls[n - 1]);
        let caps = rx_caps(STRUCT_ALLOCA_PATTERN@, t);
        if caps.len() > 0 {
            map_insert(prev, group_text(t, caps[0], 1), group_text(t, caps[0], 2))
        } else {
            prev
        }
    }
}

/// The type pun a line shows, given the allocas of the function.
pub open spec fn pun_issue(
    f: IRFunctionView,
    offset: int,
    line: Seq<char>,
    allocas: Seq<(Seq<char>, Seq<char>)>,
    patterns: Seq<Seq<char>>,
) -> Option<HealthIssueView> {
    let t = trim(line);
    let caps = rx_caps(TYPED_STORE_PATTERN@, t);
    if caps.len() > 0 {
        let store_ty = group_text(t, caps[0], 1);
        let dest = group_text(t, caps[0], 2);
        match map_get(allocas, dest) {
            Some(alloca_ty) => if matches_any_spec(alloca_ty, patterns) && store_ty != alloca_ty
                && store_ty != "zeroinitializer"@ && !contains(t, "zeroinitializer"@) {
                Some(
                    HealthIssueView {
                        kind: HealthKind::TypePun,
                        line: body_line(f, offset),
                        function: f.name,
                        struct_type: alloca_ty,
                        stored_type: store_ty,
                        dest,
                        text: t,
                    },
                )
            } else {
                None
            },
            None => None,
        }
    } else {
        None
    }
}

/// The issue of check `kind` on line `offset` of function `f`.
pub open spec fn line_issue(
    kind: HealthKind,
    f: IRFunctionView,
    offset: int,
    patterns: Seq<Seq<char>>,
) -> Option<HealthIssueView> {
    let ls = lines(f.body);
    match kind {
        HealthKind::PhiZeroinit => simple_issue(kind, PHI_ZEROINIT_PATTERN@, f, offset, ls[offset], patterns),
        HealthKind::StoreZeroinit => simple_issue(kind, STORE_ZEROINIT_PATTERN@, f, offset, ls[offset], patterns),
        HealthKind::NullLoad => simple_issue(kind, NULL_LOAD_PATTERN@, f, offset, ls[offset], patterns),
        HealthKind::TypePun => pun_issue(f, offset, ls[offset], allocas_of(ls, ls.len()), patterns),
    }
}

/// The issues of check `kind` on the first `n` lines of `f`.
pub open spec fn function_issues(kind: HealthKind, f: IRFunctionView, patterns: Seq<Seq<char>>, n: nat) -> Seq<
    HealthIssueView,
>
    decreases n,
{
    if n == 0 || n > lines(f.body).len() {
        Seq::empty()
    } else {
        let prev = function_issues(kind, f, patterns, (n - 1) as nat);
        match line_issue(kind, f, n - 1, patterns) {
            Some(i) => prev.push(i),
            None => prev,
        }
    }
}

/// The issues of check `kind` in the first `n` functions.
pub open spec fn check_issues(kind: HealthKind, fs: Seq<IRFunctionView>, patterns: Seq<Seq<char>>, n: nat) -> Seq<
    HealthIssueView,
>
    decreases n,
{
    if n == 0 || n > fs.len() {
        Seq::empty()
    } else {
        let f = fs[n - 1];
        check_issues(kind, fs, patterns, (n - 1) as nat) + function_issues(
            kind,
            f,
            patterns,
            lines(f.body).len(),
        )
    }
}

/// Every issue: the PHI check over all functions, then the zeroinitializer
/// stores, the type puns and the null loads.
pub open spec fn health_spec(fs: Seq<IRFunctionView>, patterns: Seq<Seq<char>>) -> Seq<HealthIssueView> {
    check_issues(HealthKind::PhiZeroinit, fs, patterns, fs.len()) + check_issues(
        HealthKind::StoreZeroinit,
        fs,
        patterns,
        fs.len(),
    ) + check_issues(HealthKind::TypePun, fs, patterns, fs.len()) + check_issues(
        HealthKind::NullLoad,
        fs,
        patterns,
        fs.len(),
    )
}

pub open spec fn opt_text(o: Option<&str>) -> Option<Seq<char>> {
    match o {
        Some(s) => Some(s@),
        None => None,
    }
}

/// The struct type names that the health checks look for.
pub fn struct_patterns(module: &IRModule, struct_name: Option<&str>) -> (r: Vec<String>)
    ensures
        r.deep_view() == struct_patterns_spec(module@.struct_types, opt_text(struct_name)),
{
    match struct_name {
        Some(n) => {
            let mut a = "%struct.".to_string();
            push_all(&mut a, n);
            let mut b = "%enum.".to_string();
            push_all(&mut b, n);
            let mut c = "%".to_string();
            push_all(&mut c, n);
            let r = vec![a, b, c];
            proof {
                reveal_strlit("%struct.");
                reveal_strlit("%enum.");
                reveal_strlit("%");
                assert(r.deep_view() =~= seq!["%struct."@ + n@, "%enum."@ + n@, "%"@ + n@]);
            }
            r
        },
        None => {
            let ghost ts = module@.struct_types;
            let mut r: Vec<String> = Vec::new();
            let mut i: usize = 0;
            while i < module.struct_types.len()
                invariant
                    i <= module.struct_types@.len(),
                    ts == module@.struct_types,
                    r.deep_view() == ts.take(i as int).map_values(|t: StructTypeView| t.name),
                decreases module.struct_types@.len() - i,
            {
                let ghost before = r.deep_view();
                r.push(module.struct_types[i].name.clone());
                assert(ts[i as int] == module.struct_types@[i as int]@);
                assert(r.deep_view() =~= before.push(ts[i as int].name));
                assert(ts.take(i + 1).map_values(|t: StructTypeView| t.name) =~= ts.take(i as int).map_values(
                    |t: StructTypeView| t.name,
                ).push(ts[i as int].name));
                i += 1;
            }
            assert(ts.take(i as int) =~= ts);
            r
        },
    }
}

fn simple_issue_exec(
    kind: HealthKind,
    pattern: &str,
    f: &IRFunction,
    offset: usize,
    line: &str,
    patterns: &Vec<String>,
) -> (r: Option<HealthIssue>)
    ensures
        match r {
            Some(i) => simple_issue(kind, pattern@, f@, offset as int, line@, patterns.deep_view()) == Some(i@),
            None => simple_issue(kind, pattern@, f@, offset as int, line@, patterns.deep_view()) is None,
        },
{
    let t = trim_str(line);
    let ts = t.as_str();
    let caps = captures(pattern, ts);
    if caps.len() == 0 {
        return None;
    }
    proof {
        crate::ir::lemma_match_spans(caps.deep_view(), 0, ts.spec_bytes());
        assert(caps.deep_view()[0] == caps[0].deep_view());
    }
    let ty = group_str(ts, &caps[0], 1);
    if !matches_any(ty.as_str(), patterns.as_slice()) {
        return None;
    }
    let n = body_line_exec(f, offset);
    Some(
        HealthIssue {
            kind,
            line: n,
            function: f.name.clone(),
            struct_type: ty,
            stored_type: String::new(),
            dest: String::new(),
            text: t,
        },
    )
}

fn allocas_exec(ls: &Vec<String>) -> (r: Vec<(String, String)>)
    ensures
        r.deep_view() == allocas_of(ls.deep_view(), ls@.len() as nat),
{
    let ghost lv = ls.deep_view();
    let mut r: Vec<(String, String)> = Vec::new();
    let mut i: usize = 0;
    while i < ls.len()
        invariant
            i <= ls@.len(),
            lv == ls.deep_view(),
            r.deep_view() == allocas_of(lv, i as nat),
        decreases ls@.len() - i,
    {
        assert(lv[i as int] == ls@[i as int]@);
        let t = trim_str(ls[i].as_str());
        let ts = t.as_str();
        let caps = captures(STRUCT_ALLOCA_PATTERN, ts);
        if caps.len() > 0 {
            proof {
                crate::ir::lemma_match_spans(caps.deep_view(), 0, ts.spec_bytes());
                assert(caps.deep_view()[0] == caps[0].deep_view());
            }
            let k = group_str(ts, &caps[0], 1);
            let v = group_str(ts, &caps[0], 2);
            insert_pair(&mut r, k, v);
        }
        i += 1;
    }
    r
}

fn pun_issue_exec(
    f: &IRFunction,
    offset: usize,
    line: &str,
    allocas: &Vec<(String, String)>,
    patterns: &Vec<String>,
) -> (r: Option<HealthIssue>)
    ensures
        match r {
            Some(i) => pun_issue(f@, offset as int, line@, allocas.deep_view(), patterns.deep_view()) == Some(i@),
            None => pun_issue(f@, offset as int, line@, allocas.deep_view(), patterns.deep_view()) is None,
        },
{
    let t = trim_str(line);
    let ts = t.as_str();
    let caps = captures(TYPED_STORE_PATTERN, ts);
    if caps.len() == 0 {
        return None;
    }
    proof {
        crate::ir::lemma_match_spans(caps.deep_view(), 0, ts.spec_bytes());
        assert(caps.deep_view()[0] == caps[0].deep_view());
    }
    let store_ty = group_str(ts, &caps[0], 1);
    let dest = group_str(ts, &caps[0], 2);
    match find_key_str(allocas, &dest) {
        Some(j) => {
            proof {
                crate::engine::lemma_key_index(allocas.deep_view(), dest@, 0);
            }
            let alloca_ty = allocas[j].1.clone();
            assert(allocas.deep_view()[j as int].1 == alloca_ty@);
            let zero = "zeroinitializer".to_string();
            if matches_any(alloca_ty.as_str(), patterns.as_slice()) && store_ty != alloca_ty && store_ty != zero
                && !contains_str(ts, "zeroinitializer") {
                let n = body_line_exec(f, offset);
                Some(
                    HealthIssue {
                        kind: HealthKind::TypePun,
                        line: n,
                        function: f.name.clone(),
                        struct_type: alloca_ty,
                        stored_type: store_ty,
                        dest,
                        text: t,
                    },
                )
            } else {
                None
            }
        },
        None => None,
    }
}

fn function_issues_exec(kind: HealthKind, f: &IRFunction, patterns: &Vec<String>, out: &mut Vec<HealthIssue>)
    ensures
        issue_views(final(out)@) == issue_views(old(out)@) + function_issues(
            kind,
            f@,
            patterns.deep_view(),
            lines(f@.body).len(),
        ),
{
    let ls = lines_of(f.body.as_str());
    let ghost lv = ls.deep_view();
    let ghost base = issue_views(out@);
    let allocas = allocas_exec(&ls);
    let mut i: usize = 0;
    while i < ls.len()
        invariant
            i <= ls@.len(),
            lv == ls.deep_view(),
            lv == lines(f@.body),
            allocas.deep_view() == allocas_of(lv, lv.len()),
            issue_views(out@) == base + function_issues(kind, f@, patterns.deep_view(), i as nat),
        decreases ls@.len() - i,
    {
        assert(lv[i as int] == ls@[i as int]@);
        let line = ls[i].as_str();
        let found = match kind {
            HealthKind::PhiZeroinit => simple_issue_exec(kind, PHI_ZEROINIT_PATTERN, f, i, line, patterns),
            HealthKind::StoreZeroinit => simple_issue_exec(kind, STORE_ZEROINIT_PATTERN, f, i, line, patterns),
            HealthKind::NullLoad => simple_issue_exec(kind, NULL_LOAD_PATTERN, f, i, line, patterns),
            HealthKind::TypePun => pun_issue_exec(f, i, line, &allocas, patterns),
        };
        let ghost before = issue_views(out@);
        match found {
            Some(issue) => {
                let ghost iv = issue@;
                out.push(issue);
                assert(issue_views(out@) =~= before.push(iv));
            },
            None => {},
        }
        i += 1;
    }
}

/// The struct health issues of a module: the struct types named after
/// `struct_name` (all struct types when none is given) put in a PHI with a
/// `zeroinitializer` arm, stored as `zeroinitializer`, punned by a store of
/// another type into their alloca, or loaded from null.
pub fn health_issues(module: &IRModule, struct_name: Option<&str>) -> (r: Vec<HealthIssue>)
    ensures
        issue_views(r@) == health_spec(
            module@.functions,
            struct_patterns_spec(module@.struct_types, opt_text(struct_name)),
        ),
{
    let patterns = struct_patterns(module, struct_name);
    let ghost fs = module@.functions;
    let ghost pv = patterns.deep_view();
    let mut out: Vec<HealthIssue> = Vec::new();
    let kinds = [HealthKind::PhiZeroinit, HealthKind::StoreZeroinit, HealthKind::TypePun, HealthKind::NullLoad];
    let mut k: usize = 0;
    let ghost mut done: Seq<HealthIssueView> = Seq::empty();
    assert(issue_views(out@) =~= Seq::<HealthIssueView>::empty());
    while k < 4
        invariant
            k <= 4,
            fs == module@.functions,
            pv == patterns.deep_view(),
            kinds@ == seq![HealthKind::PhiZeroinit, HealthKind::StoreZeroinit, HealthKind::TypePun, HealthKind::NullLoad],
            issue_views(out@) == done,
            done == (if k == 0 {
                Seq::empty()
            } else if k == 1 {
                check_issues(HealthKind::PhiZeroinit, fs, pv, fs.len())
            } else if k == 2 {
                check_issues(HealthKind::PhiZeroinit, fs, pv, fs.len()) + check_issues(
                    HealthKind::StoreZeroinit,
                    fs,
                    pv,
                    fs.len(),
                )
            } else if k == 3 {
                check_issues(HealthKind::PhiZeroinit, fs, pv, fs.len()) + check_issues(
                    HealthKind::StoreZeroinit,
                    fs,
                    pv,
                    fs.len(),
                ) + check_issues(HealthKind::TypePun, fs, pv, fs.len())
            } else {
                health_spec(fs, pv)
            }),
        decreases 4 - k,
    {
        let kind = kinds[k];
        let ghost start = issue_views(out@);
        let mut i: usize = 0;
        while i < module.functions.len()
            invariant
                i <= module.functions@.len(),
                fs == module@.functions,
                pv == patterns.deep_view(),
                issue_views(out@) == start + check_issues(kind, fs, pv, i as nat),
            decreases module.functions@.len() - i,
        {
            let f = &module.functions[i];
            assert(fs[i as int] == f@);
            let ghost before = issue_views(out@);
            function_issues_exec(kind, f, &patterns, &mut out);
            assert(issue_views(out@) =~= start + check_issues(kind, fs, pv, (i + 1) as nat));
            i += 1;
        }
        proof {
            done = issue_views(out@);
        }
        k += 1;
    }
    out
}

} // verus!
