//! Comparing two builds of a program, function by function: which functions
//! only one side has, which bodies diverged, which were lost or gained, and
//! how many callers each function has.
use vstd::prelude::*;
use crate::callgraph::{contains_string, distinct};
use crate::ir::{find_function, IRFunction, IRFunctionView, IRModule, IRModuleView};
use crate::metrics::{get_metric, get_single_metric, metric_value};
use crate::order::{sorted_unique, strictly_sorted};
use crate::rx::{all_groups, rx_groups};
use crate::text::{lines, lines_of};

verus! {

/// The names of the functions.
pub open spec fn fn_names(fs: Seq<IRFunctionView>) -> Seq<Seq<char>> {
    fs.map_values(|f: IRFunctionView| f.name)
}

/// The first function named `name`, if any.
pub open spec fn named(fs: Seq<IRFunctionView>, name: Seq<char>) -> Option<IRFunctionView> {
    if exists|i: int| 0 <= i < fs.len() && (#[trigger] fs[i]).name == name {
        let i = choose|i: int|
            0 <= i < fs.len() && (#[trigger] fs[i]).name == name && forall|j: int|
                0 <= j < i ==> fs[j].name != name;
        Some(fs[i])
    } else {
        None
    }
}

proof fn lemma_named(fs: Seq<IRFunctionView>, name: Seq<char>, r: Option<usize>)
    requires
        r matches Some(i) ==> i < fs.len() && fs[i as int].name == name && forall|j: int|
            0 <= j < i ==> fs[j].name != name,
        r is None ==> forall|i: int| 0 <= i < fs.len() ==> fs[i].name != name,
    ensures
        named(fs, name) == match r {
            Some(i) => Some(fs[i as int]),
            None => None::<IRFunctionView>,
        },
{
    if let Some(i) = r {
        assert(fs[i as int].name == name);
        let k = choose|k: int|
            0 <= k < fs.len() && (#[trigger] fs[k]).name == name && forall|j: int|
                0 <= j < k ==> fs[j].name != name;
        if k < i {
            assert(fs[k].name != name);
        }
        if i < k {
            assert(fs[i as int].name != name);
        }
    }
}

fn find_named(module: &IRModule, name: &String) -> (r: Option<usize>)
    ensures
        r matches Some(i) ==> i < module.functions@.len() && named(module@.functions, name@) == Some(
            module@.functions[i as int],
        ),
        r is None ==> named(module@.functions, name@) is None,
{
    let r = find_function(&module.functions, name);
    proof {
        assert forall|j: int| 0 <= j < module.functions@.len() implies module@.functions[j]
            == module.functions@[j]@ by {}
        lemma_named(module@.functions, name@, r);
    }
    r
}

/// How a function compares between two builds.
#[derive(Debug, Clone, Copy, PartialEq, Eq)]
pub enum DiffStatus {
    OnlyA,
    OnlyB,
    Matched,
    Diverged,
}

/// The status of `name` between modules `a` and `b`: which side has it, and,
/// when both do, whether the structural hashes of their bodies agree.
pub open spec fn diff_status(a: Seq<IRFunctionView>, b: Seq<IRFunctionView>, name: Seq<char>) -> DiffStatus {
    match (named(a, name), named(b, name)) {
        (Some(fa), Some(fb)) => if fa.body_hash == fb.body_hash {
            DiffStatus::Matched
        } else {
            DiffStatus::Diverged
        },
        (Some(_), None) => DiffStatus::OnlyA,
        _ => DiffStatus::OnlyB,
    }
}

/// A function's instructions on one side, 0 when that side does not have it.
pub open spec fn instructions_of(fs: Seq<IRFunctionView>, name: Seq<char>) -> usize {
    match named(fs, name) {
        Some(f) => f.metrics.instructions,
        None => 0,
    }
}

/// One line of a diff: a function, how it compares, and its instructions on
/// each side.
#[derive(Debug, Clone)]
pub struct FunctionDiff {
    pub name: String,
    pub status: DiffStatus,
    pub instructions_a: usize,
    pub instructions_b: usize,
}

/// A diff entry is right for its name.
pub open spec fn diff_entry_ok(a: IRModuleView, b: IRModuleView, d: FunctionDiff) -> bool {
    &&& d.status == diff_status(a.functions, b.functions, d.name@)
    &&& d.instructions_a == instructions_of(a.functions, d.name@)
    &&& d.instructions_b == instructions_of(b.functions, d.name@)
}

fn names_of(module: &IRModule) -> (r: Vec<String>)
    ensures
        r.deep_view() == fn_names(module@.functions),
{
    let mut r: Vec<String> = Vec::new();
    let mut i: usize = 0;
    while i < module.functions.len()
        invariant
            i <= module.functions@.len(),
            r.deep_view() =~= fn_names(module@.functions).take(i as int),
        decreases module.functions@.len() - i,
    {
        let ghost before = r.deep_view();
        r.push(module.functions[i].name.clone());
        proof {
            assert(module@.functions[i as int] == module.functions@[i as int]@);
            assert(r.deep_view() =~= before.push(module.functions@[i as int].name@));
            assert(fn_names(module@.functions).take(i + 1) =~= fn_names(module@.functions).take(
                i as int,
            ).push(module.functions@[i as int].name@));
        }
        i += 1;
    }
    assert(fn_names(module@.functions).take(i as int) =~= fn_names(module@.functions));
    r
}

/// Every function of either module, by name in sorted order, with how it
/// compares and its instructions on each side.
pub fn diff_functions(a: &IRModule, b: &IRModule) -> (r: Vec<FunctionDiff>)
    ensures
        strictly_sorted(r@.map_values(|d: FunctionDiff| d.name@)),
        forall|x: Seq<char>|
            r@.map_values(|d: FunctionDiff| d.name@).contains(x) <==> (fn_names(a@.functions).contains(x)
                || fn_names(b@.functions).contains(x)),
        forall|k: int| 0 <= k < r@.len() ==> diff_entry_ok(a@, b@, #[trigger] r@[k]),
{
    let mut all = names_of(a);
    let nb = names_of(b);
    let ghost na = all.deep_view();
    let mut j: usize = 0;
    while j < nb.len()
        invariant
            j <= nb@.len(),
            all.deep_view() =~= na + nb.deep_view().take(j as int),
        decreases nb@.len() - j,
    {
        let ghost before = all.deep_view();
        all.push(nb[j].clone());
        assert(all.deep_view() =~= before.push(nb@[j as int]@));
        assert(nb.deep_view().take(j + 1) =~= nb.deep_view().take(j as int).push(nb@[j as int]@));
        j += 1;
    }
    assert(all.deep_view() =~= na + nb.deep_view());
    let names = sorted_unique(&all);
    proof {
        assert forall|x: Seq<char>| names.deep_view().contains(x) <==> (fn_names(a@.functions).contains(x)
            || fn_names(b@.functions).contains(x)) by {
            vstd::seq_lib::lemma_seq_concat_contains_all_elements(na, nb.deep_view(), x);
            if (na + nb.deep_view()).contains(x) {
                let q = choose|q: int| 0 <= q < (na + nb.deep_view()).len() && (na + nb.deep_view())[q] == x;
                if q < na.len() {
                    assert(na[q] == x);
                } else {
                    assert(nb.deep_view()[q - na.len()] == x);
                }
            }
        }
    }
    let mut r: Vec<FunctionDiff> = Vec::new();
    let mut k: usize = 0;
    while k < names.len()
        invariant
            k <= names@.len(),
            r@.len() == k,
            forall|q: int| 0 <= q < k ==> (#[trigger] r@[q]).name@ == names.deep_view()[q],
            forall|q: int| 0 <= q < k ==> diff_entry_ok(a@, b@, #[trigger] r@[q]),
        decreases names@.len() - k,
    {
        assert(names.deep_view()[k as int] == names@[k as int]@);
        let ia = find_named(a, &names[k]);
        let ib = find_named(b, &names[k]);
        let (status, ca, cb) = match (ia, ib) {
            (Some(x), Some(y)) => {
                let st = if a.functions[x].body_hash == b.functions[y].body_hash {
                    DiffStatus::Matched
                } else {
                    DiffStatus::Diverged
                };
                (st, a.functions[x].metrics.instructions, b.functions[y].metrics.instructions)
            },
            (Some(x), None) => (DiffStatus::OnlyA, a.functions[x].metrics.instructions, 0),
            (None, Some(y)) => (DiffStatus::OnlyB, 0, b.functions[y].metrics.instructions),
            (None, None) => (DiffStatus::OnlyB, 0, 0),
        };
        r.push(FunctionDiff { name: names[k].clone(), status, instructions_a: ca, instructions_b: cb });
        k += 1;
    }
    assert(r@.map_values(|d: FunctionDiff| d.name@) =~= names.deep_view());
    r
}

/// The functions that `before` has and `after` lost, by name, sorted.
pub fn lost_functions(before: &IRModule, after: &IRModule) -> (r: Vec<String>)
    ensures
        strictly_sorted(r.deep_view()),
        forall|x: Seq<char>|
            r.deep_view().contains(x) <==> (fn_names(before@.functions).contains(x) && !fn_names(
                after@.functions,
            ).contains(x)),
{
    let nb = names_of(before);
    let na = names_of(after);
    let mut gone: Vec<String> = Vec::new();
    let mut i: usize = 0;
    while i < nb.len()
        invariant
            i <= nb@.len(),
            nb.deep_view() == fn_names(before@.functions),
            na.deep_view() == fn_names(after@.functions),
            forall|x: Seq<char>|
                gone.deep_view().contains(x) <==> (nb.deep_view().take(i as int).contains(x)
                    && !na.deep_view().contains(x)),
        decreases nb@.len() - i,
    {
        let ghost x = nb.deep_view()[i as int];
        assert(x == nb@[i as int]@);
        assert(nb.deep_view().take(i + 1) =~= nb.deep_view().take(i as int).push(x));
        let ghost before_gone = gone.deep_view();
        if !contains_string(&na, &nb[i]) {
            gone.push(nb[i].clone());
            assert(gone.deep_view() =~= before_gone.push(x));
        }
        assert forall|y: Seq<char>| gone.deep_view().contains(y) <==> (nb.deep_view().take(
            i + 1,
        ).contains(y) && !na.deep_view().contains(y)) by {
            crate::summary::lemma_push_contains(nb.deep_view().take(i as int), x, y);
            crate::summary::lemma_push_contains(before_gone, x, y);
        }
        i += 1;
    }
    assert(nb.deep_view().take(i as int) =~= nb.deep_view());
    sorted_unique(&gone)
}

pub const DEFINE_NAME_PATTERN: &'static str = r"^define\s+.+@([\w.]+)\s*\(";

/// Reading the lines of an IR text: the function being defined after the
/// first `n` lines, and every (callee, caller) pair of the calls so far.
pub open spec fn caller_scan(ls: Seq<Seq<char>>, n: nat) -> (Seq<char>, Seq<(Seq<char>, Seq<char>)>)
    decreases n,
{
    if n == 0 || n > ls.len() {
        (Seq::empty(), Seq::empty())
    } else {
        let (cur, pairs) = caller_scan(ls, (n - 1) as nat);
        let l = ls[n - 1];
        let d = rx_groups(DEFINE_NAME_PATTERN@, l, 1);
        let now = if d.len() > 0 {
            d[0]
        } else {
            cur
        };
        if now.len() > 0 {
            (
                now,
                pairs + rx_groups(crate::callgraph::CALL_TARGET_PATTERN@, l, 1).map_values(
                    |c: Seq<char>| (c, now),
                ),
            )
        } else {
            (now, pairs)
        }
    }
}

/// Every call in an IR text as a (callee, caller) pair, in order.
pub open spec fn call_pairs_spec(text: Seq<char>) -> Seq<(Seq<char>, Seq<char>)> {
    caller_scan(lines(text), lines(text).len()).1
}

/// The callers named in the first `n` pairs whose callee is `name`.
pub open spec fn callers_for(pairs: Seq<(Seq<char>, Seq<char>)>, name: Seq<char>, n: nat) -> Seq<
    Seq<char>,
>
    decreases n,
{
    if n == 0 || n > pairs.len() {
        Seq::empty()
    } else {
        let prev = callers_for(pairs, name, (n - 1) as nat);
        if pairs[n - 1].0 == name {
            prev.push(pairs[n - 1].1)
        } else {
            prev
        }
    }
}

/// The number of distinct functions that call `name`.
pub open spec fn caller_count_spec(pairs: Seq<(Seq<char>, Seq<char>)>, name: Seq<char>) -> nat {
    let cs = callers_for(pairs, name, pairs.len());
    distinct(cs, cs.len()).len()
}

pub open spec fn pair_views(v: Seq<(String, String)>) -> Seq<(Seq<char>, Seq<char>)> {
    v.map_values(|p: (String, String)| (p.0@, p.1@))
}

/// Every call of an IR text as a (callee, caller) pair, in order; a call
/// counts once a `define` line has named its caller.
pub fn call_pairs(ir_text: &str) -> (r: Vec<(String, String)>)
    ensures
        pair_views(r@) == call_pairs_spec(ir_text@),
{
    let ls = lines_of(ir_text);
    let ghost lv = ls.deep_view();
    let mut cur = String::new();
    let mut r: Vec<(String, String)> = Vec::new();
    let mut i: usize = 0;
    while i < ls.len()
        invariant
            i <= ls@.len(),
            lv == ls.deep_view(),
            lv == lines(ir_text@),
            (cur@, pair_views(r@)) == caller_scan(lv, i as nat),
        decreases ls@.len() - i,
    {
        assert(lv[i as int] == ls@[i as int]@);
        let l = ls[i].as_str();
        let d = all_groups(DEFINE_NAME_PATTERN, l, 1);
        if d.len() > 0 {
            assert(d.deep_view()[0] == d@[0]@);
            cur = d[0].clone();
        }
        if !cur.as_str().is_empty() {
            let cs = all_groups(crate::callgraph::CALL_TARGET_PATTERN, l, 1);
            let ghost base = pair_views(r@);
            let ghost now = cur@;
            let mut j: usize = 0;
            while j < cs.len()
                invariant
                    j <= cs@.len(),
                    now == cur@,
                    pair_views(r@) =~= base + cs.deep_view().take(j as int).map_values(
                        |c: Seq<char>| (c, now),
                    ),
                decreases cs@.len() - j,
            {
                let ghost before = pair_views(r@);
                r.push((cs[j].clone(), cur.clone()));
                assert(pair_views(r@) =~= before.push((cs@[j as int]@, now)));
                assert(cs.deep_view().take(j + 1).map_values(|c: Seq<char>| (c, now)) =~= cs.deep_view().take(
                    j as int,
                ).map_values(|c: Seq<char>| (c, now)).push((cs@[j as int]@, now)));
                j += 1;
            }
            assert(cs.deep_view().take(j as int) =~= cs.deep_view());
        }
        i += 1;
    }
    r
}

/// The number of distinct functions that call `name`, by the pairs of
/// `call_pairs`.
pub fn caller_count(pairs: &Vec<(String, String)>, name: &str) -> (r: usize)
    ensures
        r == caller_count_spec(pair_views(pairs@), name@),
{
    let ghost pv = pair_views(pairs@);
    let n = name.to_string();
    let mut cs: Vec<String> = Vec::new();
    let mut i: usize = 0;
    while i < pairs.len()
        invariant
            i <= pairs@.len(),
            pv == pair_views(pairs@),
            n@ == name@,
            cs.deep_view() == callers_for(pv, name@, i as nat),
        decreases pairs@.len() - i,
    {
        assert(pv[i as int] == (pairs@[i as int].0@, pairs@[i as int].1@));
        if pairs[i].0 == n {
            let ghost before = cs.deep_view();
            cs.push(pairs[i].1.clone());
            assert(cs.deep_view() =~= before.push(pairs@[i as int].1@));
        }
        i += 1;
    }
    let d = crate::callgraph::distinct_strings(&cs);
    assert(d.deep_view().len() == d@.len());
    d.len()
}

/// How a function diverged between two stages.
#[derive(Debug, Clone, Copy, PartialEq, Eq)]
pub enum DivergenceKind {
    /// The first stage has it, the second does not.
    Missing,
    /// The second stage has it, the first does not.
    Added,
    /// Both have it, with different bodies.
    Changed,
}

/// A divergent function: its instructions in each stage and how many
/// functions of the first stage call it.
#[derive(Debug, Clone)]
pub struct Divergence {
    pub name: String,
    pub kind: DivergenceKind,
    pub size_a: usize,
    pub size_b: usize,
    pub impact: usize,
}

pub struct DivergenceView {
    pub name: Seq<char>,
    pub kind: DivergenceKind,
    pub size_a: usize,
    pub size_b: usize,
    pub impact: nat,
}

impl View for Divergence {
    type V = DivergenceView;

    open spec fn view(&self) -> DivergenceView {
        DivergenceView {
            name: self.name@,
            kind: self.kind,
            size_a: self.size_a,
            size_b: self.size_b,
            impact: self.impact as nat,
        }
    }
}

pub open spec fn divergence_views(v: Seq<Divergence>) -> Seq<DivergenceView> {
    v.map_values(|d: Divergence| d@)
}

/// How function `fa` of stage `a` diverges in stage `b`: missing from it, or
/// changed in it (nothing when it is the same).
pub open spec fn divergence_of(
    fa: IRFunctionView,
    b: Seq<IRFunctionView>,
    pairs: Seq<(Seq<char>, Seq<char>)>,
) -> Seq<DivergenceView> {
    match named(b, fa.name) {
        None => seq![
            DivergenceView {
                name: fa.name,
                kind: DivergenceKind::Missing,
                size_a: fa.metrics.instructions,
                size_b: 0,
                impact: caller_count_spec(pairs, fa.name),
            },
        ],
        Some(fb) => if fa.body_hash != fb.body_hash {
            seq![
                DivergenceView {
                    name: fa.name,
                    kind: DivergenceKind::Changed,
                    size_a: fa.metrics.instructions,
                    size_b: fb.metrics.instructions,
                    impact: caller_count_spec(pairs, fa.name),
                },
            ]
        } else {
            Seq::empty()
        },
    }
}

/// The divergences of the first `n` functions of stage `a`.
pub open spec fn divergences_a(
    a: Seq<IRFunctionView>,
    b: Seq<IRFunctionView>,
    pairs: Seq<(Seq<char>, Seq<char>)>,
    n: nat,
) -> Seq<DivergenceView>
    decreases n,
{
    if n == 0 || n > a.len() {
        Seq::empty()
    } else {
        divergences_a(a, b, pairs, (n - 1) as nat) + divergence_of(a[n - 1], b, pairs)
    }
}

/// Function `fb` of stage `b`, when stage `a` lacks it.
pub open spec fn added_of(a: Seq<IRFunctionView>, fb: IRFunctionView) -> Seq<DivergenceView> {
    if named(a, fb.name) is None {
        seq![
            DivergenceView {
                name: fb.name,
                kind: DivergenceKind::Added,
                size_a: 0,
                size_b: fb.metrics.instructions,
                impact: 0,
            },
        ]
    } else {
        Seq::empty()
    }
}

/// The functions among the first `n` of stage `b` that stage `a` lacks.
pub open spec fn divergences_b(a: Seq<IRFunctionView>, b: Seq<IRFunctionView>, n: nat) -> Seq<
    DivergenceView,
>
    decreases n,
{
    if n == 0 || n > b.len() {
        Seq::empty()
    } else {
        divergences_b(a, b, (n - 1) as nat) + added_of(a, b[n - 1])
    }
}

fn step_a(
    fa: &IRFunction,
    b: &IRModule,
    pairs: &Vec<(String, String)>,
    r: &mut Vec<Divergence>,
)
    ensures
        divergence_views(final(r)@) == divergence_views(old(r)@) + divergence_of(
            fa@,
            b@.functions,
            pair_views(pairs@),
        ),
{
    let ghost before = divergence_views(r@);
    match find_named(b, &fa.name) {
        None => {
            let impact = caller_count(pairs, fa.name.as_str());
            let d = Divergence {
                name: fa.name.clone(),
                kind: DivergenceKind::Missing,
                size_a: fa.metrics.instructions,
                size_b: 0,
                impact,
            };
            let ghost dv = d@;
            r.push(d);
            assert(divergence_views(r@) =~= before + seq![dv]);
        },
        Some(y) => {
            let fb = &b.functions[y];
            assert(b@.functions[y as int] == fb@);
            if fa.body_hash != fb.body_hash {
                let impact = caller_count(pairs, fa.name.as_str());
                let d = Divergence {
                    name: fa.name.clone(),
                    kind: DivergenceKind::Changed,
                    size_a: fa.metrics.instructions,
                    size_b: fb.metrics.instructions,
                    impact,
                };
                let ghost dv = d@;
                r.push(d);
                assert(divergence_views(r@) =~= before + seq![dv]);
            } else {
                assert(divergence_views(r@) =~= before + Seq::<DivergenceView>::empty());
            }
        },
    }
}

fn changed_in_b(a: &IRModule, b: &IRModule, pairs: &Vec<(String, String)>) -> (r: Vec<Divergence>)
    ensures
        divergence_views(r@) == divergences_a(
            a@.functions,
            b@.functions,
            pair_views(pairs@),
            a@.functions.len(),
        ),
{
    let mut r: Vec<Divergence> = Vec::new();
    let mut i: usize = 0;
    while i < a.functions.len()
        invariant
            i <= a.functions@.len(),
            divergence_views(r@) == divergences_a(a@.functions, b@.functions, pair_views(pairs@), i as nat),
        decreases a.functions@.len() - i,
    {
        assert(a@.functions[i as int] == a.functions@[i as int]@);
        step_a(&a.functions[i], b, pairs, &mut r);
        i += 1;
    }
    r
}

fn step_b(a: &IRModule, fb: &IRFunction, r: &mut Vec<Divergence>)
    ensures
        divergence_views(final(r)@) == divergence_views(old(r)@) + added_of(a@.functions, fb@),
{
    let ghost before = divergence_views(r@);
    if find_named(a, &fb.name).is_none() {
        let d = Divergence {
            name: fb.name.clone(),
            kind: DivergenceKind::Added,
            size_a: 0,
            size_b: fb.metrics.instructions,
            impact: 0,
        };
        let ghost dv = d@;
        r.push(d);
        assert(divergence_views(r@) =~= before + seq![dv]);
    } else {
        assert(divergence_views(r@) =~= before + Seq::<DivergenceView>::empty());
    }
}

fn added_in_b(a: &IRModule, b: &IRModule, r: &mut Vec<Divergence>)
    ensures
        divergence_views(final(r)@) == divergence_views(old(r)@) + divergences_b(
            a@.functions,
            b@.functions,
            b@.functions.len(),
        ),
{
    let ghost base = divergence_views(r@);
    let mut j: usize = 0;
    while j < b.functions.len()
        invariant
            j <= b.functions@.len(),
            divergence_views(r@) == base + divergences_b(a@.functions, b@.functions, j as nat),
        decreases b.functions@.len() - j,
    {
        assert(b@.functions[j as int] == b.functions@[j as int]@);
        step_b(a, &b.functions[j], r);
        assert(divergence_views(r@) =~= base + divergences_b(a@.functions, b@.functions, (j + 1) as nat));
        j += 1;
    }
}

/// Every function that differs between two stages: those of `a` that `b`
/// lacks or changed (with their callers in `a`'s text), then those that `b`
/// added.
pub fn divergences(a: &IRModule, b: &IRModule) -> (r: Vec<Divergence>)
    ensures
        divergence_views(r@) == divergences_a(
            a@.functions,
            b@.functions,
            call_pairs_spec(a@.source),
            a@.functions.len(),
        ) + divergences_b(a@.functions, b@.functions, b@.functions.len()),
{
    let pairs = call_pairs(a.source.as_str());
    let mut r = changed_in_b(a, b, &pairs);
    added_in_b(a, b, &mut r);
    r
}

/// One row of a metric comparison: a function of `a`, its metric there and
/// in `b` (0 when `b` lacks it), and whether `b` has it.
#[derive(Debug, Clone)]
pub struct CompareRow {
    pub name: String,
    pub value_a: i64,
    pub value_b: i64,
    pub in_b: bool,
}

pub struct CompareRowView {
    pub name: Seq<char>,
    pub value_a: i64,
    pub value_b: i64,
    pub in_b: bool,
}

impl View for CompareRow {
    type V = CompareRowView;

    open spec fn view(&self) -> CompareRowView {
        CompareRowView { name: self.name@, value_a: self.value_a, value_b: self.value_b, in_b: self.in_b }
    }
}

/// The rows of the first `n` functions of `a`: those with a nonzero metric
/// that `b` has too, and those with a positive metric that `b` lacks.
pub open spec fn compare_rows_spec(
    a: Seq<IRFunctionView>,
    b: Seq<IRFunctionView>,
    metric: Seq<char>,
    n: nat,
) -> Seq<CompareRowView>
    decreases n,
{
    if n == 0 || n > a.len() {
        Seq::empty()
    } else {
        let prev = compare_rows_spec(a, b, metric, (n - 1) as nat);
        let fa = a[n - 1];
        let va = metric_value(fa.metrics, metric) as i64;
        match named(b, fa.name) {
            Some(fb) => if va == 0 {
                prev
            } else {
                prev.push(
                    CompareRowView {
                        name: fa.name,
                        value_a: va,
                        value_b: metric_value(fb.metrics, metric) as i64,
                        in_b: true,
                    },
                )
            },
            None => if va > 0 {
                prev.push(CompareRowView { name: fa.name, value_a: va, value_b: 0, in_b: false })
            } else {
                prev
            },
        }
    }
}

/// The functions of `a` worth comparing on `metric`, with their values in
/// both modules.
pub fn compare_rows(a: &IRModule, b: &IRModule, metric: &str) -> (r: Vec<CompareRow>)
    ensures
        r@.map_values(|c: CompareRow| c@) == compare_rows_spec(
            a@.functions,
            b@.functions,
            metric@,
            a@.functions.len(),
        ),
{
    let mut r: Vec<CompareRow> = Vec::new();
    let mut i: usize = 0;
    while i < a.functions.len()
        invariant
            i <= a.functions@.len(),
            r@.map_values(|c: CompareRow| c@) == compare_rows_spec(
                a@.functions,
                b@.functions,
                metric@,
                i as nat,
            ),
        decreases a.functions@.len() - i,
    {
        let fa = &a.functions[i];
        assert(a@.functions[i as int] == fa@);
        let ghost before = r@.map_values(|c: CompareRow| c@);
        match find_named(b, &fa.name) {
            Some(y) => {
                let (va, vb) = get_metric(fa, &b.functions[y], metric);
                if va != 0 {
                    let row = CompareRow { name: fa.name.clone(), value_a: va, value_b: vb, in_b: true };
                    let ghost rv = row@;
                    r.push(row);
                    assert(r@.map_values(|c: CompareRow| c@) =~= before.push(rv));
                }
            },
            None => {
                let va = get_single_metric(fa, metric);
                if va > 0 {
                    let row = CompareRow { name: fa.name.clone(), value_a: va, value_b: 0, in_b: false };
                    let ghost rv = row@;
                    r.push(row);
                    assert(r@.map_values(|c: CompareRow| c@) =~= before.push(rv));
                }
            },
        }
        i += 1;
    }
    r
}

/// Among the first `n` functions of the current stage, those the previous
/// stage has with the same body, and those it has with another body.
pub open spec fn delta_from(prev: Seq<IRFunctionView>, cur: Seq<IRFunctionView>, n: nat) -> (nat, nat)
    decreases n,
{
    if n == 0 || n > cur.len() {
        (0, 0)
    } else {
        let (m, d) = delta_from(prev, cur, (n - 1) as nat);
        match named(prev, cur[n - 1].name) {
            Some(pf) => if pf.body_hash == cur[n - 1].body_hash {
                (m + 1, d)
            } else {
                (m, d + 1)
            },
            None => (m, d),
        }
    }
}

/// How the current stage's functions compare with the previous stage's: how
/// many kept their body, how many changed it, and how many are new.
pub fn stage_delta(prev: &IRModule, cur: &IRModule) -> (r: (usize, usize, usize))
    ensures
        (r.0 as nat, r.1 as nat) == delta_from(prev@.functions, cur@.functions, cur@.functions.len()),
        r.0 + r.1 + r.2 == cur@.functions.len(),
{
    let mut matched: usize = 0;
    let mut diverged: usize = 0;
    let mut i: usize = 0;
    while i < cur.functions.len()
        invariant
            i <= cur.functions@.len(),
            matched + diverged <= i,
            (matched as nat, diverged as nat) == delta_from(prev@.functions, cur@.functions, i as nat),
        decreases cur.functions@.len() - i,
    {
        let f = &cur.functions[i];
        assert(cur@.functions[i as int] == f@);
        match find_named(prev, &f.name) {
            Some(p) => {
                assert(prev@.functions[p as int] == prev.functions@[p as int]@);
                if prev.functions[p].body_hash == f.body_hash {
                    matched += 1;
                } else {
                    diverged += 1;
                }
            },
            None => {},
        }
        i += 1;
    }
    (matched, diverged, cur.functions.len() - (matched + diverged))
}

} // verus!
