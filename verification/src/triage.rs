//! Triage: findings grouped by root cause (their template), the groups with the
//! most severe findings first and, among equally severe ones, the largest first.
use vstd::prelude::*;
use crate::engine::{Finding, FindingView, finding_views};
use crate::schema::severity_rank;

verus! {

/// Index of the group of template `tid`, from `i` on.
pub open spec fn fgroup_pos(gs: Seq<(Seq<char>, Seq<FindingView>)>, tid: Seq<char>, i: int) -> Option<int>
    decreases gs.len() - i,
{
    if i < 0 || i >= gs.len() {
        None
    } else if gs[i].0 == tid {
        Some(i)
    } else {
        fgroup_pos(gs, tid, i + 1)
    }
}

/// The first `n` findings grouped by template, groups in the order their
/// templates first appear, findings in order within a group.
pub open spec fn finding_groups(fs: Seq<FindingView>, n: nat) -> Seq<(Seq<char>, Seq<FindingView>)>
    decreases n,
{
    if n == 0 || n > fs.len() {
        Seq::empty()
    } else {
        let gs = finding_groups(fs, (n - 1) as nat);
        let f = fs[n - 1];
        match fgroup_pos(gs, f.template_id, 0) {
            Some(j) => gs.update(j, (gs[j].0, gs[j].1.push(f))),
            None => gs.push((f.template_id, seq![f])),
        }
    }
}

/// The rank of the most severe finding of a group (5 for an empty one).
pub open spec fn worst_rank(g: Seq<FindingView>) -> nat
    decreases g.len(),
{
    if g.len() == 0 {
        5
    } else {
        let r = worst_rank(g.drop_last());
        let s = severity_rank(g.last().severity);
        if s < r {
            s
        } else {
            r
        }
    }
}

/// Group `a` may stand before group `b`: it is more severe, or as severe and
/// at least as large.
pub open spec fn triage_before(a: Seq<FindingView>, b: Seq<FindingView>) -> bool {
    worst_rank(a) < worst_rank(b) || (worst_rank(a) == worst_rank(b) && a.len() >= b.len())
}

pub open spec fn insert_group(
    s: Seq<(Seq<char>, Seq<FindingView>)>,
    x: (Seq<char>, Seq<FindingView>),
) -> Seq<(Seq<char>, Seq<FindingView>)>
    decreases s.len(),
{
    if s.len() == 0 {
        seq![x]
    } else if triage_before(s.last().1, x.1) {
        s.push(x)
    } else {
        insert_group(s.drop_last(), x).push(s.last())
    }
}

/// Stable sort: most severe groups first, then larger ones.
pub open spec fn sort_groups(s: Seq<(Seq<char>, Seq<FindingView>)>) -> Seq<(Seq<char>, Seq<FindingView>)>
    decreases s.len(),
{
    if s.len() == 0 {
        Seq::empty()
    } else {
        insert_group(sort_groups(s.drop_last()), s.last())
    }
}

/// What triage reports: the groups of the findings in triage order.
pub open spec fn triage_spec(fs: Seq<FindingView>) -> Seq<(Seq<char>, Seq<FindingView>)> {
    sort_groups(finding_groups(fs, fs.len()))
}

pub open spec fn fgroup_views(gs: Seq<(String, Vec<Finding>)>) -> Seq<(Seq<char>, Seq<FindingView>)> {
    gs.map_values(|g: (String, Vec<Finding>)| (g.0@, finding_views(g.1@)))
}

fn worst_rank_exec(g: &Vec<Finding>) -> (r: u8)
    ensures
        r as nat == worst_rank(finding_views(g@)),
{
    let ghost gv = finding_views(g@);
    let mut r: u8 = 5;
    let mut i: usize = 0;
    while i < g.len()
        invariant
            i <= g@.len(),
            gv == finding_views(g@),
            r as nat == worst_rank(gv.take(i as int)),
            r <= 5,
        decreases g@.len() - i,
    {
        proof {
            assert(gv.take(i + 1).drop_last() =~= gv.take(i as int));
            assert(gv.take(i + 1).last() == g@[i as int]@);
        }
        let s = g[i].severity.rank();
        if s < r {
            r = s;
        }
        i += 1;
    }
    assert(gv.take(i as int) =~= gv);
    r
}

proof fn lemma_insert_group_at(
    s: Seq<(Seq<char>, Seq<FindingView>)>,
    x: (Seq<char>, Seq<FindingView>),
    j: int,
)
    requires
        0 <= j <= s.len(),
        j == 0 || triage_before(s[j - 1].1, x.1),
        forall|k: int| j <= k < s.len() ==> !triage_before((#[trigger] s[k]).1, x.1),
    ensures
        insert_group(s, x) == s.insert(j, x),
    decreases s.len(),
{
    if s.len() == 0 {
        assert(s.insert(j, x) =~= seq![x]);
    } else if j == s.len() {
        assert(s.insert(j, x) =~= s.push(x));
    } else {
        lemma_insert_group_at(s.drop_last(), x, j);
        assert(s.insert(j, x) =~= s.drop_last().insert(j, x).push(s.last()));
    }
}

fn copy_findings(fs: &Vec<Finding>) -> (r: Vec<Finding>)
    ensures
        finding_views(r@) == finding_views(fs@),
{
    let mut r: Vec<Finding> = Vec::new();
    let mut i: usize = 0;
    while i < fs.len()
        invariant
            i <= fs@.len(),
            finding_views(r@) == finding_views(fs@).take(i as int),
        decreases fs@.len() - i,
    {
        let ghost before = r@;
        let c = fs[i].clone_finding();
        r.push(c);
        assert(finding_views(r@) =~= finding_views(before).push(fs@[i as int]@));
        assert(finding_views(fs@).take(i + 1) =~= finding_views(fs@).take(i as int).push(fs@[i as int]@));
        i += 1;
    }
    assert(finding_views(fs@).take(i as int) =~= finding_views(fs@));
    r
}

/// Group `g` may stand before a group whose worst rank is `wr` and size `n`.
fn stays_before(g: &Vec<Finding>, wr: u8, n: usize) -> (b: bool)
    ensures
        b == (worst_rank(finding_views(g@)) < wr || (worst_rank(finding_views(g@)) == wr && g@.len() >= n)),
{
    let wg = worst_rank_exec(g);
    wg < wr || (wg == wr && g.len() >= n)
}

/// The findings grouped by template: groups with more severe findings first,
/// then larger groups; equal groups in the order their templates first appear.
pub fn triage_groups(findings: &[Finding]) -> (r: Vec<(String, Vec<Finding>)>)
    ensures
        fgroup_views(r@) == triage_spec(finding_views(findings@)),
{
    let ghost fv = finding_views(findings@);
    let mut gs: Vec<(String, Vec<Finding>)> = Vec::new();
    let mut i: usize = 0;
    while i < findings.len()
        invariant
            i <= findings@.len(),
            fv == finding_views(findings@),
            fgroup_views(gs@) == finding_groups(fv, i as nat),
        decreases findings@.len() - i,
    {
        let f = findings[i].clone_finding();
        assert(fv[i as int] == f@);
        let ghost gv = fgroup_views(gs@);
        let mut j: usize = 0;
        while j < gs.len() && gs[j].0 != f.template_id
            invariant
                j <= gs@.len(),
                gv == fgroup_views(gs@),
                fgroup_pos(gv, f@.template_id, 0) == fgroup_pos(gv, f@.template_id, j as int),
            decreases gs@.len() - j,
        {
            assert(gv[j as int].0 == gs@[j as int].0@);
            j += 1;
        }
        if j < gs.len() {
            assert(gv[j as int].0 == gs@[j as int].0@);
            let ghost old_gs = gs@;
            let ghost f1 = f@;
            let (tid, mut members) = gs.remove(j);
            assert(tid@ == gv[j as int].0);
            assert(finding_views(members@) == gv[j as int].1);
            members.push(f);
            assert(finding_views(members@) =~= gv[j as int].1.push(f1));
            let ghost item = (tid, members);
            gs.insert(j, (tid, members));
            assert(gs@ =~= old_gs.update(j as int, item));
            assert(fgroup_views(gs@) =~= gv.update(j as int, (gv[j as int].0, gv[j as int].1.push(f1))));
        } else {
            let tid = f.template_id.clone();
            let ghost f1 = f@;
            let members = vec![f];
            gs.push((tid, members));
            assert(finding_views(members@) =~= seq![f1]);
            assert(fgroup_views(gs@) =~= gv.push((f1.template_id, seq![f1])));
        }
        i += 1;
    }
    let ghost all = finding_groups(fv, fv.len());
    let mut r: Vec<(String, Vec<Finding>)> = Vec::new();
    let mut k: usize = 0;
    while k < gs.len()
        invariant
            k <= gs@.len(),
            fgroup_views(gs@) == all,
            fgroup_views(r@) == sort_groups(all.take(k as int)),
        decreases gs@.len() - k,
    {
        let members = copy_findings(&gs[k].1);
        let g = (gs[k].0.clone(), members);
        assert(all[k as int] == (g.0@, finding_views(g.1@)));
        let wr = worst_rank_exec(&g.1);
        let n = g.1.len();
        let mut j = r.len();
        while j > 0 && !stays_before(&r[j - 1].1, wr, n)
            invariant
                j <= r@.len(),
                n == g.1@.len(),
                wr as nat == worst_rank(finding_views(g.1@)),
                forall|l: int|
                    j <= l < r@.len() ==> !triage_before(
                        finding_views((#[trigger] r@[l]).1@),
                        finding_views(g.1@),
                    ),
            decreases j,
        {
            j -= 1;
        }
        proof {
            let rv = fgroup_views(r@);
            assert forall|l: int| j <= l < rv.len() implies !triage_before(
                (#[trigger] rv[l]).1,
                finding_views(g.1@),
            ) by {
                assert(rv[l].1 == finding_views(r@[l].1@));
            }
            if j > 0 {
                assert(rv[j - 1].1 == finding_views(r@[j - 1].1@));
            }
            lemma_insert_group_at(rv, (g.0@, finding_views(g.1@)), j as int);
            assert(all.take(k + 1).drop_last() =~= all.take(k as int));
        }
        let ghost before = r@;
        let ghost gv1 = (g.0@, finding_views(g.1@));
        r.insert(j, g);
        assert(fgroup_views(r@) =~= fgroup_views(before).insert(j as int, gv1));
        k += 1;
    }
    assert(all.take(k as int) =~= all);
    r
}

/// The findings among the first `n` that stand in a function whose name
/// holds `function`, by position.
pub open spec fn in_function_from(fs: Seq<FindingView>, function: Seq<char>, n: nat) -> Seq<usize>
    decreases n,
{
    if n == 0 || n > fs.len() {
        Seq::empty()
    } else {
        let prev = in_function_from(fs, function, (n - 1) as nat);
        if fs[n - 1].function matches Some(name) && crate::text::contains(name, function) {
            prev.push((n - 1) as usize)
        } else {
            prev
        }
    }
}

/// The findings in the functions whose name holds `function`, by position.
pub fn findings_in_function(findings: &[Finding], function: &str) -> (r: Vec<usize>)
    ensures
        r@ == in_function_from(finding_views(findings@), function@, findings@.len() as nat),
        forall|k: int| 0 <= k < r@.len() ==> (#[trigger] r@[k]) < findings@.len(),
{
    let ghost fv = finding_views(findings@);
    let mut r: Vec<usize> = Vec::new();
    let mut i: usize = 0;
    while i < findings.len()
        invariant
            i <= findings@.len(),
            fv == finding_views(findings@),
            r@ == in_function_from(fv, function@, i as nat),
            forall|k: int| 0 <= k < r@.len() ==> (#[trigger] r@[k]) < i,
        decreases findings@.len() - i,
    {
        assert(fv[i as int] == findings@[i as int]@);
        let keep = match &findings[i].function {
            Some(name) => crate::text::contains_str(name.as_str(), function),
            None => false,
        };
        if keep {
            r.push(i);
        }
        i += 1;
    }
    r
}

/// The positions among `idx` (the first `n`) of findings of severity `sev`.
pub open spec fn of_severity(fs: Seq<FindingView>, idx: Seq<usize>, sev: crate::schema::Severity, n: nat) -> Seq<usize>
    decreases n,
{
    if n == 0 || n > idx.len() {
        Seq::empty()
    } else {
        let prev = of_severity(fs, idx, sev, (n - 1) as nat);
        if fs[idx[n - 1] as int].severity == sev {
            prev.push(idx[n - 1])
        } else {
            prev
        }
    }
}

/// Among the first `n` candidates, the first finding of each template.
pub open spec fn first_per_template(fs: Seq<FindingView>, cand: Seq<usize>, n: nat) -> Seq<usize>
    decreases n,
{
    if n == 0 || n > cand.len() {
        Seq::empty()
    } else {
        let prev = first_per_template(fs, cand, (n - 1) as nat);
        if prev.map_values(|p: usize| fs[p as int].template_id).contains(fs[cand[n - 1] as int].template_id) {
            prev
        } else {
            prev.push(cand[n - 1])
        }
    }
}

/// The suggestions for a function's findings `idx`: the critical ones, then
/// the high, then the medium, the first finding of each template only.
pub open spec fn suggestion_order(fs: Seq<FindingView>, idx: Seq<usize>) -> Seq<usize> {
    let cand = of_severity(fs, idx, crate::schema::Severity::Critical, idx.len()) + of_severity(
        fs,
        idx,
        crate::schema::Severity::High,
        idx.len(),
    ) + of_severity(fs, idx, crate::schema::Severity::Medium, idx.len());
    first_per_template(fs, cand, cand.len())
}

fn push_of_severity(
    findings: &[Finding],
    idx: &Vec<usize>,
    sev: crate::schema::Severity,
    out: &mut Vec<usize>,
)
    requires
        forall|k: int| 0 <= k < idx@.len() ==> (#[trigger] idx@[k]) < findings@.len(),
    ensures
        final(out)@ == old(out)@ + of_severity(finding_views(findings@), idx@, sev, idx@.len() as nat),
{
    let ghost base = out@;
    let ghost fv = finding_views(findings@);
    let mut k: usize = 0;
    while k < idx.len()
        invariant
            k <= idx@.len(),
            fv == finding_views(findings@),
            forall|q: int| 0 <= q < idx@.len() ==> (#[trigger] idx@[q]) < findings@.len(),
            out@ == base + of_severity(fv, idx@, sev, k as nat),
        decreases idx@.len() - k,
    {
        let p = idx[k];
        assert(fv[p as int] == findings@[p as int]@);
        if findings[p].severity == sev {
            out.push(p);
            assert(out@ =~= base + of_severity(fv, idx@, sev, (k + 1) as nat));
        }
        k += 1;
    }
}

/// The findings to suggest fixes for, by position: among `idx`, the critical
/// ones, then the high, then the medium, the first finding of each template.
pub fn suggestion_picks(findings: &[Finding], idx: &Vec<usize>) -> (r: Vec<usize>)
    requires
        forall|k: int| 0 <= k < idx@.len() ==> (#[trigger] idx@[k]) < findings@.len(),
    ensures
        r@ == suggestion_order(finding_views(findings@), idx@),
{
    let ghost fv = finding_views(findings@);
    let mut cand: Vec<usize> = Vec::new();
    push_of_severity(findings, idx, crate::schema::Severity::Critical, &mut cand);
    push_of_severity(findings, idx, crate::schema::Severity::High, &mut cand);
    push_of_severity(findings, idx, crate::schema::Severity::Medium, &mut cand);
    assert(cand@ =~= of_severity(fv, idx@, crate::schema::Severity::Critical, idx@.len() as nat) + of_severity(
        fv,
        idx@,
        crate::schema::Severity::High,
        idx@.len() as nat,
    ) + of_severity(fv, idx@, crate::schema::Severity::Medium, idx@.len() as nat));
    proof {
        lemma_of_severity_bound(fv, idx@, crate::schema::Severity::Critical, idx@.len() as nat, findings@.len());
        lemma_of_severity_bound(fv, idx@, crate::schema::Severity::High, idx@.len() as nat, findings@.len());
        lemma_of_severity_bound(fv, idx@, crate::schema::Severity::Medium, idx@.len() as nat, findings@.len());
    }
    let mut r: Vec<usize> = Vec::new();
    let mut seen: Vec<String> = Vec::new();
    let mut k: usize = 0;
    while k < cand.len()
        invariant
            k <= cand@.len(),
            fv == finding_views(findings@),
            forall|q: int| 0 <= q < cand@.len() ==> (#[trigger] cand@[q]) < findings@.len(),
            r@ == first_per_template(fv, cand@, k as nat),
            seen.deep_view() =~= r@.map_values(|p: usize| fv[p as int].template_id),
        decreases cand@.len() - k,
    {
        let p = cand[k];
        assert(fv[p as int] == findings@[p as int]@);
        if !crate::callgraph::contains_string(&seen, &findings[p].template_id) {
            let ghost s0 = seen.deep_view();
            seen.push(findings[p].template_id.clone());
            r.push(p);
            assert(seen.deep_view() =~= s0.push(fv[p as int].template_id));
        }
        k += 1;
    }
    r
}

proof fn lemma_of_severity_bound(
    fs: Seq<FindingView>,
    idx: Seq<usize>,
    sev: crate::schema::Severity,
    n: nat,
    bound: nat,
)
    requires
        forall|k: int| 0 <= k < idx.len() ==> (#[trigger] idx[k]) < bound,
    ensures
        forall|k: int| 0 <= k < of_severity(fs, idx, sev, n).len() ==> (#[trigger] of_severity(fs, idx, sev, n)[k]) < bound,
    decreases n,
{
    if n > 0 && n <= idx.len() {
        lemma_of_severity_bound(fs, idx, sev, (n - 1) as nat, bound);
        let prev = of_severity(fs, idx, sev, (n - 1) as nat);
        if fs[idx[n - 1] as int].severity == sev {
            assert forall|k: int| 0 <= k < prev.push(idx[n - 1]).len() implies (#[trigger] prev.push(idx[n - 1])[k]) < bound by {
                if k < prev.len() {
                    assert(prev.push(idx[n - 1])[k] == prev[k]);
                }
            }
        }
    }
}


/// The functions that the first `n` findings are in, in order, repeats kept.
pub open spec fn named_functions(fs: Seq<FindingView>, n: nat) -> Seq<Seq<char>>
    decreases n,
{
    if n == 0 || n > fs.len() {
        Seq::empty()
    } else {
        let prev = named_functions(fs, (n - 1) as nat);
        match fs[n - 1].function {
            Some(f) => prev.push(f),
            None => prev,
        }
    }
}

/// The functions a group of findings is in, sorted, each once.
pub fn group_functions(findings: &[Finding]) -> (r: Vec<String>)
    ensures
        crate::order::strictly_sorted(r.deep_view()),
        forall|x: Seq<char>|
            r.deep_view().contains(x) <==> named_functions(finding_views(findings@), findings@.len() as nat).contains(x),
{
    let ghost fv = finding_views(findings@);
    let mut names: Vec<String> = Vec::new();
    let mut i: usize = 0;
    while i < findings.len()
        invariant
            i <= findings@.len(),
            fv == finding_views(findings@),
            names.deep_view() == named_functions(fv, i as nat),
        decreases findings@.len() - i,
    {
        assert(fv[i as int] == findings@[i as int]@);
        match &findings[i].function {
            Some(f) => {
                let ghost before = names.deep_view();
                names.push(f.clone());
                assert(names.deep_view() =~= before.push(f@));
            },
            None => {},
        }
        i += 1;
    }
    crate::order::sorted_unique(&names)
}
} // verus!
