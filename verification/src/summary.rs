//! The one-shot summary of a module: undefined types in its text, struct
//! types whose fields are only ever read at index 0, the zero-initializer
//! patterns that corrupt structs, and the health score that weighs them.
use vstd::prelude::*;
use crate::index_audit::{bump_count, bump_exec};
use crate::ir::{IRFunctionView, IRModule, IRModuleView};
use crate::missing_types::{TYPE_DEF_PATTERN, TYPE_USE_PATTERN};
use crate::order::{sorted_unique, strictly_sorted};
use crate::rx::{all_groups, rx_groups, rx_count};
use crate::text::{contains, contains_str, lines, lines_of, parse_usize, parse_usize_spec, trim, trim_str};

verus! {

pub const EXTRACT_INDEX_PATTERN: &'static str = r"extractvalue (%(?:struct|enum)\.\w+) .+, (\d+)";
pub const PHI_ZEROINIT_PATTERN: &'static str = r"= phi (%struct\.\w+) .+zeroinitializer";
pub const STORE_ZEROINIT_PATTERN: &'static str = r"store (%struct\.\w+) zeroinitializer";
pub const SRET_ZEROINIT_PATTERN: &'static str = r"store %struct\.\w+ zeroinitializer, ptr %__sret__";

/// The first match of group 1 of `pattern` on each of the first `n` lines.
pub open spec fn first_groups(pattern: Seq<char>, ls: Seq<Seq<char>>, n: nat) -> Seq<Seq<char>>
    decreases n,
{
    if n == 0 || n > ls.len() {
        Seq::empty()
    } else {
        let gs = rx_groups(pattern, ls[n - 1], 1);
        let prev = first_groups(pattern, ls, (n - 1) as nat);
        if gs.len() > 0 {
            prev.push(gs[0])
        } else {
            prev
        }
    }
}

/// Every match of group 1 of `pattern` on the first `n` lines.
pub open spec fn every_group(pattern: Seq<char>, ls: Seq<Seq<char>>, n: nat) -> Seq<Seq<char>>
    decreases n,
{
    if n == 0 || n > ls.len() {
        Seq::empty()
    } else {
        every_group(pattern, ls, (n - 1) as nat) + rx_groups(pattern, ls[n - 1], 1)
    }
}

/// The types that the lines of `text` define, and the ones they use without
/// defining, each sorted and without repeats.
pub open spec fn type_census_ok(text: Seq<char>, defined: Seq<Seq<char>>, missing: Seq<Seq<char>>) -> bool {
    let ls = lines(text);
    let defs = first_groups(TYPE_DEF_PATTERN@, ls, ls.len());
    let used = every_group(TYPE_USE_PATTERN@, ls, ls.len());
    &&& strictly_sorted(defined)
    &&& forall|x: Seq<char>| defined.contains(x) <==> defs.contains(x)
    &&& strictly_sorted(missing)
    &&& forall|x: Seq<char>| missing.contains(x) <==> (used.contains(x) && !defs.contains(x))
}

fn append_all(dst: &mut Vec<String>, src: &Vec<String>)
    ensures
        final(dst).deep_view() == old(dst).deep_view() + src.deep_view(),
{
    let ghost base = dst.deep_view();
    let mut j: usize = 0;
    while j < src.len()
        invariant
            j <= src@.len(),
            dst.deep_view() == base + src.deep_view().take(j as int),
        decreases src@.len() - j,
    {
        let ghost before = dst.deep_view();
        dst.push(src[j].clone());
        assert(src.deep_view().take(j + 1) =~= src.deep_view().take(j as int).push(src@[j as int]@));
        assert(dst.deep_view() =~= before.push(src@[j as int]@));
        j += 1;
    }
    assert(src.deep_view().take(j as int) =~= src.deep_view());
}

/// The named types that the lines of `text` define (`%struct.X = type ...`
/// at the start of a line), and those that the lines use but never define.
pub fn type_census(text: &str) -> (r: (Vec<String>, Vec<String>))
    ensures
        type_census_ok(text@, r.0.deep_view(), r.1.deep_view()),
{
    let ls = lines_of(text);
    let ghost lv = ls.deep_view();
    let mut defs: Vec<String> = Vec::new();
    let mut used: Vec<String> = Vec::new();
    let mut i: usize = 0;
    while i < ls.len()
        invariant
            i <= ls@.len(),
            lv == ls.deep_view(),
            lv == lines(text@),
            defs.deep_view() == first_groups(TYPE_DEF_PATTERN@, lv, i as nat),
            used.deep_view() == every_group(TYPE_USE_PATTERN@, lv, i as nat),
        decreases ls@.len() - i,
    {
        assert(lv[i as int] == ls@[i as int]@);
        let d = all_groups(TYPE_DEF_PATTERN, ls[i].as_str(), 1);
        if d.len() > 0 {
            let ghost before = defs.deep_view();
            defs.push(d[0].clone());
            assert(defs.deep_view() =~= before.push(d.deep_view()[0]));
        }
        let u = all_groups(TYPE_USE_PATTERN, ls[i].as_str(), 1);
        append_all(&mut used, &u);
        i += 1;
    }
    let defined = sorted_unique(&defs);
    let mut undefined: Vec<String> = Vec::new();
    let mut k: usize = 0;
    while k < used.len()
        invariant
            k <= used@.len(),
            forall|x: Seq<char>| defined.deep_view().contains(x) <==> defs.deep_view().contains(x),
            forall|x: Seq<char>|
                undefined.deep_view().contains(x) <==> (used.deep_view().take(k as int).contains(x)
                    && !defs.deep_view().contains(x)),
        decreases used@.len() - k,
    {
        let ghost x = used.deep_view()[k as int];
        assert(used.deep_view()[k as int] == used@[k as int]@);
        assert(used.deep_view().take(k + 1) =~= used.deep_view().take(k as int).push(x));
        if !crate::callgraph::contains_string(&defined, &used[k]) {
            let ghost before = undefined.deep_view();
            undefined.push(used[k].clone());
            assert(undefined.deep_view() =~= before.push(x));
            assert forall|y: Seq<char>| undefined.deep_view().contains(y) <==> (used.deep_view().take(
                k + 1,
            ).contains(y) && !defs.deep_view().contains(y)) by {
                lemma_push_contains(before, x, y);
                lemma_push_contains(used.deep_view().take(k as int), x, y);
            }
        } else {
            assert forall|y: Seq<char>| undefined.deep_view().contains(y) <==> (used.deep_view().take(
                k + 1,
            ).contains(y) && !defs.deep_view().contains(y)) by {
                lemma_push_contains(used.deep_view().take(k as int), x, y);
            }
        }
        k += 1;
    }
    assert(used.deep_view().take(k as int) =~= used.deep_view());
    let missing = sorted_unique(&undefined);
    (defined, missing)
}

/// A sequence with one more element holds exactly what it held, and that element.
pub proof fn lemma_push_contains<T>(s: Seq<T>, x: T, y: T)
    ensures
        s.push(x).contains(y) <==> (s.contains(y) || y == x),
{
    if s.contains(y) {
        let q = choose|q: int| 0 <= q < s.len() && s[q] == y;
        assert(s.push(x)[q] == y);
    }
    if y == x {
        assert(s.push(x)[s.len() as int] == x);
    }
    if s.push(x).contains(y) {
        let q = choose|q: int| 0 <= q < s.push(x).len() && s.push(x)[q] == y;
        if q < s.len() {
            assert(s[q] == y);
        }
    }
}

/// The struct type and field index that a line reads with `extractvalue`
/// (an index that does not parse counts as 0).
pub open spec fn line_access(l: Seq<char>) -> Option<(Seq<char>, usize)> {
    let t = trim(l);
    let names = rx_groups(EXTRACT_INDEX_PATTERN@, t, 1);
    let idxs = rx_groups(EXTRACT_INDEX_PATTERN@, t, 2);
    if names.len() > 0 {
        Some(
            (
                names[0],
                match parse_usize_spec(idxs[0]) {
                    Some(v) => v,
                    None => 0,
                },
            ),
        )
    } else {
        None
    }
}

/// The field reads on the first `n` lines of a body whose type name holds
/// `filter` (every read when there is no filter).
pub open spec fn body_accesses(f: IRFunctionView, filter: Option<Seq<char>>, n: nat) -> Seq<
    (Seq<char>, usize),
>
    decreases n,
{
    let ls = lines(f.body);
    if n == 0 || n > ls.len() {
        Seq::empty()
    } else {
        let prev = body_accesses(f, filter, (n - 1) as nat);
        match line_access(ls[n - 1]) {
            Some(a) => if filter matches Some(w) && !contains(a.0, w) {
                prev
            } else {
                prev.push(a)
            },
            None => prev,
        }
    }
}

/// The field reads in the first `n` functions.
pub open spec fn module_accesses(fs: Seq<IRFunctionView>, filter: Option<Seq<char>>, n: nat) -> Seq<
    (Seq<char>, usize),
>
    decreases n,
{
    if n == 0 || n > fs.len() {
        Seq::empty()
    } else {
        module_accesses(fs, filter, (n - 1) as nat) + body_accesses(
            fs[n - 1],
            filter,
            lines(fs[n - 1].body).len(),
        )
    }
}

/// How many of the first `n` reads are of struct type `name`.
pub open spec fn reads_of(acc: Seq<(Seq<char>, usize)>, name: Seq<char>, n: nat) -> nat
    decreases n,
{
    if n == 0 || n > acc.len() {
        0
    } else {
        reads_of(acc, name, (n - 1) as nat) + if acc[n - 1].0 == name {
            1nat
        } else {
            0nat
        }
    }
}

/// Every read of struct type `name` is of field 0.
pub open spec fn only_index_zero(acc: Seq<(Seq<char>, usize)>, name: Seq<char>) -> bool {
    forall|k: int| 0 <= k < acc.len() && (#[trigger] acc[k]).0 == name ==> acc[k].1 == 0
}

/// Among the first `n` distinct names, those read more than three times and
/// only ever at field 0, each with its number of reads.
pub open spec fn stuck_from(ds: Seq<Seq<char>>, acc: Seq<(Seq<char>, usize)>, n: nat) -> Seq<
    (Seq<char>, nat),
>
    decreases n,
{
    if n == 0 || n > ds.len() {
        Seq::empty()
    } else {
        let prev = stuck_from(ds, acc, (n - 1) as nat);
        let c = reads_of(acc, ds[n - 1], acc.len());
        if only_index_zero(acc, ds[n - 1]) && c > 3 {
            prev.push((ds[n - 1], c))
        } else {
            prev
        }
    }
}

/// The struct types (filtered by `filter`) read more than three times and
/// only ever at field 0, in the order they are first read, with their reads.
pub open spec fn stuck_at_zero_spec(m: IRModuleView, filter: Option<Seq<char>>) -> Seq<(Seq<char>, nat)> {
    let acc = module_accesses(m.functions, filter, m.functions.len());
    let names = acc.map_values(|a: (Seq<char>, usize)| a.0);
    let ds = crate::callgraph::distinct(names, names.len());
    stuck_from(ds, acc, ds.len())
}

fn push_body_accesses(f: &crate::ir::IRFunction, filter: Option<&str>, out: &mut Vec<(String, usize)>)
    ensures
        final(out)@.map_values(|a: (String, usize)| (a.0@, a.1)) == old(out)@.map_values(
            |a: (String, usize)| (a.0@, a.1),
        ) + body_accesses(
            f@,
            match filter {
                Some(w) => Some(w@),
                None => None,
            },
            lines(f@.body).len(),
        ),
{
    let ghost fv = match filter {
        Some(w) => Some(w@),
        None => None,
    };
    let ghost base = out@.map_values(|a: (String, usize)| (a.0@, a.1));
    let ls = lines_of(f.body.as_str());
    let ghost lv = ls.deep_view();
    let mut k: usize = 0;
    while k < ls.len()
        invariant
            k <= ls@.len(),
            lv == ls.deep_view(),
            lv == lines(f@.body),
            fv == match filter {
                Some(w) => Some(w@),
                None => None::<Seq<char>>,
            },
            out@.map_values(|a: (String, usize)| (a.0@, a.1)) == base + body_accesses(f@, fv, k as nat),
        decreases ls@.len() - k,
    {
        assert(lv[k as int] == ls@[k as int]@);
        let t = trim_str(ls[k].as_str());
        let names = all_groups(EXTRACT_INDEX_PATTERN, t.as_str(), 1);
        let ghost before = out@.map_values(|a: (String, usize)| (a.0@, a.1));
        if names.len() > 0 {
            let idxs = all_groups(EXTRACT_INDEX_PATTERN, t.as_str(), 2);
            assert(idxs.deep_view().len() == names.deep_view().len());
            let idx = match parse_usize(idxs[0].as_str()) {
                Some(v) => v,
                None => 0,
            };
            assert(names.deep_view()[0] == names@[0]@);
            assert(idxs.deep_view()[0] == idxs@[0]@);
            let keep = match filter {
                Some(w) => contains_str(names[0].as_str(), w),
                None => true,
            };
            if keep {
                out.push((names[0].clone(), idx));
                assert(out@.map_values(|a: (String, usize)| (a.0@, a.1)) =~= before.push(
                    (names@[0]@, idx),
                ));
            }
        }
        k += 1;
    }
}

/// The struct types (whose names hold `filter`, when one is given) that the
/// module reads with `extractvalue` more than three times and only ever at
/// field 0, in the order they are first read, with their number of reads.
pub fn stuck_at_zero(module: &IRModule, filter: Option<&str>) -> (r: Vec<(String, usize)>)
    ensures
        r@.map_values(|e: (String, usize)| (e.0@, e.1 as nat)) == stuck_at_zero_spec(
            module@,
            match filter {
                Some(w) => Some(w@),
                None => None,
            },
        ),
{
    let ghost fv = match filter {
        Some(w) => Some(w@),
        None => None::<Seq<char>>,
    };
    let mut acc: Vec<(String, usize)> = Vec::new();
    let mut i: usize = 0;
    while i < module.functions.len()
        invariant
            i <= module.functions@.len(),
            fv == match filter {
                Some(w) => Some(w@),
                None => None::<Seq<char>>,
            },
            acc@.map_values(|a: (String, usize)| (a.0@, a.1)) == module_accesses(
                module@.functions,
                fv,
                i as nat,
            ),
        decreases module.functions@.len() - i,
    {
        assert(module@.functions[i as int] == module.functions@[i as int]@);
        push_body_accesses(&module.functions[i], filter, &mut acc);
        i += 1;
    }
    let ghost av = acc@.map_values(|a: (String, usize)| (a.0@, a.1));
    let mut names: Vec<String> = Vec::new();
    let mut j: usize = 0;
    while j < acc.len()
        invariant
            j <= acc@.len(),
            av == acc@.map_values(|a: (String, usize)| (a.0@, a.1)),
            names.deep_view() =~= av.map_values(|a: (Seq<char>, usize)| a.0).take(j as int),
        decreases acc@.len() - j,
    {
        let ghost before = names.deep_view();
        names.push(acc[j].0.clone());
        assert(names.deep_view() =~= before.push(av[j as int].0));
        assert(av.map_values(|a: (Seq<char>, usize)| a.0).take(j + 1) =~= av.map_values(
            |a: (Seq<char>, usize)| a.0,
        ).take(j as int).push(av[j as int].0));
        j += 1;
    }
    assert(names.deep_view() =~= av.map_values(|a: (Seq<char>, usize)| a.0));
    let ds = crate::callgraph::distinct_strings(&names);
    let mut r: Vec<(String, usize)> = Vec::new();
    let mut d: usize = 0;
    while d < ds.len()
        invariant
            d <= ds@.len(),
            av == acc@.map_values(|a: (String, usize)| (a.0@, a.1)),
            ds.deep_view() == crate::callgraph::distinct(
                av.map_values(|a: (Seq<char>, usize)| a.0),
                av.len(),
            ),
            r@.map_values(|e: (String, usize)| (e.0@, e.1 as nat)) == stuck_from(ds.deep_view(), av, d as nat),
        decreases ds@.len() - d,
    {
        assert(ds.deep_view()[d as int] == ds@[d as int]@);
        let mut count: usize = 0;
        let mut zero = true;
        let mut q: usize = 0;
        while q < acc.len()
            invariant
                q <= acc@.len(),
                d < ds@.len(),
                count <= q,
                av == acc@.map_values(|a: (String, usize)| (a.0@, a.1)),
                count == reads_of(av, ds@[d as int]@, q as nat),
                zero == (forall|k: int| 0 <= k < q && (#[trigger] av[k]).0 == ds@[d as int]@ ==> av[k].1 == 0),
            decreases acc@.len() - q,
        {
            assert(av[q as int] == (acc@[q as int].0@, acc@[q as int].1));
            let ghost z0 = zero;
            if acc[q].0 == ds[d] {
                count += 1;
                if acc[q].1 != 0 {
                    zero = false;
                }
            }
            assert(zero == (forall|k: int| 0 <= k < q + 1 && (#[trigger] av[k]).0 == ds@[d as int]@ ==> av[k].1 == 0)) by {
                if z0 && !zero {
                    assert(av[q as int].0 == ds@[d as int]@ && av[q as int].1 != 0);
                }
            }
            q += 1;
        }
        if zero && count > 3 {
            let ghost before = r@.map_values(|e: (String, usize)| (e.0@, e.1 as nat));
            r.push((ds[d].clone(), count));
            assert(r@.map_values(|e: (String, usize)| (e.0@, e.1 as nat)) =~= before.push(
                (ds@[d as int]@, count as nat),
            ));
        }
        d += 1;
    }
    r
}

/// `start` plus the number of the first `n` lines of a body that `pattern`
/// matches once trimmed (wrapping, as a release build counts).
pub open spec fn count_lines_from(f: IRFunctionView, pattern: Seq<char>, start: usize, n: nat) -> usize
    decreases n,
{
    if n == 0 || n > lines(f.body).len() {
        start
    } else {
        let c = count_lines_from(f, pattern, start, (n - 1) as nat);
        if rx_count(pattern, trim(lines(f.body)[n - 1])) > 0 {
            bump_count(c)
        } else {
            c
        }
    }
}

/// The number of lines of the first `n` function bodies that `pattern` matches.
pub open spec fn module_line_count(fs: Seq<IRFunctionView>, pattern: Seq<char>, n: nat) -> usize
    decreases n,
{
    if n == 0 || n > fs.len() {
        0
    } else {
        count_lines_from(
            fs[n - 1],
            pattern,
            module_line_count(fs, pattern, (n - 1) as nat),
            lines(fs[n - 1].body).len(),
        )
    }
}

/// The number of lines, over all function bodies, that `pattern` matches once
/// trimmed.
pub fn count_matching_lines(module: &IRModule, pattern: &str) -> (r: usize)
    ensures
        r == module_line_count(module@.functions, pattern@, module@.functions.len()),
{
    let mut c: usize = 0;
    let mut i: usize = 0;
    while i < module.functions.len()
        invariant
            i <= module.functions@.len(),
            c == module_line_count(module@.functions, pattern@, i as nat),
        decreases module.functions@.len() - i,
    {
        let f = &module.functions[i];
        assert(module@.functions[i as int] == f@);
        let ls = lines_of(f.body.as_str());
        let ghost lv = ls.deep_view();
        let ghost start = c;
        let mut k: usize = 0;
        while k < ls.len()
            invariant
                k <= ls@.len(),
                lv == ls.deep_view(),
                lv == lines(f@.body),
                c == count_lines_from(f@, pattern@, start, k as nat),
            decreases ls@.len() - k,
        {
            assert(lv[k as int] == ls@[k as int]@);
            let t = trim_str(ls[k].as_str());
            if crate::engine::regex_matches(pattern, t.as_str()) {
                c = bump_exec(c);
            }
            k += 1;
        }
        i += 1;
    }
    c
}

/// The lines that hold a struct PHI with a zero-initializer arm, a store of a
/// zero-initialized struct, and such a store into an `sret` slot.
pub fn zeroinit_counts(module: &IRModule) -> (r: (usize, usize, usize))
    ensures
        r.0 == module_line_count(module@.functions, PHI_ZEROINIT_PATTERN@, module@.functions.len()),
        r.1 == module_line_count(module@.functions, STORE_ZEROINIT_PATTERN@, module@.functions.len()),
        r.2 == module_line_count(module@.functions, SRET_ZEROINIT_PATTERN@, module@.functions.len()),
{
    (
        count_matching_lines(module, PHI_ZEROINIT_PATTERN),
        count_matching_lines(module, STORE_ZEROINIT_PATTERN),
        count_matching_lines(module, SRET_ZEROINIT_PATTERN),
    )
}

/// The health score: 100 when nothing critical, high, missing or stuck is
/// found; else 80 less two per high finding (at most 30) when nothing is
/// critical or missing; else 50 less ten per critical finding, five per
/// missing type and fifteen per stuck struct (at most 50).
pub open spec fn health_score_spec(crit: nat, high: nat, missing: nat, stuck: nat) -> int {
    if crit == 0 && high == 0 && missing == 0 && stuck == 0 {
        100
    } else if crit == 0 && missing == 0 {
        80 - if 2 * high < 30 {
            2 * high
        } else {
            30
        }
    } else {
        let p = 10 * crit + 5 * missing + 15 * stuck;
        50 - if p < 50 {
            p
        } else {
            50
        }
    }
}

/// The health score of a summary, from 0 to 100.
pub fn health_score(crit: usize, high: usize, missing: usize, stuck: usize) -> (r: i32)
    ensures
        r == health_score_spec(crit as nat, high as nat, missing as nat, stuck as nat),
        0 <= r <= 100,
{
    if crit == 0 && high == 0 && missing == 0 && stuck == 0 {
        100
    } else if crit == 0 && missing == 0 {
        let h: u128 = 2 * (high as u128);
        if h < 30 {
            80 - (h as i32)
        } else {
            50
        }
    } else {
        let p: u128 = 10 * (crit as u128) + 5 * (missing as u128) + 15 * (stuck as u128);
        if p < 50 {
            50 - (p as i32)
        } else {
            0
        }
    }
}

/// The template of each finding, in order.
pub open spec fn template_ids(fs: Seq<crate::engine::FindingView>) -> Seq<Seq<char>> {
    fs.map_values(|f: crate::engine::FindingView| f.template_id)
}

/// The findings counted by template, the most frequent template first
/// (templates found equally often in the order they first occur).
pub fn findings_per_template(findings: &[crate::engine::Finding]) -> (r: Vec<(String, usize)>)
    ensures
        r@.map_values(|e: (String, usize)| (e.0@, e.1 as nat)) == crate::order::tally_spec(
            template_ids(crate::engine::finding_views(findings@)),
        ),
{
    let ghost fv = crate::engine::finding_views(findings@);
    let mut ids: Vec<String> = Vec::new();
    let mut i: usize = 0;
    while i < findings.len()
        invariant
            i <= findings@.len(),
            fv == crate::engine::finding_views(findings@),
            ids.deep_view() =~= template_ids(fv).take(i as int),
        decreases findings@.len() - i,
    {
        assert(fv[i as int] == findings@[i as int]@);
        let ghost before = ids.deep_view();
        ids.push(findings[i].template_id.clone());
        assert(ids.deep_view() =~= before.push(fv[i as int].template_id));
        assert(template_ids(fv).take(i + 1) =~= template_ids(fv).take(i as int).push(fv[i as int].template_id));
        i += 1;
    }
    assert(ids.deep_view() =~= template_ids(fv));
    crate::order::tally(&ids)
}

/// The progress score: 100 with nothing critical or high; else 80 less two
/// per high finding (at most 30) with nothing critical; else 50 less ten per
/// critical finding (at most 40) and two per high one (at most 10).
pub open spec fn progress_score_spec(crit: nat, high: nat) -> int {
    if crit == 0 && high == 0 {
        100
    } else if crit == 0 {
        80 - if 2 * high < 30 {
            2 * high
        } else {
            30
        }
    } else {
        50 - (if 10 * crit < 40 {
            10 * crit
        } else {
            40
        }) - (if 2 * high < 10 {
            2 * high
        } else {
            10
        })
    }
}

/// The progress score of a scan, from 0 to 100.
pub fn progress_score(crit: usize, high: usize) -> (r: i32)
    ensures
        r == progress_score_spec(crit as nat, high as nat),
        0 <= r <= 100,
{
    let h: u128 = 2 * (high as u128);
    if crit == 0 && high == 0 {
        100
    } else if crit == 0 {
        if h < 30 {
            80 - (h as i32)
        } else {
            50
        }
    } else {
        let c: u128 = 10 * (crit as u128);
        let cp: i32 = if c < 40 {
            c as i32
        } else {
            40
        };
        let hp: i32 = if h < 10 {
            h as i32
        } else {
            10
        };
        50 - cp - hp
    }
}

} // verus!
