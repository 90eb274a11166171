//! Field index audit: which field indices the `extractvalue`/`insertvalue`
//! instructions of a module use on each named struct type, per function.
use vstd::prelude::*;
use vstd::string::StringSliceAdditionalSpecFns;
use crate::engine::key_index;
use crate::ir::{IRFunctionView, IRModule};
use crate::rx::{captures, group_str, group_text, rx_caps};
use crate::text::{contains, contains_str, lines, lines_of, parse_usize, parse_usize_spec, trim, trim_str};

verus! {

pub const FIELD_ACCESS_PATTERN: &'static str = r"(?:extractvalue|insertvalue) (%(?:struct|enum)\.\w+) .+, (\d+)";

/// `c + 1`, wrapping as in a release build.
pub open spec fn bump_count(c: usize) -> usize {
    if c == usize::MAX {
        0
    } else {
        (c + 1) as usize
    }
}

pub(crate) fn bump_exec(c: usize) -> (r: usize)
    ensures
        r == bump_count(c),
{
    c.wrapping_add(1)
}

/// The field index accesses of one struct type: how often each index is used
/// (indices in the order they first appear), the same per function, and the
/// number of accesses.
pub struct IndexStats {
    pub index_counts: Vec<(usize, usize)>,
    pub per_function: Vec<(String, Vec<(usize, usize)>)>,
    pub total: usize,
}

pub struct IndexStatsView {
    pub index_counts: Seq<(usize, usize)>,
    pub per_function: Seq<(Seq<char>, Seq<(usize, usize)>)>,
    pub total: usize,
}

impl View for IndexStats {
    type V = IndexStatsView;

    open spec fn view(&self) -> IndexStatsView {
        IndexStatsView {
            index_counts: self.index_counts@,
            per_function: self.per_function.deep_view(),
            total: self.total,
        }
    }
}

pub open spec fn empty_stats() -> IndexStatsView {
    IndexStatsView { index_counts: Seq::empty(), per_function: Seq::empty(), total: 0 }
}

/// Position of index `k` among the counts, from `i` on.
pub open spec fn index_pos(c: Seq<(usize, usize)>, k: usize, i: int) -> Option<int>
    decreases c.len() - i,
{
    if i < 0 || i >= c.len() {
        None
    } else if c[i].0 == k {
        Some(i)
    } else {
        index_pos(c, k, i + 1)
    }
}

/// The counts with one more use of index `k`.
pub open spec fn count_index(c: Seq<(usize, usize)>, k: usize) -> Seq<(usize, usize)> {
    match index_pos(c, k, 0) {
        Some(j) => c.update(j, (k, bump_count(c[j].1))),
        None => c.push((k, 1usize)),
    }
}

/// The per-function counts with one more use of index `k` in function `f`.
pub open spec fn count_in_function(pf: Seq<(Seq<char>, Seq<(usize, usize)>)>, f: Seq<char>, k: usize) -> Seq<
    (Seq<char>, Seq<(usize, usize)>),
> {
    match key_index(pf, f, 0) {
        Some(j) => pf.update(j, (f, count_index(pf[j].1, k))),
        None => pf.push((f, seq![(k, 1usize)])),
    }
}

/// The statistics with one more access of index `k` in function `f`.
pub open spec fn add_access(s: IndexStatsView, f: Seq<char>, k: usize) -> IndexStatsView {
    IndexStatsView {
        index_counts: count_index(s.index_counts, k),
        per_function: count_in_function(s.per_function, f, k),
        total: bump_count(s.total),
    }
}

fn find_index(c: &Vec<(usize, usize)>, k: usize) -> (r: Option<usize>)
    ensures
        r matches Some(j) ==> index_pos(c@, k, 0) == Some(j as int) && j < c@.len(),
        r is None ==> index_pos(c@, k, 0) is None,
{
    let mut i: usize = 0;
    while i < c.len()
        invariant
            i <= c@.len(),
            index_pos(c@, k, 0) == index_pos(c@, k, i as int),
        decreases c@.len() - i,
    {
        if c[i].0 == k {
            return Some(i);
        }
        i += 1;
    }
    None
}

fn count_index_exec(c: &mut Vec<(usize, usize)>, k: usize)
    ensures
        final(c)@ == count_index(old(c)@, k),
{
    match find_index(c, k) {
        Some(j) => {
            let n = bump_exec(c[j].1);
            c.set(j, (k, n));
        },
        None => {
            c.push((k, 1));
        },
    }
}

fn find_function(pf: &Vec<(String, Vec<(usize, usize)>)>, f: &str) -> (r: Option<usize>)
    ensures
        r matches Some(j) ==> key_index(pf.deep_view(), f@, 0) == Some(j as int) && j < pf@.len(),
        r is None ==> key_index(pf.deep_view(), f@, 0) is None,
{
    let ghost pv = pf.deep_view();
    let fname = f.to_string();
    let mut i: usize = 0;
    while i < pf.len()
        invariant
            i <= pf@.len(),
            pv == pf.deep_view(),
            fname@ == f@,
            key_index(pv, f@, 0) == key_index(pv, f@, i as int),
        decreases pf@.len() - i,
    {
        assert(pv[i as int].0 == pf@[i as int].0@);
        if pf[i].0 == fname {
            return Some(i);
        }
        i += 1;
    }
    None
}

impl IndexStats {
    /// Statistics with no access yet.
    pub fn new() -> (s: Self)
        ensures
            s@ == empty_stats(),
    {
        let s = IndexStats { index_counts: Vec::new(), per_function: Vec::new(), total: 0 };
        assert(s@.per_function =~= Seq::<(Seq<char>, Seq<(usize, usize)>)>::empty());
        s
    }

    /// Records one access of field index `k` in function `f`.
    pub fn record(&mut self, f: &str, k: usize)
        ensures
            final(self)@ == add_access(old(self)@, f@, k),
    {
        count_index_exec(&mut self.index_counts, k);
        let ghost pv = self.per_function.deep_view();
        match find_function(&self.per_function, f) {
            Some(j) => {
                let (name, mut counts) = self.per_function.remove(j);
                assert(counts.deep_view() =~= counts@);
                assert(name@ == pv[j as int].0 && counts@ == pv[j as int].1);
                count_index_exec(&mut counts, k);
                let ghost cv = counts@;
                assert(counts.deep_view() =~= counts@);
                self.per_function.insert(j, (f.to_string(), counts));
                assert(self.per_function.deep_view() =~= pv.update(j as int, (f@, cv)));
            },
            None => {
                let one = vec![(k, 1usize)];
                assert(one@ =~= seq![(k, 1usize)]);
                assert(one.deep_view() =~= seq![(k, 1usize)]);
                self.per_function.push((f.to_string(), one));
                assert(self.per_function.deep_view() =~= pv.push((f@, seq![(k, 1usize)])));
            },
        }
        self.total = bump_exec(self.total);
    }
}

// ---------------------------------------------------------------------------
// Accesses in a module
// ---------------------------------------------------------------------------

/// The struct type of an access passes the filter: it contains the filter
/// text, when one is given.
pub open spec fn passes_struct_filter(name: Seq<char>, filter: Option<Seq<char>>) -> bool {
    match filter {
        Some(x) => contains(name, x),
        None => true,
    }
}

/// The access a match describes: struct type, function, field index (0 when
/// the index does not parse).
pub open spec fn access_of(t: Seq<char>, c: Seq<Option<(usize, usize)>>, f: Seq<char>) -> (
    Seq<char>,
    Seq<char>,
    usize,
) {
    (
        group_text(t, c, 1),
        f,
        match parse_usize_spec(group_text(t, c, 2)) {
            Some(v) => v,
            None => 0,
        },
    )
}

/// The accesses of the first `n` matches in the trimmed line `t` that pass the filter.
pub open spec fn match_accesses(
    t: Seq<char>,
    caps: Seq<Seq<Option<(usize, usize)>>>,
    f: Seq<char>,
    filter: Option<Seq<char>>,
    n: nat,
) -> Seq<(Seq<char>, Seq<char>, usize)>
    decreases n,
{
    if n == 0 || n > caps.len() {
        Seq::empty()
    } else {
        let prev = match_accesses(t, caps, f, filter, (n - 1) as nat);
        let a = access_of(t, caps[n - 1], f);
        if passes_struct_filter(a.0, filter) {
            prev.push(a)
        } else {
            prev
        }
    }
}

/// The accesses on one line of function `f`.
pub open spec fn line_accesses(line: Seq<char>, f: Seq<char>, filter: Option<Seq<char>>) -> Seq<
    (Seq<char>, Seq<char>, usize),
> {
    let t = trim(line);
    let caps = rx_caps(FIELD_ACCESS_PATTERN@, t);
    match_accesses(t, caps, f, filter, caps.len())
}

/// The accesses on the first `n` lines of function `f`.
pub open spec fn lines_accesses(ls: Seq<Seq<char>>, f: Seq<char>, filter: Option<Seq<char>>, n: nat) -> Seq<
    (Seq<char>, Seq<char>, usize),
>
    decreases n,
{
    if n == 0 || n > ls.len() {
        Seq::empty()
    } else {
        lines_accesses(ls, f, filter, (n - 1) as nat) + line_accesses(ls[n - 1], f, filter)
    }
}

/// The accesses in the first `n` functions, in order.
pub open spec fn module_accesses(fs: Seq<IRFunctionView>, filter: Option<Seq<char>>, n: nat) -> Seq<
    (Seq<char>, Seq<char>, usize),
>
    decreases n,
{
    if n == 0 || n > fs.len() {
        Seq::empty()
    } else {
        let f = fs[n - 1];
        let ls = lines(f.body);
        module_accesses(fs, filter, (n - 1) as nat) + lines_accesses(ls, f.name, filter, ls.len())
    }
}

/// The statistics per struct type with one more access.
pub open spec fn record_access(
    ss: Seq<(Seq<char>, IndexStatsView)>,
    a: (Seq<char>, Seq<char>, usize),
) -> Seq<(Seq<char>, IndexStatsView)> {
    match key_index(ss, a.0, 0) {
        Some(j) => ss.update(j, (a.0, add_access(ss[j].1, a.1, a.2))),
        None => ss.push((a.0, add_access(empty_stats(), a.1, a.2))),
    }
}

/// The statistics per struct type of a list of accesses, struct types in the
/// order they first appear.
pub open spec fn tally(accs: Seq<(Seq<char>, Seq<char>, usize)>) -> Seq<(Seq<char>, IndexStatsView)>
    decreases accs.len(),
{
    if accs.len() == 0 {
        Seq::empty()
    } else {
        record_access(tally(accs.drop_last()), accs.last())
    }
}

/// `x` inserted after every entry with at least as many accesses.
pub open spec fn insert_by_total(
    s: Seq<(Seq<char>, IndexStatsView)>,
    x: (Seq<char>, IndexStatsView),
) -> Seq<(Seq<char>, IndexStatsView)>
    decreases s.len(),
{
    if s.len() == 0 {
        seq![x]
    } else if s.last().1.total >= x.1.total {
        s.push(x)
    } else {
        insert_by_total(s.drop_last(), x).push(s.last())
    }
}

/// Stable sort, most accesses first.
pub open spec fn sort_by_total(s: Seq<(Seq<char>, IndexStatsView)>) -> Seq<(Seq<char>, IndexStatsView)>
    decreases s.len(),
{
    if s.len() == 0 {
        Seq::empty()
    } else {
        insert_by_total(sort_by_total(s.drop_last()), s.last())
    }
}

/// What the audit reports: the statistics of each struct type, most accessed first.
pub open spec fn index_audit_spec(fs: Seq<IRFunctionView>, filter: Option<Seq<char>>) -> Seq<
    (Seq<char>, IndexStatsView),
> {
    sort_by_total(tally(module_accesses(fs, filter, fs.len())))
}

pub open spec fn stats_views(ss: Seq<(String, IndexStats)>) -> Seq<(Seq<char>, IndexStatsView)> {
    ss.map_values(|e: (String, IndexStats)| (e.0@, e.1@))
}

pub open spec fn opt_text(o: Option<&str>) -> Option<Seq<char>> {
    match o {
        Some(s) => Some(s@),
        None => None,
    }
}

fn record_in(ss: &mut Vec<(String, IndexStats)>, a: (String, String, usize))
    ensures
        stats_views(final(ss)@) == record_access(stats_views(old(ss)@), (a.0@, a.1@, a.2)),
{
    let ghost sv = stats_views(ss@);
    let mut i: usize = 0;
    while i < ss.len() && ss[i].0 != a.0
        invariant
            i <= ss@.len(),
            sv == stats_views(ss@),
            key_index(sv, a.0@, 0) == key_index(sv, a.0@, i as int),
        decreases ss@.len() - i,
    {
        assert(sv[i as int].0 == ss@[i as int].0@);
        i += 1;
    }
    if i < ss.len() {
        assert(sv[i as int].0 == ss@[i as int].0@);
        assert(key_index(sv, a.0@, 0) == Some(i as int));
        let ghost old_ss = ss@;
        let (name, mut stats) = ss.remove(i);
        assert(stats@ == sv[i as int].1);
        stats.record(a.1.as_str(), a.2);
        let ghost item = (a.0@, stats@);
        ss.insert(i, (name, stats));
        assert(stats_views(ss@) =~= sv.update(i as int, item));
    } else {
        let mut stats = IndexStats::new();
        stats.record(a.1.as_str(), a.2);
        let ghost item = (a.0@, stats@);
        ss.push((a.0, stats));
        assert(stats_views(ss@) =~= sv.push(item));
    }
}

fn access_exec(t: &str, c: &Vec<Option<(usize, usize)>>, f: &str) -> (a: (String, String, usize))
    requires
        forall|j: int| 0 <= j < c@.len() ==> crate::rx::span_ok(#[trigger] c.deep_view()[j], t.spec_bytes()),
    ensures
        (a.0@, a.1@, a.2) == access_of(t@, c.deep_view(), f@),
{
    let name = group_str(t, c, 1);
    let digits = group_str(t, c, 2);
    let index = match parse_usize(digits.as_str()) {
        Some(v) => v,
        None => 0,
    };
    (name, f.to_string(), index)
}

fn passes_struct_filter_exec(name: &str, filter: Option<&str>) -> (b: bool)
    ensures
        b == passes_struct_filter(name@, opt_text(filter)),
{
    match filter {
        Some(x) => contains_str(name, x),
        None => true,
    }
}

pub open spec fn access_views(s: Seq<(String, String, usize)>) -> Seq<(Seq<char>, Seq<char>, usize)> {
    s.map_values(|a: (String, String, usize)| (a.0@, a.1@, a.2))
}

#[verifier::rlimit(60)]
fn line_accesses_exec(line: &str, f: &str, filter: Option<&str>) -> (r: Vec<(String, String, usize)>)
    ensures
        access_views(r@) == line_accesses(line@, f@, opt_text(filter)),
{
    let t = trim_str(line);
    let ts = t.as_str();
    let caps = captures(FIELD_ACCESS_PATTERN, ts);
    let ghost cv = caps.deep_view();
    let mut r: Vec<(String, String, usize)> = Vec::new();
    let mut k: usize = 0;
    while k < caps.len()
        invariant
            k <= caps@.len(),
            cv == caps.deep_view(),
            cv == rx_caps(FIELD_ACCESS_PATTERN@, ts@),
            crate::rx::captures_ok(cv, ts.spec_bytes()),
            ts@ == trim(line@),
            access_views(r@) == match_accesses(ts@, cv, f@, opt_text(filter), k as nat),
        decreases caps@.len() - k,
    {
        proof {
            crate::ir::lemma_match_spans(cv, k as int, ts.spec_bytes());
            assert(cv[k as int] == caps@[k as int].deep_view());
        }
        let a = access_exec(ts, &caps[k], f);
        let keep = passes_struct_filter_exec(a.0.as_str(), filter);
        let ghost av = (a.0@, a.1@, a.2);
        if keep {
            let ghost before = access_views(r@);
            r.push(a);
            assert(access_views(r@) =~= before.push(av));
        }
        k += 1;
    }
    assert(cv.len() == caps@.len());
    r
}

proof fn lemma_tally_push(accs: Seq<(Seq<char>, Seq<char>, usize)>, a: (Seq<char>, Seq<char>, usize))
    ensures
        tally(accs.push(a)) == record_access(tally(accs), a),
{
    assert(accs.push(a).drop_last() =~= accs);
}

fn insert_total_pos(r: &Vec<(String, IndexStats)>, total: usize) -> (j: usize)
    ensures
        j <= r@.len(),
        j == 0 || r@[j - 1].1.total >= total,
        forall|l: int| j <= l < r@.len() ==> (#[trigger] r@[l]).1.total < total,
{
    let mut j = r.len();
    while j > 0 && r[j - 1].1.total < total
        invariant
            j <= r@.len(),
            forall|l: int| j <= l < r@.len() ==> (#[trigger] r@[l]).1.total < total,
        decreases j,
    {
        j -= 1;
    }
    j
}

proof fn lemma_insert_by_total_at(
    s: Seq<(Seq<char>, IndexStatsView)>,
    x: (Seq<char>, IndexStatsView),
    j: int,
)
    requires
        0 <= j <= s.len(),
        j == 0 || s[j - 1].1.total >= x.1.total,
        forall|k: int| j <= k < s.len() ==> (#[trigger] s[k]).1.total < x.1.total,
    ensures
        insert_by_total(s, x) == s.insert(j, x),
    decreases s.len(),
{
    if s.len() == 0 {
        assert(s.insert(j, x) =~= seq![x]);
    } else if j == s.len() {
        assert(s.insert(j, x) =~= s.push(x));
    } else {
        lemma_insert_by_total_at(s.drop_last(), x, j);
        assert(s.insert(j, x) =~= s.drop_last().insert(j, x).push(s.last()));
    }
}

fn sort_stats(ss: Vec<(String, IndexStats)>) -> (r: Vec<(String, IndexStats)>)
    ensures
        stats_views(r@) == sort_by_total(stats_views(ss@)),
{
    let ghost all = stats_views(ss@);
    let mut src = ss;
    let n = src.len();
    let mut r: Vec<(String, IndexStats)> = Vec::new();
    let mut k: usize = 0;
    while src.len() > 0
        invariant
            k + src@.len() == n,
            n == all.len(),
            stats_views(src@) == all.skip(k as int),
            stats_views(r@) == sort_by_total(all.take(k as int)),
        decreases src@.len(),
    {
        let ghost sv = stats_views(src@);
        let ghost old_src = src@;
        let e = src.remove(0);
        assert(all[k as int] == sv[0]);
        proof {
            assert forall|m: int| 0 <= m < src@.len() implies stats_views(src@)[m] == all.skip(k + 1)[m] by {
                assert(src@[m] == old_src[m + 1]);
                assert(sv[m + 1] == all[k + 1 + m]);
            }
            assert(stats_views(src@) =~= all.skip(k + 1));
        }
        let j = insert_total_pos(&r, e.1.total);
        proof {
            let rv = stats_views(r@);
            assert forall|l: int| j <= l < rv.len() implies (#[trigger] rv[l]).1.total < e.1@.total by {
                assert(rv[l].1 == r@[l].1@);
            }
            if j > 0 {
                assert(rv[j - 1].1 == r@[j - 1].1@);
            }
            lemma_insert_by_total_at(rv, (e.0@, e.1@), j as int);
            assert(all.take(k + 1).drop_last() =~= all.take(k as int));
            assert(all.take(k + 1).last() == all[k as int]);
        }
        let ghost before = r@;
        let ghost ev = (e.0@, e.1@);
        r.insert(j, e);
        assert(stats_views(r@) =~= stats_views(before).insert(j as int, ev));
        k += 1;
    }
    assert(all.take(k as int) =~= all);
    r
}

/// The field index statistics of each named struct type that the module's
/// `extractvalue`/`insertvalue` instructions access, restricted to the struct
/// types that contain `struct_filter` when it is given, most accessed first.
pub fn collect_index_stats(module: &IRModule, struct_filter: Option<&str>) -> (r: Vec<(String, IndexStats)>)
    ensures
        stats_views(r@) == index_audit_spec(module@.functions, opt_text(struct_filter)),
{
    let ghost fs = module@.functions;
    let ghost filter = opt_text(struct_filter);
    let mut ss: Vec<(String, IndexStats)> = Vec::new();
    let mut i: usize = 0;
    while i < module.functions.len()
        invariant
            i <= module.functions@.len(),
            fs == module@.functions,
            filter == opt_text(struct_filter),
            stats_views(ss@) == tally(module_accesses(fs, filter, i as nat)),
        decreases module.functions@.len() - i,
    {
        let f = &module.functions[i];
        assert(fs[i as int] == f@);
        let ls = lines_of(f.body.as_str());
        let ghost lv = ls.deep_view();
        let ghost before = module_accesses(fs, filter, i as nat);
        let mut l: usize = 0;
        while l < ls.len()
            invariant
                l <= ls@.len(),
                lv == ls.deep_view(),
                lv == lines(f.body@),
                fs[i as int] == f@,
                filter == opt_text(struct_filter),
                stats_views(ss@) == tally(before + lines_accesses(lv, f.name@, filter, l as nat)),
            decreases ls@.len() - l,
        {
            assert(lv[l as int] == ls@[l as int]@);
            let accs = line_accesses_exec(ls[l].as_str(), f.name.as_str(), struct_filter);
            let ghost av = access_views(accs@);
            let ghost base = before + lines_accesses(lv, f.name@, filter, l as nat);
            let mut k: usize = 0;
            while k < accs.len()
                invariant
                    k <= accs@.len(),
                    av == access_views(accs@),
                    stats_views(ss@) == tally(base + av.take(k as int)),
                decreases accs@.len() - k,
            {
                let a = (accs[k].0.clone(), accs[k].1.clone(), accs[k].2);
                assert(av[k as int] == (a.0@, a.1@, a.2));
                record_in(&mut ss, a);
                proof {
                    assert(base + av.take(k + 1) =~= (base + av.take(k as int)).push(av[k as int]));
                    lemma_tally_push(base + av.take(k as int), av[k as int]);
                }
                k += 1;
            }
            proof {
                assert(av.take(k as int) =~= av);
                assert(base + av =~= before + lines_accesses(lv, f.name@, filter, (l + 1) as nat));
            }
            l += 1;
        }
        proof {
            assert(module_accesses(fs, filter, (i + 1) as nat) =~= before + lines_accesses(
                lv,
                f.name@,
                filter,
                lv.len(),
            ));
        }
        i += 1;
    }
    sort_stats(ss)
}

// ---------------------------------------------------------------------------
// Judging the statistics
// ---------------------------------------------------------------------------

/// Every access of the struct type uses index 0, and there are more than three.
pub open spec fn only_zero_spec(s: IndexStatsView) -> bool {
    s.index_counts.len() == 1 && index_pos(s.index_counts, 0, 0) is Some && s.total > 3
}

/// All accesses use field 0: the struct type is likely not registered.
pub fn only_zero(s: &IndexStats) -> (b: bool)
    ensures
        b == only_zero_spec(s@),
{
    s.index_counts.len() == 1 && find_index(&s.index_counts, 0).is_some() && s.total > 3
}

/// How often field index 0 is used, if at all.
pub fn zero_count(s: &IndexStats) -> (r: Option<usize>)
    ensures
        r matches Some(c) ==> index_pos(s@.index_counts, 0, 0) matches Some(j) && s@.index_counts[j].1 == c,
        r is None ==> index_pos(s@.index_counts, 0, 0) is None,
{
    match find_index(&s.index_counts, 0) {
        Some(j) => Some(s.index_counts[j].1),
        None => None,
    }
}

/// The sum of the counts, wrapping as in a release build.
pub open spec fn count_sum(c: Seq<(usize, usize)>) -> usize
    decreases c.len(),
{
    if c.len() == 0 {
        0
    } else {
        let t = count_sum(c.drop_last()) + c.last().1;
        if t > usize::MAX {
            (t - usize::MAX - 1) as usize
        } else {
            t as usize
        }
    }
}

fn count_sum_exec(c: &Vec<(usize, usize)>) -> (r: usize)
    ensures
        r == count_sum(c@),
{
    let mut r: usize = 0;
    let mut i: usize = 0;
    while i < c.len()
        invariant
            i <= c@.len(),
            r == count_sum(c@.take(i as int)),
        decreases c@.len() - i,
    {
        assert(c@.take(i + 1).drop_last() =~= c@.take(i as int));
        assert(c@.take(i + 1).last() == c@[i as int]);
        r = r.wrapping_add(c[i].1);
        i += 1;
    }
    assert(c@.take(i as int) =~= c@);
    r
}

/// `x` inserted after every pair with at least as large a count.
pub open spec fn insert_by_count_desc(s: Seq<(Seq<char>, usize)>, x: (Seq<char>, usize)) -> Seq<
    (Seq<char>, usize),
>
    decreases s.len(),
{
    if s.len() == 0 {
        seq![x]
    } else if s.last().1 >= x.1 {
        s.push(x)
    } else {
        insert_by_count_desc(s.drop_last(), x).push(s.last())
    }
}

pub open spec fn sort_count_desc(s: Seq<(Seq<char>, usize)>) -> Seq<(Seq<char>, usize)>
    decreases s.len(),
{
    if s.len() == 0 {
        Seq::empty()
    } else {
        insert_by_count_desc(sort_count_desc(s.drop_last()), s.last())
    }
}

proof fn lemma_insert_by_count_desc_at(s: Seq<(Seq<char>, usize)>, x: (Seq<char>, usize), j: int)
    requires
        0 <= j <= s.len(),
        j == 0 || s[j - 1].1 >= x.1,
        forall|k: int| j <= k < s.len() ==> (#[trigger] s[k]).1 < x.1,
    ensures
        insert_by_count_desc(s, x) == s.insert(j, x),
    decreases s.len(),
{
    if s.len() == 0 {
        assert(s.insert(j, x) =~= seq![x]);
    } else if j == s.len() {
        assert(s.insert(j, x) =~= s.push(x));
    } else {
        lemma_insert_by_count_desc_at(s.drop_last(), x, j);
        assert(s.insert(j, x) =~= s.drop_last().insert(j, x).push(s.last()));
    }
}

/// Each function with its number of accesses, most first (stable).
pub open spec fn function_totals_spec(s: IndexStatsView) -> Seq<(Seq<char>, usize)> {
    sort_count_desc(s.per_function.map_values(|e: (Seq<char>, Seq<(usize, usize)>)| (e.0, count_sum(e.1))))
}

/// The functions that access the struct type, with how often, most first.
pub fn function_totals(s: &IndexStats) -> (r: Vec<(String, usize)>)
    ensures
        r.deep_view() == function_totals_spec(s@),
{
    let ghost all = s@.per_function.map_values(|e: (Seq<char>, Seq<(usize, usize)>)| (e.0, count_sum(e.1)));
    let mut r: Vec<(String, usize)> = Vec::new();
    let mut k: usize = 0;
    while k < s.per_function.len()
        invariant
            k <= s.per_function@.len(),
            all == s@.per_function.map_values(|e: (Seq<char>, Seq<(usize, usize)>)| (e.0, count_sum(e.1))),
            r.deep_view() == sort_count_desc(all.take(k as int)),
        decreases s.per_function@.len() - k,
    {
        let total = count_sum_exec(&s.per_function[k].1);
        let name = s.per_function[k].0.clone();
        assert(s.per_function[k as int].1.deep_view() =~= s.per_function[k as int].1@);
        assert(all[k as int] == (name@, total));
        let mut j = r.len();
        while j > 0 && r[j - 1].1 < total
            invariant
                j <= r@.len(),
                forall|l: int| j <= l < r@.len() ==> (#[trigger] r@[l]).1 < total,
            decreases j,
        {
            j -= 1;
        }
        proof {
            let rv = r.deep_view();
            assert forall|l: int| j <= l < rv.len() implies (#[trigger] rv[l]).1 < total by {
                assert(rv[l].1 == r@[l].1);
            }
            if j > 0 {
                assert(rv[j - 1].1 == r@[j - 1].1);
            }
            lemma_insert_by_count_desc_at(rv, (name@, total), j as int);
            assert(all.take(k + 1).drop_last() =~= all.take(k as int));
        }
        let ghost before = r.deep_view();
        r.insert(j, (name, total));
        assert(r.deep_view() =~= before.insert(j as int, all[k as int]));
        k += 1;
    }
    assert(all.take(k as int) =~= all);
    r
}

/// `x` inserted before the first pair with a larger index.
pub open spec fn insert_by_index(s: Seq<(usize, usize)>, x: (usize, usize)) -> Seq<(usize, usize)>
    decreases s.len(),
{
    if s.len() == 0 {
        seq![x]
    } else if s.last().0 <= x.0 {
        s.push(x)
    } else {
        insert_by_index(s.drop_last(), x).push(s.last())
    }
}

pub open spec fn sort_by_index(s: Seq<(usize, usize)>) -> Seq<(usize, usize)>
    decreases s.len(),
{
    if s.len() == 0 {
        Seq::empty()
    } else {
        insert_by_index(sort_by_index(s.drop_last()), s.last())
    }
}

proof fn lemma_insert_by_index_at(s: Seq<(usize, usize)>, x: (usize, usize), j: int)
    requires
        0 <= j <= s.len(),
        j == 0 || s[j - 1].0 <= x.0,
        forall|k: int| j <= k < s.len() ==> (#[trigger] s[k]).0 > x.0,
    ensures
        insert_by_index(s, x) == s.insert(j, x),
    decreases s.len(),
{
    if s.len() == 0 {
        assert(s.insert(j, x) =~= seq![x]);
    } else if j == s.len() {
        assert(s.insert(j, x) =~= s.push(x));
    } else {
        lemma_insert_by_index_at(s.drop_last(), x, j);
        assert(s.insert(j, x) =~= s.drop_last().insert(j, x).push(s.last()));
    }
}

/// The indices used, with their counts, in increasing order of index.
pub fn indices_ascending(s: &IndexStats) -> (r: Vec<(usize, usize)>)
    ensures
        r@ == sort_by_index(s@.index_counts),
{
    let ghost all = s@.index_counts;
    let mut r: Vec<(usize, usize)> = Vec::new();
    let mut k: usize = 0;
    while k < s.index_counts.len()
        invariant
            k <= s.index_counts@.len(),
            all == s@.index_counts,
            r@ == sort_by_index(all.take(k as int)),
        decreases s.index_counts@.len() - k,
    {
        let x = s.index_counts[k];
        let mut j = r.len();
        while j > 0 && r[j - 1].0 > x.0
            invariant
                j <= r@.len(),
                forall|l: int| j <= l < r@.len() ==> (#[trigger] r@[l]).0 > x.0,
            decreases j,
        {
            j -= 1;
        }
        proof {
            lemma_insert_by_index_at(r@, x, j as int);
            assert(all.take(k + 1).drop_last() =~= all.take(k as int));
        }
        r.insert(j, x);
        k += 1;
    }
    assert(all.take(k as int) =~= all);
    r
}

} // verus!
