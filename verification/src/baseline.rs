//! Baselines: the findings of a scan saved as entries, and the comparison of a
//! new scan with a saved one (fixed, new and remaining findings).
use vstd::prelude::*;
use crate::engine::{Finding, FindingView, finding_views};
use crate::schema::{Severity, severity_name, copy_opt_string};
use crate::text::{chars_of, decimal, fmt_usize, push_all, string_of};

verus! {

/// One saved finding.
#[derive(Debug, Clone)]
pub struct BaselineEntry {
    pub template_id: String,
    pub severity: String,
    pub line: usize,
    pub function: Option<String>,
    pub matched_text: String,
}

/// The findings of one file at one time.
#[derive(Debug, Clone)]
pub struct Baseline {
    pub file: String,
    pub timestamp: String,
    pub findings: Vec<BaselineEntry>,
}

pub struct BaselineEntryView {
    pub template_id: Seq<char>,
    pub severity: Seq<char>,
    pub line: usize,
    pub function: Option<Seq<char>>,
    pub matched_text: Seq<char>,
}

impl View for BaselineEntry {
    type V = BaselineEntryView;

    open spec fn view(&self) -> BaselineEntryView {
        BaselineEntryView {
            template_id: self.template_id@,
            severity: self.severity@,
            line: self.line,
            function: self.function.deep_view(),
            matched_text: self.matched_text@,
        }
    }
}

pub open spec fn entry_views(es: Seq<BaselineEntry>) -> Seq<BaselineEntryView> {
    es.map_values(|e: BaselineEntry| e@)
}

/// The lowercase name a baseline stores for a severity.
pub fn severity_str(s: &Severity) -> (r: &'static str)
    ensures
        r@ == severity_name(*s),
{
    match s {
        Severity::Critical => "critical",
        Severity::High => "high",
        Severity::Medium => "medium",
        Severity::Low => "low",
        Severity::Info => "info",
    }
}

/// The first `n` characters of `s` (all of them when it is shorter).
pub open spec fn take_chars(s: Seq<char>, n: nat) -> Seq<char> {
    if s.len() <= n {
        s
    } else {
        s.take(n as int)
    }
}

/// `s.chars().take(n).collect()`.
pub fn truncate_chars(s: &str, n: usize) -> (r: String)
    ensures
        r@ == take_chars(s@, n as nat),
{
    let v = chars_of(s);
    let e = if v.len() <= n {
        v.len()
    } else {
        n
    };
    let r = string_of(v.as_slice(), 0, e);
    assert(r@ =~= take_chars(s@, n as nat));
    r
}

/// Characters of the matched text that a baseline keeps.
pub const MATCHED_TEXT_KEPT: usize = 120;

/// The entry a finding is saved as.
pub open spec fn entry_of(f: FindingView) -> BaselineEntryView {
    BaselineEntryView {
        template_id: f.template_id,
        severity: severity_name(f.severity),
        line: f.line,
        function: f.function,
        matched_text: take_chars(f.matched_text, MATCHED_TEXT_KEPT as nat),
    }
}

/// The entries that the findings are saved as, in order.
pub fn findings_to_entries(findings: &[Finding]) -> (r: Vec<BaselineEntry>)
    ensures
        entry_views(r@) == finding_views(findings@).map_values(|f: FindingView| entry_of(f)),
{
    let mut r: Vec<BaselineEntry> = Vec::new();
    let mut i: usize = 0;
    while i < findings.len()
        invariant
            i <= findings@.len(),
            entry_views(r@) == finding_views(findings@).take(i as int).map_values(
                |f: FindingView| entry_of(f),
            ),
        decreases findings@.len() - i,
    {
        let f = &findings[i];
        let e = BaselineEntry {
            template_id: f.template_id.clone(),
            severity: severity_str(&f.severity).to_string(),
            line: f.line,
            function: copy_opt_string(&f.function),
            matched_text: truncate_chars(f.matched_text.as_str(), MATCHED_TEXT_KEPT),
        };
        let ghost before = r@;
        r.push(e);
        proof {
            assert(finding_views(findings@)[i as int] == f@);
            assert(entry_views(r@) =~= entry_views(before).push(entry_of(f@)));
            assert(finding_views(findings@).take(i + 1).map_values(|f: FindingView| entry_of(f))
                =~= finding_views(findings@).take(i as int).map_values(
                |f: FindingView| entry_of(f),
            ).push(entry_of(f@)));
        }
        i += 1;
    }
    assert(finding_views(findings@).take(i as int) =~= finding_views(findings@));
    r
}

pub fn copy_entry(e: &BaselineEntry) -> (r: BaselineEntry)
    ensures
        r@ == e@,
{
    BaselineEntry {
        template_id: e.template_id.clone(),
        severity: e.severity.clone(),
        line: e.line,
        function: copy_opt_string(&e.function),
        matched_text: e.matched_text.clone(),
    }
}

// ---------------------------------------------------------------------------
// Fingerprints and the comparison of two scans
// ---------------------------------------------------------------------------

/// The fingerprint two scans are compared by: `template:function:line`, with an
/// empty function part when there is none.
pub open spec fn entry_key(e: BaselineEntryView) -> Seq<char> {
    let func = match e.function {
        Some(f) => f,
        None => Seq::empty(),
    };
    e.template_id + ":"@ + func + ":"@ + decimal(e.line as nat)
}

pub fn fingerprint(e: &BaselineEntry) -> (r: String)
    ensures
        r@ == entry_key(e@),
{
    let mut r = e.template_id.clone();
    push_all(&mut r, ":");
    match &e.function {
        Some(f) => push_all(&mut r, f.as_str()),
        None => {},
    }
    push_all(&mut r, ":");
    let n = fmt_usize(e.line);
    push_all(&mut r, n.as_str());
    proof {
        let func = match e@.function {
            Some(f) => f,
            None => Seq::empty(),
        };
        assert(r@ =~= e@.template_id + ":"@ + func + ":"@ + decimal(e.line as nat));
    }
    r
}

/// Index of the first entry from `i` on with fingerprint `k`.
pub open spec fn key_pos(es: Seq<BaselineEntryView>, k: Seq<char>, i: int) -> Option<int>
    decreases es.len() - i,
{
    if i < 0 || i >= es.len() {
        None
    } else if entry_key(es[i]) == k {
        Some(i)
    } else {
        key_pos(es, k, i + 1)
    }
}

/// The entries keyed by fingerprint, as a map built from them holds them: a
/// later entry replaces an earlier one with the same fingerprint in its place.
pub open spec fn keyed(es: Seq<BaselineEntryView>, n: nat) -> Seq<BaselineEntryView>
    decreases n,
{
    if n == 0 || n > es.len() {
        Seq::empty()
    } else {
        let acc = keyed(es, (n - 1) as nat);
        let e = es[n - 1];
        match key_pos(acc, entry_key(e), 0) {
            Some(j) => acc.update(j, e),
            None => acc.push(e),
        }
    }
}

pub open spec fn keyed_all(es: Seq<BaselineEntryView>) -> Seq<BaselineEntryView> {
    keyed(es, es.len())
}

/// The entries of `es` whose fingerprint is (`present`) or is not in `other`.
pub open spec fn entries_where(
    es: Seq<BaselineEntryView>,
    other: Seq<BaselineEntryView>,
    present: bool,
) -> Seq<BaselineEntryView>
    decreases es.len(),
{
    if es.len() == 0 {
        Seq::empty()
    } else {
        let prev = entries_where(es.drop_last(), other, present);
        if (key_pos(other, entry_key(es.last()), 0) is Some) == present {
            prev.push(es.last())
        } else {
            prev
        }
    }
}

pub(crate) proof fn lemma_key_pos(es: Seq<BaselineEntryView>, k: Seq<char>, i: int)
    requires
        0 <= i,
    ensures
        key_pos(es, k, i) matches Some(j) ==> i <= j < es.len() && entry_key(es[j]) == k,
        key_pos(es, k, i) is None ==> forall|l: int| i <= l < es.len() ==> entry_key(es[l]) != k,
    decreases es.len() - i,
{
    if i < es.len() && entry_key(es[i]) != k {
        lemma_key_pos(es, k, i + 1);
    }
}

fn find_key(es: &Vec<BaselineEntry>, keys: &Vec<String>, k: &String) -> (r: Option<usize>)
    requires
        keys@.len() == es@.len(),
        forall|j: int| 0 <= j < es@.len() ==> keys@[j]@ == entry_key(#[trigger] es@[j]@),
    ensures
        r matches Some(i) ==> key_pos(entry_views(es@), k@, 0) == Some(i as int),
        r is None ==> key_pos(entry_views(es@), k@, 0) is None,
{
    let ghost ev = entry_views(es@);
    let mut i: usize = 0;
    while i < keys.len()
        invariant
            i <= keys@.len(),
            keys@.len() == es@.len(),
            ev == entry_views(es@),
            forall|j: int| 0 <= j < es@.len() ==> keys@[j]@ == entry_key(#[trigger] es@[j]@),
            key_pos(ev, k@, 0) == key_pos(ev, k@, i as int),
        decreases keys@.len() - i,
    {
        assert(ev[i as int] == es@[i as int]@);
        if keys[i] == *k {
            return Some(i);
        }
        i += 1;
    }
    None
}

/// One entry per fingerprint (see `keyed`).
pub fn dedup_entries(es: &[BaselineEntry]) -> (r: Vec<BaselineEntry>)
    ensures
        entry_views(r@) == keyed_all(entry_views(es@)),
{
    let ghost ev = entry_views(es@);
    let mut r: Vec<BaselineEntry> = Vec::new();
    let mut keys: Vec<String> = Vec::new();
    let mut i: usize = 0;
    while i < es.len()
        invariant
            i <= es@.len(),
            ev == entry_views(es@),
            keys@.len() == r@.len(),
            forall|j: int| 0 <= j < r@.len() ==> keys@[j]@ == entry_key(#[trigger] r@[j]@),
            entry_views(r@) == keyed(ev, i as nat),
        decreases es@.len() - i,
    {
        let e = copy_entry(&es[i]);
        assert(ev[i as int] == e@);
        let k = fingerprint(&e);
        let ghost before = r@;
        proof {
            lemma_key_pos(entry_views(r@), k@, 0);
        }
        match find_key(&r, &keys, &k) {
            Some(j) => {
                r.set(j, e);
                keys.set(j, k);
                assert(entry_views(r@) =~= entry_views(before).update(j as int, e@));
            },
            None => {
                r.push(e);
                keys.push(k);
                assert(entry_views(r@) =~= entry_views(before).push(e@));
            },
        }
        i += 1;
    }
    r
}

/// The comparison of a saved scan with a new one.
#[derive(Debug, Clone)]
pub struct BaselineDiff {
    /// Saved findings that the new scan no longer has.
    pub fixed: Vec<BaselineEntry>,
    /// Saved findings that the new scan still has.
    pub remaining: Vec<BaselineEntry>,
    /// Findings of the new scan that were not saved.
    pub new_findings: Vec<BaselineEntry>,
}

fn select_entries(es: &Vec<BaselineEntry>, other: &Vec<BaselineEntry>, present: bool) -> (r: Vec<
    BaselineEntry,
>)
    ensures
        entry_views(r@) == entries_where(entry_views(es@), entry_views(other@), present),
{
    let mut okeys: Vec<String> = Vec::new();
    let mut j: usize = 0;
    while j < other.len()
        invariant
            j <= other@.len(),
            okeys@.len() == j,
            forall|l: int| 0 <= l < j ==> okeys@[l]@ == entry_key(#[trigger] other@[l]@),
        decreases other@.len() - j,
    {
        okeys.push(fingerprint(&other[j]));
        j += 1;
    }
    let ghost ev = entry_views(es@);
    let mut r: Vec<BaselineEntry> = Vec::new();
    let mut i: usize = 0;
    while i < es.len()
        invariant
            i <= es@.len(),
            ev == entry_views(es@),
            okeys@.len() == other@.len(),
            forall|l: int| 0 <= l < other@.len() ==> okeys@[l]@ == entry_key(#[trigger] other@[l]@),
            entry_views(r@) == entries_where(ev.take(i as int), entry_views(other@), present),
        decreases es@.len() - i,
    {
        let k = fingerprint(&es[i]);
        let found = find_key(other, &okeys, &k);
        proof {
            assert(ev.take(i + 1).drop_last() =~= ev.take(i as int));
            assert(ev.take(i + 1).last() == es@[i as int]@);
        }
        if found.is_some() == present {
            let ghost before = r@;
            r.push(copy_entry(&es[i]));
            assert(entry_views(r@) =~= entry_views(before).push(es@[i as int]@));
        }
        i += 1;
    }
    assert(ev.take(i as int) =~= ev);
    r
}

/// Compares the entries of a saved scan with those of a new one by fingerprint.
pub fn diff_baselines(saved: &[BaselineEntry], current: &[BaselineEntry]) -> (d: BaselineDiff)
    ensures
        entry_views(d.fixed@) == entries_where(
            keyed_all(entry_views(saved@)),
            keyed_all(entry_views(current@)),
            false,
        ),
        entry_views(d.remaining@) == entries_where(
            keyed_all(entry_views(saved@)),
            keyed_all(entry_views(current@)),
            true,
        ),
        entry_views(d.new_findings@) == entries_where(
            keyed_all(entry_views(current@)),
            keyed_all(entry_views(saved@)),
            false,
        ),
{
    let b = dedup_entries(saved);
    let c = dedup_entries(current);
    BaselineDiff {
        fixed: select_entries(&b, &c, false),
        remaining: select_entries(&b, &c, true),
        new_findings: select_entries(&c, &b, false),
    }
}

/// The exit status of a baseline comparison: 1 when the new scan has new
/// findings, else 0.
pub fn diff_exit_code(d: &BaselineDiff) -> (code: i32)
    ensures
        code == (if d.new_findings@.len() == 0 {
            0i32
        } else {
            1i32
        }),
{
    if d.new_findings.len() == 0 {
        0
    } else {
        1
    }
}

// ---------------------------------------------------------------------------
// Grouping by template
// ---------------------------------------------------------------------------

pub open spec fn group_views(gs: Seq<(String, Vec<BaselineEntry>)>) -> Seq<
    (Seq<char>, Seq<BaselineEntryView>),
> {
    gs.map_values(|g: (String, Vec<BaselineEntry>)| (g.0@, entry_views(g.1@)))
}

/// Index of the group of template `tid`.
pub open spec fn group_pos(gs: Seq<(Seq<char>, Seq<BaselineEntryView>)>, tid: Seq<char>, i: int) -> Option<
    int,
>
    decreases gs.len() - i,
{
    if i < 0 || i >= gs.len() {
        None
    } else if gs[i].0 == tid {
        Some(i)
    } else {
        group_pos(gs, tid, i + 1)
    }
}

/// The entries grouped by template, groups in the order their templates first
/// appear, entries in order within a group.
pub open spec fn groups_of(es: Seq<BaselineEntryView>, n: nat) -> Seq<
    (Seq<char>, Seq<BaselineEntryView>),
>
    decreases n,
{
    if n == 0 || n > es.len() {
        Seq::empty()
    } else {
        let gs = groups_of(es, (n - 1) as nat);
        let e = es[n - 1];
        match group_pos(gs, e.template_id, 0) {
            Some(j) => gs.update(j, (gs[j].0, gs[j].1.push(e))),
            None => gs.push((e.template_id, seq![e])),
        }
    }
}

/// `g` inserted after every group at least as large.
pub open spec fn insert_by_count(
    s: Seq<(Seq<char>, Seq<BaselineEntryView>)>,
    g: (Seq<char>, Seq<BaselineEntryView>),
) -> Seq<(Seq<char>, Seq<BaselineEntryView>)>
    decreases s.len(),
{
    if s.len() == 0 {
        seq![g]
    } else if s.last().1.len() >= g.1.len() {
        s.push(g)
    } else {
        insert_by_count(s.drop_last(), g).push(s.last())
    }
}

/// Stable sort, largest groups first.
pub open spec fn sort_by_count(s: Seq<(Seq<char>, Seq<BaselineEntryView>)>) -> Seq<
    (Seq<char>, Seq<BaselineEntryView>),
>
    decreases s.len(),
{
    if s.len() == 0 {
        Seq::empty()
    } else {
        insert_by_count(sort_by_count(s.drop_last()), s.last())
    }
}

pub open spec fn template_groups(es: Seq<BaselineEntryView>) -> Seq<
    (Seq<char>, Seq<BaselineEntryView>),
> {
    sort_by_count(groups_of(es, es.len()))
}

pub(crate) proof fn lemma_group_pos(gs: Seq<(Seq<char>, Seq<BaselineEntryView>)>, tid: Seq<char>, i: int)
    requires
        0 <= i,
    ensures
        group_pos(gs, tid, i) matches Some(j) ==> i <= j < gs.len() && gs[j].0 == tid,
    decreases gs.len() - i,
{
    if i < gs.len() && gs[i].0 != tid {
        lemma_group_pos(gs, tid, i + 1);
    }
}

proof fn lemma_insert_by_count_at(
    s: Seq<(Seq<char>, Seq<BaselineEntryView>)>,
    g: (Seq<char>, Seq<BaselineEntryView>),
    j: int,
)
    requires
        0 <= j <= s.len(),
        j == 0 || s[j - 1].1.len() >= g.1.len(),
        forall|k: int| j <= k < s.len() ==> (#[trigger] s[k]).1.len() < g.1.len(),
    ensures
        insert_by_count(s, g) == s.insert(j, g),
    decreases s.len(),
{
    if s.len() == 0 {
        assert(s.insert(j, g) =~= seq![g]);
    } else if j == s.len() {
        assert(s.insert(j, g) =~= s.push(g));
    } else {
        lemma_insert_by_count_at(s.drop_last(), g, j);
        assert(s.insert(j, g) =~= s.drop_last().insert(j, g).push(s.last()));
    }
}

fn copy_entries(es: &Vec<BaselineEntry>) -> (r: Vec<BaselineEntry>)
    ensures
        entry_views(r@) == entry_views(es@),
{
    let mut r: Vec<BaselineEntry> = Vec::new();
    let mut i: usize = 0;
    while i < es.len()
        invariant
            i <= es@.len(),
            entry_views(r@) == entry_views(es@).take(i as int),
        decreases es@.len() - i,
    {
        let ghost before = r@;
        let c = copy_entry(&es[i]);
        r.push(c);
        assert(entry_views(r@) =~= entry_views(before).push(es@[i as int]@));
        assert(entry_views(es@).take(i + 1) =~= entry_views(es@).take(i as int).push(es@[i as int]@));
        i += 1;
    }
    assert(entry_views(es@).take(i as int) =~= entry_views(es@));
    r
}

/// The entries grouped by template, largest groups first (see `template_groups`).
pub fn group_by_template(entries: &[BaselineEntry]) -> (r: Vec<(String, Vec<BaselineEntry>)>)
    ensures
        group_views(r@) == template_groups(entry_views(entries@)),
{
    let ghost ev = entry_views(entries@);
    let mut gs: Vec<(String, Vec<BaselineEntry>)> = Vec::new();
    let mut i: usize = 0;
    while i < entries.len()
        invariant
            i <= entries@.len(),
            ev == entry_views(entries@),
            group_views(gs@) == groups_of(ev, i as nat),
        decreases entries@.len() - i,
    {
        let e = copy_entry(&entries[i]);
        assert(ev[i as int] == e@);
        let ghost gv = group_views(gs@);
        let mut j: usize = 0;
        while j < gs.len() && gs[j].0 != e.template_id
            invariant
                j <= gs@.len(),
                gv == group_views(gs@),
                group_pos(gv, e@.template_id, 0) == group_pos(gv, e@.template_id, j as int),
            decreases gs@.len() - j,
        {
            assert(gv[j as int].0 == gs@[j as int].0@);
            j += 1;
        }
        if j < gs.len() {
            assert(gv[j as int].0 == gs@[j as int].0@);
            let ghost old_gs = gs@;
            let ghost ev1 = e@;
            let (tid, mut members) = gs.remove(j);
            assert(tid@ == gv[j as int].0);
            assert(entry_views(members@) == gv[j as int].1);
            members.push(e);
            assert(entry_views(members@) =~= gv[j as int].1.push(ev1));
            let ghost item = (tid, members);
            gs.insert(j, (tid, members));
            assert(gs@ =~= old_gs.update(j as int, item));
            assert(group_views(gs@) =~= gv.update(j as int, (gv[j as int].0, gv[j as int].1.push(ev1))));
        } else {
            let tid = e.template_id.clone();
            let ghost ev1 = e@;
            let members = vec![e];
            gs.push((tid, members));
            assert(entry_views(members@) =~= seq![ev1]);
            assert(group_views(gs@) =~= gv.push((ev1.template_id, seq![ev1])));
        }
        i += 1;
    }
    let ghost all = groups_of(ev, ev.len());
    let mut r: Vec<(String, Vec<BaselineEntry>)> = Vec::new();
    let mut k: usize = 0;
    while k < gs.len()
        invariant
            k <= gs@.len(),
            group_views(gs@) == all,
            group_views(r@) == sort_by_count(all.take(k as int)),
        decreases gs@.len() - k,
    {
        let members = copy_entries(&gs[k].1);
        let g = (gs[k].0.clone(), members);
        assert(all[k as int] == (g.0@, entry_views(g.1@)));
        let n = g.1.len();
        let mut j = r.len();
        while j > 0 && r[j - 1].1.len() < n
            invariant
                j <= r@.len(),
                n == g.1@.len(),
                forall|l: int| j <= l < r@.len() ==> (#[trigger] r@[l]).1@.len() < n,
            decreases j,
        {
            j -= 1;
        }
        proof {
            let rv = group_views(r@);
            assert forall|l: int| j <= l < rv.len() implies (#[trigger] rv[l]).1.len() < g.1@.len() by {
                assert(rv[l].1 == entry_views(r@[l].1@));
            }
            if j > 0 {
                assert(rv[j - 1].1 == entry_views(r@[j - 1].1@));
            }
            lemma_insert_by_count_at(rv, (g.0@, entry_views(g.1@)), j as int);
            assert(all.take(k + 1).drop_last() =~= all.take(k as int));
        }
        let ghost before = r@;
        let ghost gv1 = (g.0@, entry_views(g.1@));
        r.insert(j, g);
        assert(group_views(r@) =~= group_views(before).insert(j as int, gv1));
        k += 1;
    }
    assert(all.take(k as int) =~= all);
    r
}

/// The functions the entries name, each once, in the order they first appear.
pub open spec fn distinct_fns(es: Seq<BaselineEntryView>, n: nat) -> Seq<Seq<char>>
    decreases n,
{
    if n == 0 || n > es.len() {
        Seq::empty()
    } else {
        let acc = distinct_fns(es, (n - 1) as nat);
        match es[n - 1].function {
            Some(f) => if acc.contains(f) {
                acc
            } else {
                acc.push(f)
            },
            None => acc,
        }
    }
}

/// The functions that the entries of a group name, without repeats.
pub fn distinct_functions(entries: &[BaselineEntry]) -> (r: Vec<String>)
    ensures
        r.deep_view() == distinct_fns(entry_views(entries@), entries@.len() as nat),
{
    let ghost ev = entry_views(entries@);
    let mut r: Vec<String> = Vec::new();
    let mut i: usize = 0;
    while i < entries.len()
        invariant
            i <= entries@.len(),
            ev == entry_views(entries@),
            r.deep_view() == distinct_fns(ev, i as nat),
        decreases entries@.len() - i,
    {
        assert(ev[i as int] == entries@[i as int]@);
        match &entries[i].function {
            Some(f) => {
                let mut j: usize = 0;
                let mut seen = false;
                while j < r.len()
                    invariant
                        j <= r@.len(),
                        seen == (exists|l: int| 0 <= l < j && r.deep_view()[l] == f@),
                    decreases r@.len() - j,
                {
                    if r[j] == *f {
                        seen = true;
                    }
                    assert(r.deep_view()[j as int] == r@[j as int]@);
                    j += 1;
                }
                if !seen {
                    let ghost before = r.deep_view();
                    r.push(f.clone());
                    assert(r.deep_view() =~= before.push(f@));
                } else {
                    proof {
                        let l = choose|l: int| 0 <= l < j && r.deep_view()[l] == f@;
                        assert(r.deep_view().contains(f@));
                    }
                }
                proof {
                    if !seen {
                        assert(!r.deep_view().drop_last().contains(f@));
                    }
                }
            },
            None => {},
        }
        i += 1;
    }
    r
}

// ---------------------------------------------------------------------------
// Scanning a module with every template
// ---------------------------------------------------------------------------

/// `x` inserted after every finding of no later severity.
pub open spec fn insert_by_severity(s: Seq<FindingView>, x: FindingView) -> Seq<FindingView>
    decreases s.len(),
{
    if s.len() == 0 {
        seq![x]
    } else if crate::schema::severity_rank(s.last().severity) <= crate::schema::severity_rank(
        x.severity,
    ) {
        s.push(x)
    } else {
        insert_by_severity(s.drop_last(), x).push(s.last())
    }
}

/// Stable sort by severity, most severe first.
pub open spec fn sort_by_severity(s: Seq<FindingView>) -> Seq<FindingView>
    decreases s.len(),
{
    if s.len() == 0 {
        Seq::empty()
    } else {
        insert_by_severity(sort_by_severity(s.drop_last()), s.last())
    }
}

/// The findings of the first `n` templates that are not cross-references, in
/// template order.
pub open spec fn template_findings(
    ts: Seq<crate::schema::TemplateView>,
    m: crate::ir::IRModuleView,
    n: nat,
) -> Seq<FindingView>
    decreases n,
{
    if n == 0 || n > ts.len() {
        Seq::empty()
    } else {
        let prev = template_findings(ts, m, (n - 1) as nat);
        if ts[n - 1].scope.file_type == crate::schema::FileType::CrossReference {
            prev
        } else {
            prev + crate::engine::run_template_spec(ts[n - 1], m)
        }
    }
}

/// What a scan of a module with a set of templates reports.
pub open spec fn scan_spec(ts: Seq<crate::schema::TemplateView>, m: crate::ir::IRModuleView) -> Seq<
    FindingView,
> {
    sort_by_severity(template_findings(ts, m, ts.len()))
}

proof fn lemma_insert_by_severity_at(s: Seq<FindingView>, x: FindingView, j: int)
    requires
        0 <= j <= s.len(),
        j == 0 || crate::schema::severity_rank(s[j - 1].severity) <= crate::schema::severity_rank(
            x.severity,
        ),
        forall|k: int|
            j <= k < s.len() ==> crate::schema::severity_rank((#[trigger] s[k]).severity)
                > crate::schema::severity_rank(x.severity),
    ensures
        insert_by_severity(s, x) == s.insert(j, x),
    decreases s.len(),
{
    if s.len() == 0 {
        assert(s.insert(j, x) =~= seq![x]);
    } else if j == s.len() {
        assert(s.insert(j, x) =~= s.push(x));
    } else {
        lemma_insert_by_severity_at(s.drop_last(), x, j);
        assert(s.insert(j, x) =~= s.drop_last().insert(j, x).push(s.last()));
    }
}

/// Stable insertion sort by severity.
pub fn sort_findings_by_severity(v: Vec<Finding>) -> (r: Vec<Finding>)
    ensures
        finding_views(r@) == sort_by_severity(finding_views(v@)),
{
    let mut r: Vec<Finding> = Vec::new();
    let mut i: usize = 0;
    while i < v.len()
        invariant
            i <= v@.len(),
            finding_views(r@) == sort_by_severity(finding_views(v@.take(i as int))),
        decreases v@.len() - i,
    {
        let x = v[i].clone_finding();
        let xr = x.severity.rank();
        let mut j = r.len();
        while j > 0 && r[j - 1].severity.rank() > xr
            invariant
                j <= r@.len(),
                xr as nat == crate::schema::severity_rank(x@.severity),
                forall|k: int|
                    j <= k < r@.len() ==> crate::schema::severity_rank((#[trigger] r@[k]).severity)
                        > crate::schema::severity_rank(x@.severity),
            decreases j,
        {
            j -= 1;
        }
        proof {
            let pv = finding_views(r@);
            assert forall|k: int| j <= k < pv.len() implies crate::schema::severity_rank(
                (#[trigger] pv[k]).severity,
            ) > crate::schema::severity_rank(x@.severity) by {
                assert(pv[k] == r@[k]@);
            }
            if j > 0 {
                assert(pv[j - 1] == r@[j - 1]@);
            }
            lemma_insert_by_severity_at(pv, x@, j as int);
            assert(finding_views(v@.take(i + 1)).drop_last() =~= finding_views(v@.take(i as int)));
            assert(finding_views(v@.take(i + 1)).last() == v@[i as int]@);
        }
        let ghost before = r@;
        r.insert(j, x);
        proof {
            assert(finding_views(r@) =~= finding_views(before).insert(j as int, x@));
        }
        i += 1;
    }
    assert(v@.take(i as int) =~= v@);
    r
}

pub open spec fn template_views(ts: Seq<crate::schema::Template>) -> Seq<crate::schema::TemplateView> {
    ts.map_values(|t: crate::schema::Template| t@)
}

/// Runs every template that is not a cross-reference over the module and sorts
/// the findings by severity, most severe first.
pub fn scan_findings(templates: &[crate::schema::Template], module: &crate::ir::IRModule) -> (r: Vec<
    Finding,
>)
    ensures
        finding_views(r@) == scan_spec(template_views(templates@), module@),
{
    let ghost tv = template_views(templates@);
    let mut all: Vec<Finding> = Vec::new();
    let mut i: usize = 0;
    while i < templates.len()
        invariant
            i <= templates@.len(),
            tv == template_views(templates@),
            finding_views(all@) == template_findings(tv, module@, i as nat),
        decreases templates@.len() - i,
    {
        assert(tv[i as int] == templates@[i as int]@);
        if templates[i].scope.file_type != crate::schema::FileType::CrossReference {
            let mut fs = crate::engine::run_template(&templates[i], module);
            let ghost before = all@;
            let ghost fsv = fs@;
            all.append(&mut fs);
            assert(finding_views(all@) =~= finding_views(before) + finding_views(fsv));
        }
        i += 1;
    }
    sort_findings_by_severity(all)
}

} // verus!
