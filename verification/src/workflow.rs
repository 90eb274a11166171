//! The decisions of workflows and drain queues: which templates a workflow
//! step or a queued entry runs, which file a step reads, when the run stops,
//! when the queue is cleared, when a scan writes its fixes back, and the exit
//! code of a run.
use vstd::prelude::*;
use crate::engine::{Finding, FindingView, finding_views};
use crate::loader::{filter_templates, filtered, template_views};
use crate::schema::{severity_rank, DrainEntry, Severity, Template, TemplateView, WorkflowStep};
use crate::session::{resolve_input, resolve_spec};
use crate::text::{chars_of, string_of};

verus! {

/// The templates a workflow step runs: those sharing a tag with the step's
/// tags when it names tags; else those whose id the step names; else none.
pub open spec fn step_selection(
    tags: Seq<Seq<char>>,
    ids: Seq<Seq<char>>,
    ts: Seq<TemplateView>,
) -> Seq<TemplateView> {
    if tags.len() > 0 {
        filtered(ts, tags, Seq::empty(), Seq::empty(), ts.len())
    } else if ids.len() > 0 {
        filtered(ts, Seq::empty(), Seq::empty(), ids, ts.len())
    } else {
        Seq::empty()
    }
}

/// The templates that workflow step `step` runs, among `all`.
pub fn step_templates(step: &WorkflowStep, all: &[Template]) -> (r: Vec<Template>)
    ensures
        template_views(r@) == step_selection(
            step.templates.tags.deep_view(),
            step.templates.ids.deep_view(),
            template_views(all@),
        ),
{
    let none: Vec<String> = Vec::new();
    let no_sev: Vec<Severity> = Vec::new();
    assert(none.deep_view() =~= Seq::<Seq<char>>::empty());
    assert(no_sev@ =~= Seq::<Severity>::empty());
    if step.templates.tags.len() > 0 {
        filter_templates(all, step.templates.tags.as_slice(), no_sev.as_slice(), none.as_slice())
    } else if step.templates.ids.len() > 0 {
        filter_templates(all, none.as_slice(), no_sev.as_slice(), step.templates.ids.as_slice())
    } else {
        let r: Vec<Template> = Vec::new();
        assert(template_views(r@) =~= Seq::<TemplateView>::empty());
        r
    }
}

/// The value of the input named `ir_file`, else of the first input.
pub open spec fn chosen_input(inputs: Seq<(Seq<char>, Seq<char>)>) -> Option<Seq<char>> {
    if exists|k: int| 0 <= k < inputs.len() && inputs[k].0 == "ir_file"@ {
        let k = choose|k: int|
            0 <= k < inputs.len() && inputs[k].0 == "ir_file"@ && forall|j: int| 0 <= j < k ==> inputs[j].0 != "ir_file"@;
        Some(inputs[k].1)
    } else if inputs.len() > 0 {
        Some(inputs[0].1)
    } else {
        None
    }
}

/// The file a step reads: its `input`, or the value of its `ir_file` input,
/// or of its first input; placeholders filled from the workflow's inputs.
pub open spec fn step_input_spec(
    input: Option<Seq<char>>,
    inputs: Option<Seq<(Seq<char>, Seq<char>)>>,
    given: Seq<(Seq<char>, Seq<char>)>,
) -> Option<Seq<char>> {
    match input {
        Some(s) => Some(resolve_spec(s, given, given.len())),
        None => match inputs {
            Some(m) => match chosen_input(m) {
                Some(v) => Some(resolve_spec(v, given, given.len())),
                None => None,
            },
            None => None,
        },
    }
}

proof fn lemma_first_ir_file(m: Seq<(Seq<char>, Seq<char>)>, k: int)
    requires
        0 <= k < m.len(),
        m[k].0 == "ir_file"@,
        forall|j: int| 0 <= j < k ==> m[j].0 != "ir_file"@,
    ensures
        chosen_input(m) == Some(m[k].1),
{
    let c = choose|c: int|
        0 <= c < m.len() && m[c].0 == "ir_file"@ && forall|j: int| 0 <= j < c ==> m[j].0 != "ir_file"@;
    if c < k {
        assert(m[c].0 != "ir_file"@);
    }
    if k < c {
        assert(m[k].0 != "ir_file"@);
    }
}

/// The file that workflow step `step` reads, with the workflow's inputs
/// `given` filled in.
pub fn step_input(step: &WorkflowStep, given: &Vec<(String, String)>) -> (r: Option<String>)
    ensures
        r.deep_view() == step_input_spec(
            step.input.deep_view(),
            match &step.inputs {
                Some(m) => Some(m.deep_view()),
                None => None,
            },
            given.deep_view(),
        ),
{
    match &step.input {
        Some(s) => Some(resolve_input(s.as_str(), given)),
        None => match &step.inputs {
            Some(m) => {
                let ghost mv = m.deep_view();
                let key = "ir_file".to_string();
                proof {
                    reveal_strlit("ir_file");
                }
                let mut k: usize = 0;
                while k < m.len()
                    invariant
                        k <= m@.len(),
                        mv == m.deep_view(),
                        step.input is None,
                        step.inputs == Some(*m),
                        key@ == "ir_file"@,
                        forall|j: int| 0 <= j < k ==> mv[j].0 != "ir_file"@,
                    decreases m@.len() - k,
                {
                    assert(mv[k as int] == (m@[k as int].0@, m@[k as int].1@));
                    if m[k].0 == key {
                        proof {
                            lemma_first_ir_file(mv, k as int);
                        }
                        let r = resolve_input(m[k].1.as_str(), given);
                        assert(chosen_input(m.deep_view()) == Some(m@[k as int].1@));
                        return Some(r);
                    }
                    k += 1;
                }
                if m.len() > 0 {
                    assert(mv[0] == (m@[0].0@, m@[0].1@));
                    Some(resolve_input(m[0].1.as_str(), given))
                } else {
                    None
                }
            },
            None => None,
        },
    }
}

/// Some finding is at least as severe as the stop level.
pub open spec fn stop_reached(fs: Seq<FindingView>, stop_on: Option<Severity>) -> bool {
    stop_on matches Some(s) && exists|i: int|
        0 <= i < fs.len() && severity_rank(#[trigger] fs[i].severity) <= severity_rank(s)
}

/// Whether a workflow or a drain stops: it has a stop level and some finding
/// is at that level or more severe.
pub fn should_stop(found: &[Finding], stop_on: &Option<Severity>) -> (b: bool)
    ensures
        b == stop_reached(finding_views(found@), *stop_on),
{
    let ghost fv = finding_views(found@);
    match stop_on {
        None => false,
        Some(s) => {
            let limit = s.rank();
            let mut i: usize = 0;
            while i < found.len()
                invariant
                    i <= found@.len(),
                    fv == finding_views(found@),
                    limit as nat == severity_rank(*s),
                    *stop_on == Some(*s),
                    forall|j: int| 0 <= j < i ==> severity_rank(#[trigger] fv[j].severity) > severity_rank(*s),
                decreases found@.len() - i,
            {
                assert(fv[i as int] == found@[i as int]@);
                if found[i].severity.rank() <= limit {
                    assert(severity_rank(fv[i as int].severity) <= severity_rank(*s));
                    return true;
                }
                i += 1;
            }
            false
        },
    }
}

/// Some finding is critical or high.
pub open spec fn has_severe(fs: Seq<FindingView>) -> bool {
    exists|i: int| 0 <= i < fs.len() && severity_rank(#[trigger] fs[i].severity) <= 1
}

/// The exit code of a scan, a workflow, a drain or a triage: 1 when some
/// finding is critical or high, else 0.
pub fn findings_exit_code(found: &[Finding]) -> (code: i32)
    ensures
        code == (if has_severe(finding_views(found@)) {
            1i32
        } else {
            0i32
        }),
{
    if should_stop(found, &Some(Severity::High)) {
        1
    } else {
        0
    }
}

/// What follows the last `/` of an id (the whole id when it has none).
pub open spec fn last_segment(s: Seq<char>) -> Seq<char>
    decreases s.len(),
{
    if s.len() == 0 || s.last() == '/' {
        Seq::empty()
    } else {
        last_segment(s.drop_last()).push(s.last())
    }
}

/// What follows the last `/` of `id`.
pub fn id_last_segment(id: &str) -> (r: String)
    ensures
        r@ == last_segment(id@),
{
    let v = chars_of(id);
    let mut k = v.len();
    assert(v@.take(k as int) =~= v@);
    assert(v@.subrange(k as int, v@.len() as int) =~= Seq::<char>::empty());
    while k > 0 && v[k - 1] != '/'
        invariant
            k <= v@.len(),
            last_segment(v@) == last_segment(v@.take(k as int)) + v@.subrange(k as int, v@.len() as int),
        decreases k,
    {
        let ghost t = v@.take(k as int);
        assert(t.drop_last() =~= v@.take(k - 1));
        assert(v@.subrange(k - 1, v@.len() as int) =~= seq![v@[k - 1]] + v@.subrange(k as int, v@.len() as int));
        assert(last_segment(t) =~= last_segment(v@.take(k - 1)).push(v@[k - 1]));
        assert(last_segment(t) + v@.subrange(k as int, v@.len() as int) =~= last_segment(v@.take(k - 1))
            + v@.subrange(k - 1, v@.len() as int));
        k -= 1;
    }
    assert(last_segment(v@.take(k as int)) =~= Seq::<char>::empty());
    assert(v@.take(v@.len() as int) =~= v@);
    string_of(v.as_slice(), k, v.len())
}

/// The templates among the first `n` whose id is `id` or its last segment.
pub open spec fn id_matches(ts: Seq<TemplateView>, id: Seq<char>, n: nat) -> Seq<TemplateView>
    decreases n,
{
    if n == 0 || n > ts.len() {
        Seq::empty()
    } else {
        let prev = id_matches(ts, id, (n - 1) as nat);
        if ts[n - 1].id == id || ts[n - 1].id == last_segment(id) {
            prev.push(ts[n - 1])
        } else {
            prev
        }
    }
}

/// The templates a queued entry selects: by its template id (the whole id or
/// its last `/` segment) when it names one; else by its tags; else none.
pub open spec fn entry_selection(
    template: Option<Seq<char>>,
    tags: Seq<Seq<char>>,
    ts: Seq<TemplateView>,
) -> Seq<TemplateView> {
    match template {
        Some(id) => id_matches(ts, id, ts.len()),
        None => if tags.len() > 0 {
            filtered(ts, tags, Seq::empty(), Seq::empty(), ts.len())
        } else {
            Seq::empty()
        },
    }
}

/// The templates that drain entry `e` runs, among `all`.
pub fn entry_templates(e: &DrainEntry, all: &[Template]) -> (r: Vec<Template>)
    ensures
        template_views(r@) == entry_selection(e.template.deep_view(), e.tags.deep_view(), template_views(all@)),
{
    match &e.template {
        Some(id) => {
            let needle = id_last_segment(id.as_str());
            let ghost tv = template_views(all@);
            let mut r: Vec<Template> = Vec::new();
            let mut i: usize = 0;
            while i < all.len()
                invariant
                    i <= all@.len(),
                    tv == template_views(all@),
                    needle@ == last_segment(id@),
                    template_views(r@) == id_matches(tv, id@, i as nat),
                decreases all@.len() - i,
            {
                assert(tv[i as int] == all@[i as int]@);
                if all[i].id == *id || all[i].id == needle {
                    let t = all[i].copy();
                    let ghost before = r@;
                    r.push(t);
                    assert(template_views(r@) =~= template_views(before).push(t@));
                }
                i += 1;
            }
            r
        },
        None => {
            let none: Vec<String> = Vec::new();
            let no_sev: Vec<Severity> = Vec::new();
            assert(none.deep_view() =~= Seq::<Seq<char>>::empty());
            assert(no_sev@ =~= Seq::<Severity>::empty());
            if e.tags.len() > 0 {
                filter_templates(all, e.tags.as_slice(), no_sev.as_slice(), none.as_slice())
            } else {
                let r: Vec<Template> = Vec::new();
                assert(template_views(r@) =~= Seq::<TemplateView>::empty());
                r
            }
        },
    }
}

/// Whether a drain clears its queue: when asked to, and only if it did not
/// stop early.
pub fn should_clear(clear: bool, stopped: bool) -> (b: bool)
    ensures
        b == (clear && !stopped),
{
    clear && !stopped
}

/// Whether a scan writes its fixes back to the file: autofix asked for, not a
/// dry run, and some finding carries a fix.
pub fn should_write_fixes(autofix: bool, dry_run: bool, found: &[Finding]) -> (b: bool)
    ensures
        b == (autofix && !dry_run && exists|i: int|
            0 <= i < found@.len() && (#[trigger] finding_views(found@)[i]).autofix is Some),
{
    let ghost fv = finding_views(found@);
    if !autofix || dry_run {
        return false;
    }
    let mut i: usize = 0;
    while i < found.len()
        invariant
            i <= found@.len(),
            fv == finding_views(found@),
            autofix && !dry_run,
            forall|j: int| 0 <= j < i ==> (#[trigger] fv[j]).autofix is None,
        decreases found@.len() - i,
    {
        assert(fv[i as int] == found@[i as int]@);
        if found[i].autofix.is_some() {
            assert(fv[i as int].autofix is Some);
            return true;
        }
        i += 1;
    }
    false
}

/// The inputs among the first `n`, a later value for a key replacing the
/// earlier one: each key once, in the order of its last setting.
pub open spec fn merged_inputs(ps: Seq<(Seq<char>, Seq<char>)>, n: nat) -> Seq<(Seq<char>, Seq<char>)>
    decreases n,
{
    if n == 0 || n > ps.len() {
        Seq::empty()
    } else {
        let prev = merged_inputs(ps, (n - 1) as nat);
        without_key(prev, ps[n - 1].0, prev.len()).push(ps[n - 1])
    }
}

/// The first `n` pairs whose key is not `k`.
pub open spec fn without_key(ps: Seq<(Seq<char>, Seq<char>)>, k: Seq<char>, n: nat) -> Seq<(Seq<char>, Seq<char>)>
    decreases n,
{
    if n == 0 || n > ps.len() {
        Seq::empty()
    } else {
        let prev = without_key(ps, k, (n - 1) as nat);
        if ps[n - 1].0 == k {
            prev
        } else {
            prev.push(ps[n - 1])
        }
    }
}

/// The workflow's inputs as given on the command line, a later value for a
/// key replacing the earlier one.
pub fn merge_inputs(inputs: &[(String, String)]) -> (r: Vec<(String, String)>)
    ensures
        r.deep_view() == merged_inputs(inputs.deep_view(), inputs@.len() as nat),
{
    let ghost iv = inputs.deep_view();
    let mut r: Vec<(String, String)> = Vec::new();
    let mut i: usize = 0;
    while i < inputs.len()
        invariant
            i <= inputs@.len(),
            iv == inputs.deep_view(),
            r.deep_view() == merged_inputs(iv, i as nat),
        decreases inputs@.len() - i,
    {
        assert(iv[i as int] == (inputs@[i as int].0@, inputs@[i as int].1@));
        let ghost rv = r.deep_view();
        let mut kept: Vec<(String, String)> = Vec::new();
        let mut j: usize = 0;
        while j < r.len()
            invariant
                j <= r@.len(),
                i < inputs@.len(),
                rv == r.deep_view(),
                iv == inputs.deep_view(),
                iv[i as int] == (inputs@[i as int].0@, inputs@[i as int].1@),
                kept.deep_view() == without_key(rv, iv[i as int].0, j as nat),
            decreases r@.len() - j,
        {
            assert(rv[j as int] == (r@[j as int].0@, r@[j as int].1@));
            if r[j].0 != inputs[i].0 {
                let ghost before = kept.deep_view();
                kept.push((r[j].0.clone(), r[j].1.clone()));
                assert(kept.deep_view() =~= before.push(rv[j as int]));
            }
            j += 1;
        }
        let ghost before = kept.deep_view();
        kept.push((inputs[i].0.clone(), inputs[i].1.clone()));
        assert(kept.deep_view() =~= before.push(iv[i as int]));
        r = kept;
        i += 1;
    }
    r
}


/// A workflow after one step: the step's findings join those so far, and the
/// run stops when some finding so far is at the step's stop level or more
/// severe.
pub fn after_workflow_step(acc: &mut Vec<Finding>, found: Vec<Finding>, stop_on: &Option<Severity>) -> (stop: bool)
    ensures
        finding_views(final(acc)@) == finding_views(old(acc)@) + finding_views(found@),
        stop == stop_reached(finding_views(final(acc)@), *stop_on),
{
    let ghost a = finding_views(acc@);
    let ghost b = finding_views(found@);
    let mut found = found;
    acc.append(&mut found);
    assert(finding_views(acc@) =~= a + b);
    should_stop(acc.as_slice(), stop_on)
}

/// A drain after one entry: the entry's findings join those so far, and the
/// drain stops when one of the entry's own findings is at its stop level or
/// more severe.
pub fn after_drain_entry(acc: &mut Vec<Finding>, found: Vec<Finding>, stop_on: &Option<Severity>) -> (stop: bool)
    ensures
        finding_views(final(acc)@) == finding_views(old(acc)@) + finding_views(found@),
        stop == stop_reached(finding_views(found@), *stop_on),
{
    let ghost a = finding_views(acc@);
    let ghost b = finding_views(found@);
    let stop = should_stop(found.as_slice(), stop_on);
    let mut found = found;
    acc.append(&mut found);
    assert(finding_views(acc@) =~= a + b);
    stop
}

/// What a scan writes back to the file: nothing unless fixes are asked for,
/// it is no dry run, and some finding carries a fix; then the text with the
/// fixes of the findings that carry one applied, in order.
pub fn autofix_rewrite(content: &str, found: &[Finding], autofix: bool, dry_run: bool) -> (r: Option<String>)
    ensures
        r is Some <==> (autofix && !dry_run && exists|i: int|
            0 <= i < found@.len() && (#[trigger] finding_views(found@)[i]).autofix is Some),
        r matches Some(t) ==> t@ == crate::engine::autofixed(
            content@,
            crate::fix::fixable_from(finding_views(found@), found@.len() as nat),
            crate::fix::fixable_from(finding_views(found@), found@.len() as nat).len(),
        ),
{
    if should_write_fixes(autofix, dry_run, found) {
        let fx = crate::fix::fixable_findings(found);
        let t = crate::engine::apply_autofixes(content, &fx);
        Some(t)
    } else {
        None
    }
}
} // verus!
