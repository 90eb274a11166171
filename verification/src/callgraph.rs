//! Call graphs of IR modules: who calls whom, resolving a function by part of
//! its name, and the call chains from one function to another.
use vstd::prelude::*;
use vstd::string::StringSliceAdditionalSpecFns;
use crate::ir::{IRFunctionView, IRModule};
use crate::rx::{captures, captures_ok, group_str, group_text, rx_caps};
use crate::schema::copy_strings;
use crate::text::{contains, contains_str};

verus! {

pub const CALL_TARGET_PATTERN: &'static str = r"call\s+.+@([\w.]+)\(";

/// The values of the first `n` texts, each once, in the order they first appear.
pub open spec fn distinct(texts: Seq<Seq<char>>, n: nat) -> Seq<Seq<char>>
    decreases n,
{
    if n == 0 || n > texts.len() {
        Seq::empty()
    } else {
        let acc = distinct(texts, (n - 1) as nat);
        if acc.contains(texts[n - 1]) {
            acc
        } else {
            acc.push(texts[n - 1])
        }
    }
}

/// The functions a body calls, each once.
pub open spec fn callees_of(body: Seq<char>) -> Seq<Seq<char>> {
    let names = rx_caps(CALL_TARGET_PATTERN@, body).map_values(
        |c: Seq<Option<(usize, usize)>>| group_text(body, c, 1),
    );
    distinct(names, names.len())
}

/// The call graph: each function with the functions it calls.
pub open spec fn call_graph_spec(fs: Seq<IRFunctionView>) -> Seq<(Seq<char>, Seq<Seq<char>>)> {
    fs.map_values(|f: IRFunctionView| (f.name, callees_of(f.body)))
}

pub open spec fn graph_view(g: Seq<(String, Vec<String>)>) -> Seq<(Seq<char>, Seq<Seq<char>>)> {
    g.map_values(|e: (String, Vec<String>)| (e.0@, e.1.deep_view()))
}

pub(crate) fn contains_string(v: &Vec<String>, x: &String) -> (b: bool)
    ensures
        b == v.deep_view().contains(x@),
{
    let mut i: usize = 0;
    while i < v.len()
        invariant
            i <= v@.len(),
            forall|j: int| 0 <= j < i ==> v.deep_view()[j] != x@,
        decreases v@.len() - i,
    {
        assert(v.deep_view()[i as int] == v@[i as int]@);
        if v[i] == *x {
            assert(v.deep_view()[i as int] == x@);
            return true;
        }
        i += 1;
    }
    false
}

/// The texts without repeats, in the order they first appear.
pub fn distinct_strings(texts: &Vec<String>) -> (r: Vec<String>)
    ensures
        r.deep_view() == distinct(texts.deep_view(), texts@.len() as nat),
{
    let mut r: Vec<String> = Vec::new();
    let mut i: usize = 0;
    while i < texts.len()
        invariant
            i <= texts@.len(),
            r.deep_view() == distinct(texts.deep_view(), i as nat),
        decreases texts@.len() - i,
    {
        assert(texts.deep_view()[i as int] == texts@[i as int]@);
        if !contains_string(&r, &texts[i]) {
            let ghost before = r.deep_view();
            r.push(texts[i].clone());
            assert(r.deep_view() =~= before.push(texts@[i as int]@));
        }
        i += 1;
    }
    r
}

/// The functions that a body calls, each once.
pub fn callees(body: &str) -> (r: Vec<String>)
    ensures
        r.deep_view() == callees_of(body@),
{
    let caps = captures(CALL_TARGET_PATTERN, body);
    let names = crate::c_parser::group_texts(body, &caps, 1);
    distinct_strings(&names)
}

/// The call graph of a module: each function with the functions it calls.
pub fn build_call_graph(module: &IRModule) -> (g: Vec<(String, Vec<String>)>)
    ensures
        graph_view(g@) == call_graph_spec(module@.functions),
{
    let ghost fs = module@.functions;
    let mut g: Vec<(String, Vec<String>)> = Vec::new();
    let mut i: usize = 0;
    while i < module.functions.len()
        invariant
            i <= module.functions@.len(),
            fs == module@.functions,
            graph_view(g@) == call_graph_spec(fs.take(i as int)),
        decreases module.functions@.len() - i,
    {
        let f = &module.functions[i];
        assert(fs[i as int] == f@);
        let cs = callees(f.body.as_str());
        let ghost before = graph_view(g@);
        let ghost item = (f.name@, cs.deep_view());
        g.push((f.name.clone(), cs));
        assert(graph_view(g@) =~= before.push(item));
        assert(call_graph_spec(fs.take(i + 1)) =~= call_graph_spec(fs.take(i as int)).push(item));
        i += 1;
    }
    assert(fs.take(i as int) =~= fs);
    g
}

// ---------------------------------------------------------------------------
// Resolving a function by name
// ---------------------------------------------------------------------------

/// The names among the functions that hold `name`, in module order.
pub open spec fn names_holding(fs: Seq<IRFunctionView>, name: Seq<char>, n: nat) -> Seq<Seq<char>>
    decreases n,
{
    if n == 0 || n > fs.len() {
        Seq::empty()
    } else {
        names_holding(fs, name, (n - 1) as nat) + if contains(fs[n - 1].name, name) {
            seq![fs[n - 1].name]
        } else {
            Seq::empty()
        }
    }
}

/// Length in bytes of a name.
pub open spec fn byte_len(s: Seq<char>) -> nat {
    vstd::utf8::encode_utf8(s).len()
}

/// The first of the first `n` names of least byte length.
pub open spec fn shortest(ns: Seq<Seq<char>>, n: nat) -> Seq<char>
    decreases n,
{
    if n <= 1 || n > ns.len() {
        if ns.len() > 0 {
            ns[0]
        } else {
            Seq::empty()
        }
    } else {
        let prev = shortest(ns, (n - 1) as nat);
        if byte_len(ns[n - 1]) < byte_len(prev) {
            ns[n - 1]
        } else {
            prev
        }
    }
}

/// The function a name stands for: the function of that name, else the
/// shortest name that holds it.
pub open spec fn resolve_spec(fs: Seq<IRFunctionView>, name: Seq<char>) -> Option<Seq<char>> {
    if exists|i: int| 0 <= i < fs.len() && fs[i].name == name {
        Some(name)
    } else {
        let ms = names_holding(fs, name, fs.len());
        if ms.len() == 0 {
            None
        } else {
            Some(shortest(ms, ms.len()))
        }
    }
}

/// The function that a name, or part of one, stands for.
pub fn resolve_fn(module: &IRModule, name: &str) -> (r: Option<String>)
    ensures
        r.deep_view() == resolve_spec(module@.functions, name@),
{
    let ghost fs = module@.functions;
    match crate::ir::find_function(&module.functions, &name.to_string()) {
        Some(k) => {
            assert(fs[k as int] == module.functions@[k as int]@);
            return Some(name.to_string());
        },
        None => {
            assert forall|i: int| 0 <= i < fs.len() implies fs[i].name != name@ by {
                assert(fs[i] == module.functions@[i]@);
            }
        },
    }
    let mut ms: Vec<String> = Vec::new();
    let mut i: usize = 0;
    while i < module.functions.len()
        invariant
            i <= module.functions@.len(),
            fs == module@.functions,
            ms.deep_view() == names_holding(fs, name@, i as nat),
        decreases module.functions@.len() - i,
    {
        let f = &module.functions[i];
        assert(fs[i as int] == f@);
        let ghost before = ms.deep_view();
        if contains_str(f.name.as_str(), name) {
            ms.push(f.name.clone());
            assert(ms.deep_view() =~= before + seq![f@.name]);
        } else {
            assert(ms.deep_view() =~= before + Seq::<Seq<char>>::empty());
        }
        i += 1;
    }
    if ms.len() == 0 {
        return None;
    }
    let ghost mv = ms.deep_view();
    let mut best: usize = 0;
    let mut k: usize = 1;
    while k < ms.len()
        invariant
            1 <= k <= ms@.len(),
            best < ms@.len(),
            mv == ms.deep_view(),
            mv[best as int] == shortest(mv, k as nat),
        decreases ms@.len() - k,
    {
        assert(mv[k as int] == ms@[k as int]@);
        assert(mv[best as int] == ms@[best as int]@);
        if ms[k].as_str().as_bytes().len() < ms[best].as_str().as_bytes().len() {
            best = k;
        }
        k += 1;
    }
    assert(mv[best as int] == ms@[best as int]@);
    Some(ms[best].clone())
}

// ---------------------------------------------------------------------------
// Call chains
// ---------------------------------------------------------------------------

/// The functions that `f` calls, by the first entry of the graph for it.
pub open spec fn graph_callees(g: Seq<(Seq<char>, Seq<Seq<char>>)>, f: Seq<char>) -> Seq<Seq<char>> {
    match crate::engine::key_index(g, f, 0) {
        Some(i) => g[i].1,
        None => Seq::empty(),
    }
}

/// The paths that extend `p` by one callee of its last function that it does
/// not already pass through, in the order of the callees.
pub open spec fn extend_from(p: Seq<Seq<char>>, cs: Seq<Seq<char>>, n: nat) -> Seq<Seq<Seq<char>>>
    decreases n,
{
    if n == 0 || n > cs.len() {
        Seq::empty()
    } else {
        extend_from(p, cs, (n - 1) as nat) + if p.contains(cs[n - 1]) {
            Seq::empty()
        } else {
            seq![p.push(cs[n - 1])]
        }
    }
}

pub open spec fn extensions(g: Seq<(Seq<char>, Seq<Seq<char>>)>, p: Seq<Seq<char>>) -> Seq<
    Seq<Seq<char>>,
> {
    let cs = graph_callees(g, p.last());
    extend_from(p, cs, cs.len())
}

/// A path that reaches `to` after at least one call.
pub open spec fn reaches(p: Seq<Seq<char>>, to: Seq<char>) -> bool {
    p.len() > 1 && p.last() == to
}

/// The paths one call longer than the first `n` paths of a level, leaving out
/// those that already reach `to`.
pub open spec fn next_level(
    g: Seq<(Seq<char>, Seq<Seq<char>>)>,
    level: Seq<Seq<Seq<char>>>,
    to: Seq<char>,
    n: nat,
) -> Seq<Seq<Seq<char>>>
    decreases n,
{
    if n == 0 || n > level.len() {
        Seq::empty()
    } else {
        next_level(g, level, to, (n - 1) as nat) + if reaches(level[n - 1], to) {
            Seq::empty()
        } else {
            extensions(g, level[n - 1])
        }
    }
}

/// The paths of `len` functions that a breadth-first search from `from`
/// explores, in the order it explores them.
pub open spec fn level_paths(
    g: Seq<(Seq<char>, Seq<Seq<char>>)>,
    from: Seq<char>,
    to: Seq<char>,
    len: nat,
) -> Seq<Seq<Seq<char>>>
    decreases len,
{
    if len <= 1 {
        seq![seq![from]]
    } else {
        let prev = level_paths(g, from, to, (len - 1) as nat);
        next_level(g, prev, to, prev.len())
    }
}

/// The first `n` paths of a level that reach `to`.
pub open spec fn reaching(ps: Seq<Seq<Seq<char>>>, to: Seq<char>, n: nat) -> Seq<Seq<Seq<char>>>
    decreases n,
{
    if n == 0 || n > ps.len() {
        Seq::empty()
    } else {
        reaching(ps, to, (n - 1) as nat) + if reaches(ps[n - 1], to) {
            seq![ps[n - 1]]
        } else {
            Seq::empty()
        }
    }
}

/// The paths of at most `len` functions that reach `to`, shorter ones first.
pub open spec fn chains_upto(
    g: Seq<(Seq<char>, Seq<Seq<char>>)>,
    from: Seq<char>,
    to: Seq<char>,
    len: nat,
) -> Seq<Seq<Seq<char>>>
    decreases len,
{
    if len == 0 {
        Seq::empty()
    } else {
        let lv = level_paths(g, from, to, len);
        chains_upto(g, from, to, (len - 1) as nat) + reaching(lv, to, lv.len())
    }
}

/// The first five of a sequence (all of it when shorter).
pub open spec fn first_five<T>(s: Seq<T>) -> Seq<T> {
    if s.len() <= 5 {
        s
    } else {
        s.take(5)
    }
}

/// What `find_paths` returns: the first five call chains from `from` to `to`
/// of at most `max_depth` calls, shorter chains first.
pub open spec fn find_paths_spec(
    g: Seq<(Seq<char>, Seq<Seq<char>>)>,
    from: Seq<char>,
    to: Seq<char>,
    max_depth: nat,
) -> Seq<Seq<Seq<char>>> {
    first_five(chains_upto(g, from, to, max_depth + 1))
}

pub open spec fn path_views(ps: Seq<Vec<String>>) -> Seq<Seq<Seq<char>>> {
    ps.map_values(|p: Vec<String>| p.deep_view())
}

proof fn lemma_first_five_append<T>(a: Seq<T>, b: Seq<T>)
    ensures
        first_five(first_five(a) + b) == first_five(a + b),
{
    if a.len() <= 5 {
    } else {
        assert((first_five(a) + b).take(5) =~= (a + b).take(5));
    }
}

proof fn lemma_first_five_full<T>(a: Seq<T>, b: Seq<T>)
    requires
        first_five(a).len() >= 5,
    ensures
        first_five(a + b) == first_five(a),
{
    assert((a + b).take(5) =~= a.take(5));
}

fn graph_callees_exec(g: &Vec<(String, Vec<String>)>, f: &String) -> (r: Vec<String>)
    ensures
        r.deep_view() == graph_callees(graph_view(g@), f@),
{
    let ghost gv = graph_view(g@);
    let mut i: usize = 0;
    while i < g.len()
        invariant
            i <= g@.len(),
            gv == graph_view(g@),
            crate::engine::key_index(gv, f@, 0) == crate::engine::key_index(gv, f@, i as int),
        decreases g@.len() - i,
    {
        assert(gv[i as int] == (g@[i as int].0@, g@[i as int].1.deep_view()));
        if g[i].0 == *f {
            return copy_strings(&g[i].1);
        }
        i += 1;
    }
    Vec::new()
}

fn extensions_exec(g: &Vec<(String, Vec<String>)>, p: &Vec<String>) -> (r: Vec<Vec<String>>)
    requires
        p@.len() > 0,
    ensures
        path_views(r@) == extensions(graph_view(g@), p.deep_view()),
{
    assert(p.deep_view().last() == p@[p@.len() - 1]@);
    let cs = graph_callees_exec(g, &p[p.len() - 1]);
    let mut r: Vec<Vec<String>> = Vec::new();
    let mut j: usize = 0;
    while j < cs.len()
        invariant
            j <= cs@.len(),
            path_views(r@) == extend_from(p.deep_view(), cs.deep_view(), j as nat),
        decreases cs@.len() - j,
    {
        assert(cs.deep_view()[j as int] == cs@[j as int]@);
        let ghost before = path_views(r@);
        if !contains_string(p, &cs[j]) {
            let mut np = copy_strings(p);
            np.push(cs[j].clone());
            let ghost npv = np.deep_view();
            assert(npv =~= p.deep_view().push(cs@[j as int]@));
            r.push(np);
            assert(path_views(r@) =~= before + seq![npv]);
        } else {
            assert(path_views(r@) =~= before + Seq::<Seq<Seq<char>>>::empty());
        }
        j += 1;
    }
    r
}

/// The first five call chains from `from` to `to` of at most `max_depth`
/// calls, found breadth-first and shorter ones first. A chain passes through
/// no function twice.
pub fn find_paths(graph: &Vec<(String, Vec<String>)>, from: &str, to: &str, max_depth: usize) -> (r: Vec<
    Vec<String>,
>)
    requires
        max_depth < usize::MAX,
    ensures
        path_views(r@) == find_paths_spec(graph_view(graph@), from@, to@, max_depth as nat),
{
    let ghost gv = graph_view(graph@);
    let to_s = to.to_string();
    let mut results: Vec<Vec<String>> = Vec::new();
    let mut level: Vec<Vec<String>> = Vec::new();
    level.push(vec![from.to_string()]);
    let mut depth: usize = 0;
    let ghost mut len: nat = 1;
    proof {
        let lv = path_views(level@);
        assert(level@[0].deep_view() =~= seq![from@]);
        assert(lv =~= level_paths(gv, from@, to@, 1));
        assert(chains_upto(gv, from@, to@, 0) =~= Seq::<Seq<Seq<char>>>::empty());
        assert(path_views(results@) =~= first_five(chains_upto(gv, from@, to@, 0)));
    }
    while depth <= max_depth
        invariant
            len == depth + 1,
            1 <= len <= max_depth + 2,
            max_depth < usize::MAX,
            gv == graph_view(graph@),
            to_s@ == to@,
            path_views(level@) == level_paths(gv, from@, to@, len as nat),
            path_views(results@) == first_five(chains_upto(gv, from@, to@, (len - 1) as nat)),
            results@.len() < 5,
            forall|q: int| 0 <= q < level@.len() ==> (#[trigger] level@[q])@.len() == len,
        decreases max_depth + 2 - len,
    {
        let ghost lv = path_views(level@);
        let ghost prior = chains_upto(gv, from@, to@, (len - 1) as nat);
        let mut next: Vec<Vec<String>> = Vec::new();
        let mut q: usize = 0;
        let mut full = false;
        while q < level.len()
            invariant_except_break
                !full,
                path_views(results@) == first_five(prior + reaching(lv, to@, q as nat)),
                results@.len() < 5,
            invariant
                q <= level@.len(),
                gv == graph_view(graph@),
                to_s@ == to@,
                lv == path_views(level@),
                1 <= len,
                forall|x: int| 0 <= x < level@.len() ==> (#[trigger] level@[x])@.len() == len,
                path_views(next@) == next_level(gv, lv, to@, q as nat),
                forall|x: int| 0 <= x < next@.len() ==> (#[trigger] next@[x])@.len() == len + 1,
                prior == chains_upto(gv, from@, to@, (len - 1) as nat),
            ensures
                full ==> path_views(results@) == first_five(prior + reaching(lv, to@, lv.len())),
                full ==> results@.len() >= 5,
                !full ==> path_views(results@) == first_five(prior + reaching(lv, to@, lv.len())),
                !full ==> results@.len() < 5,
                !full ==> path_views(next@) == next_level(gv, lv, to@, lv.len()),
                forall|x: int| 0 <= x < next@.len() ==> (#[trigger] next@[x])@.len() == len + 1,
            decreases level@.len() - q,
        {
            let p = &level[q];
            assert(lv[q as int] == p.deep_view());
            assert(p@.len() == len);
            assert(p.deep_view().len() == p@.len());
            let is_end = p.len() > 1 && p[p.len() - 1] == to_s;
            assert(p.deep_view()[p@.len() - 1] == p@[p@.len() - 1]@);
            assert(is_end == reaches(lv[q as int], to@));
            if is_end {
                let ghost before = path_views(results@);
                assert(before.len() == results@.len());
                results.push(copy_strings(p));
                proof {
                    let r1 = prior + reaching(lv, to@, q as nat);
                    assert(first_five(r1).len() < 5);
                    assert(r1.len() < 5);
                    let r2 = prior + reaching(lv, to@, (q + 1) as nat);
                    assert(r2 =~= r1.push(lv[q as int]));
                    assert(path_views(results@) =~= before.push(lv[q as int]));
                    assert(first_five(r1) =~= r1);
                    assert(path_views(results@) =~= first_five(r2));
                }
                if results.len() >= 5 {
                    proof {
                        let r2 = prior + reaching(lv, to@, (q + 1) as nat);
                        let rest = reaching(lv, to@, lv.len());
                        lemma_reaching_split(lv, to@, (q + 1) as nat);
                        let tail = reaching(lv.skip(q + 1), to@, (lv.len() - (q + 1)) as nat);
                        assert(prior + rest =~= r2 + tail);
                        lemma_first_five_full(r2, tail);
                    }
                    full = true;
                    break;
                }
                assert(path_views(next@) =~= next_level(gv, lv, to@, (q + 1) as nat));
            } else {
                let exts = extensions_exec(graph, p);
                let ghost nb = path_views(next@);
                proof {
                    assert forall|x: int| 0 <= x < exts@.len() implies (#[trigger] exts@[x])@.len() == len + 1 by {
                        lemma_extensions_len(gv, lv[q as int], x);
                        assert(path_views(exts@)[x] == exts@[x].deep_view());
                    }
                }
                let mut e = exts;
                let ghost ev = path_views(e@);
                let ghost el = e@;
                next.append(&mut e);
                assert(path_views(next@) =~= nb + ev);
                assert(reaching(lv, to@, (q + 1) as nat) =~= reaching(lv, to@, q as nat));
            }
            q += 1;
        }
        if full {
            proof {
                assert(chains_upto(gv, from@, to@, len as nat) == prior + reaching(lv, to@, lv.len()));
                assert(path_views(results@).len() == results@.len());
                lemma_chains_prefix_full(gv, from@, to@, len, max_depth as nat + 1);
            }
            return results;
        }
        proof {
            assert(chains_upto(gv, from@, to@, len as nat) == prior + reaching(lv, to@, lv.len()));
            assert(level_paths(gv, from@, to@, len + 1) == next_level(gv, lv, to@, lv.len()));
            assert(path_views(results@).len() == results@.len());
        }
        level = next;
        depth += 1;
        proof {
            len = len + 1;
        }
    }
    proof {
        assert(len == max_depth + 2);
    }
    results
}

proof fn lemma_reaching_split(ps: Seq<Seq<Seq<char>>>, to: Seq<char>, k: nat)
    requires
        k <= ps.len(),
    ensures
        reaching(ps, to, ps.len()) == reaching(ps, to, k) + reaching(
            ps.skip(k as int),
            to,
            (ps.len() - k) as nat,
        ),
    decreases ps.len() - k,
{
    if k == ps.len() {
        assert(reaching(ps.skip(k as int), to, 0) =~= Seq::<Seq<Seq<char>>>::empty());
        assert(reaching(ps, to, k) + Seq::<Seq<Seq<char>>>::empty() =~= reaching(ps, to, k));
    } else {
        lemma_reaching_split(ps, to, k + 1);
        let t = ps.skip(k as int);
        let t1 = ps.skip((k + 1) as int);
        lemma_reaching_front(t, to);
        assert(t.drop_first() =~= t1);
        assert(t[0] == ps[k as int]);
    }
}

/// Reaching paths of a sequence: those of its head, then those of its tail.
proof fn lemma_reaching_front(ps: Seq<Seq<Seq<char>>>, to: Seq<char>)
    requires
        ps.len() > 0,
    ensures
        reaching(ps, to, ps.len()) == (if reaches(ps[0], to) {
            seq![ps[0]]
        } else {
            Seq::<Seq<Seq<char>>>::empty()
        }) + reaching(ps.drop_first(), to, (ps.len() - 1) as nat),
    decreases ps.len(),
{
    let head: Seq<Seq<Seq<char>>> = if reaches(ps[0], to) {
        seq![ps[0]]
    } else {
        Seq::empty()
    };
    if ps.len() == 1 {
        assert(reaching(ps.drop_first(), to, 0) =~= Seq::<Seq<Seq<char>>>::empty());
        assert(reaching(ps, to, 0) =~= Seq::<Seq<Seq<char>>>::empty());
        assert(reaching(ps, to, 1) =~= head);
        assert(head + Seq::<Seq<Seq<char>>>::empty() =~= head);
    } else {
        let pl = ps.drop_last();
        lemma_reaching_front(pl, to);
        lemma_reaching_prefix(ps, to, (ps.len() - 1) as nat);
        lemma_reaching_prefix(ps.drop_first(), to, (ps.len() - 2) as nat);
        assert(pl.drop_first() =~= ps.drop_first().drop_last());
        assert(pl[0] == ps[0]);
        assert(ps.drop_first()[ps.len() - 2] == ps[ps.len() - 1]);
        let tail_last: Seq<Seq<Seq<char>>> = if reaches(ps[ps.len() - 1], to) {
            seq![ps[ps.len() - 1]]
        } else {
            Seq::empty()
        };
        assert(reaching(ps, to, ps.len()) =~= reaching(ps, to, (ps.len() - 1) as nat) + tail_last);
        assert(reaching(ps.drop_first(), to, (ps.len() - 1) as nat) =~= reaching(
            ps.drop_first(),
            to,
            (ps.len() - 2) as nat,
        ) + tail_last);
    }
}

/// `reaching` over a prefix of `ps` is `reaching` of the prefix.
proof fn lemma_reaching_prefix(ps: Seq<Seq<Seq<char>>>, to: Seq<char>, n: nat)
    requires
        n <= ps.len(),
    ensures
        reaching(ps, to, n) == reaching(ps.take(n as int), to, n),
    decreases n,
{
    if n > 0 {
        lemma_reaching_prefix(ps, to, (n - 1) as nat);
        lemma_reaching_prefix(ps.take(n as int), to, (n - 1) as nat);
        assert(ps.take(n as int).take(n - 1) =~= ps.take(n - 1));
        assert(ps.take(n as int)[n - 1] == ps[n - 1]);
    }
}

/// Every extension of a path is one call longer.
proof fn lemma_extensions_len(g: Seq<(Seq<char>, Seq<Seq<char>>)>, p: Seq<Seq<char>>, x: int)
    requires
        0 <= x < extensions(g, p).len(),
    ensures
        extensions(g, p)[x].len() == p.len() + 1,
{
    let cs = graph_callees(g, p.last());
    lemma_extend_len(p, cs, cs.len(), x);
}

proof fn lemma_extend_len(p: Seq<Seq<char>>, cs: Seq<Seq<char>>, n: nat, x: int)
    requires
        0 <= x < extend_from(p, cs, n).len(),
    ensures
        extend_from(p, cs, n)[x].len() == p.len() + 1,
    decreases n,
{
    if n > 0 && n <= cs.len() {
        let prev = extend_from(p, cs, (n - 1) as nat);
        if x < prev.len() {
            lemma_extend_len(p, cs, (n - 1) as nat, x);
        }
    }
}

/// Once five chains are found, longer chains change nothing.
proof fn lemma_chains_prefix_full(
    g: Seq<(Seq<char>, Seq<Seq<char>>)>,
    from: Seq<char>,
    to: Seq<char>,
    k: nat,
    m: nat,
)
    requires
        k <= m,
        first_five(chains_upto(g, from, to, k)).len() >= 5,
    ensures
        first_five(chains_upto(g, from, to, m)) == first_five(chains_upto(g, from, to, k)),
    decreases m - k,
{
    if k < m {
        lemma_chains_prefix_full(g, from, to, k, (m - 1) as nat);
        let lv = level_paths(g, from, to, m);
        lemma_first_five_full(chains_upto(g, from, to, (m - 1) as nat), reaching(lv, to, lv.len()));
    }
}

/// The first function from `k` on whose name is `name` or holds it.
pub open spec fn first_like(fs: Seq<IRFunctionView>, name: Seq<char>, k: nat) -> Option<int>
    decreases fs.len() - k,
{
    if k >= fs.len() {
        None
    } else if fs[k as int].name == name || contains(fs[k as int].name, name) {
        Some(k as int)
    } else {
        first_like(fs, name, k + 1)
    }
}

/// The first function whose name is `name` or holds it: how the commands
/// that take one function find it.
pub fn find_function_like(module: &IRModule, name: &str) -> (r: Option<usize>)
    ensures
        match r {
            Some(i) => first_like(module@.functions, name@, 0) == Some(i as int),
            None => first_like(module@.functions, name@, 0) is None,
        },
{
    let ghost fs = module@.functions;
    let n = name.to_string();
    let mut i: usize = 0;
    while i < module.functions.len()
        invariant
            i <= module.functions@.len(),
            fs == module@.functions,
            n@ == name@,
            first_like(fs, name@, 0) == first_like(fs, name@, i as nat),
        decreases module.functions@.len() - i,
    {
        assert(fs[i as int] == module.functions@[i as int]@);
        if module.functions[i].name == n || contains_str(module.functions[i].name.as_str(), name) {
            return Some(i);
        }
        i += 1;
    }
    None
}

} // verus!
