//! The variables of one function: its allocas, and the stores, loads, calls,
//! PHI nodes and GEPs that its body performs, with what each names.
use vstd::prelude::*;
use vstd::string::StringSliceAdditionalSpecFns;
use crate::ir::{IRFunction, IRFunctionView};
use crate::metrics::{dump_size, estimate_size};
use crate::rx::{captures, group_str, group_text, rx_caps};
use crate::text::{contains, contains_str, count_matches, count_occ, lines, lines_of, trim, trim_str};
use crate::trace::trace_line;

verus! {

pub const DUMP_ALLOCA_PATTERN: &'static str = r"(%[\w.]+)\s*=\s*alloca\s+(.+?)(?:\s*,\s*align\s+\d+)?$";
pub const DUMP_STORE_PATTERN: &'static str = r"store\s+(\S+)\s+(.+?),\s*ptr\s+(%[\w.]+)";
pub const DUMP_LOAD_PATTERN: &'static str = r"(%[\w.]+)\s*=\s*load\s+(\S+),\s*ptr\s+(%[\w.]+)";
pub const DUMP_CALL_PATTERN: &'static str = r"(%[\w.]+)\s*=\s*call\s+(\S+)\s+@([\w.]+)\(";
pub const DUMP_PHI_PATTERN: &'static str = r"(%[\w.]+)\s*=\s*phi\s+(\S+)\s+(.+)";
pub const DUMP_GEP_PATTERN: &'static str = r"(%[\w.]+)\s*=\s*getelementptr\s+\S+\s+(\S+),\s*ptr\s+(%[\w.]+)(.*)";

/// Groups `a`, `b` and `c` of the first match of `pattern` in `t`, if any.
pub open spec fn first_triple(pattern: Seq<char>, t: Seq<char>, a: int, b: int, c: int) -> Option<
    (Seq<char>, Seq<char>, Seq<char>),
> {
    let caps = rx_caps(pattern, t);
    if caps.len() > 0 {
        Some((group_text(t, caps[0], a), group_text(t, caps[0], b), group_text(t, caps[0], c)))
    } else {
        None
    }
}

fn first_triple_exec(pattern: &str, t: &str, a: usize, b: usize, c: usize) -> (r: Option<(String, String, String)>)
    ensures
        match r {
            Some(x) => first_triple(pattern@, t@, a as int, b as int, c as int) == Some((x.0@, x.1@, x.2@)),
            None => first_triple(pattern@, t@, a as int, b as int, c as int) is None,
        },
{
    let caps = captures(pattern, t);
    if caps.len() == 0 {
        return None;
    }
    proof {
        crate::ir::lemma_match_spans(caps.deep_view(), 0, t.spec_bytes());
        assert(caps.deep_view()[0] == caps[0].deep_view());
    }
    Some((group_str(t, &caps[0], a), group_str(t, &caps[0], b), group_str(t, &caps[0], c)))
}

/// What a function's body names: each alloca (name, type, line), each store
/// (destination, type, value), load (result, type, source), call with a
/// result (result, return type, callee), PHI node (result, type, entries)
/// and GEP (result, base, indices).
#[derive(Debug, Clone)]
pub struct VarDump {
    pub allocas: Vec<(String, String, usize)>,
    pub stores: Vec<(String, String, String)>,
    pub loads: Vec<(String, String, String)>,
    pub calls: Vec<(String, String, String)>,
    pub phis: Vec<(String, String, String)>,
    pub geps: Vec<(String, String, String)>,
}

pub struct VarDumpView {
    pub allocas: Seq<(Seq<char>, Seq<char>, usize)>,
    pub stores: Seq<(Seq<char>, Seq<char>, Seq<char>)>,
    pub loads: Seq<(Seq<char>, Seq<char>, Seq<char>)>,
    pub calls: Seq<(Seq<char>, Seq<char>, Seq<char>)>,
    pub phis: Seq<(Seq<char>, Seq<char>, Seq<char>)>,
    pub geps: Seq<(Seq<char>, Seq<char>, Seq<char>)>,
}

pub open spec fn triples(v: Seq<(String, String, String)>) -> Seq<(Seq<char>, Seq<char>, Seq<char>)> {
    v.map_values(|e: (String, String, String)| (e.0@, e.1@, e.2@))
}

impl View for VarDump {
    type V = VarDumpView;

    open spec fn view(&self) -> VarDumpView {
        VarDumpView {
            allocas: self.allocas@.map_values(|e: (String, String, usize)| (e.0@, e.1@, e.2)),
            stores: triples(self.stores@),
            loads: triples(self.loads@),
            calls: triples(self.calls@),
            phis: triples(self.phis@),
            geps: triples(self.geps@),
        }
    }
}

pub open spec fn push_opt(
    s: Seq<(Seq<char>, Seq<char>, Seq<char>)>,
    o: Option<(Seq<char>, Seq<char>, Seq<char>)>,
) -> Seq<(Seq<char>, Seq<char>, Seq<char>)> {
    match o {
        Some(x) => s.push(x),
        None => s,
    }
}

/// The dump after the first `n` lines of a body, each read trimmed.
pub open spec fn dump_scan(f: IRFunctionView, n: nat) -> VarDumpView
    decreases n,
{
    let ls = lines(f.body);
    if n == 0 || n > ls.len() {
        VarDumpView {
            allocas: Seq::empty(),
            stores: Seq::empty(),
            loads: Seq::empty(),
            calls: Seq::empty(),
            phis: Seq::empty(),
            geps: Seq::empty(),
        }
    } else {
        let d = dump_scan(f, (n - 1) as nat);
        let t = trim(ls[n - 1]);
        VarDumpView {
            allocas: match first_triple(DUMP_ALLOCA_PATTERN@, t, 1, 2, 0) {
                Some(x) => d.allocas.push((x.0, x.1, trace_line(f, n - 1))),
                None => d.allocas,
            },
            stores: match first_triple(DUMP_STORE_PATTERN@, t, 3, 1, 2) {
                Some(x) => d.stores.push(x),
                None => d.stores,
            },
            loads: push_opt(d.loads, first_triple(DUMP_LOAD_PATTERN@, t, 1, 2, 3)),
            calls: push_opt(d.calls, first_triple(DUMP_CALL_PATTERN@, t, 1, 2, 3)),
            phis: push_opt(d.phis, first_triple(DUMP_PHI_PATTERN@, t, 1, 2, 3)),
            geps: push_opt(d.geps, first_triple(DUMP_GEP_PATTERN@, t, 1, 3, 4)),
        }
    }
}

fn push_triple(v: &mut Vec<(String, String, String)>, o: Option<(String, String, String)>)
    ensures
        triples(final(v)@) == push_opt(
            triples(old(v)@),
            match o {
                Some(x) => Some((x.0@, x.1@, x.2@)),
                None => None,
            },
        ),
{
    let ghost before = triples(v@);
    match o {
        Some(x) => {
            let ghost xv = (x.0@, x.1@, x.2@);
            v.push(x);
            assert(triples(v@) =~= before.push(xv));
        },
        None => {},
    }
}

/// The variable dump of a function.
pub fn variable_dump(f: &IRFunction) -> (r: VarDump)
    ensures
        r@ == dump_scan(f@, lines(f@.body).len()),
{
    let ls = lines_of(f.body.as_str());
    let ghost lv = ls.deep_view();
    let mut d = VarDump {
        allocas: Vec::new(),
        stores: Vec::new(),
        loads: Vec::new(),
        calls: Vec::new(),
        phis: Vec::new(),
        geps: Vec::new(),
    };
    proof {
        let e = dump_scan(f@, 0);
        assert(d@.allocas =~= e.allocas);
        assert(d@.stores =~= e.stores);
        assert(d@.loads =~= e.loads);
        assert(d@.calls =~= e.calls);
        assert(d@.phis =~= e.phis);
        assert(d@.geps =~= e.geps);
    }
    let mut i: usize = 0;
    while i < ls.len()
        invariant
            i <= ls@.len(),
            lv == ls.deep_view(),
            lv == lines(f@.body),
            d@ == dump_scan(f@, i as nat),
        decreases ls@.len() - i,
    {
        assert(lv[i as int] == ls@[i as int]@);
        let ts = trim_str(ls[i].as_str());
        let t = ts.as_str();
        let ghost a0 = d@.allocas;
        match first_triple_exec(DUMP_ALLOCA_PATTERN, t, 1, 2, 0) {
            Some(x) => {
                let line = f.line_start.wrapping_add(i);
                d.allocas.push((x.0, x.1, line));
                assert(d@.allocas =~= a0.push((x.0@, x.1@, trace_line(f@, i as int))));
            },
            None => {},
        }
        let ghost s0 = triples(d.stores@);
        match first_triple_exec(DUMP_STORE_PATTERN, t, 3, 1, 2) {
            Some(x) => {
                let ghost xv = (x.0@, x.1@, x.2@);
                d.stores.push(x);
                assert(triples(d.stores@) =~= s0.push(xv));
            },
            None => {},
        }
        push_triple(&mut d.loads, first_triple_exec(DUMP_LOAD_PATTERN, t, 1, 2, 3));
        push_triple(&mut d.calls, first_triple_exec(DUMP_CALL_PATTERN, t, 1, 2, 3));
        push_triple(&mut d.phis, first_triple_exec(DUMP_PHI_PATTERN, t, 1, 2, 3));
        push_triple(&mut d.geps, first_triple_exec(DUMP_GEP_PATTERN, t, 1, 3, 4));
        i += 1;
    }
    d
}

/// How many of the first `n` entries have `name` in the chosen place
/// (first place for stores' destinations, third for loads' sources).
pub open spec fn count_named(s: Seq<(Seq<char>, Seq<char>, Seq<char>)>, name: Seq<char>, third: bool, n: nat) -> nat
    decreases n,
{
    if n == 0 || n > s.len() {
        0
    } else {
        count_named(s, name, third, (n - 1) as nat) + if (if third {
            s[n - 1].2
        } else {
            s[n - 1].0
        }) == name {
            1nat
        } else {
            0nat
        }
    }
}

fn count_named_exec(v: &Vec<(String, String, String)>, name: &String, third: bool) -> (r: usize)
    ensures
        r == count_named(triples(v@), name@, third, v@.len() as nat),
{
    let ghost tv = triples(v@);
    let mut c: usize = 0;
    let mut i: usize = 0;
    while i < v.len()
        invariant
            i <= v@.len(),
            tv == triples(v@),
            c <= i,
            c == count_named(tv, name@, third, i as nat),
        decreases v@.len() - i,
    {
        assert(tv[i as int] == (v@[i as int].0@, v@[i as int].1@, v@[i as int].2@));
        let hit = if third {
            v[i].2 == *name
        } else {
            v[i].0 == *name
        };
        if hit {
            c += 1;
        }
        i += 1;
    }
    c
}

/// What the dump shows of one alloca: its size in bytes, and how many stores
/// write it and loads read it.
pub open spec fn alloca_use(d: VarDumpView, name: Seq<char>, ty: Seq<char>) -> (usize, nat, nat) {
    (
        dump_size(ty),
        count_named(d.stores, name, false, d.stores.len()),
        count_named(d.loads, name, true, d.loads.len()),
    )
}

/// For each alloca of a dump: its size in bytes, the stores that write it and
/// the loads that read it.
pub fn alloca_uses(d: &VarDump) -> (r: Vec<(usize, usize, usize)>)
    ensures
        r@.len() == d@.allocas.len(),
        forall|k: int|
            0 <= k < r@.len() ==> ((#[trigger] r@[k]).0, r@[k].1 as nat, r@[k].2 as nat) == alloca_use(
                d@,
                d@.allocas[k].0,
                d@.allocas[k].1,
            ),
{
    let mut r: Vec<(usize, usize, usize)> = Vec::new();
    let mut k: usize = 0;
    while k < d.allocas.len()
        invariant
            k <= d.allocas@.len(),
            r@.len() == k,
            forall|q: int|
                0 <= q < k ==> ((#[trigger] r@[q]).0, r@[q].1 as nat, r@[q].2 as nat) == alloca_use(
                    d@,
                    d@.allocas[q].0,
                    d@.allocas[q].1,
                ),
        decreases d.allocas@.len() - k,
    {
        let (name, ty, _) = &d.allocas[k];
        let size = estimate_size(ty.as_str());
        let w = count_named_exec(&d.stores, name, false);
        let rd = count_named_exec(&d.loads, name, true);
        r.push((size, w, rd));
        k += 1;
    }
    r
}

/// The number of entries of a PHI node (its `[`s), and whether one of them
/// is a `zeroinitializer`.
pub fn phi_entries(entries: &str) -> (r: (usize, bool))
    ensures
        r.0 == count_occ(entries@, "["@),
        r.1 == contains(entries@, "zeroinitializer"@),
{
    (count_matches(entries, "["), contains_str(entries, "zeroinitializer"))
}

} // verus!
