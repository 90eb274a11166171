//! Calling-convention patterns of a module's functions (`sret`, `byref` and
//! `byval` parameters, large structs returned by value) and the struct
//! typedefs of a C header checked against the module's struct types.
use vstd::prelude::*;
use crate::index_audit::{bump_count, bump_exec};
use crate::ir::{IRFunctionView, IRModule, StructTypeView};
use crate::order::{group_keys, key_groups};
use crate::rx::{all_groups, rx_count, rx_groups};
use crate::text::{contains, contains_str, count_matches, count_occ, lines, lines_of, to_lowercase, trim, trim_str, unicode_lowercase};

verus! {

pub const SRET_PATTERN: &'static str = r"ptr sret\(([^)]+)\)";
pub const BYREF_PATTERN: &'static str = r"ptr %\w+\.byref";
pub const BYVAL_PATTERN: &'static str = r"ptr byval\(([^)]+)\)";
pub const STRUCT_RETURN_PATTERN: &'static str = r"define\s+(?:internal\s+)?(?:dso_local\s+)?(\{[^}]+\})\s+@";
pub const C_TYPEDEF_STRUCT_PATTERN: &'static str = r"typedef\s+struct\s*\{([^}]+)\}\s*(\w+)\s*;";

/// The number of the first `n` functions whose signature `pattern` matches.
pub open spec fn signatures_matching(fs: Seq<IRFunctionView>, pattern: Seq<char>, n: nat) -> nat
    decreases n,
{
    if n == 0 || n > fs.len() {
        0
    } else {
        signatures_matching(fs, pattern, (n - 1) as nat) + if rx_count(pattern, fs[n - 1].signature) > 0 {
            1nat
        } else {
            0nat
        }
    }
}

/// The struct type a function returns by value, written out, if any.
pub open spec fn returned_struct(f: IRFunctionView) -> Option<Seq<char>> {
    let g = rx_groups(STRUCT_RETURN_PATTERN@, f.signature, 1);
    if g.len() > 0 {
        Some(g[0])
    } else {
        None
    }
}

/// The number of fields of a literal struct type: its commas plus one.
pub open spec fn literal_fields(t: Seq<char>) -> usize {
    bump_count(count_occ(t, ","@) as usize)
}

/// Among the first `n` functions, those that return a literal struct of more
/// than two fields by value: name, struct type, number of fields.
pub open spec fn large_returns(fs: Seq<IRFunctionView>, n: nat) -> Seq<(Seq<char>, Seq<char>, usize)>
    decreases n,
{
    if n == 0 || n > fs.len() {
        Seq::empty()
    } else {
        let prev = large_returns(fs, (n - 1) as nat);
        match returned_struct(fs[n - 1]) {
            Some(t) => if literal_fields(t) > 2 {
                prev.push((fs[n - 1].name, t, literal_fields(t)))
            } else {
                prev
            },
            None => prev,
        }
    }
}

/// The calling-convention patterns of a module: how many signatures take an
/// `sret`, a `byref` and a `byval` pointer, and the functions that return a
/// struct of more than two fields by value.
pub struct AbiSummary {
    pub sret: usize,
    pub byref: usize,
    pub byval: usize,
    pub large_returns: Vec<(String, String, usize)>,
}

pub open spec fn triple_views(v: Seq<(String, String, usize)>) -> Seq<(Seq<char>, Seq<char>, usize)> {
    v.map_values(|e: (String, String, usize)| (e.0@, e.1@, e.2))
}

/// The calling-convention patterns of the module's functions.
pub fn abi_summary(module: &IRModule) -> (r: AbiSummary)
    ensures
        r.sret == signatures_matching(module@.functions, SRET_PATTERN@, module@.functions.len()),
        r.byref == signatures_matching(module@.functions, BYREF_PATTERN@, module@.functions.len()),
        r.byval == signatures_matching(module@.functions, BYVAL_PATTERN@, module@.functions.len()),
        triple_views(r.large_returns@) == large_returns(module@.functions, module@.functions.len()),
{
    let ghost fs = module@.functions;
    let mut sret: usize = 0;
    let mut byref: usize = 0;
    let mut byval: usize = 0;
    let mut large: Vec<(String, String, usize)> = Vec::new();
    let mut i: usize = 0;
    while i < module.functions.len()
        invariant
            i <= fs.len(),
            fs == module@.functions,
            sret == signatures_matching(fs, SRET_PATTERN@, i as nat),
            byref == signatures_matching(fs, BYREF_PATTERN@, i as nat),
            byval == signatures_matching(fs, BYVAL_PATTERN@, i as nat),
            sret <= i && byref <= i && byval <= i,
            triple_views(large@) == large_returns(fs, i as nat),
        decreases fs.len() - i,
    {
        let f = &module.functions[i];
        assert(fs[i as int] == f@);
        let sig = f.signature.as_str();
        if crate::engine::regex_matches(SRET_PATTERN, sig) {
            sret += 1;
        }
        if crate::engine::regex_matches(BYREF_PATTERN, sig) {
            byref += 1;
        }
        if crate::engine::regex_matches(BYVAL_PATTERN, sig) {
            byval += 1;
        }
        let g = all_groups(STRUCT_RETURN_PATTERN, sig, 1);
        if g.len() > 0 {
            assert(g.deep_view()[0] == g@[0]@);
            let fields = bump_exec(count_matches(g[0].as_str(), ","));
            proof {
                reveal_strlit(",");
            }
            if fields > 2 {
                let ghost before = triple_views(large@);
                large.push((f.name.clone(), g[0].clone(), fields));
                assert(triple_views(large@) =~= before.push((f@.name, g@[0]@, fields)));
            }
        }
        i += 1;
    }
    AbiSummary { sret, byref, byval, large_returns: large }
}

/// The field lines of a typedef'd struct body: its lines that hold `;`,
/// trimmed, among the first `n`.
pub open spec fn field_lines(ls: Seq<Seq<char>>, n: nat) -> Seq<Seq<char>>
    decreases n,
{
    if n == 0 || n > ls.len() {
        Seq::empty()
    } else {
        let prev = field_lines(ls, (n - 1) as nat);
        if contains(ls[n - 1], ";"@) {
            prev.push(trim(ls[n - 1]))
        } else {
            prev
        }
    }
}

/// The fields of the typedef'd struct that match `k` of the header defines.
pub open spec fn typedef_fields(text: Seq<char>, k: int) -> Seq<Seq<char>> {
    let body = rx_groups(C_TYPEDEF_STRUCT_PATTERN@, text, 1)[k];
    field_lines(lines(body), lines(body).len())
}

/// The typedef'd structs of a C header, each name once in the order it first
/// appears, with the fields of its last definition.
pub open spec fn header_structs_spec(text: Seq<char>) -> Seq<(Seq<char>, Seq<Seq<char>>)> {
    let names = rx_groups(C_TYPEDEF_STRUCT_PATTERN@, text, 2);
    key_groups(names, names.len()).map_values(
        |g: (Seq<char>, Seq<usize>)| (g.0, typedef_fields(text, g.1.last() as int)),
    )
}

fn field_lines_exec(body: &str) -> (r: Vec<String>)
    ensures
        r.deep_view() == field_lines(lines(body@), lines(body@).len()),
{
    let ls = lines_of(body);
    let ghost lv = ls.deep_view();
    let mut r: Vec<String> = Vec::new();
    let mut k: usize = 0;
    while k < ls.len()
        invariant
            k <= ls@.len(),
            lv == ls.deep_view(),
            lv == lines(body@),
            r.deep_view() == field_lines(lv, k as nat),
        decreases ls@.len() - k,
    {
        assert(lv[k as int] == ls@[k as int]@);
        if contains_str(ls[k].as_str(), ";") {
            let t = trim_str(ls[k].as_str());
            let ghost before = r.deep_view();
            r.push(t);
            assert(r.deep_view() =~= before.push(trim(lv[k as int])));
        }
        k += 1;
    }
    r
}

/// The struct typedefs of a C header (`typedef struct { ... } Name;`): each
/// name once, in the order it first appears, with the fields (the lines that
/// hold `;`, trimmed) of its last definition.
pub fn header_structs(text: &str) -> (r: Vec<(String, Vec<String>)>)
    ensures
        r@.map_values(|e: (String, Vec<String>)| (e.0@, e.1.deep_view())) == header_structs_spec(text@),
{
    let bodies = all_groups(C_TYPEDEF_STRUCT_PATTERN, text, 1);
    let names = all_groups(C_TYPEDEF_STRUCT_PATTERN, text, 2);
    assert(bodies.deep_view().len() == names.deep_view().len());
    let groups = group_keys(&names);
    let ghost gs = key_groups(names.deep_view(), names@.len() as nat);
    let mut r: Vec<(String, Vec<String>)> = Vec::new();
    let mut g: usize = 0;
    while g < groups.len()
        invariant
            g <= groups@.len(),
            groups@.len() == gs.len(),
            gs == key_groups(names.deep_view(), names@.len() as nat),
            bodies.deep_view() == rx_groups(C_TYPEDEF_STRUCT_PATTERN@, text@, 1),
            names.deep_view() == rx_groups(C_TYPEDEF_STRUCT_PATTERN@, text@, 2),
            bodies@.len() == names@.len(),
            forall|q: int|
                0 <= q < groups@.len() ==> (#[trigger] groups@[q]).0@ == gs[q].0 && groups@[q].1@
                    == gs[q].1,
            r@.map_values(|e: (String, Vec<String>)| (e.0@, e.1.deep_view())) =~= gs.take(g as int).map_values(
                |e: (Seq<char>, Seq<usize>)| (e.0, typedef_fields(text@, e.1.last() as int)),
            ),
        decreases groups@.len() - g,
    {
        let ps = &groups[g].1;
        assert(ps@ == gs[g as int].1);
        proof {
            lemma_group_nonempty(names.deep_view(), g as int);
            crate::order::lemma_positions_bound(names.deep_view(), gs[g as int].0, names@.len() as nat);
        }
        let last = ps[ps.len() - 1];
        assert(last == gs[g as int].1.last());
        assert(bodies.deep_view()[last as int] == bodies@[last as int]@);
        let fields = field_lines_exec(bodies[last].as_str());
        let ghost before = r@.map_values(|e: (String, Vec<String>)| (e.0@, e.1.deep_view()));
        r.push((groups[g].0.clone(), fields));
        assert(r@.map_values(|e: (String, Vec<String>)| (e.0@, e.1.deep_view())) =~= before.push(
            (gs[g as int].0, typedef_fields(text@, last as int)),
        ));
        assert(gs.take(g + 1) =~= gs.take(g as int).push(gs[g as int]));
        g += 1;
    }
    assert(gs.take(g as int) =~= gs);
    r
}

/// Every group of `key_groups` has at least one position.
proof fn lemma_group_nonempty(keys: Seq<Seq<char>>, g: int)
    requires
        0 <= g < key_groups(keys, keys.len()).len(),
    ensures
        key_groups(keys, keys.len())[g].1.len() > 0,
{
    let d = crate::callgraph::distinct(keys, keys.len());
    crate::order::lemma_distinct_unique(keys, keys.len());
    assert(d.contains(d[g]));
    assert(keys.take(keys.len() as int) =~= keys);
    let k = choose|k: int| 0 <= k < keys.len() && keys[k] == d[g];
    lemma_positions_has_pub(keys, d[g], keys.len(), k);
}

/// A key that occurs among the first `n` has a position there.
pub proof fn lemma_positions_has_pub(keys: Seq<Seq<char>>, key: Seq<char>, n: nat, k: int)
    requires
        0 <= k < n <= keys.len(),
        keys[k] == key,
    ensures
        crate::order::positions(keys, key, n).len() > 0,
    decreases n,
{
    if k < n - 1 {
        lemma_positions_has_pub(keys, key, (n - 1) as nat, k);
    }
}

/// How a C struct compares with the module: its number of fields, its size
/// at eight bytes a field, and the estimated size of the first IR struct
/// type whose name holds its name (also ignoring case), if any.
pub struct HeaderCheck {
    pub name: String,
    pub fields: usize,
    pub c_size: usize,
    pub ir_size: Option<usize>,
}

/// The first struct type among `ts` from `k` on whose name holds `name`, or
/// holds it once both are lowercased.
pub open spec fn ir_struct_from(ts: Seq<StructTypeView>, name: Seq<char>, k: nat) -> Option<StructTypeView>
    decreases ts.len() - k,
{
    if k >= ts.len() {
        None
    } else if contains(ts[k as int].name, name) || contains(
        unicode_lowercase(ts[k as int].name),
        unicode_lowercase(name),
    ) {
        Some(ts[k as int])
    } else {
        ir_struct_from(ts, name, k + 1)
    }
}

/// Eight bytes a field (wrapping, as a release build multiplies).
pub open spec fn c_size_of(fields: nat) -> usize {
    ((fields * 8) % (usize::MAX as nat + 1)) as usize
}

/// The check of one header struct against the module's struct types.
pub open spec fn header_check_ok(ts: Seq<StructTypeView>, name: Seq<char>, fields: nat, c: HeaderCheck) -> bool {
    &&& c.name@ == name
    &&& c.fields == fields
    &&& c.c_size == c_size_of(fields)
    &&& c.ir_size == match ir_struct_from(ts, name, 0) {
        Some(t) => Some(t.estimated_size),
        None => None::<usize>,
    }
}

/// Each struct typedef of a C header, checked against the module's struct
/// types: a size that differs from the matching IR type's, or no IR type.
pub fn header_checks(module: &IRModule, header_text: &str) -> (r: Vec<HeaderCheck>)
    ensures
        r@.len() == header_structs_spec(header_text@).len(),
        forall|k: int|
            0 <= k < r@.len() ==> header_check_ok(
                module@.struct_types,
                header_structs_spec(header_text@)[k].0,
                header_structs_spec(header_text@)[k].1.len(),
                #[trigger] r@[k],
            ),
{
    let hs = header_structs(header_text);
    let ghost hv = hs@.map_values(|e: (String, Vec<String>)| (e.0@, e.1.deep_view()));
    let ghost ts = module@.struct_types;
    let mut r: Vec<HeaderCheck> = Vec::new();
    let mut k: usize = 0;
    while k < hs.len()
        invariant
            k <= hs@.len(),
            hv == hs@.map_values(|e: (String, Vec<String>)| (e.0@, e.1.deep_view())),
            hv == header_structs_spec(header_text@),
            ts == module@.struct_types,
            r@.len() == k,
            forall|q: int| 0 <= q < k ==> header_check_ok(ts, hv[q].0, hv[q].1.len(), #[trigger] r@[q]),
        decreases hs@.len() - k,
    {
        let name = &hs[k].0;
        let n = hs[k].1.len();
        assert(hv[k as int].1.len() == n);
        let lower = to_lowercase(name.as_str());
        let mut found: Option<usize> = None;
        let mut j: usize = 0;
        while j < module.struct_types.len() && found.is_none()
            invariant
                j <= ts.len(),
                ts == module@.struct_types,
                lower@ == unicode_lowercase(name@),
                found is None ==> ir_struct_from(ts, name@, 0) == ir_struct_from(ts, name@, j as nat),
                found matches Some(sz) ==> (ir_struct_from(ts, name@, 0) matches Some(t)
                    && t.estimated_size == sz),
            decreases ts.len() - j,
        {
            let t = &module.struct_types[j];
            assert(ts[j as int] == t@);
            let tl = to_lowercase(t.name.as_str());
            if contains_str(t.name.as_str(), name.as_str()) || contains_str(tl.as_str(), lower.as_str()) {
                found = Some(t.estimated_size);
            }
            j += 1;
        }
        r.push(HeaderCheck { name: name.clone(), fields: n, c_size: n.wrapping_mul(8), ir_size: found });
        k += 1;
    }
    r
}

} // verus!
