//! Named types (`%struct.X`, `%enum.X`) that a module uses but never defines:
//! every use with its function, line and the kind of instruction, grouped by
//! type, the most used first.
use vstd::prelude::*;
use crate::callgraph::contains_string;
use crate::ir::{IRFunction, IRFunctionView, IRModule, IRModuleView, StructTypeView};
use crate::order::{group_keys, key_groups, lemma_order_desc_perm, order_by_desc, order_desc, sorted_unique, strictly_sorted};
use crate::rx::{all_groups, rx_groups};
use crate::text::{contains, contains_str, lines, lines_of};
use crate::trace::trace_line;

verus! {

pub const TYPE_USE_PATTERN: &'static str = r"(%(?:struct|enum)\.\w+)";
pub const TYPE_DEF_PATTERN: &'static str = r"^(%(?:struct|enum)\.\w+)\s*=\s*type\s";

/// The type that a line defines, if it is a type definition.
pub open spec fn line_defs(l: Seq<char>) -> Seq<Seq<char>> {
    let gs = rx_groups(TYPE_DEF_PATTERN@, l, 1);
    if gs.len() > 0 {
        seq![gs[0]]
    } else {
        Seq::empty()
    }
}

/// The types that the first `n` lines define.
pub open spec fn text_defs(ls: Seq<Seq<char>>, n: nat) -> Seq<Seq<char>>
    decreases n,
{
    if n == 0 || n > ls.len() {
        Seq::empty()
    } else {
        text_defs(ls, (n - 1) as nat) + line_defs(ls[n - 1])
    }
}

/// Every type the module defines: its parsed struct types, and every line of
/// its text that reads `%struct.X = type ...`.
pub open spec fn defined_names(m: IRModuleView) -> Seq<Seq<char>> {
    m.struct_types.map_values(|s: StructTypeView| s.name) + text_defs(
        lines(m.source),
        lines(m.source).len(),
    )
}

/// One use of a type that is not defined.
#[derive(Debug, Clone)]
pub struct TypeUse {
    pub named_type: String,
    pub function: String,
    pub line: usize,
    pub context: String,
}

pub struct TypeUseView {
    pub named_type: Seq<char>,
    pub function: Seq<char>,
    pub line: usize,
    pub context: Seq<char>,
}

impl View for TypeUse {
    type V = TypeUseView;

    open spec fn view(&self) -> TypeUseView {
        TypeUseView {
            named_type: self.named_type@,
            function: self.function@,
            line: self.line,
            context: self.context@,
        }
    }
}

pub open spec fn use_views(us: Seq<TypeUse>) -> Seq<TypeUseView> {
    us.map_values(|u: TypeUse| u@)
}

/// The kind of instruction a line of a body is, as the report names it.
pub open spec fn use_context(l: Seq<char>) -> Seq<char> {
    if contains(l, "insertvalue"@) {
        "insertvalue"@
    } else if contains(l, "= load"@) {
        "load"@
    } else if contains(l, "store "@) {
        "store"@
    } else if contains(l, "alloca"@) {
        "alloca"@
    } else if contains(l, "getelementptr"@) {
        "gep"@
    } else if contains(l, "sret("@) {
        "sret"@
    } else if contains(l, "byref"@) || contains(l, "byval"@) {
        "byref/byval"@
    } else {
        "other"@
    }
}

/// The uses among the first `n` of `tys` whose type is not defined.
pub open spec fn undefined_uses(
    tys: Seq<Seq<char>>,
    defined: Set<Seq<char>>,
    function: Seq<char>,
    line: usize,
    ctx: Seq<char>,
    n: nat,
) -> Seq<TypeUseView>
    decreases n,
{
    if n == 0 || n > tys.len() {
        Seq::empty()
    } else {
        let prev = undefined_uses(tys, defined, function, line, ctx, (n - 1) as nat);
        if defined.contains(tys[n - 1]) {
            prev
        } else {
            prev.push(TypeUseView { named_type: tys[n - 1], function, line, context: ctx })
        }
    }
}

/// The uses of undefined types on one line of a body.
pub open spec fn line_uses(f: IRFunctionView, defined: Set<Seq<char>>, k: int) -> Seq<TypeUseView> {
    let l = lines(f.body)[k];
    let tys = rx_groups(TYPE_USE_PATTERN@, l, 1);
    undefined_uses(tys, defined, f.name, trace_line(f, k), use_context(l), tys.len())
}

/// The uses of undefined types on the first `n` lines of a body.
pub open spec fn body_uses(f: IRFunctionView, defined: Set<Seq<char>>, n: nat) -> Seq<TypeUseView>
    decreases n,
{
    if n == 0 || n > lines(f.body).len() {
        Seq::empty()
    } else {
        body_uses(f, defined, (n - 1) as nat) + line_uses(f, defined, n - 1)
    }
}

/// The uses of undefined types in a function: its signature, then its body.
pub open spec fn function_uses(f: IRFunctionView, defined: Set<Seq<char>>) -> Seq<TypeUseView> {
    let tys = rx_groups(TYPE_USE_PATTERN@, f.signature, 1);
    undefined_uses(tys, defined, f.name, f.line_start, "signature"@, tys.len()) + body_uses(
        f,
        defined,
        lines(f.body).len(),
    )
}

/// The uses of undefined types in the first `n` functions.
pub open spec fn functions_uses(fs: Seq<IRFunctionView>, defined: Set<Seq<char>>, n: nat) -> Seq<
    TypeUseView,
>
    decreases n,
{
    if n == 0 || n > fs.len() {
        Seq::empty()
    } else {
        functions_uses(fs, defined, (n - 1) as nat) + function_uses(fs[n - 1], defined)
    }
}

/// The uses of undefined types in the first `n` declarations.
pub open spec fn declares_uses(ds: Seq<Seq<char>>, defined: Set<Seq<char>>, n: nat) -> Seq<
    TypeUseView,
>
    decreases n,
{
    if n == 0 || n > ds.len() {
        Seq::empty()
    } else {
        let tys = rx_groups(TYPE_USE_PATTERN@, ds[n - 1], 1);
        declares_uses(ds, defined, (n - 1) as nat) + undefined_uses(
            tys,
            defined,
            "(declaration)"@,
            0,
            "declare"@,
            tys.len(),
        )
    }
}

/// Every use of a type outside `defined`: in the functions, then in the
/// declarations.
pub open spec fn type_uses_spec(m: IRModuleView, defined: Set<Seq<char>>) -> Seq<TypeUseView> {
    functions_uses(m.functions, defined, m.functions.len()) + declares_uses(
        m.declares,
        defined,
        m.declares.len(),
    )
}

/// The uses of undefined types grouped by type, the most used first; types
/// used equally often keep the order in which they were first used.
pub open spec fn missing_groups(m: IRModuleView) -> Seq<(Seq<char>, Seq<TypeUseView>)> {
    let us = type_uses_spec(m, defined_names(m).to_set());
    let gs = key_groups(us.map_values(|u: TypeUseView| u.named_type), us.len());
    let ord = order_desc(
        gs.map_values(|g: (Seq<char>, Seq<usize>)| g.1.len() as usize),
        gs.len(),
    );
    ord.map_values(
        |k: usize| (gs[k as int].0, gs[k as int].1.map_values(|p: usize| us[p as int])),
    )
}

fn line_defs_exec(l: &str) -> (r: Vec<String>)
    ensures
        r.deep_view() == line_defs(l@),
{
    let gs = all_groups(TYPE_DEF_PATTERN, l, 1);
    let mut r: Vec<String> = Vec::new();
    if gs.len() > 0 {
        r.push(gs[0].clone());
        assert(r.deep_view() =~= seq![gs.deep_view()[0]]);
    } else {
        assert(r.deep_view() =~= Seq::<Seq<char>>::empty());
    }
    r
}

/// Every type the module defines, each once, in sorted order.
pub fn defined_types(module: &IRModule) -> (r: Vec<String>)
    ensures
        strictly_sorted(r.deep_view()),
        forall|x: Seq<char>| r.deep_view().contains(x) <==> defined_names(module@).contains(x),
{
    let mut names: Vec<String> = Vec::new();
    let mut i: usize = 0;
    while i < module.struct_types.len()
        invariant
            i <= module.struct_types@.len(),
            names.deep_view() =~= module@.struct_types.map_values(|s: StructTypeView| s.name).take(
                i as int,
            ),
        decreases module.struct_types@.len() - i,
    {
        let ghost before = names.deep_view();
        names.push(module.struct_types[i].name.clone());
        proof {
            assert(module@.struct_types[i as int] == module.struct_types@[i as int]@);
            assert(names.deep_view() =~= before.push(module.struct_types@[i as int].name@));
            assert(module@.struct_types.map_values(|s: StructTypeView| s.name).take(i + 1)
                =~= module@.struct_types.map_values(|s: StructTypeView| s.name).take(i as int).push(
                module.struct_types@[i as int].name@,
            ));
        }
        i += 1;
    }
    let ghost sn = names.deep_view();
    assert(sn =~= module@.struct_types.map_values(|s: StructTypeView| s.name));
    let ls = lines_of(module.source.as_str());
    let ghost lv = ls.deep_view();
    let mut k: usize = 0;
    while k < ls.len()
        invariant
            k <= ls@.len(),
            lv == ls.deep_view(),
            lv == lines(module@.source),
            names.deep_view() == sn + text_defs(lv, k as nat),
        decreases ls@.len() - k,
    {
        assert(lv[k as int] == ls@[k as int]@);
        let ds = line_defs_exec(ls[k].as_str());
        let mut j: usize = 0;
        let ghost base = names.deep_view();
        while j < ds.len()
            invariant
                j <= ds@.len(),
                names.deep_view() == base + ds.deep_view().take(j as int),
            decreases ds@.len() - j,
        {
            let ghost before = names.deep_view();
            names.push(ds[j].clone());
            assert(ds.deep_view().take(j + 1) =~= ds.deep_view().take(j as int).push(ds@[j as int]@));
            assert(names.deep_view() =~= before.push(ds@[j as int]@));
            j += 1;
        }
        assert(ds.deep_view().take(j as int) =~= ds.deep_view());
        assert(sn + text_defs(lv, (k + 1) as nat) =~= base + ds.deep_view());
        k += 1;
    }
    sorted_unique(&names)
}

fn context_exec(l: &str) -> (r: &'static str)
    ensures
        r@ == use_context(l@),
{
    if contains_str(l, "insertvalue") {
        "insertvalue"
    } else if contains_str(l, "= load") {
        "load"
    } else if contains_str(l, "store ") {
        "store"
    } else if contains_str(l, "alloca") {
        "alloca"
    } else if contains_str(l, "getelementptr") {
        "gep"
    } else if contains_str(l, "sret(") {
        "sret"
    } else if contains_str(l, "byref") || contains_str(l, "byval") {
        "byref/byval"
    } else {
        "other"
    }
}

fn push_undefined(
    tys: &Vec<String>,
    defined: &Vec<String>,
    Ghost(dset): Ghost<Set<Seq<char>>>,
    function: &String,
    line: usize,
    ctx: &str,
    out: &mut Vec<TypeUse>,
)
    requires
        forall|x: Seq<char>| defined.deep_view().contains(x) <==> dset.contains(x),
    ensures
        use_views(final(out)@) == use_views(old(out)@) + undefined_uses(
            tys.deep_view(),
            dset,
            function@,
            line,
            ctx@,
            tys@.len() as nat,
        ),
{
    let ghost base = use_views(out@);
    let mut i: usize = 0;
    while i < tys.len()
        invariant
            i <= tys@.len(),
            forall|x: Seq<char>| defined.deep_view().contains(x) <==> dset.contains(x),
            use_views(out@) == base + undefined_uses(tys.deep_view(), dset, function@, line, ctx@, i as nat),
        decreases tys@.len() - i,
    {
        assert(tys.deep_view()[i as int] == tys@[i as int]@);
        if !contains_string(defined, &tys[i]) {
            let u = TypeUse {
                named_type: tys[i].clone(),
                function: function.clone(),
                line,
                context: ctx.to_string(),
            };
            let ghost before = use_views(out@);
            let ghost uv = u@;
            out.push(u);
            assert(use_views(out@) =~= before.push(uv));
        }
        i += 1;
    }
}

fn push_function_uses(
    f: &IRFunction,
    defined: &Vec<String>,
    Ghost(dset): Ghost<Set<Seq<char>>>,
    out: &mut Vec<TypeUse>,
)
    requires
        forall|x: Seq<char>| defined.deep_view().contains(x) <==> dset.contains(x),
    ensures
        use_views(final(out)@) == use_views(old(out)@) + function_uses(f@, dset),
{
    let ghost base = use_views(out@);
    let sig = all_groups(TYPE_USE_PATTERN, f.signature.as_str(), 1);
    push_undefined(&sig, defined, Ghost(dset), &f.name, f.line_start, "signature", out);
    let ghost after_sig = use_views(out@);
    let ls = lines_of(f.body.as_str());
    let ghost lv = ls.deep_view();
    let mut k: usize = 0;
    while k < ls.len()
        invariant
            k <= ls@.len(),
            lv == ls.deep_view(),
            lv == lines(f@.body),
            forall|x: Seq<char>| defined.deep_view().contains(x) <==> dset.contains(x),
            use_views(out@) == after_sig + body_uses(f@, dset, k as nat),
        decreases ls@.len() - k,
    {
        assert(lv[k as int] == ls@[k as int]@);
        let l = ls[k].as_str();
        let tys = all_groups(TYPE_USE_PATTERN, l, 1);
        let line = f.line_start.wrapping_add(k);
        let ctx = context_exec(l);
        let ghost before = use_views(out@);
        push_undefined(&tys, defined, Ghost(dset), &f.name, line, ctx, out);
        assert(use_views(out@) =~= after_sig + body_uses(f@, dset, (k + 1) as nat));
        k += 1;
    }
    assert(use_views(out@) =~= base + function_uses(f@, dset));
}

/// Every use of a type that is not in `defined`, with its function, line and
/// kind of instruction: in the functions' signatures and bodies, then in the
/// declarations.
pub fn type_uses(module: &IRModule, defined: &Vec<String>) -> (r: Vec<TypeUse>)
    ensures
        use_views(r@) == type_uses_spec(module@, defined.deep_view().to_set()),
{
    let ghost dset = defined.deep_view().to_set();
    let mut out: Vec<TypeUse> = Vec::new();
    let mut i: usize = 0;
    while i < module.functions.len()
        invariant
            i <= module.functions@.len(),
            dset == defined.deep_view().to_set(),
            use_views(out@) == functions_uses(module@.functions, dset, i as nat),
        decreases module.functions@.len() - i,
    {
        assert(module@.functions[i as int] == module.functions@[i as int]@);
        push_function_uses(&module.functions[i], defined, Ghost(dset), &mut out);
        i += 1;
    }
    let ghost after_fns = use_views(out@);
    let decl_name = "(declaration)".to_string();
    let mut d: usize = 0;
    while d < module.declares.len()
        invariant
            d <= module.declares@.len(),
            dset == defined.deep_view().to_set(),
            decl_name@ == "(declaration)"@,
            use_views(out@) == after_fns + declares_uses(module@.declares, dset, d as nat),
        decreases module.declares@.len() - d,
    {
        assert(module@.declares[d as int] == module.declares@[d as int]@);
        let tys = all_groups(TYPE_USE_PATTERN, module.declares[d].as_str(), 1);
        push_undefined(&tys, defined, Ghost(dset), &decl_name, 0, "declare", &mut out);
        assert(use_views(out@) =~= after_fns + declares_uses(module@.declares, dset, (d + 1) as nat));
        d += 1;
    }
    out
}

/// An undefined type: its uses, the functions that use it (sorted, each with
/// its number of uses) and the kinds of instruction that use it (sorted).
#[derive(Debug, Clone)]
pub struct MissingType {
    pub named_type: String,
    pub uses: Vec<TypeUse>,
    pub functions: Vec<(String, usize)>,
    pub contexts: Vec<String>,
}

/// The number of the first `n` uses that stand in function `f`.
pub open spec fn uses_in(us: Seq<TypeUseView>, f: Seq<char>, n: nat) -> nat
    decreases n,
{
    if n == 0 || n > us.len() {
        0
    } else {
        uses_in(us, f, (n - 1) as nat) + if us[n - 1].function == f {
            1nat
        } else {
            0nat
        }
    }
}

/// What a `MissingType` says of its uses: the functions, sorted, each with its
/// number of uses, and the kinds of instruction, sorted.
pub open spec fn describes(t: MissingType) -> bool {
    let us = use_views(t.uses@);
    let fs = t.functions@.map_values(|e: (String, usize)| e.0@);
    &&& strictly_sorted(fs)
    &&& forall|x: Seq<char>|
        fs.contains(x) <==> us.map_values(|u: TypeUseView| u.function).contains(x)
    &&& forall|k: int|
        0 <= k < t.functions@.len() ==> (#[trigger] t.functions@[k]).1 == uses_in(
            us,
            t.functions@[k].0@,
            us.len(),
        )
    &&& strictly_sorted(t.contexts.deep_view())
    &&& forall|x: Seq<char>|
        t.contexts.deep_view().contains(x) <==> us.map_values(|u: TypeUseView| u.context).contains(x)
}

fn copy_use(u: &TypeUse) -> (r: TypeUse)
    ensures
        r@ == u@,
{
    TypeUse {
        named_type: u.named_type.clone(),
        function: u.function.clone(),
        line: u.line,
        context: u.context.clone(),
    }
}

fn count_uses_in(uses: &Vec<TypeUse>, f: &String) -> (c: usize)
    ensures
        c == uses_in(use_views(uses@), f@, uses@.len() as nat),
{
    let ghost us = use_views(uses@);
    let mut c: usize = 0;
    let mut i: usize = 0;
    while i < uses.len()
        invariant
            i <= uses@.len(),
            us == use_views(uses@),
            c == uses_in(us, f@, i as nat),
            c <= i,
        decreases uses@.len() - i,
    {
        assert(us[i as int] == uses@[i as int]@);
        if uses[i].function == *f {
            c += 1;
        }
        i += 1;
    }
    c
}

fn describe_uses(named_type: String, uses: Vec<TypeUse>) -> (t: MissingType)
    ensures
        t.named_type@ == named_type@,
        use_views(t.uses@) == use_views(uses@),
        describes(t),
{
    let ghost us = use_views(uses@);
    let mut fnames: Vec<String> = Vec::new();
    let mut ctxs: Vec<String> = Vec::new();
    let mut i: usize = 0;
    while i < uses.len()
        invariant
            i <= uses@.len(),
            us == use_views(uses@),
            fnames.deep_view() =~= us.map_values(|u: TypeUseView| u.function).take(i as int),
            ctxs.deep_view() =~= us.map_values(|u: TypeUseView| u.context).take(i as int),
        decreases uses@.len() - i,
    {
        assert(us[i as int] == uses@[i as int]@);
        let ghost f0 = fnames.deep_view();
        let ghost c0 = ctxs.deep_view();
        fnames.push(uses[i].function.clone());
        ctxs.push(uses[i].context.clone());
        assert(fnames.deep_view() =~= f0.push(us[i as int].function));
        assert(ctxs.deep_view() =~= c0.push(us[i as int].context));
        assert(us.map_values(|u: TypeUseView| u.function).take(i + 1) =~= us.map_values(
            |u: TypeUseView| u.function,
        ).take(i as int).push(us[i as int].function));
        assert(us.map_values(|u: TypeUseView| u.context).take(i + 1) =~= us.map_values(
            |u: TypeUseView| u.context,
        ).take(i as int).push(us[i as int].context));
        i += 1;
    }
    assert(fnames.deep_view() =~= us.map_values(|u: TypeUseView| u.function));
    assert(ctxs.deep_view() =~= us.map_values(|u: TypeUseView| u.context));
    let names = sorted_unique(&fnames);
    let contexts = sorted_unique(&ctxs);
    let mut functions: Vec<(String, usize)> = Vec::new();
    let mut k: usize = 0;
    while k < names.len()
        invariant
            k <= names@.len(),
            us == use_views(uses@),
            functions@.len() == k,
            forall|q: int| 0 <= q < k ==> (#[trigger] functions@[q]).0@ == names.deep_view()[q],
            forall|q: int|
                0 <= q < k ==> (#[trigger] functions@[q]).1 == uses_in(us, functions@[q].0@, us.len()),
        decreases names@.len() - k,
    {
        assert(names.deep_view()[k as int] == names@[k as int]@);
        let c = count_uses_in(&uses, &names[k]);
        functions.push((names[k].clone(), c));
        k += 1;
    }
    assert(functions@.map_values(|e: (String, usize)| e.0@) =~= names.deep_view());
    MissingType { named_type, uses, functions, contexts }
}

/// Every type that the module uses and never defines, with its uses, grouped
/// by type, the most used first (ties in the order of first use).
pub fn missing_types(module: &IRModule) -> (r: Vec<MissingType>)
    ensures
        r@.len() == missing_groups(module@).len(),
        forall|k: int|
            0 <= k < r@.len() ==> (#[trigger] r@[k]).named_type@ == missing_groups(module@)[k].0
                && use_views(r@[k].uses@) == missing_groups(module@)[k].1 && describes(r@[k]),
{
    let defined = defined_types(module);
    assert(defined.deep_view().to_set() =~= defined_names(module@).to_set());
    let uses = type_uses(module, &defined);
    let ghost us = use_views(uses@);
    let mut keys: Vec<String> = Vec::new();
    let mut i: usize = 0;
    while i < uses.len()
        invariant
            i <= uses@.len(),
            us == use_views(uses@),
            keys.deep_view() =~= us.map_values(|u: TypeUseView| u.named_type).take(i as int),
        decreases uses@.len() - i,
    {
        assert(us[i as int] == uses@[i as int]@);
        let ghost k0 = keys.deep_view();
        keys.push(uses[i].named_type.clone());
        assert(keys.deep_view() =~= k0.push(us[i as int].named_type));
        assert(us.map_values(|u: TypeUseView| u.named_type).take(i + 1) =~= us.map_values(
            |u: TypeUseView| u.named_type,
        ).take(i as int).push(us[i as int].named_type));
        i += 1;
    }
    assert(keys.deep_view() =~= us.map_values(|u: TypeUseView| u.named_type));
    let groups = group_keys(&keys);
    let ghost gs = key_groups(keys.deep_view(), keys@.len() as nat);
    let mut sizes: Vec<usize> = Vec::new();
    let mut g: usize = 0;
    while g < groups.len()
        invariant
            g <= groups@.len(),
            groups@.len() == gs.len(),
            forall|q: int|
                0 <= q < groups@.len() ==> (#[trigger] groups@[q]).0@ == gs[q].0 && groups@[q].1@
                    == gs[q].1,
            sizes@ =~= gs.map_values(|e: (Seq<char>, Seq<usize>)| e.1.len() as usize).take(g as int),
        decreases groups@.len() - g,
    {
        assert(groups@[g as int].1@ == gs[g as int].1);
        sizes.push(groups[g].1.len());
        assert(gs.map_values(|e: (Seq<char>, Seq<usize>)| e.1.len() as usize).take(g + 1)
            =~= gs.map_values(|e: (Seq<char>, Seq<usize>)| e.1.len() as usize).take(g as int).push(
            gs[g as int].1.len() as usize,
        ));
        g += 1;
    }
    assert(sizes@ =~= gs.map_values(|e: (Seq<char>, Seq<usize>)| e.1.len() as usize));
    let ord = order_by_desc(&sizes);
    proof {
        lemma_order_desc_perm(sizes@, sizes@.len() as nat);
    }
    let mut r: Vec<MissingType> = Vec::new();
    let mut k: usize = 0;
    while k < ord.len()
        invariant
            k <= ord@.len(),
            us == use_views(uses@),
            groups@.len() == gs.len(),
            sizes@.len() == gs.len(),
            gs == key_groups(us.map_values(|u: TypeUseView| u.named_type), us.len()),
            forall|q: int|
                0 <= q < groups@.len() ==> (#[trigger] groups@[q]).0@ == gs[q].0 && groups@[q].1@
                    == gs[q].1,
            ord@ == order_desc(sizes@, sizes@.len() as nat),
            forall|q: int| 0 <= q < ord@.len() ==> (#[trigger] ord@[q]) < sizes@.len(),
            ord@.len() == sizes@.len(),
            r@.len() == k,
            forall|q: int|
                0 <= q < k ==> (#[trigger] r@[q]).named_type@ == gs[ord@[q] as int].0 && use_views(
                    r@[q].uses@,
                ) == gs[ord@[q] as int].1.map_values(|p: usize| us[p as int]) && describes(r@[q]),
        decreases ord@.len() - k,
    {
        let gi = ord[k];
        assert(gi < groups@.len());
        let ghost ps = gs[gi as int].1;
        proof {
            crate::order::lemma_positions_bound(
                us.map_values(|u: TypeUseView| u.named_type),
                gs[gi as int].0,
                us.len(),
            );
        }
        let mut picked: Vec<TypeUse> = Vec::new();
        let mut j: usize = 0;
        while j < groups[gi].1.len()
            invariant
                j <= groups@[gi as int].1@.len(),
                gi < groups@.len(),
                groups@[gi as int].1@ == ps,
                us == use_views(uses@),
                forall|q: int| 0 <= q < ps.len() ==> (#[trigger] ps[q]) < uses@.len(),
                use_views(picked@) =~= ps.map_values(|p: usize| us[p as int]).take(j as int),
            decreases groups@[gi as int].1@.len() - j,
        {
            let p = groups[gi].1[j];
            assert(p == ps[j as int]);
            let ghost before = use_views(picked@);
            picked.push(copy_use(&uses[p]));
            proof {
                assert(use_views(picked@) =~= before.push(us[p as int]));
                assert(ps.map_values(|p: usize| us[p as int]).take(j + 1) =~= ps.map_values(
                    |p: usize| us[p as int],
                ).take(j as int).push(us[p as int]));
            }
            j += 1;
        }
        assert(use_views(picked@) =~= ps.map_values(|p: usize| us[p as int]));
        let t = describe_uses(groups[gi].0.clone(), picked);
        r.push(t);
        k += 1;
    }
    r
}

} // verus!
