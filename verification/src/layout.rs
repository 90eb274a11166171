//! Struct layouts of LLVM IR types: field lists, sizes, alignments, offsets,
//! and the field that a crash offset falls in.
use vstd::prelude::*;
use vstd::string::StringSliceAdditionalSpecFns;
use crate::ir::{ARRAY_TYPE_PATTERN, IRModule, StructType};
use crate::rx::{captures, group_str, group_text, rx_caps, rx_count, span_ok};
use crate::text::{
    chars_of, parse_usize, parse_usize_spec, starts_with, starts_with_str, strip_leading,
    strip_leading_str, strip_trailing, strip_trailing_str, trim, trim_str,
};

verus! {

// ---------------------------------------------------------------------------
// Field lists
// ---------------------------------------------------------------------------

/// The state of a left-to-right scan of a struct body: bracket depth, the field
/// being read, and the fields read so far.
pub struct FieldScan {
    pub depth: i32,
    pub cur: Seq<char>,
    pub fields: Seq<Seq<char>>,
}

/// Scan of `s`: brackets `{` `[` open and `}` `]` close (the depth wraps as an
/// `i32`); a comma at depth 0 ends a field, kept trimmed when not blank.
pub open spec fn field_scan(s: Seq<char>) -> FieldScan
    decreases s.len(),
{
    if s.len() == 0 {
        FieldScan { depth: 0, cur: Seq::empty(), fields: Seq::empty() }
    } else {
        let st = field_scan(s.drop_last());
        let ch = s.last();
        if ch == '{' || ch == '[' {
            FieldScan { depth: st.depth.wrapping_add(1), cur: st.cur.push(ch), fields: st.fields }
        } else if ch == '}' || ch == ']' {
            FieldScan { depth: st.depth.wrapping_sub(1), cur: st.cur.push(ch), fields: st.fields }
        } else if ch == ',' && st.depth == 0 {
            let f = trim(st.cur);
            FieldScan {
                depth: st.depth,
                cur: Seq::empty(),
                fields: if f.len() > 0 {
                    st.fields.push(f)
                } else {
                    st.fields
                },
            }
        } else {
            FieldScan { depth: st.depth, cur: st.cur.push(ch), fields: st.fields }
        }
    }
}

/// The body of a struct definition: trimmed, without its outer braces.
pub open spec fn struct_inner(def: Seq<char>) -> Seq<char> {
    strip_trailing(strip_leading(trim(def), '{'), '}')
}

/// The top-level fields of a struct definition `{ T1, {T2, T3}, [4 x T4] }`.
pub open spec fn layout_fields(def: Seq<char>) -> Seq<Seq<char>> {
    let st = field_scan(struct_inner(def));
    let last = trim(st.cur);
    if last.len() > 0 {
        st.fields.push(last)
    } else {
        st.fields
    }
}

/// The top-level fields of a struct definition, split at the commas that no
/// bracket encloses.
pub fn parse_struct_fields(def: &str) -> (r: Vec<String>)
    ensures
        r.deep_view() == layout_fields(def@),
{
    let t = trim_str(def);
    let a = strip_leading_str(t.as_str(), '{');
    let inner = strip_trailing_str(a.as_str(), '}');
    let v = chars_of(inner.as_str());
    let mut fields: Vec<String> = Vec::new();
    let mut depth: i32 = 0;
    let mut current = String::new();
    let mut i: usize = 0;
    assert(v@.take(0) =~= Seq::<char>::empty());
    assert(fields.deep_view() =~= Seq::<Seq<char>>::empty());
    assert(current@ =~= Seq::<char>::empty());
    while i < v.len()
        invariant
            i <= v@.len(),
            v@ == struct_inner(def@),
            field_scan(v@.take(i as int)) == (FieldScan {
                depth,
                cur: current@,
                fields: fields.deep_view(),
            }),
        decreases v@.len() - i,
    {
        let ch = v[i];
        proof {
            assert(v@.take(i + 1).drop_last() =~= v@.take(i as int));
            assert(v@.take(i + 1).last() == ch);
        }
        if ch == '{' || ch == '[' {
            depth = depth.wrapping_add(1);
            current.push(ch);
        } else if ch == '}' || ch == ']' {
            depth = depth.wrapping_sub(1);
            current.push(ch);
        } else if ch == ',' && depth == 0 {
            let f = trim_str(current.as_str());
            if !f.as_str().is_empty() {
                let ghost before = fields.deep_view();
                fields.push(f);
                assert(fields.deep_view() =~= before.push(f@));
            }
            current = String::new();
            assert(current@ =~= Seq::<char>::empty());
        } else {
            current.push(ch);
        }
        i += 1;
    }
    assert(v@.take(i as int) =~= v@);
    let last = trim_str(current.as_str());
    if !last.as_str().is_empty() {
        let ghost before = fields.deep_view();
        fields.push(last);
        assert(fields.deep_view() =~= before.push(last@));
    }
    fields
}

// ---------------------------------------------------------------------------
// Sizes, alignments, offsets
// ---------------------------------------------------------------------------

/// `(offset + align - 1) & !(align - 1)`, wrapping as in a release build; the
/// offset itself for alignment 0.
pub open spec fn align_up(offset: usize, align: usize) -> usize {
    if align == 0 {
        offset
    } else {
        offset.wrapping_add(align).wrapping_sub(1) & !((align - 1) as usize)
    }
}

/// Rounds `offset` up to a multiple of `align`.
pub fn align_to(offset: usize, align: usize) -> (r: usize)
    ensures
        r == align_up(offset, align),
{
    if align == 0 {
        return offset;
    }
    offset.wrapping_add(align).wrapping_sub(1) & !(align - 1)
}

/// Alignment in bytes of a field type: 1 for `i1`/`i8`, 2 for `i16`, 4 for
/// `i32`/`float`, 8 for everything else.
pub open spec fn field_align(ty: Seq<char>) -> usize {
    let t = trim(ty);
    if t == "i1"@ || t == "i8"@ {
        1
    } else if t == "i16"@ {
        2
    } else if t == "i32"@ || t == "float"@ {
        4
    } else {
        8
    }
}

pub fn alignment_of(ty: &str) -> (r: usize)
    ensures
        r == field_align(ty@),
{
    let t = trim_str(ty);
    if t == "i1".to_string() || t == "i8".to_string() {
        return 1;
    }
    if t == "i16".to_string() {
        return 2;
    }
    if t == "i32".to_string() || t == "float".to_string() {
        return 4;
    }
    8
}

/// Size in bytes of a field type: scalars by their width, a nested struct by
/// its layout, `[N x T]` N times T, 8 for anything else. Arithmetic wraps as in
/// a release build.
pub open spec fn field_size(ty: Seq<char>) -> usize
    decreases ty.len() + 1, 0nat,
{
    let t = trim(ty);
    if t == "i1"@ || t == "i8"@ {
        1
    } else if t == "i16"@ {
        2
    } else if t == "i32"@ || t == "float"@ {
        4
    } else if t == "i64"@ || t == "double"@ || t == "ptr"@ {
        8
    } else if starts_with(t, "{"@) {
        let fs = layout_fields(t);
        align_up(fields_end(fs, fs.len(), ty.len()), 8)
    } else if starts_with(t, "["@) && rx_count(ARRAY_TYPE_PATTERN@, t) > 0 {
        let c = rx_caps(ARRAY_TYPE_PATTERN@, t)[0];
        let n = match parse_usize_spec(group_text(t, c, 1)) {
            Some(v) => v,
            None => 1,
        };
        let inner = group_text(t, c, 2);
        if inner.len() < ty.len() {
            n.wrapping_mul(field_size(inner))
        } else {
            8
        }
    } else {
        8
    }
}

/// Offset after laying out the first `n` fields of a nested struct whose
/// definition is `bound` characters long (each field is shorter).
pub open spec fn fields_end(fs: Seq<Seq<char>>, n: nat, bound: nat) -> usize
    decreases bound, n,
{
    if n == 0 || n > fs.len() {
        0
    } else {
        let o = align_up(fields_end(fs, (n - 1) as nat, bound), field_align(fs[n - 1]));
        o.wrapping_add(
            if fs[n - 1].len() < bound {
                field_size(fs[n - 1])
            } else {
                8
            },
        )
    }
}

/// Offset after laying out the first `n` fields, each at its alignment.
pub open spec fn layout_end(fs: Seq<Seq<char>>, n: nat) -> usize
    decreases n,
{
    if n == 0 || n > fs.len() {
        0
    } else {
        align_up(layout_end(fs, (n - 1) as nat), field_align(fs[n - 1])).wrapping_add(
            field_size(fs[n - 1]),
        )
    }
}

/// Size of a struct with fields `fs`: the end of its last field, rounded up to 8.
pub open spec fn layout_size(fs: Seq<Seq<char>>) -> usize {
    align_up(layout_end(fs, fs.len()), 8)
}

fn layout_end_within(fields: &Vec<String>, bound: usize) -> (r: usize)
    ensures
        r == fields_end(fields.deep_view(), fields@.len(), bound as nat),
    decreases bound, 1nat,
{
    let mut offset: usize = 0;
    let mut i: usize = 0;
    while i < fields.len()
        invariant
            i <= fields@.len(),
            offset == fields_end(fields.deep_view(), i as nat, bound as nat),
        decreases fields@.len() - i,
    {
        let f = fields[i].as_str();
        assert(fields.deep_view()[i as int] == f@);
        let o = align_to(offset, alignment_of(f));
        let n = chars_of(f).len();
        let size = if n < bound {
            estimate_field_size(f)
        } else {
            8
        };
        offset = o.wrapping_add(size);
        i += 1;
    }
    offset
}

/// Size in bytes of a field type (see `field_size`).
pub fn estimate_field_size(ty: &str) -> (n: usize)
    ensures
        n == field_size(ty@),
    decreases ty@.len() + 1, 0nat,
{
    let t = trim_str(ty);
    let ts = t.as_str();
    if t == "i1".to_string() || t == "i8".to_string() {
        return 1;
    }
    if t == "i16".to_string() {
        return 2;
    }
    if t == "i32".to_string() || t == "float".to_string() {
        return 4;
    }
    if t == "i64".to_string() || t == "double".to_string() || t == "ptr".to_string() {
        return 8;
    }
    if starts_with_str(ts, "{") {
        let fields = parse_struct_fields(ts);
        let bound = chars_of(ty).len();
        return align_to(layout_end_within(&fields, bound), 8);
    }
    if starts_with_str(ts, "[") {
        let caps = captures(ARRAY_TYPE_PATTERN, ts);
        if caps.len() > 0 {
            let c = &caps[0];
            proof {
                assert(caps.deep_view()[0] == c.deep_view());
                assert forall|j: int| 0 <= j < c@.len() implies span_ok(
                    #[trigger] c.deep_view()[j],
                    ts.spec_bytes(),
                ) by {
                    assert(span_ok(caps.deep_view()[0][j], ts.spec_bytes()));
                }
            }
            let n = match parse_usize(group_str(ts, c, 1).as_str()) {
                Some(v) => v,
                None => 1,
            };
            let inner = group_str(ts, c, 2);
            let inner_len = chars_of(inner.as_str()).len();
            let ty_len = chars_of(ty).len();
            if inner_len < ty_len {
                return n.wrapping_mul(estimate_field_size(inner.as_str()));
            } else {
                return 8;
            }
        }
    }
    8
}

/// Size of a struct with the given fields, each at its alignment, rounded up to 8.
pub fn compute_struct_layout_size(fields: &[String]) -> (r: usize)
    ensures
        r == layout_size(fields.deep_view()),
{
    let mut offset: usize = 0;
    let mut i: usize = 0;
    while i < fields.len()
        invariant
            i <= fields@.len(),
            offset == layout_end(fields.deep_view(), i as nat),
        decreases fields@.len() - i,
    {
        let f = fields[i].as_str();
        assert(fields.deep_view()[i as int] == f@);
        offset = align_to(offset, alignment_of(f)).wrapping_add(estimate_field_size(f));
        i += 1;
    }
    align_to(offset, 8)
}

/// Offset of field `i`: the end of the fields before it, aligned for it.
pub open spec fn field_offset(fs: Seq<Seq<char>>, i: int) -> usize {
    align_up(layout_end(fs, i as nat), field_align(fs[i]))
}

/// Field `i` covers byte `target`.
pub open spec fn field_covers(fs: Seq<Seq<char>>, i: int, target: usize) -> bool {
    field_offset(fs, i) <= target && target < field_offset(fs, i).wrapping_add(field_size(fs[i]))
}

/// The first field from `i` on that covers `target`: its index, offset and type.
pub open spec fn field_at_from(fs: Seq<Seq<char>>, target: usize, i: int) -> Option<
    (usize, usize, Seq<char>),
>
    decreases fs.len() - i,
{
    if i < 0 || i >= fs.len() {
        None
    } else if field_covers(fs, i, target) {
        Some((i as usize, field_offset(fs, i), fs[i]))
    } else {
        field_at_from(fs, target, i + 1)
    }
}

pub open spec fn opt_field_view(r: Option<(usize, usize, String)>) -> Option<
    (usize, usize, Seq<char>),
> {
    match r {
        Some((i, o, f)) => Some((i, o, f@)),
        None => None,
    }
}

/// The field that byte `target` falls in: its index, offset and type.
pub fn find_field_at_offset(fields: &[String], target: usize) -> (r: Option<(usize, usize, String)>)
    ensures
        opt_field_view(r) == field_at_from(fields.deep_view(), target, 0),
{
    let ghost fs = fields.deep_view();
    let mut offset: usize = 0;
    let mut i: usize = 0;
    while i < fields.len()
        invariant
            i <= fields@.len(),
            fs == fields.deep_view(),
            offset == layout_end(fs, i as nat),
            field_at_from(fs, target, 0) == field_at_from(fs, target, i as int),
        decreases fields@.len() - i,
    {
        let f = fields[i].as_str();
        assert(fs[i as int] == f@);
        let o = align_to(offset, alignment_of(f));
        let size = estimate_field_size(f);
        if target >= o && target < o.wrapping_add(size) {
            return Some((i, o, fields[i].clone()));
        }
        offset = o.wrapping_add(size);
        i += 1;
    }
    None
}

// ---------------------------------------------------------------------------
// Crash maps
// ---------------------------------------------------------------------------

/// One row of a struct layout: where a field starts, its size, its type, and
/// whether the target byte falls in it.
#[derive(Debug, Clone)]
pub struct LayoutRow {
    pub offset: usize,
    pub size: usize,
    pub field: String,
    pub holds_target: bool,
}

pub struct LayoutRowView {
    pub offset: usize,
    pub size: usize,
    pub field: Seq<char>,
    pub holds_target: bool,
}

impl View for LayoutRow {
    type V = LayoutRowView;

    open spec fn view(&self) -> LayoutRowView {
        LayoutRowView {
            offset: self.offset,
            size: self.size,
            field: self.field@,
            holds_target: self.holds_target,
        }
    }
}

/// A struct with its full layout and the field that a crash offset falls in.
#[derive(Debug, Clone)]
pub struct CrashMap {
    pub structure: StructType,
    pub offset: usize,
    pub total_size: usize,
    pub rows: Vec<LayoutRow>,
    pub hit: Option<(usize, usize, String)>,
}

pub struct CrashMapView {
    pub structure: crate::ir::StructTypeView,
    pub offset: usize,
    pub total_size: usize,
    pub rows: Seq<LayoutRowView>,
    pub hit: Option<(usize, usize, Seq<char>)>,
}

impl View for CrashMap {
    type V = CrashMapView;

    open spec fn view(&self) -> CrashMapView {
        CrashMapView {
            structure: self.structure@,
            offset: self.offset,
            total_size: self.total_size,
            rows: self.rows@.map_values(|r: LayoutRow| r@),
            hit: opt_field_view(self.hit),
        }
    }
}

/// Row `i` of the layout of `fs` for target byte `target`.
pub open spec fn layout_row(fs: Seq<Seq<char>>, i: int, target: usize) -> LayoutRowView {
    LayoutRowView {
        offset: field_offset(fs, i),
        size: field_size(fs[i]),
        field: fs[i],
        holds_target: field_covers(fs, i, target),
    }
}

/// The crash map of struct `st` for byte `offset`.
pub open spec fn crash_map_of(st: crate::ir::StructTypeView, offset: usize) -> CrashMapView {
    CrashMapView {
        structure: st,
        offset,
        total_size: layout_size(st.fields),
        rows: Seq::new(st.fields.len(), |i: int| layout_row(st.fields, i, offset)),
        hit: field_at_from(st.fields, offset, 0),
    }
}

/// The layout of a struct, row by row, and the field that `offset` falls in.
pub fn crash_map(st: StructType, offset: usize) -> (m: CrashMap)
    ensures
        m@ == crash_map_of(st@, offset),
{
    let total_size = compute_struct_layout_size(st.fields.as_slice());
    let ghost fs = st.fields.deep_view();
    let mut rows: Vec<LayoutRow> = Vec::new();
    let mut current: usize = 0;
    let mut i: usize = 0;
    while i < st.fields.len()
        invariant
            i <= st.fields@.len(),
            fs == st.fields.deep_view(),
            current == layout_end(fs, i as nat),
            rows@.len() == i,
            forall|j: int| 0 <= j < i ==> (#[trigger] rows@[j])@ == layout_row(fs, j, offset),
        decreases st.fields@.len() - i,
    {
        let f = st.fields[i].as_str();
        assert(fs[i as int] == f@);
        let size = estimate_field_size(f);
        let aligned = align_to(current, alignment_of(f));
        let holds = aligned <= offset && offset < aligned.wrapping_add(size);
        rows.push(LayoutRow { offset: aligned, size, field: f.to_string(), holds_target: holds });
        current = aligned.wrapping_add(size);
        i += 1;
    }
    let hit = find_field_at_offset(st.fields.as_slice(), offset);
    let m = CrashMap { structure: st, offset, total_size, rows, hit };
    assert(m@.rows =~= Seq::new(fs.len(), |j: int| layout_row(fs, j, offset)));
    m
}

/// A struct name matches the searched name `name`: as `%struct.name`, `%name`,
/// `%enum.name`, or `name` itself.
pub open spec fn struct_name_matches(st_name: Seq<char>, name: Seq<char>) -> bool {
    st_name == "%struct."@ + name || st_name == "%"@ + name || st_name == "%enum."@ + name
        || st_name == name
}

/// Index of the first struct type from `i` on whose name matches.
pub open spec fn find_struct_from(
    sts: Seq<crate::ir::StructTypeView>,
    name: Seq<char>,
    i: int,
) -> Option<int>
    decreases sts.len() - i,
{
    if i < 0 || i >= sts.len() {
        None
    } else if struct_name_matches(sts[i].name, name) {
        Some(i)
    } else {
        find_struct_from(sts, name, i + 1)
    }
}

pub const STRUCT_DEF_PREFIX: &'static str = r"(?m)^(%(?:struct|enum)\.";
pub const STRUCT_DEF_SUFFIX: &'static str = r"\S*)\s*=\s*type\s+(\{.+\})";

/// The pattern of a `%struct.name.. = type {..}` or `%enum.name.. = type {..}` line.
pub open spec fn struct_def_pattern(name: Seq<char>) -> Seq<char> {
    STRUCT_DEF_PREFIX@ + crate::rx::regex_escaped(name) + STRUCT_DEF_SUFFIX@
}

/// The struct type of the first definition line in `source` that the pattern
/// finds, with its fields and no size estimate.
pub open spec fn struct_from_source(source: Seq<char>, name: Seq<char>) -> Option<
    crate::ir::StructTypeView,
> {
    let caps = rx_caps(struct_def_pattern(name), source);
    if caps.len() > 0 {
        let def = group_text(source, caps[0], 2);
        Some(
            crate::ir::StructTypeView {
                name: group_text(source, caps[0], 1),
                definition: def,
                fields: layout_fields(def),
                estimated_size: 0,
            },
        )
    } else {
        None
    }
}

/// The struct that a crash map is drawn for: the first struct type of the module
/// whose name matches, else the first matching definition line of the source.
pub open spec fn locate_struct_spec(
    m: crate::ir::IRModuleView,
    source: Seq<char>,
    name: Seq<char>,
) -> Option<crate::ir::StructTypeView> {
    match find_struct_from(m.struct_types, name, 0) {
        Some(i) => Some(m.struct_types[i]),
        None => struct_from_source(source, name),
    }
}

fn copy_struct_type(st: &StructType) -> (r: StructType)
    ensures
        r@ == st@,
{
    StructType {
        name: st.name.clone(),
        definition: st.definition.clone(),
        fields: crate::schema::copy_strings(&st.fields),
        estimated_size: st.estimated_size,
    }
}

fn struct_name_matches_exec(st_name: &String, name: &str) -> (b: bool)
    ensures
        b == struct_name_matches(st_name@, name@),
{
    let mut a = "%struct.".to_string();
    crate::text::push_all(&mut a, name);
    let mut b = "%".to_string();
    crate::text::push_all(&mut b, name);
    let mut c = "%enum.".to_string();
    crate::text::push_all(&mut c, name);
    *st_name == a || *st_name == b || *st_name == c || *st_name == name.to_string()
}

pub open spec fn opt_struct_type_view(r: Option<StructType>) -> Option<crate::ir::StructTypeView> {
    match r {
        Some(x) => Some(x@),
        None => None,
    }
}

/// Finds the struct named `name` (see `locate_struct_spec`).
pub fn locate_struct(module: &IRModule, source: &str, name: &str) -> (r: Option<StructType>)
    ensures
        opt_struct_type_view(r) == locate_struct_spec(module@, source@, name@),
{
    let ghost sts = module@.struct_types;
    let mut i: usize = 0;
    while i < module.struct_types.len()
        invariant
            i <= module.struct_types@.len(),
            sts == module@.struct_types,
            find_struct_from(sts, name@, 0) == find_struct_from(sts, name@, i as int),
        decreases module.struct_types@.len() - i,
    {
        assert(sts[i as int] == module.struct_types@[i as int]@);
        if struct_name_matches_exec(&module.struct_types[i].name, name) {
            return Some(copy_struct_type(&module.struct_types[i]));
        }
        i += 1;
    }
    let mut pat = STRUCT_DEF_PREFIX.to_string();
    let esc = crate::rx::regex_escape(name);
    crate::text::push_all(&mut pat, esc.as_str());
    crate::text::push_all(&mut pat, STRUCT_DEF_SUFFIX);
    let caps = captures(pat.as_str(), source);
    if caps.len() > 0 {
        proof {
            crate::ir::lemma_match_spans(caps.deep_view(), 0, source.spec_bytes());
            assert(caps.deep_view()[0] == caps[0].deep_view());
        }
        let def = group_str(source, &caps[0], 2);
        let fields = parse_struct_fields(def.as_str());
        let st_name = group_str(source, &caps[0], 1);
        return Some(StructType { name: st_name, definition: def, fields, estimated_size: 0 });
    }
    None
}

/// The names of all struct types of the module.
pub fn struct_names(module: &IRModule) -> (r: Vec<String>)
    ensures
        r.deep_view() == module@.struct_types.map_values(|t: crate::ir::StructTypeView| t.name),
{
    let mut r: Vec<String> = Vec::new();
    let mut i: usize = 0;
    while i < module.struct_types.len()
        invariant
            i <= module.struct_types@.len(),
            r.deep_view() == module@.struct_types.take(i as int).map_values(
                |t: crate::ir::StructTypeView| t.name,
            ),
        decreases module.struct_types@.len() - i,
    {
        let ghost before = r.deep_view();
        r.push(module.struct_types[i].name.clone());
        proof {
            assert(r.deep_view() =~= before.push(module.struct_types@[i as int].name@));
            assert(module@.struct_types.take(i + 1).map_values(|t: crate::ir::StructTypeView| t.name)
                =~= before.push(module@.struct_types[i as int].name));
        }
        i += 1;
    }
    assert(module@.struct_types.take(i as int) =~= module@.struct_types);
    r
}

/// The crash map of the struct named `name` for byte `offset`, or the names of
/// the struct types that are available when there is no such struct.
pub fn map_struct_offset(module: &IRModule, source: &str, name: &str, offset: usize) -> (r: Result<
    CrashMap,
    Vec<String>,
>)
    ensures
        match locate_struct_spec(module@, source@, name@) {
            Some(st) => r matches Ok(m) && m@ == crash_map_of(st, offset),
            None => r matches Err(names) && names.deep_view() == module@.struct_types.map_values(
                |t: crate::ir::StructTypeView| t.name,
            ),
        },
{
    match locate_struct(module, source, name) {
        Some(st) => Ok(crash_map(st, offset)),
        None => Err(struct_names(module)),
    }
}

/// Small offsets (0, 0x8, 0x10, 0x20) hint at a null or zero-initialized struct.
pub fn suggests_null_deref(offset: usize) -> (b: bool)
    ensures
        b == (offset == 0 || offset == 0x20 || offset == 0x10 || offset == 0x8),
{
    offset == 0 || offset == 0x20 || offset == 0x10 || offset == 0x8
}

} // verus!
