//! Quick fixes for findings: string constants whose declared size is wrong,
//! and string constants without an alignment.
use vstd::prelude::*;
use vstd::string::StringSliceAdditionalSpecFns;
use crate::engine::{Finding, FindingView, finding_views};
use crate::rx::{captures, group_str, group_text, rx_caps, rx_count};
use crate::text::{
    chars_of, contains, contains_str, decimal, find_from, fmt_usize, join_lines, join_newline,
    lines, lines_of, parse_usize, parse_usize_spec, push_all, replace_all, replace_str,
};

verus! {

/// Bytes denoted by the characters `c[i..]` of a `c"..."` body: a backslash
/// with at least two characters after it stands for one byte with them, any
/// other character for one.
pub open spec fn c_string_count_from(c: Seq<char>, i: int) -> nat
    decreases c.len() - i,
{
    if i < 0 || i >= c.len() {
        0
    } else if c[i] == '\x5C' && i + 2 < c.len() {
        1 + c_string_count_from(c, i + 3)
    } else {
        1 + c_string_count_from(c, i + 1)
    }
}

/// Bytes that the body of a `c"..."` constant denotes.
pub fn count_c_string_bytes(raw: &str) -> (n: usize)
    ensures
        n == c_string_count_from(raw@, 0),
{
    let v = chars_of(raw);
    let mut count: usize = 0;
    let mut i: usize = 0;
    while i < v.len()
        invariant
            i <= v@.len() + 2,
            v@ == raw@,
            count <= i,
            c_string_count_from(raw@, 0) == count + c_string_count_from(raw@, i as int),
        decreases v@.len() + 3 - i,
    {
        if v[i] == '\x5C' && v.len() - i > 2 {
            i += 3;
        } else {
            i += 1;
        }
        count += 1;
    }
    count
}

pub const SIZED_STRING_PATTERN: &'static str = r#"@([.\w]+)\s*=\s*(?:private\s+)?(?:unnamed_addr\s+)?constant\s+\[(\d+)\s+x\s+i8\]\s+c"((?:[^"\\]|\\[0-9A-Fa-f]{2})*)""#;
pub const UNALIGNED_STRING_PATTERN: &'static str = r#"(constant\s+\[\d+\s+x\s+i8\]\s+c"[^"]*")\s*$"#;

/// A fix of one line: its 1-based number, the line, and what replaces it.
#[derive(Debug, Clone)]
pub struct LineFix {
    pub line: usize,
    pub old: String,
    pub new: String,
}

pub open spec fn fix_views(fs: Seq<LineFix>) -> Seq<(usize, Seq<char>, Seq<char>)> {
    fs.map_values(|f: LineFix| (f.line, f.old@, f.new@))
}

/// The lines that some finding is on.
pub open spec fn flagged(fs: Seq<FindingView>, line: int) -> bool {
    exists|k: int| 0 <= k < fs.len() && fs[k].line == line
}

fn is_flagged(findings: &[Finding], line: usize) -> (b: bool)
    ensures
        b == flagged(finding_views(findings@), line as int),
{
    let mut k: usize = 0;
    while k < findings.len()
        invariant
            k <= findings@.len(),
            forall|j: int| 0 <= j < k ==> (#[trigger] finding_views(findings@)[j]).line != line,
        decreases findings@.len() - k,
    {
        assert(finding_views(findings@)[k as int] == findings@[k as int]@);
        if findings[k].line == line {
            return true;
        }
        k += 1;
    }
    false
}

/// `[N x i8]`.
pub open spec fn array_decl(n: nat) -> Seq<char> {
    "["@ + decimal(n) + " x i8]"@
}

/// The size fix of one line, if it declares a string constant whose declared
/// size differs from the bytes its content denotes.
pub open spec fn size_fix_of(l: Seq<char>) -> Option<Seq<char>> {
    let caps = rx_caps(SIZED_STRING_PATTERN@, l);
    if caps.len() == 0 {
        None
    } else {
        let declared: nat = match parse_usize_spec(group_text(l, caps[0], 2)) {
            Some(v) => v as nat,
            None => 0,
        };
        let actual = c_string_count_from(group_text(l, caps[0], 3), 0);
        if declared == actual {
            None
        } else {
            Some(replace_all(l, array_decl(declared), array_decl(actual)))
        }
    }
}

/// The size fixes of the first `n` lines that findings are on.
pub open spec fn size_fixes_from(ls: Seq<Seq<char>>, fs: Seq<FindingView>, n: nat) -> Seq<
    (usize, Seq<char>, Seq<char>),
>
    decreases n,
{
    if n == 0 || n > ls.len() {
        Seq::empty()
    } else {
        let prev = size_fixes_from(ls, fs, (n - 1) as nat);
        if flagged(fs, n as int) {
            match size_fix_of(ls[n - 1]) {
                Some(new) => prev.push((n as usize, ls[n - 1], new)),
                None => prev,
            }
        } else {
            prev
        }
    }
}

fn array_decl_exec(n: usize) -> (r: String)
    ensures
        r@ == array_decl(n as nat),
{
    let mut r = "[".to_string();
    let d = fmt_usize(n);
    push_all(&mut r, d.as_str());
    push_all(&mut r, " x i8]");
    r
}

fn size_fix_line(l: &str) -> (r: Option<String>)
    ensures
        r.deep_view() == size_fix_of(l@),
{
    let caps = captures(SIZED_STRING_PATTERN, l);
    if caps.len() == 0 {
        return None;
    }
    proof {
        crate::ir::lemma_match_spans(caps.deep_view(), 0, l.spec_bytes());
        assert(caps.deep_view()[0] == caps[0].deep_view());
    }
    let declared = match parse_usize(group_str(l, &caps[0], 2).as_str()) {
        Some(v) => v,
        None => 0,
    };
    let actual = count_c_string_bytes(group_str(l, &caps[0], 3).as_str());
    if declared == actual {
        return None;
    }
    let old_decl = array_decl_exec(declared);
    let new_decl = array_decl_exec(actual);
    proof {
        reveal_strlit("[");
    }
    Some(replace_str(l, old_decl.as_str(), new_decl.as_str()))
}

/// The lines that findings are on whose string constant declares the wrong
/// size, with the size corrected.
pub fn byte_count_fixes(content: &str, findings: &[Finding]) -> (r: Vec<LineFix>)
    ensures
        fix_views(r@) == size_fixes_from(lines(content@), finding_views(findings@), lines(content@).len()),
{
    let ls = lines_of(content);
    let mut r: Vec<LineFix> = Vec::new();
    let mut i: usize = 0;
    while i < ls.len()
        invariant
            i <= ls@.len(),
            ls.deep_view() == lines(content@),
            fix_views(r@) == size_fixes_from(ls.deep_view(), finding_views(findings@), i as nat),
        decreases ls@.len() - i,
    {
        let l = ls[i].as_str();
        assert(ls.deep_view()[i as int] == l@);
        if is_flagged(findings, i + 1) {
            match size_fix_line(l) {
                Some(new) => {
                    let ghost before = fix_views(r@);
                    r.push(LineFix { line: i + 1, old: l.to_string(), new });
                    assert(fix_views(r@) =~= before.push(((i + 1) as usize, l@, new@)));
                },
                None => {},
            }
        }
        i += 1;
    }
    r
}

/// `h` with its first occurrence of `n` replaced by `r` (`str::replacen(n, r, 1)`).
pub open spec fn replace_first(h: Seq<char>, n: Seq<char>, r: Seq<char>) -> Seq<char> {
    match find_from(h, n, 0) {
        Some(k) => h.take(k) + r + h.skip(k + n.len()),
        None => h,
    }
}

pub fn replace_first_str(h: &str, n: &str, r: &str) -> (out: String)
    ensures
        out@ == replace_first(h@, n@, r@),
{
    let hv = chars_of(h);
    let nv = chars_of(n);
    let hl = hv.len();
    match crate::text::find_exec(hv.as_slice(), nv.as_slice(), 0) {
        Some(k) => {
            proof {
                crate::text::lemma_find_from_some(hv@, nv@, 0);
                assert(crate::text::matches_at(hv@, nv@, k as int));
                assert(k + nv@.len() <= hl);
            }
            let mut out = crate::text::string_of(hv.as_slice(), 0, k);
            push_all(&mut out, r);
            let tail = crate::text::string_of(hv.as_slice(), k + nv.len(), hv.len());
            push_all(&mut out, tail.as_str());
            assert(out@ =~= h@.take(k as int) + r@ + h@.skip(k + n@.len()));
            out
        },
        None => h.to_string(),
    }
}

/// Each fix applied in turn: the first occurrence of its line replaced.
pub open spec fn apply_fixes_spec(content: Seq<char>, fs: Seq<(usize, Seq<char>, Seq<char>)>) -> Seq<
    char,
>
    decreases fs.len(),
{
    if fs.len() == 0 {
        content
    } else {
        replace_first(apply_fixes_spec(content, fs.drop_last()), fs.last().1, fs.last().2)
    }
}

/// The file with the size fixes applied.
pub fn apply_line_fixes(content: &str, fixes: &Vec<LineFix>) -> (r: String)
    ensures
        r@ == apply_fixes_spec(content@, fix_views(fixes@)),
{
    let mut result = content.to_string();
    let mut i: usize = 0;
    while i < fixes.len()
        invariant
            i <= fixes@.len(),
            result@ == apply_fixes_spec(content@, fix_views(fixes@).take(i as int)),
        decreases fixes@.len() - i,
    {
        result = replace_first_str(result.as_str(), fixes[i].old.as_str(), fixes[i].new.as_str());
        proof {
            assert(fix_views(fixes@).take(i + 1).drop_last() =~= fix_views(fixes@).take(i as int));
        }
        i += 1;
    }
    assert(fix_views(fixes@).take(i as int) =~= fix_views(fixes@));
    result
}

/// The alignment fix of a line: `, align 1` after a string constant that has none.
pub open spec fn align_fix_of(l: Seq<char>) -> Option<Seq<char>> {
    if !contains(l, ", align"@) && rx_count(UNALIGNED_STRING_PATTERN@, l) > 0 {
        Some(l + ", align 1"@)
    } else {
        None
    }
}

/// The first `n` lines, each line that a finding is on fixed where it needs it.
pub open spec fn aligned_lines(ls: Seq<Seq<char>>, fs: Seq<FindingView>, n: nat) -> Seq<Seq<char>>
    decreases n,
{
    if n == 0 || n > ls.len() {
        Seq::empty()
    } else {
        let prev = aligned_lines(ls, fs, (n - 1) as nat);
        let l = ls[n - 1];
        if flagged(fs, n as int) {
            match align_fix_of(l) {
                Some(new) => prev.push(new),
                None => prev.push(l),
            }
        } else {
            prev.push(l)
        }
    }
}

/// How many of the first `n` lines the alignment fix changes.
pub open spec fn align_fix_count(ls: Seq<Seq<char>>, fs: Seq<FindingView>, n: nat) -> nat
    decreases n,
{
    if n == 0 || n > ls.len() {
        0
    } else {
        align_fix_count(ls, fs, (n - 1) as nat) + if flagged(fs, n as int) && align_fix_of(
            ls[n - 1],
        ) is Some {
            1nat
        } else {
            0nat
        }
    }
}

/// The file with `, align 1` added to the unaligned string constants that
/// findings are on, its lines joined by `\n`, and how many lines changed.
pub fn apply_align_fix(content: &str, findings: &[Finding]) -> (r: (String, usize))
    ensures
        r.0@ == join_lines(aligned_lines(lines(content@), finding_views(findings@), lines(content@).len())),
        r.1 == align_fix_count(lines(content@), finding_views(findings@), lines(content@).len()),
{
    let ls = lines_of(content);
    let ghost lv = ls.deep_view();
    let mut out: Vec<String> = Vec::new();
    let mut count: usize = 0;
    let mut i: usize = 0;
    while i < ls.len()
        invariant
            i <= ls@.len(),
            lv == ls.deep_view(),
            lv == lines(content@),
            count <= i,
            out.deep_view() == aligned_lines(lv, finding_views(findings@), i as nat),
            count == align_fix_count(lv, finding_views(findings@), i as nat),
        decreases ls@.len() - i,
    {
        let l = ls[i].as_str();
        assert(lv[i as int] == l@);
        let ghost before = out.deep_view();
        let flag = is_flagged(findings, i + 1);
        let ucaps = captures(UNALIGNED_STRING_PATTERN, l);
        let fixable = !contains_str(l, ", align") && ucaps.len() > 0;
        proof {
            assert(ucaps@.len() == ucaps.deep_view().len());
            assert(rx_count(UNALIGNED_STRING_PATTERN@, l@) == rx_caps(UNALIGNED_STRING_PATTERN@, l@).len());
        }
        assert(fixable == (align_fix_of(l@) is Some));
        if flag && fixable {
            let mut new = l.to_string();
            push_all(&mut new, ", align 1");
            let ghost nv = new@;
            out.push(new);
            count += 1;
            assert(out.deep_view() =~= before.push(nv));
            assert(align_fix_of(l@) == Some(nv));
        } else {
            let c = l.to_string();
            out.push(c);
            assert(out.deep_view() =~= before.push(l@));
        }
        assert(out.deep_view() =~= aligned_lines(lv, finding_views(findings@), (i + 1) as nat));
        i += 1;
    }
    (join_newline(&out), count)
}

/// The fix that a template's findings get.
#[derive(Debug, Clone, Copy, PartialEq, Eq, Structural)]
pub enum FixKind {
    /// Recompute the declared sizes of string constants.
    ByteCount,
    /// Add an alignment to string constants.
    Align,
    /// No automatic fix: the control flow must be changed by hand.
    Manual,
    /// The template's own search-and-replace fix.
    TemplateAutofix,
}

pub open spec fn fix_kind_of(id: Seq<char>) -> FixKind {
    if id == "byte-count-mismatch"@ {
        FixKind::ByteCount
    } else if id == "unaligned-string-constant"@ {
        FixKind::Align
    } else if id == "break-inside-nested-control"@ {
        FixKind::Manual
    } else {
        FixKind::TemplateAutofix
    }
}

pub fn fix_kind(template_id: &str) -> (k: FixKind)
    ensures
        k == fix_kind_of(template_id@),
{
    let id = template_id.to_string();
    if id == "byte-count-mismatch".to_string() {
        FixKind::ByteCount
    } else if id == "unaligned-string-constant".to_string() {
        FixKind::Align
    } else if id == "break-inside-nested-control".to_string() {
        FixKind::Manual
    } else {
        FixKind::TemplateAutofix
    }
}

/// A file is C source by its extension.
pub open spec fn is_c_path(file: Seq<char>) -> bool {
    crate::text::ends_with(file, ".c"@) || crate::text::ends_with(file, ".h"@)
}

pub fn is_c_file(file: &str) -> (b: bool)
    ensures
        b == is_c_path(file@),
{
    crate::text::ends_with_str(file, ".c") || crate::text::ends_with_str(file, ".h")
}

/// The findings that carry a fix of their own.
pub open spec fn fixable_from(fs: Seq<FindingView>, n: nat) -> Seq<FindingView>
    decreases n,
{
    if n == 0 || n > fs.len() {
        Seq::empty()
    } else {
        fixable_from(fs, (n - 1) as nat) + if fs[n - 1].autofix is Some {
            seq![fs[n - 1]]
        } else {
            Seq::empty()
        }
    }
}

pub fn fixable_findings(findings: &[Finding]) -> (r: Vec<Finding>)
    ensures
        finding_views(r@) == fixable_from(finding_views(findings@), findings@.len() as nat),
{
    let mut r: Vec<Finding> = Vec::new();
    let mut i: usize = 0;
    while i < findings.len()
        invariant
            i <= findings@.len(),
            finding_views(r@) == fixable_from(finding_views(findings@), i as nat),
        decreases findings@.len() - i,
    {
        assert(finding_views(findings@)[i as int] == findings@[i as int]@);
        let ghost before = finding_views(r@);
        if findings[i].autofix.is_some() {
            let f = findings[i].clone_finding();
            let ghost fv = f@;
            r.push(f);
            assert(finding_views(r@) =~= before + seq![fv]);
        } else {
            assert(finding_views(r@) =~= before + Seq::<FindingView>::empty());
        }
        i += 1;
    }
    r
}

} // verus!
