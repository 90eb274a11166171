//! How the lines of a function body read when displayed: labels, allocas,
//! PHI nodes, terminators, calls, stores, loads; how a block ends; and which
//! block a name picks out.
use vstd::prelude::*;
use crate::cfg::{Block, BLOCK_LABEL_LINE_PATTERN};
use crate::engine::regex_matches;
use crate::rx::{all_groups, rx_count, rx_groups};
use crate::text::{contains, contains_str, starts_with, starts_with_str, trim};

verus! {

pub const PRETTY_ALLOCA_PATTERN: &'static str = r"(%[\w.]+)\s*=\s*alloca\s+(.+?)(?:\s*,|$)";
pub const PRETTY_CALL_PATTERN: &'static str = r"call\s+\S+\s+@([\w.]+)\(";
pub const PRETTY_PHI_PATTERN: &'static str = r"= phi\s+";
pub const PRETTY_BR_PATTERN: &'static str = r"^\s*br\s+";
pub const PRETTY_RET_PATTERN: &'static str = r"^\s*ret\s+";
pub const PRETTY_SWITCH_PATTERN: &'static str = r"^\s*switch\s+";
pub const PRETTY_STORE_PATTERN: &'static str = r"^\s*store\s+";
pub const PRETTY_LOAD_PATTERN: &'static str = r"=\s*load\s+";
pub const PRETTY_GEP_PATTERN: &'static str = r"=\s*getelementptr\s+";

/// How a line of a body is shown.
#[derive(Debug, Clone, PartialEq, Eq)]
pub enum LineStyle {
    Blank,
    Label(String),
    Alloca,
    Phi,
    Terminator,
    Call,
    Store,
    Dim,
    Plain,
}

pub enum LineStyleView {
    Blank,
    Label(Seq<char>),
    Alloca,
    Phi,
    Terminator,
    Call,
    Store,
    Dim,
    Plain,
}

impl View for LineStyle {
    type V = LineStyleView;

    open spec fn view(&self) -> LineStyleView {
        match self {
            LineStyle::Blank => LineStyleView::Blank,
            LineStyle::Label(l) => LineStyleView::Label(l@),
            LineStyle::Alloca => LineStyleView::Alloca,
            LineStyle::Phi => LineStyleView::Phi,
            LineStyle::Terminator => LineStyleView::Terminator,
            LineStyle::Call => LineStyleView::Call,
            LineStyle::Store => LineStyleView::Store,
            LineStyle::Dim => LineStyleView::Dim,
            LineStyle::Plain => LineStyleView::Plain,
        }
    }
}

pub open spec fn hits(pattern: Seq<char>, t: Seq<char>) -> bool {
    rx_count(pattern, t) > 0
}

/// The style of a line, read once trimmed: blank; a label; then the first
/// of alloca, PHI, terminator (`ret`, `br`, `switch`), call, store, load or
/// GEP (shown dim) that it is; plain otherwise.
pub open spec fn line_style_spec(line: Seq<char>) -> LineStyleView {
    let t = trim(line);
    let labels = rx_groups(BLOCK_LABEL_LINE_PATTERN@, t, 1);
    if t.len() == 0 {
        LineStyleView::Blank
    } else if labels.len() > 0 {
        LineStyleView::Label(labels[0])
    } else if hits(PRETTY_ALLOCA_PATTERN@, t) {
        LineStyleView::Alloca
    } else if hits(PRETTY_PHI_PATTERN@, t) {
        LineStyleView::Phi
    } else if hits(PRETTY_RET_PATTERN@, t) || hits(PRETTY_BR_PATTERN@, t) || hits(
        PRETTY_SWITCH_PATTERN@,
        t,
    ) {
        LineStyleView::Terminator
    } else if hits(PRETTY_CALL_PATTERN@, t) {
        LineStyleView::Call
    } else if hits(PRETTY_STORE_PATTERN@, t) {
        LineStyleView::Store
    } else if hits(PRETTY_LOAD_PATTERN@, t) || hits(PRETTY_GEP_PATTERN@, t) {
        LineStyleView::Dim
    } else {
        LineStyleView::Plain
    }
}

/// The style in which a line of a function body is shown.
pub fn line_style(line: &str) -> (r: LineStyle)
    ensures
        r@ == line_style_spec(line@),
{
    let ts = crate::text::trim_str(line);
    let t = ts.as_str();
    if t.is_empty() {
        return LineStyle::Blank;
    }
    let labels = all_groups(BLOCK_LABEL_LINE_PATTERN, t, 1);
    if labels.len() > 0 {
        assert(labels.deep_view()[0] == labels@[0]@);
        return LineStyle::Label(labels[0].clone());
    }
    if regex_matches(PRETTY_ALLOCA_PATTERN, t) {
        LineStyle::Alloca
    } else if regex_matches(PRETTY_PHI_PATTERN, t) {
        LineStyle::Phi
    } else if regex_matches(PRETTY_RET_PATTERN, t) || regex_matches(PRETTY_BR_PATTERN, t)
        || regex_matches(PRETTY_SWITCH_PATTERN, t) {
        LineStyle::Terminator
    } else if regex_matches(PRETTY_CALL_PATTERN, t) {
        LineStyle::Call
    } else if regex_matches(PRETTY_STORE_PATTERN, t) {
        LineStyle::Store
    } else if regex_matches(PRETTY_LOAD_PATTERN, t) || regex_matches(PRETTY_GEP_PATTERN, t) {
        LineStyle::Dim
    } else {
        LineStyle::Plain
    }
}

/// How a block ends.
#[derive(Debug, Clone, Copy, PartialEq, Eq)]
pub enum TermKind {
    Ret,
    Cond,
    Jump,
    Switch,
    Other,
    Missing,
}

/// The kind of a block's terminator: `ret`, a conditional branch, a jump, a
/// `switch`, something else, or none at all.
pub open spec fn term_kind_spec(t: Option<Seq<char>>) -> TermKind {
    match t {
        None => TermKind::Missing,
        Some(t) => if starts_with(t, "ret "@) {
            TermKind::Ret
        } else if contains(t, "br i1"@) {
            TermKind::Cond
        } else if starts_with(t, "br label"@) {
            TermKind::Jump
        } else if starts_with(t, "switch"@) {
            TermKind::Switch
        } else {
            TermKind::Other
        },
    }
}

/// How a block ends, by its terminator.
pub fn terminator_kind(t: &Option<String>) -> (r: TermKind)
    ensures
        r == term_kind_spec(t.deep_view()),
{
    match t {
        None => TermKind::Missing,
        Some(s) => {
            let s = s.as_str();
            if starts_with_str(s, "ret ") {
                TermKind::Ret
            } else if contains_str(s, "br i1") {
                TermKind::Cond
            } else if starts_with_str(s, "br label") {
                TermKind::Jump
            } else if starts_with_str(s, "switch") {
                TermKind::Switch
            } else {
                TermKind::Other
            }
        },
    }
}

/// How an instruction of a block is shown.
#[derive(Debug, Clone, Copy, PartialEq, Eq)]
pub enum InstrStyle {
    Alloca,
    Store,
    Call,
    Phi,
    Other,
}

pub open spec fn instr_style_spec(i: Seq<char>) -> InstrStyle {
    if contains(i, "= alloca "@) {
        InstrStyle::Alloca
    } else if starts_with(i, "store "@) {
        InstrStyle::Store
    } else if contains(i, "call "@) {
        InstrStyle::Call
    } else if contains(i, "= phi "@) {
        InstrStyle::Phi
    } else {
        InstrStyle::Other
    }
}

/// The style of an instruction in a block's detail.
pub fn instruction_style(i: &str) -> (r: InstrStyle)
    ensures
        r == instr_style_spec(i@),
{
    if contains_str(i, "= alloca ") {
        InstrStyle::Alloca
    } else if starts_with_str(i, "store ") {
        InstrStyle::Store
    } else if contains_str(i, "call ") {
        InstrStyle::Call
    } else if contains_str(i, "= phi ") {
        InstrStyle::Phi
    } else {
        InstrStyle::Other
    }
}

/// The first block from `k` on whose label is `target` or holds it.
pub open spec fn block_named_from(bs: Seq<crate::cfg::BlockView>, target: Seq<char>, k: nat) -> Option<int>
    decreases bs.len() - k,
{
    if k >= bs.len() {
        None
    } else if bs[k as int].label == target || contains(bs[k as int].label, target) {
        Some(k as int)
    } else {
        block_named_from(bs, target, k + 1)
    }
}

/// The first block whose label is `target` or holds it.
pub fn find_block(blocks: &Vec<Block>, target: &str) -> (r: Option<usize>)
    ensures
        match r {
            Some(i) => block_named_from(crate::cfg::block_views(blocks@), target@, 0) == Some(i as int),
            None => block_named_from(crate::cfg::block_views(blocks@), target@, 0) is None,
        },
{
    let ghost bv = crate::cfg::block_views(blocks@);
    let t = target.to_string();
    let mut i: usize = 0;
    while i < blocks.len()
        invariant
            i <= blocks@.len(),
            bv == crate::cfg::block_views(blocks@),
            t@ == target@,
            block_named_from(bv, target@, 0) == block_named_from(bv, target@, i as nat),
        decreases blocks@.len() - i,
    {
        assert(bv[i as int] == blocks@[i as int]@);
        if blocks[i].label == t || contains_str(blocks[i].label.as_str(), target) {
            return Some(i);
        }
        i += 1;
    }
    None
}

} // verus!
