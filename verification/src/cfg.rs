//! Basic blocks of a function body: their instructions, terminators,
//! successors and predecessors.
use vstd::prelude::*;
use vstd::string::StringSliceAdditionalSpecFns;
use crate::rx::{captures, captures_ok, group_str, group_text, rx_caps};
use crate::schema::copy_strings;
use crate::text::{contains, contains_str, lines, lines_of, starts_with, starts_with_str, trim, trim_str};

verus! {

/// One basic block.
#[derive(Debug, Clone)]
pub struct Block {
    pub label: String,
    pub instructions: Vec<String>,
    pub terminator: Option<String>,
    pub successors: Vec<String>,
    pub predecessors: Vec<String>,
    pub allocas: usize,
    pub stores: usize,
    pub loads: usize,
    pub calls: usize,
}

pub struct BlockView {
    pub label: Seq<char>,
    pub instructions: Seq<Seq<char>>,
    pub terminator: Option<Seq<char>>,
    pub successors: Seq<Seq<char>>,
    pub predecessors: Seq<Seq<char>>,
    pub allocas: usize,
    pub stores: usize,
    pub loads: usize,
    pub calls: usize,
}

impl View for Block {
    type V = BlockView;

    open spec fn view(&self) -> BlockView {
        BlockView {
            label: self.label@,
            instructions: self.instructions.deep_view(),
            terminator: self.terminator.deep_view(),
            successors: self.successors.deep_view(),
            predecessors: self.predecessors.deep_view(),
            allocas: self.allocas,
            stores: self.stores,
            loads: self.loads,
            calls: self.calls,
        }
    }
}

pub open spec fn block_views(bs: Seq<Block>) -> Seq<BlockView> {
    bs.map_values(|b: Block| b@)
}

pub const COND_BRANCH_PATTERN: &'static str = r"br i1 .+, label %(\w+), label %(\w+)";
pub const BRANCH_PATTERN: &'static str = r"br label %(\w+)";
pub const LABEL_OPERAND_PATTERN: &'static str = r"label %(\w+)";
pub const BLOCK_LABEL_LINE_PATTERN: &'static str = r"^([a-zA-Z_][\w.]*):";

/// The blocks a terminator goes to: both targets of a conditional branch, the
/// target of a branch, or each label of a switch once.
pub open spec fn successors_of(term: Seq<char>) -> Seq<Seq<char>> {
    let c = rx_caps(COND_BRANCH_PATTERN@, term);
    let b = rx_caps(BRANCH_PATTERN@, term);
    if c.len() > 0 {
        seq![group_text(term, c[0], 1), group_text(term, c[0], 2)]
    } else if b.len() > 0 {
        seq![group_text(term, b[0], 1)]
    } else if starts_with(term, "switch"@) {
        let ls = rx_caps(LABEL_OPERAND_PATTERN@, term).map_values(
            |x: Seq<Option<(usize, usize)>>| group_text(term, x, 1),
        );
        crate::callgraph::distinct(ls, ls.len())
    } else {
        Seq::empty()
    }
}

pub fn extract_successors(term: &str) -> (r: Vec<String>)
    ensures
        r.deep_view() == successors_of(term@),
{
    let c = captures(COND_BRANCH_PATTERN, term);
    if c.len() > 0 {
        proof {
            crate::ir::lemma_match_spans(c.deep_view(), 0, term.spec_bytes());
            assert(c.deep_view()[0] == c[0].deep_view());
        }
        let r = vec![group_str(term, &c[0], 1), group_str(term, &c[0], 2)];
        assert(r.deep_view() =~= successors_of(term@));
        return r;
    }
    let b = captures(BRANCH_PATTERN, term);
    if b.len() > 0 {
        proof {
            crate::ir::lemma_match_spans(b.deep_view(), 0, term.spec_bytes());
            assert(b.deep_view()[0] == b[0].deep_view());
        }
        let r = vec![group_str(term, &b[0], 1)];
        assert(r.deep_view() =~= successors_of(term@));
        return r;
    }
    if starts_with_str(term, "switch") {
        let ls = captures(LABEL_OPERAND_PATTERN, term);
        let names = crate::c_parser::group_texts(term, &ls, 1);
        return crate::callgraph::distinct_strings(&names);
    }
    let r: Vec<String> = Vec::new();
    assert(r.deep_view() =~= successors_of(term@));
    r
}

/// Instructions among the first `n` that hold (or, with `prefix`, start with) `pat`.
pub open spec fn count_instrs(is: Seq<Seq<char>>, pat: Seq<char>, prefix: bool, n: nat) -> nat
    decreases n,
{
    if n == 0 || n > is.len() {
        0
    } else {
        count_instrs(is, pat, prefix, (n - 1) as nat) + if (if prefix {
            starts_with(is[n - 1], pat)
        } else {
            contains(is[n - 1], pat)
        }) {
            1nat
        } else {
            0nat
        }
    }
}

/// A block with its counts of allocas, stores, loads and calls, and no
/// predecessors yet.
pub open spec fn block_of(
    label: Seq<char>,
    is: Seq<Seq<char>>,
    term: Option<Seq<char>>,
    succs: Seq<Seq<char>>,
) -> BlockView {
    BlockView {
        label,
        instructions: is,
        terminator: term,
        successors: succs,
        predecessors: Seq::empty(),
        allocas: count_instrs(is, "= alloca "@, false, is.len()) as usize,
        stores: count_instrs(is, "store "@, true, is.len()) as usize,
        loads: count_instrs(is, "= load "@, false, is.len()) as usize,
        calls: count_instrs(is, "call "@, false, is.len()) as usize,
    }
}

fn count_instrs_exec(is: &Vec<String>, pat: &str, prefix: bool) -> (n: usize)
    ensures
        n == count_instrs(is.deep_view(), pat@, prefix, is@.len() as nat),
{
    let mut n: usize = 0;
    let mut i: usize = 0;
    while i < is.len()
        invariant
            i <= is@.len(),
            n <= i,
            n == count_instrs(is.deep_view(), pat@, prefix, i as nat),
        decreases is@.len() - i,
    {
        assert(is.deep_view()[i as int] == is@[i as int]@);
        let hit = if prefix {
            starts_with_str(is[i].as_str(), pat)
        } else {
            contains_str(is[i].as_str(), pat)
        };
        if hit {
            n += 1;
        }
        i += 1;
    }
    n
}

pub fn make_block(label: String, instrs: Vec<String>, term: Option<String>, successors: Vec<String>) -> (b: Block)
    ensures
        b@ == block_of(label@, instrs.deep_view(), term.deep_view(), successors.deep_view()),
{
    let allocas = count_instrs_exec(&instrs, "= alloca ", false);
    let stores = count_instrs_exec(&instrs, "store ", true);
    let loads = count_instrs_exec(&instrs, "= load ", false);
    let calls = count_instrs_exec(&instrs, "call ", false);
    let b = Block {
        label,
        instructions: instrs,
        terminator: term,
        successors,
        predecessors: Vec::new(),
        allocas,
        stores,
        loads,
        calls,
    };
    assert(b@.predecessors =~= Seq::<Seq<char>>::empty());
    b
}

/// The state of a scan of a body's lines: the current block's label,
/// instructions and terminator, and the blocks finished so far.
pub struct BlockScan {
    pub label: Seq<char>,
    pub instrs: Seq<Seq<char>>,
    pub term: Option<Seq<char>>,
    pub blocks: Seq<BlockView>,
}

/// A trimmed line that ends a block.
pub open spec fn is_terminator(t: Seq<char>) -> bool {
    starts_with(t, "br "@) || starts_with(t, "ret "@) || starts_with(t, "switch "@) || starts_with(
        t,
        "unreachable"@,
    )
}

/// The current block of a scan, finished, when it has an instruction or a terminator.
pub open spec fn close_block(st: BlockScan) -> Seq<BlockView> {
    if st.instrs.len() > 0 || st.term is Some {
        let t = match st.term {
            Some(x) => x,
            None => Seq::empty(),
        };
        st.blocks.push(block_of(st.label, st.instrs, st.term, successors_of(t)))
    } else {
        st.blocks
    }
}

/// Scan of the first `n` lines: a label line starts a block, a branch,
/// return, switch or `unreachable` ends one, any other non-blank line is an
/// instruction. Lines are trimmed.
pub open spec fn block_scan(ls: Seq<Seq<char>>, n: nat) -> BlockScan
    decreases n,
{
    if n == 0 || n > ls.len() {
        BlockScan { label: "entry"@, instrs: Seq::empty(), term: None, blocks: Seq::empty() }
    } else {
        let st = block_scan(ls, (n - 1) as nat);
        let t = trim(ls[n - 1]);
        let lc = rx_caps(BLOCK_LABEL_LINE_PATTERN@, t);
        if t.len() == 0 {
            st
        } else if lc.len() > 0 {
            BlockScan { label: group_text(t, lc[0], 1), instrs: Seq::empty(), term: None, blocks: close_block(st) }
        } else if is_terminator(t) {
            BlockScan { label: st.label, instrs: st.instrs, term: Some(t), blocks: st.blocks }
        } else {
            BlockScan { label: st.label, instrs: st.instrs.push(t), term: st.term, blocks: st.blocks }
        }
    }
}

/// The labels of the first `n` blocks that go to `label`, once per edge.
pub open spec fn preds_of(bs: Seq<BlockView>, label: Seq<char>, n: nat) -> Seq<Seq<char>>
    decreases n,
{
    if n == 0 || n > bs.len() {
        Seq::empty()
    } else {
        preds_of(bs, label, (n - 1) as nat) + Seq::new(
            count_eq(bs[n - 1].successors, label, bs[n - 1].successors.len()),
            |k: int| bs[n - 1].label,
        )
    }
}

/// How often `x` occurs among the first `n` items.
pub open spec fn count_eq(s: Seq<Seq<char>>, x: Seq<char>, n: nat) -> nat
    decreases n,
{
    if n == 0 || n > s.len() {
        0
    } else {
        count_eq(s, x, (n - 1) as nat) + if s[n - 1] == x {
            1nat
        } else {
            0nat
        }
    }
}

/// The blocks with their predecessors: the first block with a label gets all
/// edges to that label, a later block with the same label none.
pub open spec fn with_preds(bs: Seq<BlockView>) -> Seq<BlockView> {
    Seq::new(
        bs.len(),
        |i: int|
            BlockView {
                predecessors: if exists|j: int| 0 <= j < i && bs[j].label == bs[i].label {
                    Seq::empty()
                } else {
                    preds_of(bs, bs[i].label, bs.len())
                },
                ..bs[i]
            },
    )
}

/// The basic blocks of a function body.
pub open spec fn blocks_spec(body: Seq<char>) -> Seq<BlockView> {
    let ls = lines(body);
    with_preds(close_block(block_scan(ls, ls.len())))
}

fn copy_opt(o: &Option<String>) -> (r: Option<String>)
    ensures
        r.deep_view() == o.deep_view(),
{
    crate::schema::copy_opt_string(o)
}

fn close_block_exec(label: &String, instrs: &Vec<String>, term: &Option<String>, blocks: &mut Vec<Block>)
    ensures
        block_views(final(blocks)@) == close_block(
            BlockScan {
                label: label@,
                instrs: instrs.deep_view(),
                term: term.deep_view(),
                blocks: block_views(old(blocks)@),
            },
        ),
{
    if instrs.len() > 0 || term.is_some() {
        let t = match term {
            Some(x) => x.clone(),
            None => String::new(),
        };
        let succs = extract_successors(t.as_str());
        let b = make_block(label.clone(), copy_strings(instrs), copy_opt(term), succs);
        let ghost before = block_views(blocks@);
        let ghost bv = b@;
        blocks.push(b);
        assert(block_views(blocks@) =~= before.push(bv));
    }
}

fn preds_exec(blocks: &Vec<Block>, label: &String) -> (r: Vec<String>)
    ensures
        r.deep_view() == preds_of(block_views(blocks@), label@, blocks@.len() as nat),
{
    let ghost bv = block_views(blocks@);
    let mut r: Vec<String> = Vec::new();
    let mut j: usize = 0;
    while j < blocks.len()
        invariant
            j <= blocks@.len(),
            bv == block_views(blocks@),
            r.deep_view() == preds_of(bv, label@, j as nat),
        decreases blocks@.len() - j,
    {
        let b = &blocks[j];
        assert(bv[j as int] == b@);
        let ghost base = r.deep_view();
        let mut k: usize = 0;
        while k < b.successors.len()
            invariant
                k <= b.successors@.len(),
                r.deep_view() == base + Seq::new(
                    count_eq(b@.successors, label@, k as nat),
                    |x: int| b@.label,
                ),
            decreases b.successors@.len() - k,
        {
            assert(b@.successors[k as int] == b.successors@[k as int]@);
            let ghost before = r.deep_view();
            if b.successors[k] == *label {
                let lb = b.label.clone();
                let ghost lbv = lb@;
                r.push(lb);
                assert(count_eq(b@.successors, label@, (k + 1) as nat) == count_eq(
                    b@.successors,
                    label@,
                    k as nat,
                ) + 1);
                assert(r.deep_view() =~= before.push(lbv));
                assert(r.deep_view() =~= base + Seq::new(
                    count_eq(b@.successors, label@, (k + 1) as nat),
                    |x: int| b@.label,
                ));
            } else {
                assert(Seq::new(count_eq(b@.successors, label@, (k + 1) as nat), |x: int| b@.label)
                    =~= Seq::new(count_eq(b@.successors, label@, k as nat), |x: int| b@.label));
            }
            k += 1;
        }
        j += 1;
    }
    r
}

/// The basic blocks of a function body: a label line starts a block, a
/// branch, return, switch or `unreachable` ends one; each block with its
/// successors, its predecessors and its counts of allocas, stores, loads and
/// calls.
pub fn parse_blocks(body: &str) -> (r: Vec<Block>)
    ensures
        block_views(r@) == blocks_spec(body@),
{
    let ls = lines_of(body);
    let ghost lv = ls.deep_view();
    let mut label = "entry".to_string();
    let mut instrs: Vec<String> = Vec::new();
    let mut term: Option<String> = None;
    let mut blocks: Vec<Block> = Vec::new();
    let mut i: usize = 0;
    proof {
        assert(instrs.deep_view() =~= Seq::<Seq<char>>::empty());
        assert(block_views(blocks@) =~= Seq::<BlockView>::empty());
    }
    while i < ls.len()
        invariant
            i <= ls@.len(),
            lv == ls.deep_view(),
            lv == lines(body@),
            block_scan(lv, i as nat) == (BlockScan {
                label: label@,
                instrs: instrs.deep_view(),
                term: term.deep_view(),
                blocks: block_views(blocks@),
            }),
        decreases ls@.len() - i,
    {
        let t = trim_str(ls[i].as_str());
        assert(lv[i as int] == ls@[i as int]@);
        let ts = t.as_str();
        if !ts.is_empty() {
            let lc = captures(BLOCK_LABEL_LINE_PATTERN, ts);
            if lc.len() > 0 {
                proof {
                    crate::ir::lemma_match_spans(lc.deep_view(), 0, ts.spec_bytes());
                    assert(lc.deep_view()[0] == lc[0].deep_view());
                }
                close_block_exec(&label, &instrs, &term, &mut blocks);
                label = group_str(ts, &lc[0], 1);
                instrs = Vec::new();
                term = None;
                assert(instrs.deep_view() =~= Seq::<Seq<char>>::empty());
            } else if starts_with_str(ts, "br ") || starts_with_str(ts, "ret ") || starts_with_str(
                ts,
                "switch ",
            ) || starts_with_str(ts, "unreachable") {
                term = Some(t);
            } else {
                let ghost before = instrs.deep_view();
                instrs.push(t);
                assert(instrs.deep_view() =~= before.push(ts@));
            }
        }
        i += 1;
    }
    close_block_exec(&label, &instrs, &term, &mut blocks);
    let ghost bv = block_views(blocks@);
    let mut r: Vec<Block> = Vec::new();
    let mut k: usize = 0;
    while k < blocks.len()
        invariant
            k <= blocks@.len(),
            bv == block_views(blocks@),
            block_views(r@) == with_preds(bv).take(k as int),
        decreases blocks@.len() - k,
    {
        let b = &blocks[k];
        assert(bv[k as int] == b@);
        let mut seen = false;
        let mut j: usize = 0;
        while j < k
            invariant
                j <= k,
                k < blocks@.len(),
                bv == block_views(blocks@),
                seen == (exists|x: int| 0 <= x < j && bv[x].label == bv[k as int].label),
                b@ == bv[k as int],
            decreases k - j,
        {
            assert(bv[j as int] == blocks@[j as int]@);
            if blocks[j].label == b.label {
                seen = true;
                assert(bv[j as int].label == bv[k as int].label);
            } else {
                assert(bv[j as int].label != bv[k as int].label);
            }
            j += 1;
        }
        let preds = if seen {
            Vec::new()
        } else {
            preds_exec(&blocks, &b.label)
        };
        let nb = Block {
            label: b.label.clone(),
            instructions: copy_strings(&b.instructions),
            terminator: copy_opt(&b.terminator),
            successors: copy_strings(&b.successors),
            predecessors: preds,
            allocas: b.allocas,
            stores: b.stores,
            loads: b.loads,
            calls: b.calls,
        };
        proof {
            let w = with_preds(bv);
            if seen {
                assert(nb@.predecessors =~= Seq::<Seq<char>>::empty());
            }
            assert(nb@ == w[k as int]);
        }
        let ghost before = block_views(r@);
        let ghost nv = nb@;
        r.push(nb);
        assert(block_views(r@) =~= before.push(nv));
        assert(with_preds(bv).take(k + 1) =~= with_preds(bv).take(k as int).push(nv));
        k += 1;
    }
    assert(with_preds(bv).take(k as int) =~= with_preds(bv));
    r
}

} // verus!
