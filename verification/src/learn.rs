//! Learning from a session log: how many logged commands failed or crashed,
//! which error patterns their output shows and how often, the functions and
//! struct types the failures mention, and the checks worth running next.
use vstd::prelude::*;
use vstd::string::StringSliceAdditionalSpecFns;
use crate::diagnose::{truncate, truncate_spec};
use crate::engine::regex_matches;
use crate::order::{tally, tally_spec};
use crate::rx::{all_groups, rx_count, rx_groups};
use crate::session::LogEntry;
use crate::text::{push_all, starts_with, starts_with_str, trim, trim_str};

verus! {

pub const CLANG_ERROR_PATTERN: &'static str = r"error: (.+)";
pub const LLVM_TYPE_PATTERN: &'static str = r"defined with type '(.+)' but expected '(.+)'";
pub const INSERTVALUE_PATTERN: &'static str = r"invalid indices for insertvalue";
pub const PHI_PREDECESSOR_PATTERN: &'static str = r"PHINode should have one entry for each predecessor";
pub const INVALID_READ_PATTERN: &'static str = r"Invalid read of size (\d+)";
pub const INVALID_WRITE_PATTERN: &'static str = r"Invalid write of size (\d+)";
pub const ADDRESS_PATTERN: &'static str = r"Address (0x[0-9a-fA-F]+) is";
pub const STACK_OVERFLOW_PATTERN: &'static str = r"stack overflow|Stack overflow";
pub const SEGFAULT_PATTERN: &'static str = r"Segmentation fault|SIGSEGV";
pub const ABORT_PATTERN: &'static str = r"Aborted|SIGABRT";
pub const CRASH_FUNCTION_PATTERN: &'static str = r"in (\w+) \(";
pub const STRUCT_MENTION_PATTERN: &'static str = r"%struct\.(\w+)";

/// The output of a command: standard output, a newline, standard error.
pub open spec fn combined(e: LogEntry) -> Seq<char> {
    e.stdout@ + "\n"@ + e.stderr@
}

/// `label` when `pattern` matches `text`.
pub open spec fn flag(pattern: Seq<char>, text: Seq<char>, label: Seq<char>) -> Seq<Seq<char>> {
    if rx_count(pattern, text) > 0 {
        seq![label]
    } else {
        Seq::empty()
    }
}

/// The two types of the first "defined with type ... but expected ..." note.
pub open spec fn type_mismatch_label(text: Seq<char>) -> Seq<Seq<char>> {
    let a = rx_groups(LLVM_TYPE_PATTERN@, text, 1);
    let b = rx_groups(LLVM_TYPE_PATTERN@, text, 2);
    if a.len() > 0 {
        seq!["Type mismatch: "@ + a[0] + " vs "@ + b[0]]
    } else {
        Seq::empty()
    }
}

/// Byte length of a text.
pub open spec fn byte_len(s: Seq<char>) -> nat {
    vstd::utf8::encode_utf8(s).len()
}

/// The clang errors among the first `n` `error: ...` messages: those between
/// 10 and 200 bytes once trimmed, cut to 80 bytes.
pub open spec fn clang_labels(msgs: Seq<Seq<char>>, n: nat) -> Seq<Seq<char>>
    decreases n,
{
    if n == 0 || n > msgs.len() {
        Seq::empty()
    } else {
        let prev = clang_labels(msgs, (n - 1) as nat);
        let err = trim(msgs[n - 1]);
        if 10 < byte_len(err) && byte_len(err) < 200 {
            prev.push("clang: "@ + truncate_spec(err, 80))
        } else {
            prev
        }
    }
}

/// Every clang error that is cut at 80 bytes is cut on a character boundary.
pub open spec fn clang_cut_ok(stderr: Seq<char>) -> bool {
    let msgs = rx_groups(CLANG_ERROR_PATTERN@, stderr, 1);
    forall|k: int|
        0 <= k < msgs.len() && 80 < byte_len(trim(#[trigger] msgs[k])) ==> vstd::utf8::is_char_boundary(
            vstd::utf8::encode_utf8(trim(msgs[k])),
            80,
        )
}

/// The error patterns of one failed command, in the order they are checked.
pub open spec fn error_labels(e: LogEntry) -> Seq<Seq<char>> {
    let c = combined(e);
    let msgs = rx_groups(CLANG_ERROR_PATTERN@, e.stderr@, 1);
    flag(SEGFAULT_PATTERN@, c, "SIGSEGV (segfault)"@) + flag(ABORT_PATTERN@, c, "SIGABRT (abort)"@)
        + flag(STACK_OVERFLOW_PATTERN@, c, "Stack overflow"@) + flag(
        PHI_PREDECESSOR_PATTERN@,
        c,
        "PHI predecessor mismatch"@,
    ) + flag(INSERTVALUE_PATTERN@, c, "Invalid insertvalue indices"@) + type_mismatch_label(c)
        + flag(INVALID_READ_PATTERN@, c, "Invalid memory read (valgrind)"@) + flag(
        INVALID_WRITE_PATTERN@,
        c,
        "Invalid memory write (valgrind)"@,
    ) + clang_labels(msgs, msgs.len())
}

/// The function names among the first `n` "in NAME (" mentions, leaving out
/// `in` and names of two bytes or fewer.
pub open spec fn function_mentions(names: Seq<Seq<char>>, n: nat) -> Seq<Seq<char>>
    decreases n,
{
    if n == 0 || n > names.len() {
        Seq::empty()
    } else {
        let prev = function_mentions(names, (n - 1) as nat);
        if names[n - 1] != "in"@ && byte_len(names[n - 1]) > 2 {
            prev.push(names[n - 1])
        } else {
            prev
        }
    }
}

/// The failed commands among the first `n` entries.
pub open spec fn failures(es: Seq<LogEntry>, n: nat) -> Seq<LogEntry>
    decreases n,
{
    if n == 0 || n > es.len() {
        Seq::empty()
    } else {
        let prev = failures(es, (n - 1) as nat);
        if es[n - 1].exit_code != 0 {
            prev.push(es[n - 1])
        } else {
            prev
        }
    }
}

/// The crashes (exit codes 139 and 134) among the first `n` entries.
pub open spec fn crash_count(es: Seq<LogEntry>, n: nat) -> nat
    decreases n,
{
    if n == 0 || n > es.len() {
        0
    } else {
        crash_count(es, (n - 1) as nat) + if es[n - 1].exit_code == 139 || es[n - 1].exit_code == 134 {
            1nat
        } else {
            0nat
        }
    }
}

/// Something a failure suggests checking next.
#[derive(Debug, Clone, PartialEq, Eq)]
pub enum Suggestion {
    /// A type mismatch in `insertvalue`/`extractvalue`: audit the field indices.
    FieldIndexAudit,
    /// A PHI node that misses a predecessor.
    PhiPredecessor,
    /// A crash at a null or small address: map the offset to a field.
    SmallOffsetCrash(String),
    /// A stack overflow: look for loops whose counter never exits.
    LoopCounter,
}

pub enum SuggestionView {
    FieldIndexAudit,
    PhiPredecessor,
    SmallOffsetCrash(Seq<char>),
    LoopCounter,
}

impl View for Suggestion {
    type V = SuggestionView;

    open spec fn view(&self) -> SuggestionView {
        match self {
            Suggestion::FieldIndexAudit => SuggestionView::FieldIndexAudit,
            Suggestion::PhiPredecessor => SuggestionView::PhiPredecessor,
            Suggestion::SmallOffsetCrash(a) => SuggestionView::SmallOffsetCrash(a@),
            Suggestion::LoopCounter => SuggestionView::LoopCounter,
        }
    }
}

pub open spec fn suggestion_views(s: Seq<Suggestion>) -> Seq<SuggestionView> {
    s.map_values(|x: Suggestion| x@)
}

/// An address at 0, or whose hex digits start with 1 or 2.
pub open spec fn small_address(a: Seq<char>) -> bool {
    a == "0x0"@ || starts_with(a, "0x2"@) || starts_with(a, "0x1"@)
}

/// The suggestions after one more failure, at most five in all.
pub open spec fn suggest_step(acc: Seq<SuggestionView>, c: Seq<char>) -> Seq<SuggestionView> {
    let a1 = if rx_count(LLVM_TYPE_PATTERN@, c) > 0 && acc.len() < 5 {
        acc.push(SuggestionView::FieldIndexAudit)
    } else {
        acc
    };
    let a2 = if rx_count(PHI_PREDECESSOR_PATTERN@, c) > 0 && a1.len() < 5 {
        a1.push(SuggestionView::PhiPredecessor)
    } else {
        a1
    };
    let addrs = rx_groups(ADDRESS_PATTERN@, c, 1);
    let a3 = if rx_count(SEGFAULT_PATTERN@, c) > 0 && a2.len() < 5 && addrs.len() > 0 && small_address(
        addrs[0],
    ) {
        a2.push(SuggestionView::SmallOffsetCrash(addrs[0]))
    } else {
        a2
    };
    if rx_count(STACK_OVERFLOW_PATTERN@, c) > 0 && a3.len() < 5 {
        a3.push(SuggestionView::LoopCounter)
    } else {
        a3
    }
}

/// The suggestions of the first `n` failures.
pub open spec fn suggestions_of(fs: Seq<LogEntry>, n: nat) -> Seq<SuggestionView>
    decreases n,
{
    if n == 0 || n > fs.len() {
        Seq::empty()
    } else {
        suggest_step(suggestions_of(fs, (n - 1) as nat), combined(fs[n - 1]))
    }
}

/// The error patterns of the first `n` failures, in order.
pub open spec fn all_error_labels(fs: Seq<LogEntry>, n: nat) -> Seq<Seq<char>>
    decreases n,
{
    if n == 0 || n > fs.len() {
        Seq::empty()
    } else {
        all_error_labels(fs, (n - 1) as nat) + error_labels(fs[n - 1])
    }
}

/// The functions that the first `n` failures mention.
pub open spec fn all_function_mentions(fs: Seq<LogEntry>, n: nat) -> Seq<Seq<char>>
    decreases n,
{
    if n == 0 || n > fs.len() {
        Seq::empty()
    } else {
        let names = rx_groups(CRASH_FUNCTION_PATTERN@, combined(fs[n - 1]), 1);
        all_function_mentions(fs, (n - 1) as nat) + function_mentions(names, names.len())
    }
}

/// The struct types that the first `n` failures mention.
pub open spec fn all_struct_mentions(fs: Seq<LogEntry>, n: nat) -> Seq<Seq<char>>
    decreases n,
{
    if n == 0 || n > fs.len() {
        Seq::empty()
    } else {
        all_struct_mentions(fs, (n - 1) as nat) + rx_groups(
            STRUCT_MENTION_PATTERN@,
            combined(fs[n - 1]),
            1,
        )
    }
}

/// What a session log teaches: the number of commands, failures and crashes,
/// the error patterns, the functions and the struct types that the failures
/// show (each with its count, the most frequent first), and the suggestions.
pub struct LearnReport {
    pub total: usize,
    pub failures: usize,
    pub crashes: usize,
    pub error_types: Vec<(String, usize)>,
    pub crash_functions: Vec<(String, usize)>,
    pub affected_structs: Vec<(String, usize)>,
    pub suggestions: Vec<Suggestion>,
}

pub open spec fn counts_view(v: Seq<(String, usize)>) -> Seq<(Seq<char>, nat)> {
    v.map_values(|e: (String, usize)| (e.0@, e.1 as nat))
}

fn combined_exec(e: &LogEntry) -> (r: String)
    ensures
        r@ == combined(*e),
{
    let mut r = e.stdout.clone();
    push_all(&mut r, "\n");
    push_all(&mut r, e.stderr.as_str());
    proof {
        reveal_strlit("\n");
    }
    r
}

fn push_flag(pattern: &str, text: &str, label: &str, out: &mut Vec<String>)
    ensures
        final(out).deep_view() == old(out).deep_view() + flag(pattern@, text@, label@),
{
    let ghost base = out.deep_view();
    if regex_matches(pattern, text) {
        out.push(label.to_string());
        assert(out.deep_view() =~= base + seq![label@]);
    } else {
        assert(out.deep_view() =~= base + Seq::<Seq<char>>::empty());
    }
}

fn push_clang_labels(stderr: &str, out: &mut Vec<String>)
    requires
        clang_cut_ok(stderr@),
    ensures
        final(out).deep_view() == old(out).deep_view() + clang_labels(
            rx_groups(CLANG_ERROR_PATTERN@, stderr@, 1),
            rx_groups(CLANG_ERROR_PATTERN@, stderr@, 1).len(),
        ),
{
    let msgs = all_groups(CLANG_ERROR_PATTERN, stderr, 1);
    let ghost mv = msgs.deep_view();
    let ghost base = out.deep_view();
    let mut k: usize = 0;
    while k < msgs.len()
        invariant
            k <= msgs@.len(),
            mv == msgs.deep_view(),
            mv == rx_groups(CLANG_ERROR_PATTERN@, stderr@, 1),
            clang_cut_ok(stderr@),
            out.deep_view() == base + clang_labels(mv, k as nat),
        decreases msgs@.len() - k,
    {
        assert(mv[k as int] == msgs@[k as int]@);
        let err = trim_str(msgs[k].as_str());
        let es = err.as_str();
        let n = es.as_bytes().len();
        proof {
            broadcast use vstd::utf8::group_utf8_lib;

            assert(es.spec_bytes() == vstd::utf8::encode_utf8(es@));
        }
        if 10 < n && n < 200 {
            let mut label = "clang: ".to_string();
            let cut = truncate(es, 80);
            push_all(&mut label, cut.as_str());
            proof {
                reveal_strlit("clang: ");
            }
            let ghost before = out.deep_view();
            out.push(label);
            assert(out.deep_view() =~= before.push("clang: "@ + truncate_spec(trim(mv[k as int]), 80)));
        }
        k += 1;
    }
}

/// The error patterns that a failed command's output shows, in the order
/// they are checked; clang errors are cut to 80 bytes.
pub fn error_labels_of(e: &LogEntry) -> (r: Vec<String>)
    requires
        clang_cut_ok(e.stderr@),
    ensures
        r.deep_view() == error_labels(*e),
{
    let c = combined_exec(e);
    let cs = c.as_str();
    let mut r: Vec<String> = Vec::new();
    push_flag(SEGFAULT_PATTERN, cs, "SIGSEGV (segfault)", &mut r);
    push_flag(ABORT_PATTERN, cs, "SIGABRT (abort)", &mut r);
    push_flag(STACK_OVERFLOW_PATTERN, cs, "Stack overflow", &mut r);
    push_flag(PHI_PREDECESSOR_PATTERN, cs, "PHI predecessor mismatch", &mut r);
    push_flag(INSERTVALUE_PATTERN, cs, "Invalid insertvalue indices", &mut r);
    let a = all_groups(LLVM_TYPE_PATTERN, cs, 1);
    let ghost before = r.deep_view();
    if a.len() > 0 {
        let b = all_groups(LLVM_TYPE_PATTERN, cs, 2);
        assert(b.deep_view().len() == a.deep_view().len());
        let mut label = "Type mismatch: ".to_string();
        push_all(&mut label, a[0].as_str());
        push_all(&mut label, " vs ");
        push_all(&mut label, b[0].as_str());
        proof {
            reveal_strlit("Type mismatch: ");
            reveal_strlit(" vs ");
            assert(a.deep_view()[0] == a@[0]@);
            assert(b.deep_view()[0] == b@[0]@);
        }
        r.push(label);
        assert(r.deep_view() =~= before + type_mismatch_label(c@));
    } else {
        assert(r.deep_view() =~= before + type_mismatch_label(c@));
    }
    push_flag(INVALID_READ_PATTERN, cs, "Invalid memory read (valgrind)", &mut r);
    push_flag(INVALID_WRITE_PATTERN, cs, "Invalid memory write (valgrind)", &mut r);
    push_clang_labels(e.stderr.as_str(), &mut r);
    proof {
        assert(r.deep_view() =~= error_labels(*e));
    }
    r
}

fn push_function_mentions(c: &str, out: &mut Vec<String>)
    ensures
        final(out).deep_view() == old(out).deep_view() + function_mentions(
            rx_groups(CRASH_FUNCTION_PATTERN@, c@, 1),
            rx_groups(CRASH_FUNCTION_PATTERN@, c@, 1).len(),
        ),
{
    let names = all_groups(CRASH_FUNCTION_PATTERN, c, 1);
    let ghost nv = names.deep_view();
    let ghost base = out.deep_view();
    let mut k: usize = 0;
    while k < names.len()
        invariant
            k <= names@.len(),
            nv == names.deep_view(),
            out.deep_view() == base + function_mentions(nv, k as nat),
        decreases names@.len() - k,
    {
        assert(nv[k as int] == names@[k as int]@);
        let name = names[k].as_str();
        proof {
            broadcast use vstd::utf8::group_utf8_lib;

            assert(name.spec_bytes() == vstd::utf8::encode_utf8(name@));
            reveal_strlit("in");
        }
        let is_in = names[k] == "in".to_string();
        assert(is_in == (name@ == "in"@));
        if !is_in && name.as_bytes().len() > 2 {
            let ghost before = out.deep_view();
            out.push(names[k].clone());
            assert(out.deep_view() =~= before.push(nv[k as int]));
        }
        k += 1;
    }
}

/// Every failed command's clang errors are cut on character boundaries.
pub open spec fn learn_ok(es: Seq<LogEntry>) -> bool {
    forall|i: int| 0 <= i < es.len() && (#[trigger] es[i]).exit_code != 0 ==> clang_cut_ok(es[i].stderr@)
}

/// The share of failures, in percent, rounded down (0 for an empty log).
pub open spec fn failure_percent_spec(failures: nat, total: nat) -> nat {
    (failures * 100) / if total > 0 {
        total
    } else {
        1
    }
}

/// The share of failures among all commands, in percent.
pub fn failure_percent(failures: usize, total: usize) -> (r: usize)
    requires
        failures <= total,
    ensures
        r == failure_percent_spec(failures as nat, total as nat),
        r <= 100,
{
    let d: u128 = if total > 0 {
        total as u128
    } else {
        1
    };
    let p: u128 = (failures as u128) * 100;
    proof {
        assert(p / d <= 100) by (nonlinear_arith)
            requires
                p == failures * 100,
                failures <= d,
                d >= 1,
        ;
    }
    (p / d) as usize
}

/// What the session log `entries` shows: failures and crashes, the error
/// patterns, the functions and struct types the failures mention (counted,
/// the most frequent first), and at most five suggestions.
pub fn learn_report(entries: &Vec<LogEntry>) -> (r: LearnReport)
    requires
        learn_ok(entries@),
    ensures
        r.total == entries@.len(),
        r.failures == failures(entries@, entries@.len() as nat).len(),
        r.crashes == crash_count(entries@, entries@.len() as nat),
        counts_view(r.error_types@) == tally_spec(
            all_error_labels(
                failures(entries@, entries@.len() as nat),
                failures(entries@, entries@.len() as nat).len(),
            ),
        ),
        counts_view(r.crash_functions@) == tally_spec(
            all_function_mentions(
                failures(entries@, entries@.len() as nat),
                failures(entries@, entries@.len() as nat).len(),
            ),
        ),
        counts_view(r.affected_structs@) == tally_spec(
            all_struct_mentions(
                failures(entries@, entries@.len() as nat),
                failures(entries@, entries@.len() as nat).len(),
            ),
        ),
        suggestion_views(r.suggestions@) == suggestions_of(
            failures(entries@, entries@.len() as nat),
            failures(entries@, entries@.len() as nat).len(),
        ),
{
    let ghost es = entries@;
    let mut labels: Vec<String> = Vec::new();
    let mut funcs: Vec<String> = Vec::new();
    let mut structs: Vec<String> = Vec::new();
    let mut suggestions: Vec<Suggestion> = Vec::new();
    let mut nfail: usize = 0;
    let mut crashes: usize = 0;
    let mut i: usize = 0;
    while i < entries.len()
        invariant
            i <= es.len(),
            es == entries@,
            learn_ok(es),
            nfail == failures(es, i as nat).len(),
            nfail <= i,
            crashes == crash_count(es, i as nat),
            crashes <= i,
            labels.deep_view() == all_error_labels(failures(es, i as nat), nfail as nat),
            funcs.deep_view() == all_function_mentions(failures(es, i as nat), nfail as nat),
            structs.deep_view() == all_struct_mentions(failures(es, i as nat), nfail as nat),
            suggestion_views(suggestions@) == suggestions_of(failures(es, i as nat), nfail as nat),
            suggestions@.len() <= 5,
        decreases es.len() - i,
    {
        let e = &entries[i];
        if e.exit_code == 139 || e.exit_code == 134 {
            crashes += 1;
        }
        if e.exit_code != 0 {
            let ghost fs0 = failures(es, i as nat);
            let ghost fs1 = failures(es, (i + 1) as nat);
            assert(fs1 == fs0.push(*e));
            let c = combined_exec(e);
            let cs = c.as_str();
            let ls = error_labels_of(e);
            let ghost l0 = labels.deep_view();
            let mut q: usize = 0;
            while q < ls.len()
                invariant
                    q <= ls@.len(),
                    labels.deep_view() == l0 + ls.deep_view().take(q as int),
                decreases ls@.len() - q,
            {
                let ghost before = labels.deep_view();
                labels.push(ls[q].clone());
                assert(ls.deep_view().take(q + 1) =~= ls.deep_view().take(q as int).push(ls@[q as int]@));
                assert(labels.deep_view() =~= before.push(ls@[q as int]@));
                q += 1;
            }
            assert(ls.deep_view().take(q as int) =~= ls.deep_view());
            push_function_mentions(cs, &mut funcs);
            let ss = all_groups(STRUCT_MENTION_PATTERN, cs, 1);
            let ghost s0 = structs.deep_view();
            let mut q2: usize = 0;
            while q2 < ss.len()
                invariant
                    q2 <= ss@.len(),
                    structs.deep_view() == s0 + ss.deep_view().take(q2 as int),
                decreases ss@.len() - q2,
            {
                let ghost before = structs.deep_view();
                structs.push(ss[q2].clone());
                assert(ss.deep_view().take(q2 + 1) =~= ss.deep_view().take(q2 as int).push(ss@[q2 as int]@));
                assert(structs.deep_view() =~= before.push(ss@[q2 as int]@));
                q2 += 1;
            }
            assert(ss.deep_view().take(q2 as int) =~= ss.deep_view());
            suggest_exec(cs, &mut suggestions);
            nfail += 1;
            proof {
                lemma_folds_agree(fs0, fs1, (nfail - 1) as nat);
            }
        } else {
            assert(failures(es, (i + 1) as nat) == failures(es, i as nat));
        }
        i += 1;
    }
    LearnReport {
        total: entries.len(),
        failures: nfail,
        crashes,
        error_types: tally(&labels),
        crash_functions: tally(&funcs),
        affected_structs: tally(&structs),
        suggestions,
    }
}

/// Folds over two lists that agree on their first `n` entries agree.
proof fn lemma_folds_agree(s: Seq<LogEntry>, t: Seq<LogEntry>, n: nat)
    requires
        n <= s.len(),
        n <= t.len(),
        forall|k: int| 0 <= k < n ==> s[k] == t[k],
    ensures
        all_error_labels(s, n) == all_error_labels(t, n),
        all_function_mentions(s, n) == all_function_mentions(t, n),
        all_struct_mentions(s, n) == all_struct_mentions(t, n),
        suggestions_of(s, n) == suggestions_of(t, n),
    decreases n,
{
    if n > 0 {
        lemma_folds_agree(s, t, (n - 1) as nat);
    }
}

fn suggest_exec(c: &str, out: &mut Vec<Suggestion>)
    requires
        old(out)@.len() <= 5,
    ensures
        suggestion_views(final(out)@) == suggest_step(suggestion_views(old(out)@), c@),
        final(out)@.len() <= 5,
{
    let ghost acc = suggestion_views(out@);
    if regex_matches(LLVM_TYPE_PATTERN, c) && out.len() < 5 {
        out.push(Suggestion::FieldIndexAudit);
        assert(suggestion_views(out@) =~= acc.push(SuggestionView::FieldIndexAudit));
    }
    let ghost a1 = suggestion_views(out@);
    if regex_matches(PHI_PREDECESSOR_PATTERN, c) && out.len() < 5 {
        out.push(Suggestion::PhiPredecessor);
        assert(suggestion_views(out@) =~= a1.push(SuggestionView::PhiPredecessor));
    }
    let ghost a2 = suggestion_views(out@);
    if regex_matches(SEGFAULT_PATTERN, c) && out.len() < 5 {
        let addrs = all_groups(ADDRESS_PATTERN, c, 1);
        if addrs.len() > 0 {
            let a = addrs[0].as_str();
            assert(addrs.deep_view()[0] == a@);
            proof {
                reveal_strlit("0x0");
            }
            let zero = addrs[0] == "0x0".to_string();
            assert(zero == (a@ == "0x0"@));
            if zero || starts_with_str(a, "0x2") || starts_with_str(a, "0x1") {
                out.push(Suggestion::SmallOffsetCrash(addrs[0].clone()));
                assert(suggestion_views(out@) =~= a2.push(SuggestionView::SmallOffsetCrash(a@)));
            }
        }
    }
    let ghost a3 = suggestion_views(out@);
    if regex_matches(STACK_OVERFLOW_PATTERN, c) && out.len() < 5 {
        out.push(Suggestion::LoopCounter);
        assert(suggestion_views(out@) =~= a3.push(SuggestionView::LoopCounter));
    }
}

/// A line that reports an error.
pub open spec fn is_error_line(l: Seq<char>) -> bool {
    crate::text::contains(l, "error"@) || crate::text::contains(l, "Error"@) || crate::text::contains(
        l,
        "SIGSEGV"@,
    )
}

/// The first of the lines from `k` on that reports an error, or an empty text.
pub open spec fn first_error_from(ls: Seq<Seq<char>>, k: nat) -> Seq<char>
    decreases ls.len() - k,
{
    if k >= ls.len() {
        Seq::empty()
    } else if is_error_line(ls[k as int]) {
        ls[k as int]
    } else {
        first_error_from(ls, k + 1)
    }
}

/// The first line of a command's standard error that reports an error (one
/// that holds `error`, `Error` or `SIGSEGV`), or an empty text.
pub fn first_error_line(stderr: &str) -> (r: String)
    ensures
        r@ == first_error_from(crate::text::lines(stderr@), 0),
{
    let ls = crate::text::lines_of(stderr);
    let ghost lv = ls.deep_view();
    let mut k: usize = 0;
    while k < ls.len()
        invariant
            k <= ls@.len(),
            lv == ls.deep_view(),
            lv == crate::text::lines(stderr@),
            first_error_from(lv, 0) == first_error_from(lv, k as nat),
        decreases ls@.len() - k,
    {
        assert(lv[k as int] == ls@[k as int]@);
        let l = ls[k].as_str();
        if crate::text::contains_str(l, "error") || crate::text::contains_str(l, "Error")
            || crate::text::contains_str(l, "SIGSEGV") {
            return ls[k].clone();
        }
        k += 1;
    }
    String::new()
}

} // verus!
