//! Properties that relate several parts of the library to each other.
use vstd::prelude::*;
use vstd::utf8::{encode_scalar, encode_utf8};
use crate::eval::{escape_byte, escape_bytes, upper_hex_digit};
use crate::fix::c_string_count_from;
use crate::ir::{c_byte_count, c_bytes_from, is_hex_byte};
use crate::layout::{align_up, crash_map_of, field_align, field_at_from, field_covers, field_offset};
use crate::callgraph::{
    chains_upto, extend_from, extensions, find_paths_spec, first_five, graph_callees, level_paths,
    next_level, reaches, reaching,
};
use crate::diagnose::{diff_positions, first_shift, lemma_no_shift_match};
use crate::engine::FindingView;
use crate::fix::{align_fix_count, align_fix_of, aligned_lines, flagged};
use crate::loader::{filtered, passes_filter};
use crate::schema::{Severity, TemplateView};
use crate::text::matches_at;
use crate::baseline::{group_pos, groups_of, insert_by_count, lemma_group_pos, sort_by_count, template_groups};
use crate::baseline::{insert_by_severity, scan_spec, sort_by_severity, template_findings};
use crate::schema::severity_rank;
use crate::report::count_sev;
use crate::order::{insert_desc, order_desc};
use crate::stages::{
    added_of, diff_status, divergence_of, divergences_a, divergences_b, fn_names, named, DiffStatus,
};
use crate::ir::{names_unique, IRFunctionView};
use crate::missing_types::{
    body_uses, declares_uses, defined_names, function_uses, functions_uses, line_uses, missing_groups,
    type_uses_spec, undefined_uses, TypeUseView,
};
use crate::order::{key_groups, lex_lt, positions, strictly_sorted};
use crate::baseline::{BaselineEntryView, entries_where, entry_key, key_pos, keyed, keyed_all, lemma_key_pos};

verus! {

// ---------------------------------------------------------------------------
// Escaped string constants count back to their length
// ---------------------------------------------------------------------------

/// The byte that an ASCII character encodes as.
spec fn ascii_byte(c: char) -> u8 {
    (c as u32) as u8
}

proof fn lemma_encode_one_ascii(c: char)
    requires
        (c as u32) < 0x80,
    ensures
        encode_utf8(seq![c]) == seq![ascii_byte(c)],
{
    reveal_with_fuel(encode_utf8, 2);
    assert(seq![c].drop_first() =~= Seq::<char>::empty());
    let v = c as u32;
    assert(v & 0x7F == v) by (bit_vector)
        requires
            v < 0x80,
    ;
    assert(encode_scalar(v) =~= seq![(v & 0x7F) as u8]);
    assert(encode_utf8(seq![c]) =~= encode_scalar(v) + Seq::<u8>::empty());
}

proof fn lemma_encode_three_ascii(a: char, b: char, c: char)
    requires
        (a as u32) < 0x80,
        (b as u32) < 0x80,
        (c as u32) < 0x80,
    ensures
        encode_utf8(seq![a, b, c]) == seq![ascii_byte(a), ascii_byte(b), ascii_byte(c)],
{
    lemma_encode_one_ascii(a);
    lemma_encode_one_ascii(b);
    lemma_encode_one_ascii(c);
    assert(seq![a, b, c] =~= seq![a] + seq![b] + seq![c]);
    crate::text::lemma_encode_concat(seq![a] + seq![b], seq![c]);
    crate::text::lemma_encode_concat(seq![a], seq![b]);
    assert(seq![ascii_byte(a)] + seq![ascii_byte(b)] + seq![ascii_byte(c)] =~= seq![
        ascii_byte(a),
        ascii_byte(b),
        ascii_byte(c),
    ]);
}

proof fn lemma_hex_digit(d: nat)
    requires
        d < 16,
    ensures
        (upper_hex_digit(d) as u32) < 0x80,
        is_hex_byte(ascii_byte(upper_hex_digit(d))),
        upper_hex_digit(d) != '\x5C',
{
}

/// The bytes of `encode_utf8(escape_byte(x))` count as one byte.
proof fn lemma_escape_byte_counts_one(x: u8, rest: Seq<u8>)
    ensures
        c_bytes_from(encode_utf8(escape_byte(x)) + rest, 0) == 1 + c_bytes_from(rest, 0),
{
    let e = encode_utf8(escape_byte(x));
    if x == 0x5C || x == 0x22 || x < 0x20 || x > 0x7E {
        let (h1, h2) = if x == 0x5C {
            ('5', 'C')
        } else if x == 0x22 {
            ('2', '2')
        } else {
            (upper_hex_digit((x / 16) as nat), upper_hex_digit((x % 16) as nat))
        };
        if x != 0x5C && x != 0x22 {
            lemma_hex_digit((x / 16) as nat);
            lemma_hex_digit((x % 16) as nat);
        }
        assert(escape_byte(x) == seq!['\x5C', h1, h2]);
        lemma_encode_three_ascii('\x5C', h1, h2);
        let s = e + rest;
        assert(s[0] == 0x5C);
        assert(is_hex_byte(s[1]) && is_hex_byte(s[2]));
        lemma_c_bytes_shift(e, rest, 0);
    } else {
        assert(escape_byte(x) == seq![x as char]);
        lemma_encode_one_ascii(x as char);
        let s = e + rest;
        assert(s[0] == x);
        lemma_c_bytes_shift(e, rest, 0);
    }
}

/// Counting in `p + q` from inside `q` is counting in `q`.
proof fn lemma_c_bytes_shift(p: Seq<u8>, q: Seq<u8>, j: int)
    requires
        0 <= j,
    ensures
        c_bytes_from(p + q, p.len() + j) == c_bytes_from(q, j),
    decreases q.len() - j,
{
    let s = p + q;
    let i = p.len() + j;
    if j < q.len() {
        assert(s[i] == q[j]);
        if j + 2 < q.len() {
            assert(s[i + 1] == q[j + 1]);
            assert(s[i + 2] == q[j + 2]);
        }
        lemma_c_bytes_shift(p, q, j + 1);
        if j + 2 < q.len() {
            lemma_c_bytes_shift(p, q, j + 3);
        }
    }
}

/// Counting in `p + q` from inside `q` is counting in `q` (characters).
proof fn lemma_c_string_shift(p: Seq<char>, q: Seq<char>, j: int)
    requires
        0 <= j,
    ensures
        c_string_count_from(p + q, p.len() + j) == c_string_count_from(q, j),
    decreases q.len() - j,
{
    let s = p + q;
    let i = p.len() + j;
    if j < q.len() {
        assert(s[i] == q[j]);
        lemma_c_string_shift(p, q, j + 1);
        if j + 2 < q.len() {
            lemma_c_string_shift(p, q, j + 3);
        }
    }
}

proof fn lemma_escape_front(b: Seq<u8>)
    requires
        b.len() > 0,
    ensures
        escape_bytes(b) == escape_byte(b[0]) + escape_bytes(b.drop_first()),
    decreases b.len(),
{
    if b.len() == 1 {
        assert(b.drop_last() =~= Seq::<u8>::empty());
        assert(b.drop_first() =~= Seq::<u8>::empty());
        assert(escape_bytes(b.drop_last()) =~= Seq::<char>::empty());
        assert(b.last() == b[0]);
        assert(escape_bytes(b) =~= escape_byte(b[0]));
        assert(escape_byte(b[0]) + Seq::<char>::empty() =~= escape_byte(b[0]));
    } else {
        lemma_escape_front(b.drop_last());
        assert(b.drop_last().drop_first() =~= b.drop_first().drop_last());
        assert(b.drop_first().last() == b.last());
        assert(escape_bytes(b) =~= escape_byte(b[0]) + escape_bytes(b.drop_first()));
    }
}

/// The characters of `escape_byte(x)` count as one byte.
proof fn lemma_escape_char_counts_one(x: u8, rest: Seq<char>)
    ensures
        c_string_count_from(escape_byte(x) + rest, 0) == 1 + c_string_count_from(rest, 0),
{
    let e = escape_byte(x);
    let s = e + rest;
    if x == 0x5C || x == 0x22 || x < 0x20 || x > 0x7E {
        assert(s[0] == '\x5C');
        assert(e.len() == 3);
    } else {
        assert(e == seq![x as char]);
        assert(s[0] == x as char);
    }
    lemma_c_string_shift(e, rest, 0);
}

/// A string written by `escape_llvm_string` denotes, as the body of a `c"..."`
/// constant, exactly as many bytes as it was made from: `count_actual_bytes`
/// of its UTF-8 encoding gives the original length back.
pub proof fn law_escape_then_count_bytes(b: Seq<u8>)
    ensures
        c_byte_count(encode_utf8(escape_bytes(b))) == b.len(),
    decreases b.len(),
{
    if b.len() == 0 {
        assert(escape_bytes(b) =~= Seq::<char>::empty());
        assert(encode_utf8(Seq::<char>::empty()) =~= Seq::<u8>::empty());
    } else {
        lemma_escape_front(b);
        law_escape_then_count_bytes(b.drop_first());
        crate::text::lemma_encode_concat(escape_byte(b[0]), escape_bytes(b.drop_first()));
        lemma_escape_byte_counts_one(b[0], encode_utf8(escape_bytes(b.drop_first())));
    }
}

/// A string written by `escape_llvm_string` counts back, by
/// `count_c_string_bytes`, to the number of bytes it was made from.
pub proof fn law_escape_then_count_chars(b: Seq<u8>)
    ensures
        c_string_count_from(escape_bytes(b), 0) == b.len(),
    decreases b.len(),
{
    if b.len() == 0 {
        assert(escape_bytes(b) =~= Seq::<char>::empty());
    } else {
        lemma_escape_front(b);
        law_escape_then_count_chars(b.drop_first());
        lemma_escape_char_counts_one(b[0], escape_bytes(b.drop_first()));
    }
}

// ---------------------------------------------------------------------------
// Alignment
// ---------------------------------------------------------------------------

proof fn lemma_align_mask(o: usize, m: usize)
    requires
        m == 0 || m == 1 || m == 3 || m == 7,
        o + m <= usize::MAX,
    ensures
        ((o + m) as usize & !m) % ((m + 1) as usize) == 0,
        o <= ((o + m) as usize & !m),
        ((o + m) as usize & !m) <= o + m,
{
    let s = (o + m) as usize;
    assert(s == o + m);
    if m == 0 {
        assert(s & !0usize == s) by (bit_vector);
    } else if m == 1 {
        assert((s & !1usize) % 2 == 0 && s - 1 <= (s & !1usize) && (s & !1usize) <= s)
            by (bit_vector)
            requires
                s >= 1,
        ;
    } else if m == 3 {
        assert((s & !3usize) % 4 == 0 && s - 3 <= (s & !3usize) && (s & !3usize) <= s)
            by (bit_vector)
            requires
                s >= 3,
        ;
    } else {
        assert((s & !7usize) % 8 == 0 && s - 7 <= (s & !7usize) && (s & !7usize) <= s)
            by (bit_vector)
            requires
                s >= 7,
        ;
    }
}

/// Rounding an offset up to a field's alignment gives the least multiple of
/// that alignment at or after the offset, wherever the sum does not wrap.
pub proof fn law_align_up(offset: usize, ty: Seq<char>)
    requires
        offset + 7 <= usize::MAX,
    ensures
        ({
            let a = field_align(ty);
            let r = align_up(offset, a);
            &&& r % a == 0
            &&& offset <= r < offset + a
        }),
{
    let a = field_align(ty);
    let m = (a - 1) as usize;
    assert(a == 1 || a == 2 || a == 4 || a == 8);
    if offset + a <= usize::MAX {
        assert(offset.wrapping_add(a) == offset + a);
    } else {
        assert(offset.wrapping_add(a) == 0);
    }
    assert(offset.wrapping_add(a).wrapping_sub(1) == offset + m);
    lemma_align_mask(offset, m);
}

// ---------------------------------------------------------------------------
// Baselines
// ---------------------------------------------------------------------------

proof fn lemma_keyed_unique(es: Seq<BaselineEntryView>, n: nat)
    ensures
        forall|i: int, j: int|
            0 <= i < j < keyed(es, n).len() ==> entry_key(#[trigger] keyed(es, n)[i]) != entry_key(
                #[trigger] keyed(es, n)[j],
            ),
    decreases n,
{
    if n == 0 || n > es.len() {
    } else {
        let acc = keyed(es, (n - 1) as nat);
        lemma_keyed_unique(es, (n - 1) as nat);
        let e = es[n - 1];
        lemma_key_pos(acc, entry_key(e), 0);
        let r = keyed(es, n);
        match key_pos(acc, entry_key(e), 0) {
            Some(p) => {
                assert forall|i: int, j: int| 0 <= i < j < r.len() implies entry_key(
                    #[trigger] r[i],
                ) != entry_key(#[trigger] r[j]) by {
                    assert(entry_key(acc[i]) != entry_key(acc[j]));
                    if i == p {
                        assert(entry_key(acc[p]) == entry_key(e));
                    }
                    if j == p {
                        assert(entry_key(acc[p]) == entry_key(e));
                    }
                }
            },
            None => {
                assert forall|i: int, j: int| 0 <= i < j < r.len() implies entry_key(
                    #[trigger] r[i],
                ) != entry_key(#[trigger] r[j]) by {
                    if j < acc.len() {
                        assert(entry_key(acc[i]) != entry_key(acc[j]));
                    } else {
                        assert(r[j] == e);
                        assert(r[i] == acc[i]);
                    }
                }
            },
        }
    }
}

/// After keying by fingerprint, no two entries of a baseline share a
/// fingerprint.
pub proof fn law_keyed_fingerprints_unique(es: Seq<BaselineEntryView>)
    ensures
        forall|i: int, j: int|
            0 <= i < j < keyed_all(es).len() ==> entry_key(#[trigger] keyed_all(es)[i])
                != entry_key(#[trigger] keyed_all(es)[j]),
{
    lemma_keyed_unique(es, es.len());
}

proof fn lemma_where_all_present(es: Seq<BaselineEntryView>, other: Seq<BaselineEntryView>)
    requires
        forall|i: int| 0 <= i < es.len() ==> key_pos(other, entry_key(#[trigger] es[i]), 0) is Some,
    ensures
        entries_where(es, other, true) == es,
        entries_where(es, other, false) == Seq::<BaselineEntryView>::empty(),
    decreases es.len(),
{
    if es.len() > 0 {
        assert(key_pos(other, entry_key(es[es.len() - 1]), 0) is Some);
        lemma_where_all_present(es.drop_last(), other);
        assert(es.drop_last().push(es.last()) =~= es);
    }
}

proof fn lemma_where_split(es: Seq<BaselineEntryView>, other: Seq<BaselineEntryView>)
    ensures
        entries_where(es, other, true).len() + entries_where(es, other, false).len() == es.len(),
    decreases es.len(),
{
    if es.len() > 0 {
        lemma_where_split(es.drop_last(), other);
    }
}

/// Comparing a scan with itself finds nothing fixed and nothing new: every
/// entry of the scan remains.
pub proof fn law_diff_with_itself(es: Seq<BaselineEntryView>)
    ensures
        entries_where(keyed_all(es), keyed_all(es), false) == Seq::<BaselineEntryView>::empty(),
        entries_where(keyed_all(es), keyed_all(es), true) == keyed_all(es),
{
    let k = keyed_all(es);
    assert forall|i: int| 0 <= i < k.len() implies key_pos(k, entry_key(#[trigger] k[i]), 0) is Some by {
        lemma_key_pos(k, entry_key(k[i]), 0);
    }
    lemma_where_all_present(k, k);
}

/// Every entry of the saved baseline is either fixed or remaining, never both
/// and never neither.
pub proof fn law_diff_partitions_saved(saved: Seq<BaselineEntryView>, current: Seq<BaselineEntryView>)
    ensures
        entries_where(keyed_all(saved), keyed_all(current), false).len() + entries_where(
            keyed_all(saved),
            keyed_all(current),
            true,
        ).len() == keyed_all(saved).len(),
{
    lemma_where_split(keyed_all(saved), keyed_all(current));
}

/// Some entry of `es` has fingerprint `k`.
pub open spec fn has_key(es: Seq<BaselineEntryView>, k: Seq<char>) -> bool {
    exists|i: int| 0 <= i < es.len() && entry_key(#[trigger] es[i]) == k
}

/// No two entries share a fingerprint.
pub open spec fn keys_unique(es: Seq<BaselineEntryView>) -> bool {
    forall|i: int, j: int| 0 <= i < j < es.len() ==> entry_key(#[trigger] es[i]) != entry_key(#[trigger] es[j])
}

proof fn lemma_where_keys(es: Seq<BaselineEntryView>, other: Seq<BaselineEntryView>, present: bool)
    ensures
        forall|k: Seq<char>|
            has_key(entries_where(es, other, present), k) <==> (has_key(es, k) && has_key(other, k)
                == present),
        keys_unique(es) ==> keys_unique(entries_where(es, other, present)),
        forall|i: int|
            0 <= i < entries_where(es, other, present).len() ==> exists|j: int|
                0 <= j < es.len() && es[j] == #[trigger] entries_where(es, other, present)[i],
    decreases es.len(),
{
    let w = entries_where(es, other, present);
    if es.len() == 0 {
        assert forall|k: Seq<char>| !has_key(w, k) && !has_key(es, k) by {}
    } else {
        let d = es.drop_last();
        let e = es.last();
        let pw = entries_where(d, other, present);
        lemma_where_keys(d, other, present);
        lemma_key_pos(other, entry_key(e), 0);
        let hit = (key_pos(other, entry_key(e), 0) is Some) == present;
        assert((key_pos(other, entry_key(e), 0) is Some) == has_key(other, entry_key(e))) by {
            if has_key(other, entry_key(e)) {
                let i = choose|i: int| 0 <= i < other.len() && entry_key(other[i]) == entry_key(e);
                assert(entry_key(other[i]) == entry_key(e));
            }
        }
        assert forall|k: Seq<char>| has_key(es, k) <==> (has_key(d, k) || entry_key(e) == k) by {
            if has_key(es, k) {
                let i = choose|i: int| 0 <= i < es.len() && entry_key(es[i]) == k;
                if i < d.len() {
                    assert(d[i] == es[i]);
                }
            }
            if has_key(d, k) {
                let i = choose|i: int| 0 <= i < d.len() && entry_key(d[i]) == k;
                assert(es[i] == d[i]);
            }
            if entry_key(e) == k {
                assert(entry_key(es[es.len() - 1]) == k);
            }
        }
        if hit {
            assert(w == pw.push(e));
            assert forall|k: Seq<char>| has_key(w, k) <==> (has_key(pw, k) || entry_key(e) == k) by {
                if has_key(w, k) {
                    let i = choose|i: int| 0 <= i < w.len() && entry_key(w[i]) == k;
                    if i < pw.len() {
                        assert(pw[i] == w[i]);
                    }
                }
                if has_key(pw, k) {
                    let i = choose|i: int| 0 <= i < pw.len() && entry_key(pw[i]) == k;
                    assert(w[i] == pw[i]);
                }
                if entry_key(e) == k {
                    assert(entry_key(w[w.len() - 1]) == k);
                }
            }
            assert forall|i: int| 0 <= i < w.len() implies exists|j: int|
                0 <= j < es.len() && es[j] == #[trigger] w[i] by {
                if i < pw.len() {
                    assert(w[i] == pw[i]);
                    let j = choose|j: int| 0 <= j < d.len() && d[j] == pw[i];
                    assert(es[j] == d[j]);
                } else {
                    assert(es[es.len() - 1] == w[i]);
                }
            }
            if keys_unique(es) {
                assert(keys_unique(d)) by {
                    assert forall|i: int, j: int| 0 <= i < j < d.len() implies entry_key(#[trigger] d[i])
                        != entry_key(#[trigger] d[j]) by {
                        assert(d[i] == es[i] && d[j] == es[j]);
                    }
                }
                assert forall|i: int, j: int| 0 <= i < j < w.len() implies entry_key(#[trigger] w[i])
                    != entry_key(#[trigger] w[j]) by {
                    assert(w[i] == pw[i]);
                    if j < pw.len() {
                        assert(w[j] == pw[j]);
                    } else {
                        let m = choose|m: int| 0 <= m < d.len() && d[m] == pw[i];
                        assert(es[m] == d[m]);
                        assert(w[j] == es[es.len() - 1]);
                    }
                }
            }
        } else {
            assert(w == pw);
            assert forall|i: int| 0 <= i < w.len() implies exists|j: int|
                0 <= j < es.len() && es[j] == #[trigger] w[i] by {
                let j = choose|j: int| 0 <= j < d.len() && d[j] == pw[i];
                assert(es[j] == d[j]);
            }
            if keys_unique(es) {
                assert(keys_unique(d)) by {
                    assert forall|i: int, j: int| 0 <= i < j < d.len() implies entry_key(#[trigger] d[i])
                        != entry_key(#[trigger] d[j]) by {
                        assert(d[i] == es[i] && d[j] == es[j]);
                    }
                }
            }
        }
    }
}

/// A baseline comparison is a comparison of fingerprint sets: the fixed
/// entries are those of the saved scan's fingerprints missing from the new
/// scan, the remaining ones those in both, the new ones those of the new
/// scan missing from the saved one; each list holds a fingerprint at most
/// once, so its length is the size of that set; and there are no new
/// entries (exit status 0) exactly when every new fingerprint was saved.
pub proof fn law_diff_is_set_difference(saved: Seq<BaselineEntryView>, current: Seq<BaselineEntryView>)
    ensures
        ({
            let s = keyed_all(saved);
            let c = keyed_all(current);
            let fixed = entries_where(s, c, false);
            let remaining = entries_where(s, c, true);
            let new = entries_where(c, s, false);
            &&& forall|k: Seq<char>| has_key(fixed, k) <==> (has_key(s, k) && !has_key(c, k))
            &&& forall|k: Seq<char>| has_key(remaining, k) <==> (has_key(s, k) && has_key(c, k))
            &&& forall|k: Seq<char>| has_key(new, k) <==> (has_key(c, k) && !has_key(s, k))
            &&& keys_unique(fixed) && keys_unique(remaining) && keys_unique(new)
            &&& (new.len() == 0 <==> forall|k: Seq<char>| has_key(c, k) ==> has_key(s, k))
        }),
{
    let s = keyed_all(saved);
    let c = keyed_all(current);
    lemma_keyed_unique(saved, saved.len());
    lemma_keyed_unique(current, current.len());
    assert(keys_unique(s));
    assert(keys_unique(c));
    lemma_where_keys(s, c, false);
    lemma_where_keys(s, c, true);
    lemma_where_keys(c, s, false);
    let new = entries_where(c, s, false);
    if new.len() > 0 {
        let k0 = entry_key(new[0]);
        assert(has_key(new, k0));
        assert(has_key(c, k0) && !has_key(s, k0));
        assert(!(forall|k: Seq<char>| has_key(c, k) ==> has_key(s, k)));
    } else {
        assert forall|k: Seq<char>| has_key(c, k) implies has_key(s, k) by {
            if !has_key(s, k) {
                assert(has_key(new, k));
                let i = choose|i: int| 0 <= i < new.len() && entry_key(new[i]) == k;
            }
        }
    }
}

/// The fingerprints of the entries, as a set.
pub open spec fn key_set(es: Seq<BaselineEntryView>) -> Set<Seq<char>> {
    es.map_values(|e: BaselineEntryView| entry_key(e)).to_set()
}

proof fn lemma_key_set(es: Seq<BaselineEntryView>)
    ensures
        forall|k: Seq<char>| key_set(es).contains(k) <==> has_key(es, k),
        keys_unique(es) ==> key_set(es).len() == es.len(),
{
    let ks = es.map_values(|e: BaselineEntryView| entry_key(e));
    assert forall|k: Seq<char>| key_set(es).contains(k) <==> has_key(es, k) by {
        if has_key(es, k) {
            let i = choose|i: int| 0 <= i < es.len() && entry_key(es[i]) == k;
            assert(ks[i] == k);
        }
        if key_set(es).contains(k) {
            let i = choose|i: int| 0 <= i < ks.len() && ks[i] == k;
            assert(entry_key(es[i]) == k);
        }
    }
    if keys_unique(es) {
        assert(ks.no_duplicates()) by {
            assert forall|i: int, j: int| 0 <= i < ks.len() && 0 <= j < ks.len() && i != j implies ks[i] != ks[j] by {
                if i < j {
                    assert(entry_key(es[i]) != entry_key(es[j]));
                } else {
                    assert(entry_key(es[j]) != entry_key(es[i]));
                }
            }
        }
        ks.unique_seq_to_set();
    }
}

/// The counts a baseline comparison prints are sizes of fingerprint sets:
/// fixed is the size of the saved set less the new one, remaining that of
/// their intersection, new that of the new set less the saved one; and the
/// exit status is 0 exactly when the new set lies inside the saved one.
pub proof fn law_diff_counts_are_set_sizes(saved: Seq<BaselineEntryView>, current: Seq<BaselineEntryView>)
    ensures
        ({
            let s = keyed_all(saved);
            let c = keyed_all(current);
            &&& entries_where(s, c, false).len() == key_set(s).difference(key_set(c)).len()
            &&& entries_where(s, c, true).len() == key_set(s).intersect(key_set(c)).len()
            &&& entries_where(c, s, false).len() == key_set(c).difference(key_set(s)).len()
            &&& ((if entries_where(c, s, false).len() == 0 {
                0i32
            } else {
                1i32
            }) == 0 <==> key_set(c).subset_of(key_set(s)))
        }),
{
    let s = keyed_all(saved);
    let c = keyed_all(current);
    law_diff_is_set_difference(saved, current);
    let fixed = entries_where(s, c, false);
    let remaining = entries_where(s, c, true);
    let new = entries_where(c, s, false);
    lemma_key_set(s);
    lemma_key_set(c);
    lemma_key_set(fixed);
    lemma_key_set(remaining);
    lemma_key_set(new);
    assert forall|k: Seq<char>| key_set(fixed).contains(k) <==> key_set(s).difference(key_set(c)).contains(k) by {
        assert(key_set(fixed).contains(k) <==> has_key(fixed, k));
        assert(has_key(fixed, k) <==> (has_key(s, k) && !has_key(c, k)));
    }
    assert(key_set(fixed) =~= key_set(s).difference(key_set(c)));
    assert forall|k: Seq<char>| key_set(remaining).contains(k) <==> key_set(s).intersect(key_set(c)).contains(k) by {
        assert(key_set(remaining).contains(k) <==> has_key(remaining, k));
        assert(has_key(remaining, k) <==> (has_key(s, k) && has_key(c, k)));
    }
    assert(key_set(remaining) =~= key_set(s).intersect(key_set(c)));
    assert forall|k: Seq<char>| key_set(new).contains(k) <==> key_set(c).difference(key_set(s)).contains(k) by {
        assert(key_set(new).contains(k) <==> has_key(new, k));
        assert(has_key(new, k) <==> (has_key(c, k) && !has_key(s, k)));
    }
    assert(key_set(new) =~= key_set(c).difference(key_set(s)));
    if new.len() == 0 {
        assert forall|k: Seq<char>| key_set(c).contains(k) implies key_set(s).contains(k) by {
            assert(has_key(c, k));
            if !has_key(s, k) {
                assert(has_key(new, k));
            }
        }
        assert(key_set(c).subset_of(key_set(s)));
    } else {
        let k0 = entry_key(new[0]);
        assert(has_key(new, k0));
        assert(key_set(c).contains(k0) && !key_set(s).contains(k0));
    }
}

// ---------------------------------------------------------------------------
// Output comparison
// ---------------------------------------------------------------------------

/// The differing positions of two outputs of equal length are exactly the
/// positions where their bytes differ, in increasing order.
pub proof fn law_differing_positions_exact(a: Seq<u8>, e: Seq<u8>, n: nat)
    requires
        a.len() == e.len(),
        n <= a.len(),
        a.len() <= usize::MAX,
    ensures
        forall|i: int|
            0 <= i < n ==> (diff_positions(a, e, n).contains(i as usize) <==> a[i] != e[i]),
        forall|k: int|
            0 <= k < diff_positions(a, e, n).len() ==> diff_positions(a, e, n)[k] < n,
        forall|k: int, l: int|
            0 <= k < l < diff_positions(a, e, n).len() ==> diff_positions(a, e, n)[k] < diff_positions(
                a,
                e,
                n,
            )[l],
    decreases n,
{
    if n > 0 {
        let m = (n - 1) as nat;
        law_differing_positions_exact(a, e, m);
        let prev = diff_positions(a, e, m);
        let cur = diff_positions(a, e, n);
        if a[m as int] != e[m as int] {
            assert(cur == prev + seq![m as usize]);
            assert(cur[prev.len() as int] == m as usize);
            assert forall|i: int| 0 <= i < n implies (cur.contains(i as usize) <==> a[i] != e[i]) by {
                if i == m {
                    assert(cur[prev.len() as int] == i as usize);
                }
                if i < m {
                    assert(prev.contains(i as usize) <==> a[i] != e[i]);
                    if cur.contains(i as usize) {
                        let k = choose|k: int| 0 <= k < cur.len() && cur[k] == i as usize;
                        if k < prev.len() {
                            assert(prev[k] == cur[k]);
                        }
                    }
                    if prev.contains(i as usize) {
                        let k = choose|k: int| 0 <= k < prev.len() && prev[k] == i as usize;
                        assert(cur[k] == prev[k]);
                    }
                }
            }
        } else {
            assert(cur =~= prev);
            assert forall|i: int| 0 <= i < n implies (cur.contains(i as usize) <==> a[i] != e[i]) by {
                if i < m {
                    assert(prev.contains(i as usize) <==> a[i] != e[i]);
                }
                if i == m && cur.contains(i as usize) {
                    let k = choose|k: int| 0 <= k < cur.len() && cur[k] == i as usize;
                    assert(prev[k] < m);
                }
            }
        }
    }
}

/// A one- or two-byte shift is only ever reported for two empty outputs: for
/// outputs of the same non-zero length a byte at one end has no partner.
pub proof fn law_shift_needs_empty_output(a: Seq<u8>, e: Seq<u8>)
    ensures
        first_shift(a, e) is Some ==> a.len() == 0 && e.len() == 0,
{
    if a.len() == e.len() && a.len() > 0 {
        lemma_no_shift_match(a, e, -1);
        lemma_no_shift_match(a, e, 1);
        lemma_no_shift_match(a, e, -2);
        lemma_no_shift_match(a, e, 2);
    }
}

// ---------------------------------------------------------------------------
// Automatic fixes
// ---------------------------------------------------------------------------

/// A line that the alignment fix has changed needs no second fix.
pub proof fn law_align_fix_idempotent(l: Seq<char>)
    ensures
        align_fix_of(l) matches Some(f) ==> align_fix_of(f) is None,
{
    if let Some(f) = align_fix_of(l) {
        reveal_strlit(", align 1");
        reveal_strlit(", align");
        assert(f.subrange(l.len() as int, l.len() + 7int) =~= ", align"@);
        assert(matches_at(f, ", align"@, l.len() as int));
    }
}

/// How many of the first `n` lines differ between two lists of lines.
pub open spec fn changed_lines(a: Seq<Seq<char>>, b: Seq<Seq<char>>, n: nat) -> nat
    decreases n,
{
    if n == 0 {
        0
    } else {
        changed_lines(a, b, (n - 1) as nat) + if a[n - 1] != b[n - 1] {
            1nat
        } else {
            0nat
        }
    }
}

proof fn lemma_aligned_len(ls: Seq<Seq<char>>, fs: Seq<FindingView>, n: nat)
    requires
        n <= ls.len(),
    ensures
        aligned_lines(ls, fs, n).len() == n,
    decreases n,
{
    if n > 0 {
        lemma_aligned_len(ls, fs, (n - 1) as nat);
    }
}

proof fn lemma_aligned_prefix(ls: Seq<Seq<char>>, fs: Seq<FindingView>, n: nat, i: int)
    requires
        n <= ls.len(),
        0 <= i < n,
    ensures
        aligned_lines(ls, fs, n).len() == n,
        aligned_lines(ls, fs, n)[i] == (if flagged(fs, i + 1) && align_fix_of(ls[i]) is Some {
            align_fix_of(ls[i]).unwrap()
        } else {
            ls[i]
        }),
    decreases n,
{
    lemma_aligned_len(ls, fs, n);
    let prev = aligned_lines(ls, fs, (n - 1) as nat);
    lemma_aligned_len(ls, fs, (n - 1) as nat);
    if i < n - 1 {
        lemma_aligned_prefix(ls, fs, (n - 1) as nat, i);
        assert(aligned_lines(ls, fs, n)[i] == prev[i]);
    } else {
        let l = ls[n - 1];
        if flagged(fs, n as int) {
            match align_fix_of(l) {
                Some(f) => {
                    assert(aligned_lines(ls, fs, n) == prev.push(f));
                },
                None => {
                    assert(aligned_lines(ls, fs, n) == prev.push(l));
                },
            }
        } else {
            assert(aligned_lines(ls, fs, n) == prev.push(l));
        }
    }
}

/// The count that the alignment fix reports is the number of lines it
/// changed.
pub proof fn law_align_fix_count_is_changed_lines(ls: Seq<Seq<char>>, fs: Seq<FindingView>, n: nat)
    requires
        n <= ls.len(),
    ensures
        align_fix_count(ls, fs, n) == changed_lines(aligned_lines(ls, fs, ls.len()), ls, n),
    decreases n,
{
    if n > 0 {
        law_align_fix_count_is_changed_lines(ls, fs, (n - 1) as nat);
        let i = n - 1;
        lemma_aligned_prefix(ls, fs, ls.len(), i);
        let l = ls[i];
        if let Some(f) = align_fix_of(l) {
            reveal_strlit(", align 1");
            assert(f.len() == l.len() + 9);
        }
    }
}

// ---------------------------------------------------------------------------
// Template filters
// ---------------------------------------------------------------------------

proof fn lemma_filtered_members(
    ts: Seq<TemplateView>,
    tags: Seq<Seq<char>>,
    sevs: Seq<Severity>,
    ids: Seq<Seq<char>>,
    n: nat,
)
    requires
        n <= ts.len(),
    ensures
        forall|k: int|
            0 <= k < filtered(ts, tags, sevs, ids, n).len() ==> passes_filter(
                #[trigger] filtered(ts, tags, sevs, ids, n)[k],
                tags,
                sevs,
                ids,
            ),
        forall|i: int|
            0 <= i < n && passes_filter(#[trigger] ts[i], tags, sevs, ids) ==> filtered(
                ts,
                tags,
                sevs,
                ids,
                n,
            ).contains(ts[i]),
    decreases n,
{
    if n > 0 {
        lemma_filtered_members(ts, tags, sevs, ids, (n - 1) as nat);
        let prev = filtered(ts, tags, sevs, ids, (n - 1) as nat);
        let cur = filtered(ts, tags, sevs, ids, n);
        assert forall|i: int|
            0 <= i < n && passes_filter(#[trigger] ts[i], tags, sevs, ids) implies cur.contains(
            ts[i],
        ) by {
            if i < n - 1 {
                let k = choose|k: int| 0 <= k < prev.len() && prev[k] == ts[i];
                assert(cur[k] == prev[k]);
            } else {
                assert(cur[prev.len() as int] == ts[i]);
            }
        }
    }
}

/// Every template that the filters keep passes them, and every template that
/// passes them is kept.
pub proof fn law_filter_keeps_exactly_passing(
    ts: Seq<TemplateView>,
    tags: Seq<Seq<char>>,
    sevs: Seq<Severity>,
    ids: Seq<Seq<char>>,
)
    ensures
        forall|k: int|
            0 <= k < filtered(ts, tags, sevs, ids, ts.len()).len() ==> passes_filter(
                #[trigger] filtered(ts, tags, sevs, ids, ts.len())[k],
                tags,
                sevs,
                ids,
            ),
        forall|i: int|
            0 <= i < ts.len() && passes_filter(#[trigger] ts[i], tags, sevs, ids) ==> filtered(
                ts,
                tags,
                sevs,
                ids,
                ts.len(),
            ).contains(ts[i]),
{
    lemma_filtered_members(ts, tags, sevs, ids, ts.len());
}

proof fn lemma_filter_all_pass(
    ts: Seq<TemplateView>,
    tags: Seq<Seq<char>>,
    sevs: Seq<Severity>,
    ids: Seq<Seq<char>>,
    n: nat,
)
    requires
        n <= ts.len(),
        forall|k: int| 0 <= k < ts.len() ==> passes_filter(#[trigger] ts[k], tags, sevs, ids),
    ensures
        filtered(ts, tags, sevs, ids, n) == ts.take(n as int),
    decreases n,
{
    if n > 0 {
        lemma_filter_all_pass(ts, tags, sevs, ids, (n - 1) as nat);
        assert(ts.take(n as int) =~= ts.take(n - 1).push(ts[n - 1]));
    } else {
        assert(ts.take(0) =~= Seq::<TemplateView>::empty());
    }
}

/// With no id, tag or severity given, every template is kept, in order.
pub proof fn law_no_filter_keeps_all(ts: Seq<TemplateView>)
    ensures
        filtered(ts, Seq::empty(), Seq::empty(), Seq::empty(), ts.len()) == ts,
{
    lemma_filter_all_pass(ts, Seq::empty(), Seq::empty(), Seq::empty(), ts.len());
    assert(ts.take(ts.len() as int) =~= ts);
}

/// Filtering twice with the same filters keeps what filtering once kept.
pub proof fn law_filter_idempotent(
    ts: Seq<TemplateView>,
    tags: Seq<Seq<char>>,
    sevs: Seq<Severity>,
    ids: Seq<Seq<char>>,
)
    ensures
        ({
            let once = filtered(ts, tags, sevs, ids, ts.len());
            filtered(once, tags, sevs, ids, once.len()) == once
        }),
{
    let once = filtered(ts, tags, sevs, ids, ts.len());
    lemma_filtered_members(ts, tags, sevs, ids, ts.len());
    lemma_filter_all_pass(once, tags, sevs, ids, once.len());
    assert(once.take(once.len() as int) =~= once);
}

// ---------------------------------------------------------------------------
// Call chains
// ---------------------------------------------------------------------------

/// `p` is a call chain in `g` from `from`: it starts at `from`, each function
/// calls the next one, and no function occurs twice.
pub open spec fn chain_in(g: Seq<(Seq<char>, Seq<Seq<char>>)>, from: Seq<char>, p: Seq<Seq<char>>) -> bool {
    &&& p.len() >= 1
    &&& p[0] == from
    &&& forall|k: int| 0 <= k < p.len() - 1 ==> graph_callees(g, #[trigger] p[k]).contains(p[k + 1])
    &&& forall|i: int, j: int| 0 <= i < j < p.len() ==> #[trigger] p[i] != #[trigger] p[j]
}

proof fn lemma_extend_chains(
    g: Seq<(Seq<char>, Seq<Seq<char>>)>,
    from: Seq<char>,
    p: Seq<Seq<char>>,
    n: nat,
)
    requires
        chain_in(g, from, p),
        n <= graph_callees(g, p.last()).len(),
    ensures
        forall|k: int|
            0 <= k < extend_from(p, graph_callees(g, p.last()), n).len() ==> chain_in(
                g,
                from,
                #[trigger] extend_from(p, graph_callees(g, p.last()), n)[k],
            ) && extend_from(p, graph_callees(g, p.last()), n)[k].len() == p.len() + 1,
    decreases n,
{
    let cs = graph_callees(g, p.last());
    if n > 0 {
        lemma_extend_chains(g, from, p, (n - 1) as nat);
        let prev = extend_from(p, cs, (n - 1) as nat);
        let cur = extend_from(p, cs, n);
        let c = cs[n - 1];
        if !p.contains(c) {
            let q = p.push(c);
            assert(cur == prev + seq![q]);
            assert forall|k: int| 0 <= k < q.len() - 1 implies graph_callees(g, #[trigger] q[k]).contains(
                q[k + 1],
            ) by {
                if k < p.len() - 1 {
                    assert(q[k] == p[k] && q[k + 1] == p[k + 1]);
                } else {
                    assert(q[k] == p.last());
                    assert(q[k + 1] == c);
                    assert(cs[n - 1] == c);
                }
            }
            assert forall|i: int, j: int| 0 <= i < j < q.len() implies #[trigger] q[i] != #[trigger] q[j] by {
                if j < p.len() {
                    assert(q[i] == p[i] && q[j] == p[j]);
                } else {
                    assert(q[i] == p[i]);
                    if p[i] == c {
                        assert(p.contains(c));
                    }
                }
            }
            assert forall|k: int| 0 <= k < cur.len() implies chain_in(g, from, #[trigger] cur[k])
                && cur[k].len() == p.len() + 1 by {
                if k < prev.len() {
                    assert(cur[k] == prev[k]);
                } else {
                    assert(cur[k] == q);
                }
            }
        } else {
            assert(cur =~= prev);
        }
    }
}

proof fn lemma_next_level_chains(
    g: Seq<(Seq<char>, Seq<Seq<char>>)>,
    from: Seq<char>,
    level: Seq<Seq<Seq<char>>>,
    to: Seq<char>,
    len: nat,
    n: nat,
)
    requires
        n <= level.len(),
        forall|k: int| 0 <= k < level.len() ==> chain_in(g, from, #[trigger] level[k]) && level[k].len() == len,
    ensures
        forall|k: int|
            0 <= k < next_level(g, level, to, n).len() ==> chain_in(
                g,
                from,
                #[trigger] next_level(g, level, to, n)[k],
            ) && next_level(g, level, to, n)[k].len() == len + 1,
    decreases n,
{
    if n > 0 {
        lemma_next_level_chains(g, from, level, to, len, (n - 1) as nat);
        let prev = next_level(g, level, to, (n - 1) as nat);
        let cur = next_level(g, level, to, n);
        let p = level[n - 1];
        assert(chain_in(g, from, p) && p.len() == len);
        if reaches(p, to) {
            assert(cur =~= prev);
        } else {
            let ext = extensions(g, p);
            lemma_extend_chains(g, from, p, graph_callees(g, p.last()).len());
            assert(cur == prev + ext);
            assert forall|k: int| 0 <= k < cur.len() implies chain_in(g, from, #[trigger] cur[k])
                && cur[k].len() == len + 1 by {
                if k < prev.len() {
                    assert(cur[k] == prev[k]);
                } else {
                    assert(cur[k] == ext[k - prev.len()]);
                }
            }
        }
    }
}

proof fn lemma_level_chains(g: Seq<(Seq<char>, Seq<Seq<char>>)>, from: Seq<char>, to: Seq<char>, len: nat)
    requires
        len >= 1,
    ensures
        forall|k: int|
            0 <= k < level_paths(g, from, to, len).len() ==> chain_in(
                g,
                from,
                #[trigger] level_paths(g, from, to, len)[k],
            ) && level_paths(g, from, to, len)[k].len() == len,
    decreases len,
{
    if len == 1 {
        let q = seq![from];
        assert(level_paths(g, from, to, len) == seq![q]);
        assert(chain_in(g, from, q));
    } else {
        lemma_level_chains(g, from, to, (len - 1) as nat);
        let prev = level_paths(g, from, to, (len - 1) as nat);
        lemma_next_level_chains(g, from, prev, to, (len - 1) as nat, prev.len());
    }
}

proof fn lemma_reaching_members(ps: Seq<Seq<Seq<char>>>, to: Seq<char>, n: nat)
    requires
        n <= ps.len(),
    ensures
        forall|k: int|
            0 <= k < reaching(ps, to, n).len() ==> reaches(#[trigger] reaching(ps, to, n)[k], to)
                && ps.contains(reaching(ps, to, n)[k]),
    decreases n,
{
    if n > 0 {
        lemma_reaching_members(ps, to, (n - 1) as nat);
        let prev = reaching(ps, to, (n - 1) as nat);
        let cur = reaching(ps, to, n);
        assert forall|k: int| 0 <= k < cur.len() implies reaches(#[trigger] cur[k], to) && ps.contains(
            cur[k],
        ) by {
            if k < prev.len() {
                assert(cur[k] == prev[k]);
            } else {
                assert(cur[k] == ps[n - 1]);
            }
        }
    }
}

proof fn lemma_chains_upto(g: Seq<(Seq<char>, Seq<Seq<char>>)>, from: Seq<char>, to: Seq<char>, len: nat)
    ensures
        forall|k: int|
            0 <= k < chains_upto(g, from, to, len).len() ==> chain_in(
                g,
                from,
                #[trigger] chains_upto(g, from, to, len)[k],
            ) && reaches(chains_upto(g, from, to, len)[k], to) && chains_upto(g, from, to, len)[k].len()
                <= len,
    decreases len,
{
    if len > 0 {
        lemma_chains_upto(g, from, to, (len - 1) as nat);
        let prev = chains_upto(g, from, to, (len - 1) as nat);
        let lv = level_paths(g, from, to, len);
        let rs = reaching(lv, to, lv.len());
        lemma_level_chains(g, from, to, len);
        lemma_reaching_members(lv, to, lv.len());
        let cur = chains_upto(g, from, to, len);
        assert(cur == prev + rs);
        assert forall|k: int| 0 <= k < cur.len() implies chain_in(g, from, #[trigger] cur[k]) && reaches(
            cur[k],
            to,
        ) && cur[k].len() <= len by {
            if k < prev.len() {
                assert(cur[k] == prev[k]);
            } else {
                assert(cur[k] == rs[k - prev.len()]);
                let j = choose|j: int| 0 <= j < lv.len() && lv[j] == rs[k - prev.len()];
                assert(chain_in(g, from, lv[j]));
            }
        }
    }
}

/// Every chain that `find_paths` returns starts at `from`, ends at `to` after
/// at least one call, follows calls of the graph, passes through no function
/// twice and has at most `max_depth` calls; there are at most five of them.
pub proof fn law_find_paths_are_call_chains(
    g: Seq<(Seq<char>, Seq<Seq<char>>)>,
    from: Seq<char>,
    to: Seq<char>,
    max_depth: nat,
)
    ensures
        find_paths_spec(g, from, to, max_depth).len() <= 5,
        forall|k: int|
            0 <= k < find_paths_spec(g, from, to, max_depth).len() ==> {
                let p = #[trigger] find_paths_spec(g, from, to, max_depth)[k];
                &&& chain_in(g, from, p)
                &&& p.len() > 1
                &&& p.last() == to
                &&& p.len() <= max_depth + 1
            },
{
    let all = chains_upto(g, from, to, max_depth + 1);
    lemma_chains_upto(g, from, to, max_depth + 1);
    let r = find_paths_spec(g, from, to, max_depth);
    assert forall|k: int| 0 <= k < r.len() implies r[k] == all[k] by {}
}

// ---------------------------------------------------------------------------
// Crash maps
// ---------------------------------------------------------------------------

proof fn lemma_field_at_from(fs: Seq<Seq<char>>, target: usize, i: int)
    requires
        0 <= i,
        fs.len() <= usize::MAX,
    ensures
        field_at_from(fs, target, i) matches Some((k, o, f)) ==> {
            &&& i <= k < fs.len()
            &&& field_covers(fs, k as int, target)
            &&& o == field_offset(fs, k as int)
            &&& f == fs[k as int]
            &&& forall|j: int| i <= j < k ==> !field_covers(fs, j, target)
        },
        field_at_from(fs, target, i) is None ==> forall|j: int|
            i <= j < fs.len() ==> !field_covers(fs, j, target),
    decreases fs.len() - i,
{
    if i < fs.len() && !field_covers(fs, i, target) {
        lemma_field_at_from(fs, target, i + 1);
    }
}

/// The field that a crash map names as hit is the first row of its layout
/// that holds the offset, with that row's offset and type; when it names
/// none, no row holds the offset.
pub proof fn law_crash_hit_is_first_holding_row(st: crate::ir::StructTypeView, offset: usize)
    requires
        st.fields.len() <= usize::MAX,
    ensures
        ({
            let m = crash_map_of(st, offset);
            &&& m.hit matches Some((i, o, f)) ==> {
                &&& i < m.rows.len()
                &&& m.rows[i as int].holds_target
                &&& m.rows[i as int].offset == o
                &&& m.rows[i as int].field == f
                &&& forall|j: int| 0 <= j < i ==> !(#[trigger] m.rows[j]).holds_target
            }
            &&& m.hit is None ==> forall|j: int| 0 <= j < m.rows.len() ==> !(#[trigger] m.rows[j]).holds_target
        }),
{
    lemma_field_at_from(st.fields, offset, 0);
}

// ---------------------------------------------------------------------------
// Scan order
// ---------------------------------------------------------------------------

/// The findings are in order of severity, most severe first.
pub open spec fn severity_sorted(s: Seq<FindingView>) -> bool {
    forall|i: int, j: int|
        0 <= i < j < s.len() ==> severity_rank((#[trigger] s[i]).severity) <= severity_rank(
            (#[trigger] s[j]).severity,
        )
}

proof fn lemma_insert_by_severity(s: Seq<FindingView>, x: FindingView)
    requires
        severity_sorted(s),
    ensures
        severity_sorted(insert_by_severity(s, x)),
        insert_by_severity(s, x).to_multiset() == s.to_multiset().insert(x),
        insert_by_severity(s, x).len() == s.len() + 1,
        forall|k: int|
            0 <= k < insert_by_severity(s, x).len() ==> (#[trigger] insert_by_severity(s, x)[k] == x
                || s.contains(insert_by_severity(s, x)[k])),
    decreases s.len(),
{
    broadcast use vstd::seq_lib::group_to_multiset_ensures;

    let r = insert_by_severity(s, x);
    if s.len() == 0 {
        assert(r == seq![x]);
        assert(seq![x] =~= Seq::<FindingView>::empty().push(x));
    } else if severity_rank(s.last().severity) <= severity_rank(x.severity) {
        assert(r == s.push(x));
        assert forall|k: int| 0 <= k < r.len() implies (#[trigger] r[k] == x || s.contains(r[k])) by {
            if k < s.len() {
                assert(r[k] == s[k]);
            }
        }
        assert forall|i: int, j: int| 0 <= i < j < r.len() implies severity_rank(
            (#[trigger] r[i]).severity,
        ) <= severity_rank((#[trigger] r[j]).severity) by {
            if j == s.len() {
                assert(r[i] == s[i]);
                if i < s.len() - 1 {
                    assert(severity_rank(s[i].severity) <= severity_rank(s[s.len() - 1].severity));
                }
            } else {
                assert(r[i] == s[i] && r[j] == s[j]);
            }
        }
    } else {
        let d = s.drop_last();
        let last = s.last();
        assert(severity_sorted(d)) by {
            assert forall|i: int, j: int| 0 <= i < j < d.len() implies severity_rank(
                (#[trigger] d[i]).severity,
            ) <= severity_rank((#[trigger] d[j]).severity) by {
                assert(d[i] == s[i] && d[j] == s[j]);
            }
        }
        lemma_insert_by_severity(d, x);
        let rec = insert_by_severity(d, x);
        assert(r == rec.push(last));
        assert(d.push(last) =~= s);
        assert forall|k: int| 0 <= k < r.len() implies (#[trigger] r[k] == x || s.contains(r[k])) by {
            if k < rec.len() {
                assert(r[k] == rec[k]);
                if rec[k] != x {
                    let m = choose|m: int| 0 <= m < d.len() && d[m] == rec[k];
                    assert(s[m] == d[m]);
                }
            } else {
                assert(r[k] == s[s.len() - 1]);
            }
        }
        assert forall|i: int, j: int| 0 <= i < j < r.len() implies severity_rank(
            (#[trigger] r[i]).severity,
        ) <= severity_rank((#[trigger] r[j]).severity) by {
            if j < rec.len() {
                assert(r[i] == rec[i] && r[j] == rec[j]);
            } else {
                assert(r[i] == rec[i]);
                assert(r[j] == last);
                if rec[i] != x {
                    let m = choose|m: int| 0 <= m < d.len() && d[m] == rec[i];
                    assert(s[m] == d[m]);
                    assert(severity_rank(s[m].severity) <= severity_rank(s[s.len() - 1].severity));
                }
            }
        }
    }
}

proof fn lemma_sort_by_severity(s: Seq<FindingView>)
    ensures
        severity_sorted(sort_by_severity(s)),
        sort_by_severity(s).to_multiset() == s.to_multiset(),
    decreases s.len(),
{
    broadcast use vstd::seq_lib::group_to_multiset_ensures;

    if s.len() == 0 {
        assert(sort_by_severity(s) =~= s);
    } else {
        lemma_sort_by_severity(s.drop_last());
        lemma_insert_by_severity(sort_by_severity(s.drop_last()), s.last());
        assert(s.drop_last().push(s.last()) =~= s);
    }
}

/// A scan reports the findings of its templates, each as often as the
/// templates found it, most severe first.
pub proof fn law_scan_sorted_by_severity(ts: Seq<TemplateView>, m: crate::ir::IRModuleView)
    ensures
        severity_sorted(scan_spec(ts, m)),
        scan_spec(ts, m).to_multiset() == template_findings(ts, m, ts.len()).to_multiset(),
{
    lemma_sort_by_severity(template_findings(ts, m, ts.len()));
}

// ---------------------------------------------------------------------------
// Triage groups
// ---------------------------------------------------------------------------

/// The number of entries over all groups.
pub open spec fn group_total(gs: Seq<(Seq<char>, Seq<BaselineEntryView>)>) -> nat
    decreases gs.len(),
{
    if gs.len() == 0 {
        0
    } else {
        group_total(gs.drop_last()) + gs.last().1.len()
    }
}

/// Each group is non-empty, holds only entries of its template, and no two
/// groups share a template.
pub open spec fn groups_well_formed(gs: Seq<(Seq<char>, Seq<BaselineEntryView>)>) -> bool {
    &&& forall|j: int| 0 <= j < gs.len() ==> (#[trigger] gs[j]).1.len() >= 1
    &&& forall|j: int, k: int|
        0 <= j < gs.len() && 0 <= k < gs[j].1.len() ==> (#[trigger] gs[j].1[k]).template_id == gs[j].0
    &&& forall|j: int, k: int| 0 <= j < k < gs.len() ==> (#[trigger] gs[j]).0 != (#[trigger] gs[k]).0
}

proof fn lemma_group_total_update(
    gs: Seq<(Seq<char>, Seq<BaselineEntryView>)>,
    j: int,
    g: (Seq<char>, Seq<BaselineEntryView>),
)
    requires
        0 <= j < gs.len(),
    ensures
        group_total(gs.update(j, g)) + gs[j].1.len() == group_total(gs) + g.1.len(),
    decreases gs.len(),
{
    let u = gs.update(j, g);
    if j == gs.len() - 1 {
        assert(u.drop_last() =~= gs.drop_last());
    } else {
        lemma_group_total_update(gs.drop_last(), j, g);
        assert(u.drop_last() =~= gs.drop_last().update(j, g));
    }
}

proof fn lemma_groups_of(es: Seq<BaselineEntryView>, n: nat)
    requires
        n <= es.len(),
    ensures
        groups_well_formed(groups_of(es, n)),
        group_total(groups_of(es, n)) == n,
    decreases n,
{
    if n > 0 {
        let gs = groups_of(es, (n - 1) as nat);
        lemma_groups_of(es, (n - 1) as nat);
        let e = es[n - 1];
        let r = groups_of(es, n);
        lemma_group_pos(gs, e.template_id, 0);
        match group_pos(gs, e.template_id, 0) {
            Some(j) => {
                let g = (gs[j].0, gs[j].1.push(e));
                assert(r == gs.update(j, g));
                lemma_group_total_update(gs, j, g);
                assert forall|a: int, k: int|
                    0 <= a < r.len() && 0 <= k < r[a].1.len() implies (#[trigger] r[a].1[k]).template_id
                    == r[a].0 by {
                    if a != j {
                        assert(r[a] == gs[a]);
                    } else if k < gs[j].1.len() {
                        assert(r[a].1[k] == gs[j].1[k]);
                    }
                }
                assert forall|a: int, b: int| 0 <= a < b < r.len() implies (#[trigger] r[a]).0 != (
                #[trigger] r[b]).0 by {
                    assert(gs[a].0 == r[a].0 && gs[b].0 == r[b].0);
                }
                assert forall|a: int| 0 <= a < r.len() implies (#[trigger] r[a]).1.len() >= 1 by {
                    if a != j {
                        assert(r[a] == gs[a]);
                    }
                }
            },
            None => {
                assert(group_pos(gs, e.template_id, 0) is None);
                assert forall|a: int| 0 <= a < gs.len() implies (#[trigger] gs[a]).0 != e.template_id by {
                    lemma_group_pos_none(gs, e.template_id, 0, a);
                }
                let g = (e.template_id, seq![e]);
                assert(r == gs.push(g));
                assert(r.drop_last() =~= gs);
                assert forall|a: int, k: int|
                    0 <= a < r.len() && 0 <= k < r[a].1.len() implies (#[trigger] r[a].1[k]).template_id
                    == r[a].0 by {
                    if a < gs.len() {
                        assert(r[a] == gs[a]);
                    }
                }
                assert forall|a: int, b: int| 0 <= a < b < r.len() implies (#[trigger] r[a]).0 != (
                #[trigger] r[b]).0 by {
                    assert(r[a] == gs[a]);
                    if b < gs.len() {
                        assert(r[b] == gs[b]);
                    }
                }
                assert forall|a: int| 0 <= a < r.len() implies (#[trigger] r[a]).1.len() >= 1 by {
                    if a < gs.len() {
                        assert(r[a] == gs[a]);
                    }
                }
            },
        }
    }
}

proof fn lemma_group_pos_none(gs: Seq<(Seq<char>, Seq<BaselineEntryView>)>, tid: Seq<char>, i: int, a: int)
    requires
        0 <= i <= a < gs.len(),
        group_pos(gs, tid, i) is None,
    ensures
        gs[a].0 != tid,
    decreases a - i,
{
    if i < a {
        lemma_group_pos_none(gs, tid, i + 1, a);
    }
}

/// The groups are in order of size, largest first.
pub open spec fn count_sorted(s: Seq<(Seq<char>, Seq<BaselineEntryView>)>) -> bool {
    forall|i: int, j: int| 0 <= i < j < s.len() ==> (#[trigger] s[i]).1.len() >= (#[trigger] s[j]).1.len()
}

proof fn lemma_insert_by_count(
    s: Seq<(Seq<char>, Seq<BaselineEntryView>)>,
    x: (Seq<char>, Seq<BaselineEntryView>),
)
    requires
        count_sorted(s),
    ensures
        count_sorted(insert_by_count(s, x)),
        insert_by_count(s, x).to_multiset() == s.to_multiset().insert(x),
        forall|k: int|
            0 <= k < insert_by_count(s, x).len() ==> (#[trigger] insert_by_count(s, x)[k] == x
                || s.contains(insert_by_count(s, x)[k])),
    decreases s.len(),
{
    broadcast use vstd::seq_lib::group_to_multiset_ensures;

    let r = insert_by_count(s, x);
    if s.len() == 0 {
        assert(r == seq![x]);
        assert(seq![x] =~= Seq::<(Seq<char>, Seq<BaselineEntryView>)>::empty().push(x));
    } else if s.last().1.len() >= x.1.len() {
        assert(r == s.push(x));
        assert forall|k: int| 0 <= k < r.len() implies (#[trigger] r[k] == x || s.contains(r[k])) by {
            if k < s.len() {
                assert(r[k] == s[k]);
            }
        }
        assert forall|i: int, j: int| 0 <= i < j < r.len() implies (#[trigger] r[i]).1.len() >= (
        #[trigger] r[j]).1.len() by {
            assert(r[i] == s[i]);
            if j < s.len() {
                assert(r[j] == s[j]);
            } else if i < s.len() - 1 {
                assert(s[i].1.len() >= s[s.len() - 1].1.len());
            }
        }
    } else {
        let d = s.drop_last();
        let last = s.last();
        assert(count_sorted(d)) by {
            assert forall|i: int, j: int| 0 <= i < j < d.len() implies (#[trigger] d[i]).1.len() >= (
            #[trigger] d[j]).1.len() by {
                assert(d[i] == s[i] && d[j] == s[j]);
            }
        }
        lemma_insert_by_count(d, x);
        let rec = insert_by_count(d, x);
        assert(r == rec.push(last));
        assert(d.push(last) =~= s);
        assert forall|k: int| 0 <= k < r.len() implies (#[trigger] r[k] == x || s.contains(r[k])) by {
            if k < rec.len() {
                assert(r[k] == rec[k]);
                if rec[k] != x {
                    let m = choose|m: int| 0 <= m < d.len() && d[m] == rec[k];
                    assert(s[m] == d[m]);
                }
            } else {
                assert(r[k] == s[s.len() - 1]);
            }
        }
        assert forall|i: int, j: int| 0 <= i < j < r.len() implies (#[trigger] r[i]).1.len() >= (
        #[trigger] r[j]).1.len() by {
            assert(r[i] == rec[i]);
            if j < rec.len() {
                assert(r[j] == rec[j]);
            } else {
                assert(r[j] == last);
                if rec[i] != x {
                    let m = choose|m: int| 0 <= m < d.len() && d[m] == rec[i];
                    assert(s[m] == d[m]);
                    assert(s[m].1.len() >= s[s.len() - 1].1.len());
                }
            }
        }
    }
}

proof fn lemma_sort_by_count(s: Seq<(Seq<char>, Seq<BaselineEntryView>)>)
    ensures
        count_sorted(sort_by_count(s)),
        sort_by_count(s).to_multiset() == s.to_multiset(),
    decreases s.len(),
{
    broadcast use vstd::seq_lib::group_to_multiset_ensures;

    if s.len() == 0 {
        assert(sort_by_count(s) =~= s);
    } else {
        lemma_sort_by_count(s.drop_last());
        lemma_insert_by_count(sort_by_count(s.drop_last()), s.last());
        assert(s.drop_last().push(s.last()) =~= s);
    }
}

/// Triage puts every finding in exactly one group: the group of its template.
/// No two groups share a template, none is empty, the groups hold as many
/// findings as there were, and larger groups come first.
pub proof fn law_triage_groups(es: Seq<BaselineEntryView>)
    ensures
        groups_well_formed(groups_of(es, es.len())),
        group_total(groups_of(es, es.len())) == es.len(),
        count_sorted(template_groups(es)),
        template_groups(es).to_multiset() == groups_of(es, es.len()).to_multiset(),
{
    lemma_groups_of(es, es.len());
    lemma_sort_by_count(groups_of(es, es.len()));
}

// ---------------------------------------------------------------------------
// Report summaries
// ---------------------------------------------------------------------------

/// The counts per severity of a report's summary add up to the number of
/// findings.
pub proof fn law_severity_counts_add_up(fs: Seq<FindingView>, n: nat)
    requires
        n <= fs.len(),
    ensures
        count_sev(fs, Severity::Critical, n) + count_sev(fs, Severity::High, n) + count_sev(
            fs,
            Severity::Medium,
            n,
        ) + count_sev(fs, Severity::Low, n) + count_sev(fs, Severity::Info, n) == n,
    decreases n,
{
    if n > 0 {
        law_severity_counts_add_up(fs, (n - 1) as nat);
    }
}

// ---------------------------------------------------------------------------
// Most-frequent-first orders are stable descending sorts
// ---------------------------------------------------------------------------

/// Every index sorts before the later ones: a larger key, or an equal key and
/// a smaller index.
pub open spec fn stable_desc(keys: Seq<usize>, s: Seq<usize>) -> bool {
    forall|i: int, j: int|
        0 <= i < j < s.len() ==> keys[#[trigger] s[i] as int] > keys[#[trigger] s[j] as int] || (
        keys[s[i] as int] == keys[s[j] as int] && s[i] < s[j])
}

proof fn lemma_insert_desc_split(keys: Seq<usize>, s: Seq<usize>, x: usize) -> (j: int)
    ensures
        0 <= j <= s.len(),
        insert_desc(keys, s, x) == s.insert(j, x),
        j > 0 ==> keys[s[j - 1] as int] >= keys[x as int],
        forall|k: int| j <= k < s.len() ==> keys[#[trigger] s[k] as int] < keys[x as int],
    decreases s.len(),
{
    if s.len() == 0 {
        assert(s.insert(0, x) =~= seq![x]);
        0
    } else if keys[s.last() as int] >= keys[x as int] {
        assert(s.insert(s.len() as int, x) =~= s.push(x));
        s.len() as int
    } else {
        let j = lemma_insert_desc_split(keys, s.drop_last(), x);
        assert(s.insert(j, x) =~= s.drop_last().insert(j, x).push(s.last()));
        assert forall|k: int| j <= k < s.len() implies keys[#[trigger] s[k] as int] < keys[x as int] by {
            if k < s.len() - 1 {
                assert(s[k] == s.drop_last()[k]);
            }
        }
        if j > 0 {
            assert(s[j - 1] == s.drop_last()[j - 1]);
        }
        j
    }
}

proof fn lemma_order_desc_stable(keys: Seq<usize>, n: nat)
    requires
        n <= usize::MAX,
    ensures
        stable_desc(keys, order_desc(keys, n)),
        order_desc(keys, n).len() == n,
        forall|q: int| 0 <= q < n ==> (#[trigger] order_desc(keys, n)[q]) < n,
    decreases n,
{
    crate::order::lemma_order_desc_perm(keys, n);
    if n > 0 {
        lemma_order_desc_stable(keys, (n - 1) as nat);
        let s = order_desc(keys, (n - 1) as nat);
        let x = (n - 1) as usize;
        let j = lemma_insert_desc_split(keys, s, x);
        let r = s.insert(j, x);
        assert forall|a: int, b: int| 0 <= a < b < r.len() implies keys[#[trigger] r[a] as int] > keys[#[trigger] r[b] as int]
            || (keys[r[a] as int] == keys[r[b] as int] && r[a] < r[b]) by {
            if b < j {
                assert(r[a] == s[a] && r[b] == s[b]);
            } else if b == j {
                assert(r[b] == x && r[a] == s[a]);
                assert(s[a] < x);
                if a < j - 1 {
                    assert(keys[s[a] as int] >= keys[s[j - 1] as int]);
                }
            } else if a < j {
                assert(r[a] == s[a] && r[b] == s[b - 1]);
            } else if a == j {
                assert(r[a] == x && r[b] == s[b - 1]);
            } else {
                assert(r[a] == s[a - 1] && r[b] == s[b - 1]);
            }
        }
    }
}

/// A most-frequent-first order (`order_desc`, which `tally`, the duplicate
/// and missing-type reports and the function table use) is a stable sort:
/// it holds `n` distinct indices below `n` (so each one once), larger keys
/// come first, and equal keys keep their original order.
pub proof fn law_order_desc_is_stable_sort(keys: Seq<usize>, n: nat)
    requires
        n <= usize::MAX,
    ensures
        order_desc(keys, n).len() == n,
        forall|i: int| 0 <= i < n ==> (#[trigger] order_desc(keys, n)[i]) < n,
        forall|i: int, j: int|
            0 <= i < j < n ==> order_desc(keys, n)[i] != order_desc(keys, n)[j],
        stable_desc(keys, order_desc(keys, n)),
{
    lemma_order_desc_stable(keys, n);
    let s = order_desc(keys, n);
    assert forall|i: int, j: int| 0 <= i < j < n implies s[i] != s[j] by {
        assert(keys[s[i] as int] > keys[s[j] as int] || (keys[s[i] as int] == keys[s[j] as int] && s[i] < s[j]));
    }
}

// ---------------------------------------------------------------------------
// Comparing a build with itself, and what a transform lost
// ---------------------------------------------------------------------------

/// A name names a function exactly when one of the functions has it.
proof fn lemma_named_some(fs: Seq<IRFunctionView>, x: Seq<char>)
    ensures
        named(fs, x) is Some <==> fn_names(fs).contains(x),
{
    if fn_names(fs).contains(x) {
        let q = choose|q: int| 0 <= q < fn_names(fs).len() && fn_names(fs)[q] == x;
        assert(fs[q].name == x);
        lemma_first_index(fs, x, q);
    }
    if named(fs, x) is Some {
        let i = choose|i: int| 0 <= i < fs.len() && (#[trigger] fs[i]).name == x;
        assert(fn_names(fs)[i] == x);
    }
}

/// A name that some function has has a first function with it.
proof fn lemma_first_index(fs: Seq<IRFunctionView>, x: Seq<char>, q: int)
    requires
        0 <= q < fs.len(),
        fs[q].name == x,
    ensures
        exists|k: int|
            0 <= k < fs.len() && (#[trigger] fs[k]).name == x && forall|j: int| 0 <= j < k ==> fs[j].name != x,
    decreases q,
{
    if exists|j: int| 0 <= j < q && fs[j].name == x {
        let j = choose|j: int| 0 <= j < q && fs[j].name == x;
        lemma_first_index(fs, x, j);
    } else {
        assert(forall|j: int| 0 <= j < q ==> fs[j].name != x);
    }
}

/// With distinct names, the function a name picks out is the one that has it.
proof fn lemma_named_unique(fs: Seq<IRFunctionView>, k: int)
    requires
        names_unique(fs),
        0 <= k < fs.len(),
    ensures
        named(fs, fs[k].name) == Some(fs[k]),
{
    let x = fs[k].name;
    lemma_first_index(fs, x, k);
    let i = choose|i: int|
        0 <= i < fs.len() && (#[trigger] fs[i]).name == x && forall|j: int| 0 <= j < i ==> fs[j].name != x;
    if i != k {
        if i < k {
            assert(fs[i].name != fs[k].name);
        } else {
            assert(fs[k].name != x);
        }
    }
}

/// The diff of a build with itself matches every function: each name it
/// lists has the same body on both sides.
pub proof fn law_diff_with_itself_matches(fs: Seq<IRFunctionView>, x: Seq<char>)
    requires
        fn_names(fs).contains(x),
    ensures
        diff_status(fs, fs, x) == DiffStatus::Matched,
{
    lemma_named_some(fs, x);
}

/// The functions that a transform lost (`lost_functions`) are exactly the
/// names that the diff of the two builds reports as only in the first.
pub proof fn law_lost_is_only_in_first(a: Seq<IRFunctionView>, b: Seq<IRFunctionView>, x: Seq<char>)
    requires
        fn_names(a).contains(x) || fn_names(b).contains(x),
    ensures
        (fn_names(a).contains(x) && !fn_names(b).contains(x)) <==> diff_status(a, b, x) == DiffStatus::OnlyA,
{
    lemma_named_some(a, x);
    lemma_named_some(b, x);
}

/// A build bisected against itself has no divergent function: none missing,
/// changed or added (names are distinct, as a parsed module's are).
pub proof fn law_no_divergence_from_itself(
    fs: Seq<IRFunctionView>,
    pairs: Seq<(Seq<char>, Seq<char>)>,
    n: nat,
)
    requires
        names_unique(fs),
        n <= fs.len(),
    ensures
        divergences_a(fs, fs, pairs, n).len() == 0,
        divergences_b(fs, fs, n).len() == 0,
    decreases n,
{
    if n > 0 {
        law_no_divergence_from_itself(fs, pairs, (n - 1) as nat);
        lemma_named_unique(fs, n - 1);
        assert(divergence_of(fs[n - 1], fs, pairs).len() == 0);
        assert(added_of(fs, fs[n - 1]).len() == 0);
    }
}

// ---------------------------------------------------------------------------
// Missing types are undefined
// ---------------------------------------------------------------------------

/// No use names a type of `d`.
pub open spec fn all_undefined(s: Seq<TypeUseView>, d: Set<Seq<char>>) -> bool {
    forall|i: int| 0 <= i < s.len() ==> !d.contains(#[trigger] s[i].named_type)
}

proof fn lemma_all_undefined_concat(a: Seq<TypeUseView>, b: Seq<TypeUseView>, d: Set<Seq<char>>)
    requires
        all_undefined(a, d),
        all_undefined(b, d),
    ensures
        all_undefined(a + b, d),
{
    assert forall|i: int| 0 <= i < (a + b).len() implies !d.contains(#[trigger] (a + b)[i].named_type) by {
        if i < a.len() {
            assert((a + b)[i] == a[i]);
        } else {
            assert((a + b)[i] == b[i - a.len()]);
        }
    }
}

proof fn lemma_undefined_uses_ok(
    tys: Seq<Seq<char>>,
    d: Set<Seq<char>>,
    f: Seq<char>,
    line: usize,
    ctx: Seq<char>,
    n: nat,
)
    ensures
        all_undefined(undefined_uses(tys, d, f, line, ctx, n), d),
    decreases n,
{
    if n > 0 && n <= tys.len() {
        lemma_undefined_uses_ok(tys, d, f, line, ctx, (n - 1) as nat);
        let prev = undefined_uses(tys, d, f, line, ctx, (n - 1) as nat);
        if !d.contains(tys[n - 1]) {
            let u = TypeUseView { named_type: tys[n - 1], function: f, line, context: ctx };
            assert forall|i: int| 0 <= i < prev.push(u).len() implies !d.contains(#[trigger] prev.push(u)[i].named_type) by {
                if i < prev.len() {
                    assert(prev.push(u)[i] == prev[i]);
                }
            }
        }
    }
}

proof fn lemma_body_uses_ok(f: IRFunctionView, d: Set<Seq<char>>, n: nat)
    ensures
        all_undefined(body_uses(f, d, n), d),
    decreases n,
{
    if n > 0 && n <= crate::text::lines(f.body).len() {
        lemma_body_uses_ok(f, d, (n - 1) as nat);
        let l = crate::text::lines(f.body)[n - 1];
        let tys = crate::rx::rx_groups(crate::missing_types::TYPE_USE_PATTERN@, l, 1);
        lemma_undefined_uses_ok(
            tys,
            d,
            f.name,
            crate::trace::trace_line(f, n - 1),
            crate::missing_types::use_context(l),
            tys.len(),
        );
        lemma_all_undefined_concat(body_uses(f, d, (n - 1) as nat), line_uses(f, d, n - 1), d);
    }
}

proof fn lemma_functions_uses_ok(fs: Seq<IRFunctionView>, d: Set<Seq<char>>, n: nat)
    ensures
        all_undefined(functions_uses(fs, d, n), d),
    decreases n,
{
    if n > 0 && n <= fs.len() {
        lemma_functions_uses_ok(fs, d, (n - 1) as nat);
        let f = fs[n - 1];
        let tys = crate::rx::rx_groups(crate::missing_types::TYPE_USE_PATTERN@, f.signature, 1);
        lemma_undefined_uses_ok(tys, d, f.name, f.line_start, "signature"@, tys.len());
        lemma_body_uses_ok(f, d, crate::text::lines(f.body).len());
        lemma_all_undefined_concat(
            undefined_uses(tys, d, f.name, f.line_start, "signature"@, tys.len()),
            body_uses(f, d, crate::text::lines(f.body).len()),
            d,
        );
        lemma_all_undefined_concat(functions_uses(fs, d, (n - 1) as nat), function_uses(f, d), d);
    }
}

proof fn lemma_declares_uses_ok(ds: Seq<Seq<char>>, d: Set<Seq<char>>, n: nat)
    ensures
        all_undefined(declares_uses(ds, d, n), d),
    decreases n,
{
    if n > 0 && n <= ds.len() {
        lemma_declares_uses_ok(ds, d, (n - 1) as nat);
        let tys = crate::rx::rx_groups(crate::missing_types::TYPE_USE_PATTERN@, ds[n - 1], 1);
        lemma_undefined_uses_ok(tys, d, "(declaration)"@, 0, "declare"@, tys.len());
        lemma_all_undefined_concat(
            declares_uses(ds, d, (n - 1) as nat),
            undefined_uses(tys, d, "(declaration)"@, 0, "declare"@, tys.len()),
            d,
        );
    }
}

/// Every position of a key holds that key.
proof fn lemma_positions_hold_key(keys: Seq<Seq<char>>, key: Seq<char>, n: nat)
    requires
        keys.len() <= usize::MAX,
    ensures
        forall|q: int|
            0 <= q < positions(keys, key, n).len() ==> (#[trigger] positions(keys, key, n)[q]) < keys.len()
                && keys[positions(keys, key, n)[q] as int] == key,
    decreases n,
{
    if n > 0 && n <= keys.len() {
        lemma_positions_hold_key(keys, key, (n - 1) as nat);
        let p = positions(keys, key, (n - 1) as nat);
        if keys[n - 1] == key {
            assert forall|q: int| 0 <= q < p.push((n - 1) as usize).len() implies (#[trigger] p.push(
                (n - 1) as usize,
            )[q]) < keys.len() && keys[p.push((n - 1) as usize)[q] as int] == key by {
                if q < p.len() {
                    assert(p.push((n - 1) as usize)[q] == p[q]);
                }
            }
        }
    }
}

/// The missing-types report names only types that the module does not
/// define, and each group holds uses of its own type only, at least one.
pub proof fn law_missing_types_are_undefined(m: crate::ir::IRModuleView, k: int)
    requires
        0 <= k < missing_groups(m).len(),
        type_uses_spec(m, defined_names(m).to_set()).len() <= usize::MAX,
    ensures
        !defined_names(m).contains(missing_groups(m)[k].0),
        missing_groups(m)[k].1.len() > 0,
        forall|i: int|
            0 <= i < missing_groups(m)[k].1.len() ==> (#[trigger] missing_groups(m)[k].1[i]).named_type
                == missing_groups(m)[k].0,
{
    let d = defined_names(m).to_set();
    let us = type_uses_spec(m, d);
    lemma_functions_uses_ok(m.functions, d, m.functions.len());
    lemma_declares_uses_ok(m.declares, d, m.declares.len());
    lemma_all_undefined_concat(
        functions_uses(m.functions, d, m.functions.len()),
        declares_uses(m.declares, d, m.declares.len()),
        d,
    );
    let keys = us.map_values(|u: TypeUseView| u.named_type);
    let gs = key_groups(keys, us.len());
    let sizes = gs.map_values(|g: (Seq<char>, Seq<usize>)| g.1.len() as usize);
    crate::order::lemma_order_desc_perm(sizes, gs.len());
    let ord = order_desc(sizes, gs.len());
    let g = ord[k] as int;
    assert(0 <= g < gs.len());
    let key = gs[g].0;
    crate::order::lemma_distinct_unique(keys, keys.len());
    let dk = crate::callgraph::distinct(keys, keys.len());
    assert(dk[g] == key);
    assert(dk.contains(key));
    assert(keys.take(keys.len() as int) =~= keys);
    let w = choose|w: int| 0 <= w < keys.len() && keys[w] == key;
    assert(us[w].named_type == key);
    assert(!d.contains(key));
    lemma_positions_hold_key(keys, key, keys.len());
    crate::abi::lemma_positions_has_pub(keys, key, keys.len(), w);
    assert(missing_groups(m)[k].0 == key);
    assert forall|i: int| 0 <= i < missing_groups(m)[k].1.len() implies (#[trigger] missing_groups(m)[k].1[i]).named_type
        == missing_groups(m)[k].0 by {
        let p = gs[g].1[i];
        assert(keys[p as int] == key);
    }
}

// ---------------------------------------------------------------------------
// A sorted list of names is fixed by the names it holds
// ---------------------------------------------------------------------------

proof fn lemma_lex_refl(a: Seq<char>)
    ensures
        crate::ir::lex_le(a, a),
    decreases a.len(),
{
    if a.len() > 0 {
        lemma_lex_refl(a.drop_first());
    }
}

/// Two lists of names, each sorted without repeats, that hold the same names
/// are the same list: what `sorted_unique` (and so the diff's, the missing
/// types' and the lost functions' listings) returns is the one order of a
/// `BTreeSet` of those names.
pub proof fn law_sorted_names_determined(a: Seq<Seq<char>>, b: Seq<Seq<char>>)
    requires
        strictly_sorted(a),
        strictly_sorted(b),
        forall|x: Seq<char>| a.contains(x) <==> b.contains(x),
    ensures
        a == b,
    decreases a.len(),
{
    if a.len() == 0 {
        if b.len() > 0 {
            assert(b.contains(b[0]));
        }
        assert(a =~= b);
    } else {
        assert(a.contains(a[0]));
        assert(b.len() > 0);
        assert(b.contains(b[0]));
        let j = choose|j: int| 0 <= j < b.len() && b[j] == a[0];
        let i = choose|i: int| 0 <= i < a.len() && a[i] == b[0];
        lemma_lex_refl(a[0]);
        lemma_lex_refl(b[0]);
        if i > 0 {
            assert(lex_lt(a[0], a[i]));
        }
        if j > 0 {
            assert(lex_lt(b[0], b[j]));
        }
        crate::order::lemma_lex_antisym(a[0], b[0]);
        let a1 = a.drop_first();
        let b1 = b.drop_first();
        assert forall|x: Seq<char>| a1.contains(x) <==> b1.contains(x) by {
            if a1.contains(x) {
                let q = choose|q: int| 0 <= q < a1.len() && a1[q] == x;
                assert(a[q + 1] == x);
                assert(lex_lt(a[0], a[q + 1]));
                assert(b.contains(x));
                let r = choose|r: int| 0 <= r < b.len() && b[r] == x;
                if r == 0 {
                    assert(x == a[0]);
                }
                assert(b1[r - 1] == x);
            }
            if b1.contains(x) {
                let q = choose|q: int| 0 <= q < b1.len() && b1[q] == x;
                assert(b[q + 1] == x);
                assert(lex_lt(b[0], b[q + 1]));
                assert(a.contains(x));
                let r = choose|r: int| 0 <= r < a.len() && a[r] == x;
                if r == 0 {
                    assert(x == b[0]);
                }
                assert(a1[r - 1] == x);
            }
        }
        assert forall|p: int, q: int| 0 <= p < q < a1.len() implies lex_lt(#[trigger] a1[p], #[trigger] a1[q]) by {
            assert(a1[p] == a[p + 1] && a1[q] == a[q + 1]);
        }
        assert forall|p: int, q: int| 0 <= p < q < b1.len() implies lex_lt(#[trigger] b1[p], #[trigger] b1[q]) by {
            assert(b1[p] == b[p + 1] && b1[q] == b[q + 1]);
        }
        law_sorted_names_determined(a1, b1);
        assert(a =~= seq![a[0]] + a1);
        assert(b =~= seq![b[0]] + b1);
    }
}

// ---------------------------------------------------------------------------
// Bounds of a string constant's byte count
// ---------------------------------------------------------------------------

/// The `\XX` escapes that a left-to-right scan from `i` takes.
pub open spec fn c_escapes_from(b: Seq<u8>, i: int) -> nat
    decreases b.len() - i,
{
    if i < 0 || i >= b.len() {
        0
    } else if b[i] == 0x5C && i + 2 < b.len() && is_hex_byte(b[i + 1]) && is_hex_byte(b[i + 2]) {
        1 + c_escapes_from(b, i + 3)
    } else {
        c_escapes_from(b, i + 1)
    }
}

proof fn lemma_c_bytes_bounds(b: Seq<u8>, i: int)
    requires
        0 <= i <= b.len(),
    ensures
        c_bytes_from(b, i) + 2 * c_escapes_from(b, i) == b.len() - i,
        c_bytes_from(b, i) <= b.len() - i,
        3 * c_bytes_from(b, i) >= b.len() - i,
        (forall|k: int| i <= k < b.len() ==> b[k] != 0x5C) ==> c_bytes_from(b, i) == b.len() - i,
    decreases b.len() - i,
{
    if i < b.len() {
        if b[i] == 0x5C && i + 2 < b.len() && is_hex_byte(b[i + 1]) && is_hex_byte(b[i + 2]) {
            lemma_c_bytes_bounds(b, i + 3);
        } else {
            lemma_c_bytes_bounds(b, i + 1);
        }
    }
}

/// The bytes a `c"..."` body denotes (`count_actual_bytes`) are its length
/// less two for each `\XX` escape the scan takes; so at most its length and
/// at least a third of it, and exactly its length when it holds no backslash.
pub proof fn law_byte_count_bounds(b: Seq<u8>)
    ensures
        c_byte_count(b) + 2 * c_escapes_from(b, 0) == b.len(),
        c_byte_count(b) <= b.len(),
        3 * c_byte_count(b) >= b.len(),
        (forall|k: int| 0 <= k < b.len() ==> b[k] != 0x5C) ==> c_byte_count(b) == b.len(),
{
    lemma_c_bytes_bounds(b, 0);
}

// ---------------------------------------------------------------------------
// Predecessors mirror successors
// ---------------------------------------------------------------------------

proof fn lemma_count_eq_pos(s: Seq<Seq<char>>, x: Seq<char>, n: nat)
    requires
        n <= s.len(),
    ensures
        crate::cfg::count_eq(s, x, n) > 0 <==> exists|k: int| 0 <= k < n && s[k] == x,
    decreases n,
{
    if n > 0 {
        lemma_count_eq_pos(s, x, (n - 1) as nat);
        if s[n - 1] == x {
            assert(exists|k: int| 0 <= k < n && s[k] == x);
        }
    }
}

/// The predecessors that `preds_of` lists for a label mirror the successor
/// lists: a block that goes to `target` is among its predecessors, and every
/// predecessor listed is the label of a block that goes to `target`.
pub proof fn law_predecessors_mirror_successors(
    bs: Seq<crate::cfg::BlockView>,
    target: Seq<char>,
    n: nat,
)
    requires
        n <= bs.len(),
    ensures
        forall|j: int|
            0 <= j < n && (#[trigger] bs[j]).successors.contains(target) ==> crate::cfg::preds_of(
                bs,
                target,
                n,
            ).contains(bs[j].label),
        forall|m: Seq<char>|
            crate::cfg::preds_of(bs, target, n).contains(m) ==> exists|j: int|
                0 <= j < n && (#[trigger] bs[j]).label == m && bs[j].successors.contains(target),
    decreases n,
{
    if n > 0 {
        law_predecessors_mirror_successors(bs, target, (n - 1) as nat);
        let b = bs[n - 1];
        let prev = crate::cfg::preds_of(bs, target, (n - 1) as nat);
        let c = crate::cfg::count_eq(b.successors, target, b.successors.len());
        let add = Seq::new(c, |k: int| b.label);
        let all = crate::cfg::preds_of(bs, target, n);
        assert(all == prev + add);
        lemma_count_eq_pos(b.successors, target, b.successors.len());
        assert forall|j: int| 0 <= j < n && (#[trigger] bs[j]).successors.contains(target) implies all.contains(
            bs[j].label,
        ) by {
            if j < n - 1 {
                let q = choose|q: int| 0 <= q < prev.len() && prev[q] == bs[j].label;
                assert(all[q] == bs[j].label);
            } else {
                let q = choose|q: int| 0 <= q < b.successors.len() && b.successors[q] == target;
                assert(c > 0);
                assert(all[prev.len() as int] == b.label);
            }
        }
        assert forall|m: Seq<char>| all.contains(m) implies exists|j: int|
            0 <= j < n && (#[trigger] bs[j]).label == m && bs[j].successors.contains(target) by {
            let q = choose|q: int| 0 <= q < all.len() && all[q] == m;
            if q < prev.len() {
                assert(prev[q] == m);
                assert(prev.contains(m));
            } else {
                assert(add[q - prev.len()] == b.label);
                assert(c > 0);
                let k = choose|k: int| 0 <= k < b.successors.len() && b.successors[k] == target;
                assert(b.successors.contains(target));
                assert(bs[n - 1].label == m);
            }
        }
    }
}

/// Counting `p` followed by the `\00` terminator, from inside `p`, is
/// counting `p` and one byte more.
proof fn lemma_count_before_terminator(p: Seq<u8>, i: int)
    requires
        0 <= i <= p.len(),
    ensures
        c_bytes_from(p + seq![0x5Cu8, 0x30u8, 0x30u8], i) == c_bytes_from(p, i) + 1,
    decreases p.len() - i,
{
    let b = p + seq![0x5Cu8, 0x30u8, 0x30u8];
    let n = p.len() as int;
    assert(b[n] == 0x5C && b[n + 1] == 0x30 && b[n + 2] == 0x30);
    assert(!is_hex_byte(0x5C));
    if i == n {
        assert(c_bytes_from(b, n + 3) == 0);
    } else {
        assert(b[i] == p[i]);
        if i + 2 < n {
            assert(b[i + 1] == p[i + 1] && b[i + 2] == p[i + 2]);
        }
        if p[i] == 0x5C && i + 2 < n && is_hex_byte(p[i + 1]) && is_hex_byte(p[i + 2]) {
            lemma_count_before_terminator(p, i + 3);
        } else {
            lemma_count_before_terminator(p, i + 1);
        }
    }
}

/// Each constant that `parse_ir` reads carries, as its actual size, the bytes
/// its content holds before the `\00` terminator: one less than what
/// `count_actual_bytes` counts when the content ends with `\00`, all of it
/// otherwise.
pub proof fn law_parsed_constants_are_counted(text: Seq<char>, k: int)
    requires
        0 <= k < crate::ir::parse_ir_spec(text).string_constants.len(),
    ensures
        ({
            let c = crate::ir::parse_ir_spec(text).string_constants[k];
            let b = encode_utf8(c.content);
            &&& c.actual_size == crate::ir::content_byte_count(b) as usize
            &&& crate::ir::ends_with_terminator(b) ==> crate::ir::content_byte_count(b) + 1
                == c_byte_count(b)
            &&& !crate::ir::ends_with_terminator(b) ==> crate::ir::content_byte_count(b)
                == c_byte_count(b)
        }),
{
    let c = crate::ir::parse_ir_spec(text).string_constants[k];
    let b = encode_utf8(c.content);
    if crate::ir::ends_with_terminator(b) {
        let p = b.take(b.len() - 3);
        assert(p + seq![0x5Cu8, 0x30u8, 0x30u8] =~= b);
        lemma_count_before_terminator(p, 0);
    }
}

// ---------------------------------------------------------------------------
// Every finding carries its template
// ---------------------------------------------------------------------------

/// A finding carries the fields of template `t`: its id, name, severity,
/// tags, description, impact, CWE, and its remediation's suggestion and fix.
pub open spec fn carries(t: TemplateView, f: FindingView) -> bool {
    &&& f.template_id == t.id
    &&& f.template_name == t.info.name
    &&& f.severity == t.info.severity
    &&& f.tags == t.info.tags
    &&& f.description == t.info.description
    &&& f.impact == t.info.impact
    &&& f.cwe == t.info.cwe
    &&& f.suggestion == match t.remediation {
        Some(r) => r.suggestion,
        None => Seq::<char>::empty(),
    }
    &&& f.autofix == match t.remediation {
        Some(r) => r.autofix,
        None => None,
    }
}

proof fn lemma_matcher_findings_carry(
    t: TemplateView,
    ms: Seq<crate::schema::MatcherView>,
    cond: crate::schema::Condition,
    ls: Seq<(usize, Seq<char>)>,
    n: nat,
)
    ensures
        forall|i: int|
            0 <= i < crate::engine::matcher_findings(t, ms, cond, ls, n).len() ==> carries(
                t,
                #[trigger] crate::engine::matcher_findings(t, ms, cond, ls, n)[i],
            ),
    decreases n,
{
    if n > 0 && n <= ls.len() {
        lemma_matcher_findings_carry(t, ms, cond, ls, (n - 1) as nat);
        let prev = crate::engine::matcher_findings(t, ms, cond, ls, (n - 1) as nat);
        let all = crate::engine::matcher_findings(t, ms, cond, ls, n);
        assert forall|i: int| 0 <= i < all.len() implies carries(t, #[trigger] all[i]) by {
            if i < prev.len() {
                assert(all[i] == prev[i]);
            }
        }
    }
}

proof fn lemma_flatten_carry(t: TemplateView, ss: Seq<Seq<FindingView>>)
    requires
        forall|a: int, b: int| 0 <= a < ss.len() && 0 <= b < ss[a].len() ==> carries(t, #[trigger] ss[a][b]),
    ensures
        forall|i: int|
            0 <= i < crate::engine::flatten_seq(ss).len() ==> carries(t, #[trigger] crate::engine::flatten_seq(ss)[i]),
    decreases ss.len(),
{
    if ss.len() > 0 {
        let init = ss.drop_last();
        assert forall|a: int, b: int| 0 <= a < init.len() && 0 <= b < init[a].len() implies carries(
            t,
            #[trigger] init[a][b],
        ) by {
            assert(init[a] == ss[a]);
        }
        lemma_flatten_carry(t, init);
        let f = crate::engine::flatten_seq(init);
        let l = ss.last();
        assert forall|i: int| 0 <= i < (f + l).len() implies carries(t, #[trigger] (f + l)[i]) by {
            if i < f.len() {
                assert((f + l)[i] == f[i]);
            } else {
                assert((f + l)[i] == l[i - f.len()]);
                assert(l == ss[ss.len() - 1]);
            }
        }
    }
}

/// Every finding that `run_template` reports carries its template's id,
/// name, severity, tags, description, impact, CWE, suggestion and fix, and
/// its report is the template's report format filled with its extractions.
pub proof fn law_findings_carry_their_template(t: TemplateView, m: crate::ir::IRModuleView, i: int)
    requires
        0 <= i < crate::engine::run_template_spec(t, m).len(),
    ensures
        carries(t, crate::engine::run_template_spec(t, m)[i]),
        crate::engine::run_template_spec(t, m)[i].report_format == crate::engine::interpolate_spec(
            crate::engine::report_fmt(t),
            crate::engine::run_template_spec(t, m)[i].extractions,
        ),
{
    let base = crate::engine::base_findings(t, m);
    if t.scope.file_type == crate::schema::FileType::LlvmIr {
        match t.match_block {
            crate::schema::MatchBlockView::Matchers { matchers, condition } => {
                let ls = crate::engine::target_lines(t.scope.section, m);
                lemma_matcher_findings_carry(t, matchers, condition, ls, ls.len());
            },
            crate::schema::MatchBlockView::Sequence { steps, .. } => {
                let ss = m.functions.map_values(
                    |f: IRFunctionView| crate::engine::opt_seq(crate::engine::sequence_finding(t, steps, f)),
                );
                assert forall|a: int, b: int| 0 <= a < ss.len() && 0 <= b < ss[a].len() implies carries(
                    t,
                    #[trigger] ss[a][b],
                ) by {
                    let f = m.functions[a];
                    assert(ss[a] == crate::engine::opt_seq(crate::engine::sequence_finding(t, steps, f)));
                }
                lemma_flatten_carry(t, ss);
            },
            crate::schema::MatchBlockView::CrossReference { .. } => {},
        }
    }
    assert(crate::engine::run_template_spec(t, m)[i] == crate::engine::finish_finding(t, base[i]));
}

// ---------------------------------------------------------------------------
// The detectors' report is a sorted permutation of their findings
// ---------------------------------------------------------------------------

proof fn lemma_path_le_total(a: crate::ir::PathologyView, b: crate::ir::PathologyView)
    ensures
        crate::ir::path_le(a, b) || crate::ir::path_le(b, a),
{
    crate::order::lemma_lex_total(a.function, b.function);
}

proof fn lemma_path_le_trans(
    a: crate::ir::PathologyView,
    b: crate::ir::PathologyView,
    c: crate::ir::PathologyView,
)
    requires
        crate::ir::path_le(a, b),
        crate::ir::path_le(b, c),
    ensures
        crate::ir::path_le(a, c),
{
    if crate::ir::severity_rank(a.severity) == crate::ir::severity_rank(b.severity)
        && crate::ir::severity_rank(b.severity) == crate::ir::severity_rank(c.severity) {
        crate::order::lemma_lex_trans(a.function, b.function, c.function);
    }
}

/// Every entry sorts no later than the ones after it.
pub open spec fn paths_sorted(s: Seq<crate::ir::PathologyView>) -> bool {
    forall|i: int, j: int| 0 <= i < j < s.len() ==> crate::ir::path_le(#[trigger] s[i], #[trigger] s[j])
}

proof fn lemma_insert_sorted_split(s: Seq<crate::ir::PathologyView>, x: crate::ir::PathologyView) -> (j: int)
    ensures
        0 <= j <= s.len(),
        crate::ir::insert_sorted(s, x) == s.insert(j, x),
        j > 0 ==> crate::ir::path_le(s[j - 1], x),
        forall|k: int| j <= k < s.len() ==> !crate::ir::path_le(#[trigger] s[k], x),
    decreases s.len(),
{
    if s.len() == 0 {
        assert(s.insert(0, x) =~= seq![x]);
        0
    } else if crate::ir::path_le(s.last(), x) {
        assert(s.insert(s.len() as int, x) =~= s.push(x));
        s.len() as int
    } else {
        let j = lemma_insert_sorted_split(s.drop_last(), x);
        assert(s.insert(j, x) =~= s.drop_last().insert(j, x).push(s.last()));
        assert forall|k: int| j <= k < s.len() implies !crate::ir::path_le(#[trigger] s[k], x) by {
            if k < s.len() - 1 {
                assert(s[k] == s.drop_last()[k]);
            }
        }
        if j > 0 {
            assert(s[j - 1] == s.drop_last()[j - 1]);
        }
        j
    }
}

proof fn lemma_sort_paths_sorted_perm(s: Seq<crate::ir::PathologyView>)
    ensures
        paths_sorted(crate::ir::sort_paths(s)),
        crate::ir::sort_paths(s).to_multiset() == s.to_multiset(),
    decreases s.len(),
{
    broadcast use vstd::seq_lib::group_to_multiset_ensures;

    if s.len() == 0 {
        assert(crate::ir::sort_paths(s) =~= Seq::<crate::ir::PathologyView>::empty());
    } else {
        lemma_sort_paths_sorted_perm(s.drop_last());
        let t = crate::ir::sort_paths(s.drop_last());
        let x = s.last();
        let j = lemma_insert_sorted_split(t, x);
        let r = t.insert(j, x);
        assert forall|a: int, b: int| 0 <= a < b < r.len() implies crate::ir::path_le(#[trigger] r[a], #[trigger] r[b]) by {
            if b < j {
                assert(r[a] == t[a] && r[b] == t[b]);
            } else if b == j {
                assert(r[b] == x && r[a] == t[a]);
                if a < j - 1 {
                    lemma_path_le_trans(t[a], t[j - 1], x);
                }
            } else if a < j {
                assert(r[a] == t[a] && r[b] == t[b - 1]);
            } else if a == j {
                assert(r[a] == x && r[b] == t[b - 1]);
                lemma_path_le_total(t[b - 1], x);
            } else {
                assert(r[a] == t[a - 1] && r[b] == t[b - 1]);
            }
        }
        assert(r =~= t.take(j) + seq![x] + t.skip(j));
        assert(t =~= t.take(j) + t.skip(j));
        vstd::seq_lib::lemma_multiset_commutative(t.take(j) + seq![x], t.skip(j));
        vstd::seq_lib::lemma_multiset_commutative(t.take(j), seq![x]);
        vstd::seq_lib::lemma_multiset_commutative(t.take(j), t.skip(j));
        assert(seq![x] =~= Seq::<crate::ir::PathologyView>::empty().push(x));
        assert(s =~= s.drop_last().push(x));
        assert(r.to_multiset() =~= t.to_multiset().insert(x));
    }
}

/// What `run_all_detectors` reports is a sorted permutation of what the four
/// detectors find together: the same reports, each as often, errors before
/// warnings before the rest, and by function name among equal severities.
pub proof fn law_detectors_sorted_permutation(m: crate::ir::IRModuleView)
    ensures
        crate::ir::sort_paths(crate::ir::all_pathologies(m)).to_multiset() == crate::ir::all_pathologies(
            m,
        ).to_multiset(),
        paths_sorted(crate::ir::sort_paths(crate::ir::all_pathologies(m))),
{
    lemma_sort_paths_sorted_perm(crate::ir::all_pathologies(m));
}

/// Two reports sort alike: the same severity rank and the same function.
pub open spec fn same_path_key(a: crate::ir::PathologyView, b: crate::ir::PathologyView) -> bool {
    crate::ir::severity_rank(a.severity) == crate::ir::severity_rank(b.severity) && a.function == b.function
}

/// `x` inserted into the index order `t` as `insert_sorted` inserts `s[x]`.
pub open spec fn insert_idx(s: Seq<crate::ir::PathologyView>, t: Seq<int>, x: int) -> Seq<int>
    decreases t.len(),
{
    if t.len() == 0 {
        seq![x]
    } else if crate::ir::path_le(s[t.last()], s[x]) {
        t.push(x)
    } else {
        insert_idx(s, t.drop_last(), x).push(t.last())
    }
}

/// The order in which `sort_paths` puts the first `n` reports, as indices.
pub open spec fn sort_idx(s: Seq<crate::ir::PathologyView>, n: nat) -> Seq<int>
    decreases n,
{
    if n == 0 {
        Seq::empty()
    } else {
        insert_idx(s, sort_idx(s, (n - 1) as nat), n - 1)
    }
}

/// An index order that keeps reports of the same key in their first order.
pub open spec fn idx_stable(s: Seq<crate::ir::PathologyView>, t: Seq<int>) -> bool {
    forall|a: int, b: int|
        0 <= a < b < t.len() && same_path_key(s[#[trigger] t[a]], s[#[trigger] t[b]]) ==> t[a] < t[b]
}

proof fn lemma_insert_idx(s: Seq<crate::ir::PathologyView>, t: Seq<int>, x: int)
    requires
        0 <= x < s.len(),
        forall|k: int| 0 <= k < t.len() ==> 0 <= #[trigger] t[k] < x,
        forall|a: int, b: int| 0 <= a < b < t.len() ==> t[a] != t[b],
        idx_stable(s, t),
    ensures
        ({
            let r = insert_idx(s, t, x);
            &&& r.len() == t.len() + 1
            &&& forall|k: int| 0 <= k < r.len() ==> (#[trigger] r[k] == x || exists|m: int| 0 <= m < t.len() && t[m] == r[k])
            &&& forall|k: int| 0 <= k < r.len() ==> 0 <= #[trigger] r[k] <= x
            &&& forall|a: int, b: int| 0 <= a < b < r.len() ==> r[a] != r[b]
            &&& idx_stable(s, r)
            &&& picked_reports(s, r) == crate::ir::insert_sorted(picked_reports(s, t), s[x])
        }),
    decreases t.len(),
{
    let r = insert_idx(s, t, x);
    if t.len() == 0 {
        assert(picked_reports(s, t) =~= Seq::<crate::ir::PathologyView>::empty());
        assert(picked_reports(s, r) =~= seq![s[x]]);
    } else if crate::ir::path_le(s[t.last()], s[x]) {
        assert(r == t.push(x));
        assert(picked_reports(s, t).last() == s[t.last()]);
        assert(picked_reports(s, r) =~= picked_reports(s, t).push(s[x]));
        assert forall|k: int| 0 <= k < r.len() implies (#[trigger] r[k] == x || exists|m: int|
            0 <= m < t.len() && t[m] == r[k]) by {
            if k < t.len() {
                assert(t[k] == r[k]);
            }
        }
        assert forall|a: int, b: int| 0 <= a < b < r.len() implies r[a] != r[b] by {
            assert(r[a] == t[a]);
            if b < t.len() {
                assert(r[b] == t[b]);
            }
        }
        assert forall|a: int, b: int|
            0 <= a < b < r.len() && same_path_key(s[#[trigger] r[a]], s[#[trigger] r[b]]) implies r[a] < r[b] by {
            assert(r[a] == t[a]);
            if b < t.len() {
                assert(r[b] == t[b]);
            }
        }
    } else {
        let d = t.drop_last();
        let l = t.last();
        assert forall|a: int, b: int|
            0 <= a < b < d.len() && same_path_key(s[#[trigger] d[a]], s[#[trigger] d[b]]) implies d[a] < d[b] by {
            assert(d[a] == t[a] && d[b] == t[b]);
        }
        lemma_insert_idx(s, d, x);
        let q = insert_idx(s, d, x);
        assert(r == q.push(l));
        assert(picked_reports(s, t) =~= picked_reports(s, d).push(s[l]));
        assert(picked_reports(s, r) =~= picked_reports(s, q).push(s[l]));
        assert(picked_reports(s, t).drop_last() =~= picked_reports(s, d));
        assert forall|k: int| 0 <= k < r.len() implies (#[trigger] r[k] == x || exists|m: int|
            0 <= m < t.len() && t[m] == r[k]) by {
            if k < q.len() {
                assert(r[k] == q[k]);
                if q[k] != x {
                    let m = choose|m: int| 0 <= m < d.len() && d[m] == q[k];
                    assert(t[m] == d[m]);
                }
            } else {
                assert(t[t.len() - 1] == r[k]);
            }
        }
        assert forall|k: int| 0 <= k < r.len() implies 0 <= #[trigger] r[k] <= x by {
            if k < q.len() {
                assert(r[k] == q[k]);
            } else {
                assert(r[k] == t[t.len() - 1]);
            }
        }
        assert forall|a: int, b: int| 0 <= a < b < r.len() implies r[a] != r[b] by {
            assert(r[a] == q[a]);
            if b < q.len() {
                assert(r[b] == q[b]);
            } else {
                assert(r[b] == l);
                if q[a] != x {
                    let m = choose|m: int| 0 <= m < d.len() && d[m] == q[a];
                    assert(t[m] == d[m]);
                }
            }
        }
        assert forall|a: int, b: int|
            0 <= a < b < r.len() && same_path_key(s[#[trigger] r[a]], s[#[trigger] r[b]]) implies r[a] < r[b] by {
            assert(r[a] == q[a]);
            if b < q.len() {
                assert(r[b] == q[b]);
            } else {
                assert(r[b] == l);
                if q[a] == x {
                    crate::order::lemma_lex_total(s[l].function, s[l].function);
                    assert(crate::ir::path_le(s[l], s[x]));
                } else {
                    let m = choose|m: int| 0 <= m < d.len() && d[m] == q[a];
                    assert(t[m] == d[m]);
                    assert(t[t.len() - 1] == l);
                }
            }
        }
    }
}

/// The reports an index order picks.
pub open spec fn picked_reports(s: Seq<crate::ir::PathologyView>, t: Seq<int>) -> Seq<crate::ir::PathologyView> {
    t.map_values(|i: int| s[i])
}

proof fn lemma_sort_idx(s: Seq<crate::ir::PathologyView>, n: nat)
    requires
        n <= s.len(),
    ensures
        ({
            let t = sort_idx(s, n);
            &&& t.len() == n
            &&& forall|k: int| 0 <= k < t.len() ==> 0 <= #[trigger] t[k] < n
            &&& forall|a: int, b: int| 0 <= a < b < t.len() ==> t[a] != t[b]
            &&& idx_stable(s, t)
            &&& picked_reports(s, t) == crate::ir::sort_paths(s.take(n as int))
        }),
    decreases n,
{
    if n == 0 {
        assert(s.take(0) =~= Seq::<crate::ir::PathologyView>::empty());
        assert(picked_reports(s, Seq::<int>::empty()) =~= Seq::<crate::ir::PathologyView>::empty());
    } else {
        lemma_sort_idx(s, (n - 1) as nat);
        let t = sort_idx(s, (n - 1) as nat);
        lemma_insert_idx(s, t, n - 1);
        assert(s.take(n as int).drop_last() =~= s.take(n - 1));
        assert(s.take(n as int).last() == s[n - 1]);
    }
}

/// The detector reports' order keeps reports that sort alike (same severity
/// rank, same function) in the order the four detectors gave them: the
/// result is the reports at a list of distinct positions, each position once,
/// and positions of reports that sort alike increase.
pub proof fn law_detectors_sort_is_stable(m: crate::ir::IRModuleView)
    ensures
        ({
            let s = crate::ir::all_pathologies(m);
            let t = sort_idx(s, s.len());
            &&& t.len() == s.len()
            &&& forall|k: int| 0 <= k < t.len() ==> 0 <= #[trigger] t[k] < s.len()
            &&& forall|a: int, b: int| 0 <= a < b < t.len() ==> t[a] != t[b]
            &&& forall|k: int| 0 <= k < t.len() ==> crate::ir::sort_paths(s)[k] == s[#[trigger] t[k]]
            &&& idx_stable(s, t)
        }),
{
    let s = crate::ir::all_pathologies(m);
    lemma_sort_idx(s, s.len());
    assert(s.take(s.len() as int) =~= s);
    let t = sort_idx(s, s.len());
    assert forall|k: int| 0 <= k < t.len() implies crate::ir::sort_paths(s)[k] == s[#[trigger] t[k]] by {
        assert(picked_reports(s, t)[k] == s[t[k]]);
    }
}

// ---------------------------------------------------------------------------
// The template listing is a sorted permutation of the templates
// ---------------------------------------------------------------------------

proof fn lemma_listed_total(a: TemplateView, b: TemplateView)
    ensures
        crate::loader::listed_before(a, b) || crate::loader::listed_before(b, a),
{
    crate::order::lemma_lex_total(a.id, b.id);
}

proof fn lemma_listed_trans(
    a: TemplateView,
    b: TemplateView,
    c: TemplateView,
)
    requires
        crate::loader::listed_before(a, b),
        crate::loader::listed_before(b, c),
    ensures
        crate::loader::listed_before(a, c),
{
    if crate::schema::severity_rank(a.info.severity) == crate::schema::severity_rank(b.info.severity)
        && crate::schema::severity_rank(b.info.severity) == crate::schema::severity_rank(c.info.severity) {
        crate::order::lemma_lex_trans(a.id, b.id, c.id);
    }
}

/// Every entry sorts no later than the ones after it.
pub open spec fn listing_sorted(s: Seq<TemplateView>) -> bool {
    forall|i: int, j: int| 0 <= i < j < s.len() ==> crate::loader::listed_before(#[trigger] s[i], #[trigger] s[j])
}

proof fn lemma_insert_listed_split(s: Seq<TemplateView>, x: TemplateView) -> (j: int)
    ensures
        0 <= j <= s.len(),
        crate::loader::insert_listed(s, x) == s.insert(j, x),
        j > 0 ==> crate::loader::listed_before(s[j - 1], x),
        forall|k: int| j <= k < s.len() ==> !crate::loader::listed_before(#[trigger] s[k], x),
    decreases s.len(),
{
    if s.len() == 0 {
        assert(s.insert(0, x) =~= seq![x]);
        0
    } else if crate::loader::listed_before(s.last(), x) {
        assert(s.insert(s.len() as int, x) =~= s.push(x));
        s.len() as int
    } else {
        let j = lemma_insert_listed_split(s.drop_last(), x);
        assert(s.insert(j, x) =~= s.drop_last().insert(j, x).push(s.last()));
        assert forall|k: int| j <= k < s.len() implies !crate::loader::listed_before(#[trigger] s[k], x) by {
            if k < s.len() - 1 {
                assert(s[k] == s.drop_last()[k]);
            }
        }
        if j > 0 {
            assert(s[j - 1] == s.drop_last()[j - 1]);
        }
        j
    }
}

proof fn lemma_listing_sorted_perm(s: Seq<TemplateView>)
    ensures
        listing_sorted(crate::loader::listing_order(s)),
        crate::loader::listing_order(s).to_multiset() == s.to_multiset(),
    decreases s.len(),
{
    broadcast use vstd::seq_lib::group_to_multiset_ensures;

    if s.len() == 0 {
        assert(crate::loader::listing_order(s) =~= Seq::<TemplateView>::empty());
    } else {
        lemma_listing_sorted_perm(s.drop_last());
        let t = crate::loader::listing_order(s.drop_last());
        let x = s.last();
        let j = lemma_insert_listed_split(t, x);
        let r = t.insert(j, x);
        assert forall|a: int, b: int| 0 <= a < b < r.len() implies crate::loader::listed_before(#[trigger] r[a], #[trigger] r[b]) by {
            if b < j {
                assert(r[a] == t[a] && r[b] == t[b]);
            } else if b == j {
                assert(r[b] == x && r[a] == t[a]);
                if a < j - 1 {
                    lemma_listed_trans(t[a], t[j - 1], x);
                }
            } else if a < j {
                assert(r[a] == t[a] && r[b] == t[b - 1]);
            } else if a == j {
                assert(r[a] == x && r[b] == t[b - 1]);
                lemma_listed_total(t[b - 1], x);
            } else {
                assert(r[a] == t[a - 1] && r[b] == t[b - 1]);
            }
        }
        assert(r =~= t.take(j) + seq![x] + t.skip(j));
        assert(t =~= t.take(j) + t.skip(j));
        vstd::seq_lib::lemma_multiset_commutative(t.take(j) + seq![x], t.skip(j));
        vstd::seq_lib::lemma_multiset_commutative(t.take(j), seq![x]);
        vstd::seq_lib::lemma_multiset_commutative(t.take(j), t.skip(j));
        assert(seq![x] =~= Seq::<TemplateView>::empty().push(x));
        assert(s =~= s.drop_last().push(x));
        assert(r.to_multiset() =~= t.to_multiset().insert(x));
    }
}

/// The template listing (`sort_for_listing`) is a sorted permutation of the
/// templates: the same templates, each as often, critical first down to info,
/// and by id among equal severities.
pub proof fn law_listing_sorted_permutation(ts: Seq<TemplateView>)
    ensures
        crate::loader::listing_order(ts).to_multiset() == ts.to_multiset(),
        listing_sorted(crate::loader::listing_order(ts)),
{
    lemma_listing_sorted_perm(ts);
}

// ---------------------------------------------------------------------------
// Instrumentation keeps every line
// ---------------------------------------------------------------------------

/// Lines `a..b`, each followed by a newline.
pub open spec fn joined(ls: Seq<Seq<char>>, a: int, b: int) -> Seq<char>
    decreases b - a,
{
    if b <= a {
        Seq::empty()
    } else {
        joined(ls, a, b - 1) + ls[b - 1] + "\n"@
    }
}

/// A line before which the probe declarations go.
pub open spec fn opens_code(l: Seq<char>) -> bool {
    crate::text::starts_with(l, "declare"@) || crate::text::starts_with(l, "define"@)
}

/// The first of the first `n` lines that is a `declare` or `define`.
pub open spec fn first_code_line(ls: Seq<Seq<char>>, n: nat) -> Option<int>
    decreases n,
{
    if n == 0 || n > ls.len() {
        None
    } else {
        match first_code_line(ls, (n - 1) as nat) {
            Some(j) => Some(j),
            None => if opens_code(ls[n - 1]) {
                Some(n - 1)
            } else {
                None
            },
        }
    }
}

proof fn lemma_probe_scan_plain(ls: Seq<Seq<char>>, fname: Seq<char>, n: nat)
    requires
        n <= ls.len(),
    ensures
        crate::probe::probe_scan(ls, fname, None, n).added == (first_code_line(ls, n) is Some),
        crate::probe::probe_scan(ls, fname, None, n).out == match first_code_line(ls, n) {
            Some(j) => joined(ls, 0, j) + crate::probe::probe_header() + joined(ls, j, n as int),
            None => joined(ls, 0, n as int),
        },
        first_code_line(ls, n) matches Some(j) ==> 0 <= j < n,
    decreases n,
{
    if n > 0 {
        lemma_probe_scan_plain(ls, fname, (n - 1) as nat);
        let st = crate::probe::probe_scan(ls, fname, None, (n - 1) as nat);
        let l = ls[n - 1];
        assert(crate::probe::stop_note(l, None) == Seq::<char>::empty());
        match first_code_line(ls, (n - 1) as nat) {
            Some(j) => {
                assert(joined(ls, j, n as int) == joined(ls, j, n - 1) + l + "\n"@);
                assert(st.out + l + "\n"@ =~= joined(ls, 0, j) + crate::probe::probe_header() + joined(ls, j, n as int));
            },
            None => {
                if opens_code(l) {
                    assert(joined(ls, n - 1, n - 1) == Seq::<char>::empty());
                    assert(joined(ls, n - 1, n as int) =~= Seq::<char>::empty() + l + "\n"@);
                    assert(st.out + crate::probe::probe_header() + l + "\n"@ =~= joined(ls, 0, n - 1)
                        + crate::probe::probe_header() + joined(ls, n - 1, n as int));
                } else {
                    assert(st.out + l + "\n"@ =~= joined(ls, 0, n as int));
                }
            },
        }
    }
}

/// Instrumenting without a stop point keeps every input line, in order, each
/// followed by a newline, and adds only the probe declarations, once, before
/// the first `declare` or `define` line (nothing when there is none).
pub proof fn law_instrumentation_keeps_every_line(ir: Seq<char>, fname: Seq<char>)
    ensures
        crate::probe::instrument_spec(ir, fname, None) == match first_code_line(
            crate::text::lines(ir),
            crate::text::lines(ir).len(),
        ) {
            Some(j) => joined(crate::text::lines(ir), 0, j) + crate::probe::probe_header() + joined(
                crate::text::lines(ir),
                j,
                crate::text::lines(ir).len() as int,
            ),
            None => joined(crate::text::lines(ir), 0, crate::text::lines(ir).len() as int),
        },
{
    lemma_probe_scan_plain(crate::text::lines(ir), fname, crate::text::lines(ir).len());
}



/// The note that instrumentation writes after line `i`: the stop note of the
/// line while it is inside the probed function, nothing elsewhere.
pub open spec fn note_at(ls: Seq<Seq<char>>, fname: Seq<char>, stop: Option<Seq<char>>, i: int) -> Seq<char> {
    if crate::probe::probe_scan(ls, fname, stop, (i + 1) as nat).inside {
        crate::probe::stop_note(ls[i], stop)
    } else {
        Seq::empty()
    }
}

/// Lines `a..b`, each followed by a newline and its note.
pub open spec fn noted(ls: Seq<Seq<char>>, fname: Seq<char>, stop: Option<Seq<char>>, a: int, b: int) -> Seq<char>
    decreases b - a,
{
    if b <= a {
        Seq::empty()
    } else {
        noted(ls, fname, stop, a, b - 1) + ls[b - 1] + "\n"@ + note_at(ls, fname, stop, b - 1)
    }
}

/// One step of the pass: the header where due, the line and its newline, and
/// the stop note while inside the function.
proof fn lemma_probe_step_out(st: crate::probe::ProbeScan, l: Seq<char>, fname: Seq<char>, stop: Option<Seq<char>>)
    ensures
        ({
            let r = crate::probe::probe_step(st, l, fname, stop);
            let h = !st.added && opens_code(l);
            &&& r.added == (st.added || h)
            &&& r.out == (if h {
                st.out + crate::probe::probe_header()
            } else {
                st.out
            }) + l + "\n"@ + (if r.inside {
                crate::probe::stop_note(l, stop)
            } else {
                Seq::<char>::empty()
            })
        }),
{
    let r = crate::probe::probe_step(st, l, fname, stop);
    if r.inside {
    } else {
        let h = !st.added && opens_code(l);
        let o1 = if h {
            st.out + crate::probe::probe_header()
        } else {
            st.out
        };
        assert(o1 + l + "\n"@ =~= o1 + l + "\n"@ + Seq::<char>::empty());
    }
}

#[verifier::rlimit(30)]
proof fn lemma_probe_scan_noted(ls: Seq<Seq<char>>, fname: Seq<char>, stop: Option<Seq<char>>, n: nat)
    requires
        n <= ls.len(),
    ensures
        crate::probe::probe_scan(ls, fname, stop, n).added == (first_code_line(ls, n) is Some),
        crate::probe::probe_scan(ls, fname, stop, n).out == match first_code_line(ls, n) {
            Some(j) => noted(ls, fname, stop, 0, j) + crate::probe::probe_header() + noted(
                ls,
                fname,
                stop,
                j,
                n as int,
            ),
            None => noted(ls, fname, stop, 0, n as int),
        },
        first_code_line(ls, n) matches Some(j) ==> 0 <= j < n,
    decreases n,
{
    if n > 0 {
        lemma_probe_scan_noted(ls, fname, stop, (n - 1) as nat);
        let st = crate::probe::probe_scan(ls, fname, stop, (n - 1) as nat);
        let l = ls[n - 1];
        let note = note_at(ls, fname, stop, n - 1);
        assert(((n - 1) + 1) as nat == n);
        lemma_probe_step_out(st, l, fname, stop);
        assert(crate::probe::probe_scan(ls, fname, stop, n) == crate::probe::probe_step(st, l, fname, stop));
        match first_code_line(ls, (n - 1) as nat) {
            Some(j) => {
                assert(noted(ls, fname, stop, j, n as int) == noted(ls, fname, stop, j, n - 1) + l + "\n"@ + note);
                assert(st.out + l + "\n"@ + note =~= noted(ls, fname, stop, 0, j) + crate::probe::probe_header()
                    + noted(ls, fname, stop, j, n as int));
            },
            None => {
                if opens_code(l) {
                    assert(noted(ls, fname, stop, n - 1, n - 1) == Seq::<char>::empty());
                    assert(noted(ls, fname, stop, n - 1, n as int) =~= Seq::<char>::empty() + l + "\n"@ + note);
                    assert(st.out + crate::probe::probe_header() + l + "\n"@ + note =~= noted(
                        ls,
                        fname,
                        stop,
                        0,
                        n - 1,
                    ) + crate::probe::probe_header() + noted(ls, fname, stop, n - 1, n as int));
                } else {
                    assert(st.out + l + "\n"@ + note =~= noted(ls, fname, stop, 0, n as int));
                }
            },
        }
    }
}

/// Instrumenting keeps every input line, in order, each followed by a
/// newline; it adds the probe declarations once, before the first `declare`
/// or `define` line, and after a line only its note: the stop note of a block
/// label of the probed function whose name holds the stop point (nothing else,
/// and nothing at all without a stop point).
pub proof fn law_instrumentation_with_stop_keeps_every_line(
    ir: Seq<char>,
    fname: Seq<char>,
    stop: Option<Seq<char>>,
)
    ensures
        ({
            let ls = crate::text::lines(ir);
            crate::probe::instrument_spec(ir, fname, stop) == match first_code_line(ls, ls.len()) {
                Some(j) => noted(ls, fname, stop, 0, j) + crate::probe::probe_header() + noted(
                    ls,
                    fname,
                    stop,
                    j,
                    ls.len() as int,
                ),
                None => noted(ls, fname, stop, 0, ls.len() as int),
            }
        }),
        forall|i: int|
            0 <= i < crate::text::lines(ir).len() ==> {
                let nt = #[trigger] note_at(crate::text::lines(ir), fname, stop, i);
                nt.len() == 0 || nt == crate::probe::stop_note(crate::text::lines(ir)[i], stop)
            },
        stop is None ==> forall|i: int|
            0 <= i < crate::text::lines(ir).len() ==> (#[trigger] note_at(
                crate::text::lines(ir),
                fname,
                stop,
                i,
            )).len() == 0,
{
    lemma_probe_scan_noted(crate::text::lines(ir), fname, stop, crate::text::lines(ir).len());
}

// ---------------------------------------------------------------------------
// Parsed C modules
// ---------------------------------------------------------------------------

proof fn lemma_fold_c_fns_shape(
    text: Seq<char>,
    caps: Seq<Seq<Option<(usize, usize)>>>,
    n: nat,
)
    ensures
        crate::c_parser::c_names_unique(crate::c_parser::fold_c_fns(text, caps, n)),
        forall|i: int|
            0 <= i < crate::c_parser::fold_c_fns(text, caps, n).len()
                ==> !crate::c_parser::is_control_word(
                #[trigger] crate::c_parser::fold_c_fns(text, caps, n)[i].name,
            ),
    decreases n,
{
    if n == 0 || n > caps.len() {
    } else {
        let prev = crate::c_parser::fold_c_fns(text, caps, (n - 1) as nat);
        lemma_fold_c_fns_shape(text, caps, (n - 1) as nat);
        match crate::c_parser::c_function_of(text, caps[n - 1]) {
            Some(f) => {
                assert(!crate::c_parser::is_control_word(f.name));
                if exists|i: int| 0 <= i < prev.len() && prev[i].name == f.name {
                    let k = choose|i: int| 0 <= i < prev.len() && prev[i].name == f.name;
                    assert(crate::c_parser::upsert_c_fn(prev, f) == prev.update(k, f));
                    let r = prev.update(k, f);
                    assert forall|i: int, j: int| 0 <= i < j < r.len() implies r[i].name
                        != r[j].name by {
                        if i == k {
                            assert(r[j] == prev[j]);
                        } else if j == k {
                            assert(r[i] == prev[i]);
                        } else {
                            assert(r[i] == prev[i] && r[j] == prev[j]);
                        }
                    }
                    assert forall|i: int| 0 <= i < r.len() implies !crate::c_parser::is_control_word(
                        #[trigger] r[i].name,
                    ) by {
                        if i != k {
                            assert(r[i] == prev[i]);
                        }
                    }
                } else {
                    let r = prev.push(f);
                    assert forall|i: int, j: int| 0 <= i < j < r.len() implies r[i].name
                        != r[j].name by {
                        if j == prev.len() {
                            assert(r[i] == prev[i]);
                        } else {
                            assert(r[i] == prev[i] && r[j] == prev[j]);
                        }
                    }
                    assert forall|i: int| 0 <= i < r.len() implies !crate::c_parser::is_control_word(
                        #[trigger] r[i].name,
                    ) by {
                        if i < prev.len() {
                            assert(r[i] == prev[i]);
                        }
                    }
                }
            },
            None => {},
        }
    }
}

/// A parsed C module keeps its source and has no typedefs; blank text gives
/// empty lists; its functions have distinct names, none of them `if`, `for`,
/// `while` or `switch`.
pub proof fn law_parsed_c_functions_are_named(text: Seq<char>)
    ensures
        crate::c_parser::parse_c_spec(text).source == text,
        crate::c_parser::parse_c_spec(text).typedefs.len() == 0,
        crate::text::trim(text).len() == 0 ==> {
            let m = crate::c_parser::parse_c_spec(text);
            &&& m.functions.len() == 0
            &&& m.structs.len() == 0
            &&& m.enums.len() == 0
            &&& m.includes.len() == 0
            &&& m.forward_decls.len() == 0
        },
        crate::c_parser::c_names_unique(crate::c_parser::parse_c_spec(text).functions),
        forall|i: int|
            0 <= i < crate::c_parser::parse_c_spec(text).functions.len()
                ==> !crate::c_parser::is_control_word(
                #[trigger] crate::c_parser::parse_c_spec(text).functions[i].name,
            ),
{
    let caps = crate::rx::rx_caps(crate::c_parser::C_FN_PATTERN@, text);
    lemma_fold_c_fns_shape(text, caps, caps.len());
}


// ---------------------------------------------------------------------------
// Parsed IR modules
// ---------------------------------------------------------------------------

/// A character of lowercase hexadecimal.
pub open spec fn is_lower_hex(c: char) -> bool {
    ('0' <= c && c <= '9') || ('a' <= c && c <= 'f')
}

proof fn lemma_hex_digits_shape(v: nat, n: nat)
    ensures
        crate::text::hex_digits(v, n).len() == n,
        forall|i: int|
            0 <= i < n ==> is_lower_hex(#[trigger] crate::text::hex_digits(v, n)[i]),
    decreases n,
{
    if n > 0 {
        lemma_hex_digits_shape(v / 16, (n - 1) as nat);
        let prev = crate::text::hex_digits(v / 16, (n - 1) as nat);
        assert forall|i: int| 0 <= i < n implies is_lower_hex(
            #[trigger] crate::text::hex_digits(v, n)[i],
        ) by {
            if i < n - 1 {
                assert(crate::text::hex_digits(v, n)[i] == prev[i]);
            }
        }
    }
}

/// The function of a header match, as the module holds it.
pub open spec fn fn_well_formed(f: IRFunctionView) -> bool {
    &&& f.body_hash == crate::ir::structural_hash_spec(f.body)
    &&& f.metrics == crate::ir::metrics_of(f.body)
}

proof fn lemma_fold_fns_shape(text: Seq<char>, caps: Seq<Seq<Option<(usize, usize)>>>, n: nat)
    ensures
        names_unique(crate::ir::fold_fns(text, caps, n)),
        forall|i: int|
            0 <= i < crate::ir::fold_fns(text, caps, n).len() ==> fn_well_formed(
                #[trigger] crate::ir::fold_fns(text, caps, n)[i],
            ),
    decreases n,
{
    if n == 0 || n > caps.len() {
    } else {
        let prev = crate::ir::fold_fns(text, caps, (n - 1) as nat);
        let f = crate::ir::fn_view_of(text, caps[n - 1]);
        lemma_fold_fns_shape(text, caps, (n - 1) as nat);
        assert(fn_well_formed(f));
        if exists|i: int| 0 <= i < prev.len() && prev[i].name == f.name {
            let k = choose|i: int| 0 <= i < prev.len() && prev[i].name == f.name;
            assert(crate::ir::upsert_fn(prev, f) == prev.update(k, f));
            let r = prev.update(k, f);
            assert forall|i: int, j: int| 0 <= i < j < r.len() implies r[i].name != r[j].name by {
                if i == k {
                    assert(r[j] == prev[j]);
                } else if j == k {
                    assert(r[i] == prev[i]);
                } else {
                    assert(r[i] == prev[i] && r[j] == prev[j]);
                }
            }
            assert forall|i: int| 0 <= i < r.len() implies fn_well_formed(#[trigger] r[i]) by {
                if i != k {
                    assert(r[i] == prev[i]);
                }
            }
        } else {
            let r = prev.push(f);
            assert forall|i: int, j: int| 0 <= i < j < r.len() implies r[i].name != r[j].name by {
                if j == prev.len() {
                    assert(r[i] == prev[i]);
                } else {
                    assert(r[i] == prev[i] && r[j] == prev[j]);
                }
            }
            assert forall|i: int| 0 <= i < r.len() implies fn_well_formed(#[trigger] r[i]) by {
                if i < prev.len() {
                    assert(r[i] == prev[i]);
                }
            }
        }
    }
}

/// A parsed IR module keeps its source; its functions have distinct names, and
/// each carries the metrics and the structural hash of its own body, sixteen
/// lowercase hexadecimal digits; each struct type's estimated size is the
/// (wrapping) sum of the sizes of its fields.
pub proof fn law_parsed_ir_module_shape(text: Seq<char>)
    ensures
        crate::ir::parse_ir_spec(text).source == text,
        names_unique(crate::ir::parse_ir_spec(text).functions),
        forall|i: int|
            0 <= i < crate::ir::parse_ir_spec(text).functions.len() ==> {
                let f = #[trigger] crate::ir::parse_ir_spec(text).functions[i];
                &&& fn_well_formed(f)
                &&& f.body_hash.len() == 16
                &&& forall|j: int| 0 <= j < 16 ==> is_lower_hex(#[trigger] f.body_hash[j])
            },
        forall|i: int|
            0 <= i < crate::ir::parse_ir_spec(text).struct_types.len() ==> {
                let s = #[trigger] crate::ir::parse_ir_spec(text).struct_types[i];
                s.estimated_size == crate::ir::sum_type_sizes(s.fields)
            },
{
    let fcaps = crate::rx::rx_caps(crate::ir::FN_PATTERN@, text);
    lemma_fold_fns_shape(text, fcaps, fcaps.len());
    let fs = crate::ir::parse_ir_spec(text).functions;
    assert forall|i: int| 0 <= i < fs.len() implies {
        let f = #[trigger] fs[i];
        &&& fn_well_formed(f)
        &&& f.body_hash.len() == 16
        &&& forall|j: int| 0 <= j < 16 ==> is_lower_hex(#[trigger] f.body_hash[j])
    } by {
        lemma_hex_digits_shape(
            crate::ir::default_hash(crate::ir::normalize_ir(fs[i].body)) as nat,
            16,
        );
    }
}


// ---------------------------------------------------------------------------
// Severity names and output formats read back
// ---------------------------------------------------------------------------

proof fn lemma_trim_plain(s: Seq<char>)
    requires
        s.len() > 0,
        !crate::text::is_ws(s[0]),
        !crate::text::is_ws(s.last()),
    ensures
        crate::text::trim(s) == s,
{
    assert(crate::text::lead_ws(s) == 0);
    assert(crate::text::trim_start(s) =~= s);
    assert(crate::text::trail_ws(s) == 0);
    assert(crate::text::trim_end(s) =~= s);
}

proof fn lemma_ascii_lower_plain(s: Seq<char>)
    requires
        forall|i: int| 0 <= i < s.len() ==> 'a' <= #[trigger] s[i] && s[i] <= 'z',
    ensures
        crate::text::lowercase(s) == s,
{
    assert(crate::text::all_ascii(s));
    assert(s.map_values(|c: char| crate::text::ascii_lower_char(c)) =~= s);
}

/// The facts of one severity name that reading it back needs.
proof fn lemma_severity_name_reads_back(sev: Severity)
    ensures
        crate::text::lowercase(crate::text::trim(crate::schema::severity_name(sev)))
            == crate::schema::severity_name(sev),
        crate::loader::severity_of_word(crate::schema::severity_name(sev)) == Some(sev),
        forall|i: int|
            0 <= i < crate::schema::severity_name(sev).len()
                ==> #[trigger] crate::schema::severity_name(sev)[i] != ',',
{
    reveal_strlit("critical");
    reveal_strlit("high");
    reveal_strlit("medium");
    reveal_strlit("low");
    reveal_strlit("info");
    let n = crate::schema::severity_name(sev);
    assert(forall|i: int| 0 <= i < n.len() ==> 'a' <= #[trigger] n[i] && n[i] <= 'z');
    lemma_trim_plain(n);
    lemma_ascii_lower_plain(n);
}

proof fn lemma_find_comma(a: Seq<char>, x: Seq<char>, i: int)
    requires
        0 <= i <= a.len(),
        a.len() <= x.len(),
        x.take(a.len() as int) == a,
        forall|j: int| 0 <= j < a.len() ==> #[trigger] a[j] != ',',
    ensures
        a.len() < x.len() && x[a.len() as int] == ',' ==> crate::text::find_char_from(x, ',', i)
            == Some(a.len() as int),
        a.len() == x.len() ==> crate::text::find_char_from(x, ',', i) is None,
    decreases a.len() - i,
{
    if i < a.len() {
        assert(x[i] == a[i]);
        lemma_find_comma(a, x, i + 1);
    }
}

/// `split` undoes a join by `,` of pieces that hold no comma.
proof fn lemma_split_join(ws: Seq<Seq<char>>)
    requires
        ws.len() > 0,
        forall|k: int, j: int|
            0 <= k < ws.len() && 0 <= j < ws[k].len() ==> #[trigger] ws[k][j] != ',',
    ensures
        crate::text::split(crate::text::join_sep(ws, ","@), ',') == ws,
    decreases ws.len(),
{
    reveal_strlit(",");
    let w0 = ws[0];
    if ws.len() == 1 {
        assert(w0.take(w0.len() as int) =~= w0);
        lemma_find_comma(w0, w0, 0);
        assert(crate::text::split(w0, ',') =~= seq![w0]);
        assert(ws =~= seq![w0]);
    } else {
        let rest = ws.drop_first();
        lemma_join_front(ws, ","@);
        let x = crate::text::join_sep(ws, ","@);
        let tail = crate::text::join_sep(rest, ","@);
        assert(x == w0 + ","@ + tail);
        assert(x.take(w0.len() as int) =~= w0);
        assert(x[w0.len() as int] == ',');
        lemma_find_comma(w0, x, 0);
        assert(x.skip(w0.len() as int + 1) =~= tail);
        lemma_split_join(rest);
        assert(ws =~= seq![w0] + rest);
    }
}

/// A join peeled from the front: the first item, the separator, the join of the rest.
proof fn lemma_join_front(ws: Seq<Seq<char>>, sep: Seq<char>)
    requires
        ws.len() >= 2,
    ensures
        crate::text::join_sep(ws, sep) == ws[0] + sep + crate::text::join_sep(ws.drop_first(), sep),
    decreases ws.len(),
{
    if ws.len() == 2 {
        assert(ws.drop_last() =~= seq![ws[0]]);
        assert(ws.drop_first() =~= seq![ws[1]]);
        assert(crate::text::join_sep(ws.drop_last(), sep) == ws[0]);
        assert(crate::text::join_sep(ws.drop_first(), sep) == ws[1]);
        assert(ws.last() == ws[1]);
    } else {
        lemma_join_front(ws.drop_last(), sep);
        assert(ws.drop_last().drop_first() =~= ws.drop_first().drop_last());
        assert(ws.drop_last()[0] == ws[0]);
        assert(ws.drop_first().last() == ws.last());
        assert(crate::text::join_sep(ws, sep) =~= ws[0] + sep + crate::text::join_sep(
            ws.drop_first(),
            sep,
        ));
    }
}

proof fn lemma_severities_of_names(ss: Seq<Severity>, n: nat)
    requires
        n <= ss.len(),
    ensures
        crate::loader::severities_of(
            ss.map_values(|s: Severity| crate::schema::severity_name(s)),
            n,
        ) == ss.take(n as int),
    decreases n,
{
    let ws = ss.map_values(|s: Severity| crate::schema::severity_name(s));
    if n == 0 {
        assert(ss.take(0) =~= Seq::<Severity>::empty());
    } else {
        lemma_severities_of_names(ss, (n - 1) as nat);
        lemma_severity_name_reads_back(ss[n - 1]);
        assert(ws[n - 1] == crate::schema::severity_name(ss[n - 1]));
        assert(ss.take(n as int) =~= ss.take(n - 1).push(ss[n - 1]));
    }
}

/// Naming a list of severities and joining the names with commas reads back as
/// the same list, in order, repeats kept.
pub proof fn law_severity_names_parse_back(ss: Seq<Severity>)
    ensures
        crate::loader::parse_severities_spec(
            crate::text::join_sep(ss.map_values(|s: Severity| crate::schema::severity_name(s)), ","@),
        ) == ss,
{
    let ws = ss.map_values(|s: Severity| crate::schema::severity_name(s));
    if ss.len() == 0 {
        let e = Seq::<char>::empty();
        assert(crate::text::join_sep(ws, ","@) == e);
        assert(crate::text::find_char_from(e, ',', 0) is None);
        assert(crate::text::split(e, ',') =~= seq![e]);
        assert(crate::text::lead_ws(e) == 0 && crate::text::trail_ws(e) == 0);
        assert(crate::text::trim(e) =~= e);
        assert(crate::text::lowercase(e) =~= e);
        reveal_strlit("critical");
        reveal_strlit("high");
        reveal_strlit("medium");
        reveal_strlit("low");
        reveal_strlit("info");
        assert(crate::loader::severity_of_word(e) is None);
        assert(seq![e][0] == e);
        assert(crate::loader::severities_of(seq![e], 0) =~= Seq::<Severity>::empty());
        assert(crate::loader::severities_of(seq![e], 1) =~= Seq::<Severity>::empty());
    } else {
        assert forall|k: int, j: int| 0 <= k < ws.len() && 0 <= j < ws[k].len() implies #[trigger] ws[k][j]
            != ',' by {
            lemma_severity_name_reads_back(ss[k]);
        }
        lemma_split_join(ws);
        lemma_severities_of_names(ss, ss.len());
        assert(ss.take(ss.len() as int) =~= ss);
    }
}

/// Lowercasing ASCII text twice is lowercasing it once.
proof fn lemma_lowercase_ascii_idempotent(s: Seq<char>)
    requires
        crate::text::all_ascii(s),
    ensures
        crate::text::all_ascii(crate::text::lowercase(s)),
        crate::text::lowercase(crate::text::lowercase(s)) == crate::text::lowercase(s),
{
    let l = crate::text::lowercase(s);
    assert forall|i: int| 0 <= i < l.len() implies (l[i] as u32) < 128 by {
        assert(l[i] == crate::text::ascii_lower_char(s[i]));
    }
    assert(l.map_values(|c: char| crate::text::ascii_lower_char(c)) =~= l);
}

/// The output format ignores the case of ASCII names: a name and its
/// lowercase select the same format; a name whose lowercase is none of
/// `json`, `sarif`, `markdown` or `md` selects text.
pub proof fn law_output_format_ignores_case(s: Seq<char>)
    ensures
        crate::text::all_ascii(s) ==> crate::report::output_format_of(
            crate::text::lowercase(crate::text::lowercase(s)),
        ) == crate::report::output_format_of(crate::text::lowercase(s)),
        !(crate::text::lowercase(s) == "json"@ || crate::text::lowercase(s) == "sarif"@
            || crate::text::lowercase(s) == "markdown"@ || crate::text::lowercase(s) == "md"@)
            ==> crate::report::output_format_of(crate::text::lowercase(s))
            == crate::report::OutputFormat::Text,
{
    if crate::text::all_ascii(s) {
        lemma_lowercase_ascii_idempotent(s);
    }
}


// ---------------------------------------------------------------------------
// Triage of findings
// ---------------------------------------------------------------------------

/// The number of findings over all groups.
pub open spec fn finding_total(gs: Seq<(Seq<char>, Seq<FindingView>)>) -> nat
    decreases gs.len(),
{
    if gs.len() == 0 {
        0
    } else {
        finding_total(gs.drop_last()) + gs.last().1.len()
    }
}

/// Each group is non-empty, holds only findings of its template, and no two
/// groups share a template.
pub open spec fn finding_groups_well_formed(gs: Seq<(Seq<char>, Seq<FindingView>)>) -> bool {
    &&& forall|j: int| 0 <= j < gs.len() ==> (#[trigger] gs[j]).1.len() >= 1
    &&& forall|j: int, k: int|
        0 <= j < gs.len() && 0 <= k < gs[j].1.len() ==> (#[trigger] gs[j].1[k]).template_id == gs[j].0
    &&& forall|j: int, k: int| 0 <= j < k < gs.len() ==> (#[trigger] gs[j]).0 != (#[trigger] gs[k]).0
}

/// Groups in triage order: each may stand before every later one.
pub open spec fn triage_sorted(s: Seq<(Seq<char>, Seq<FindingView>)>) -> bool {
    forall|i: int, j: int|
        0 <= i < j < s.len() ==> crate::triage::triage_before((#[trigger] s[i]).1, (#[trigger] s[j]).1)
}

proof fn lemma_finding_total_update(
    gs: Seq<(Seq<char>, Seq<FindingView>)>,
    j: int,
    g: (Seq<char>, Seq<FindingView>),
)
    requires
        0 <= j < gs.len(),
    ensures
        finding_total(gs.update(j, g)) + gs[j].1.len() == finding_total(gs) + g.1.len(),
    decreases gs.len(),
{
    let u = gs.update(j, g);
    if j == gs.len() - 1 {
        assert(u.drop_last() =~= gs.drop_last());
    } else {
        lemma_finding_total_update(gs.drop_last(), j, g);
        assert(u.drop_last() =~= gs.drop_last().update(j, g));
    }
}

proof fn lemma_fgroup_pos(gs: Seq<(Seq<char>, Seq<FindingView>)>, tid: Seq<char>, i: int)
    requires
        0 <= i,
    ensures
        crate::triage::fgroup_pos(gs, tid, i) matches Some(j) ==> i <= j < gs.len() && gs[j].0 == tid,
        crate::triage::fgroup_pos(gs, tid, i) is None ==> forall|a: int|
            i <= a < gs.len() ==> (#[trigger] gs[a]).0 != tid,
    decreases gs.len() - i,
{
    if i < gs.len() && gs[i].0 != tid {
        lemma_fgroup_pos(gs, tid, i + 1);
    }
}

proof fn lemma_finding_groups(fs: Seq<FindingView>, n: nat)
    requires
        n <= fs.len(),
    ensures
        finding_groups_well_formed(crate::triage::finding_groups(fs, n)),
        finding_total(crate::triage::finding_groups(fs, n)) == n,
    decreases n,
{
    if n > 0 {
        let gs = crate::triage::finding_groups(fs, (n - 1) as nat);
        lemma_finding_groups(fs, (n - 1) as nat);
        let f = fs[n - 1];
        let r = crate::triage::finding_groups(fs, n);
        lemma_fgroup_pos(gs, f.template_id, 0);
        match crate::triage::fgroup_pos(gs, f.template_id, 0) {
            Some(j) => {
                let g = (gs[j].0, gs[j].1.push(f));
                assert(r == gs.update(j, g));
                lemma_finding_total_update(gs, j, g);
                assert forall|a: int, k: int|
                    0 <= a < r.len() && 0 <= k < r[a].1.len() implies (#[trigger] r[a].1[k]).template_id
                    == r[a].0 by {
                    if a != j {
                        assert(r[a] == gs[a]);
                    } else if k < gs[j].1.len() {
                        assert(r[a].1[k] == gs[j].1[k]);
                    }
                }
                assert forall|a: int, b: int| 0 <= a < b < r.len() implies (#[trigger] r[a]).0 != (
                #[trigger] r[b]).0 by {
                    assert(gs[a].0 == r[a].0 && gs[b].0 == r[b].0);
                }
                assert forall|a: int| 0 <= a < r.len() implies (#[trigger] r[a]).1.len() >= 1 by {
                    if a != j {
                        assert(r[a] == gs[a]);
                    }
                }
            },
            None => {
                let g = (f.template_id, seq![f]);
                assert(r == gs.push(g));
                assert(r.drop_last() =~= gs);
                assert forall|a: int, k: int|
                    0 <= a < r.len() && 0 <= k < r[a].1.len() implies (#[trigger] r[a].1[k]).template_id
                    == r[a].0 by {
                    if a < gs.len() {
                        assert(r[a] == gs[a]);
                    }
                }
                assert forall|a: int, b: int| 0 <= a < b < r.len() implies (#[trigger] r[a]).0 != (
                #[trigger] r[b]).0 by {
                    assert(r[a] == gs[a]);
                    if b < gs.len() {
                        assert(r[b] == gs[b]);
                    }
                }
                assert forall|a: int| 0 <= a < r.len() implies (#[trigger] r[a]).1.len() >= 1 by {
                    if a < gs.len() {
                        assert(r[a] == gs[a]);
                    }
                }
            },
        }
    }
}

proof fn lemma_insert_group(s: Seq<(Seq<char>, Seq<FindingView>)>, x: (Seq<char>, Seq<FindingView>))
    requires
        triage_sorted(s),
    ensures
        triage_sorted(crate::triage::insert_group(s, x)),
        crate::triage::insert_group(s, x).to_multiset() == s.to_multiset().insert(x),
        forall|k: int|
            0 <= k < crate::triage::insert_group(s, x).len() ==> (
            #[trigger] crate::triage::insert_group(s, x)[k] == x || s.contains(
                crate::triage::insert_group(s, x)[k],
            )),
    decreases s.len(),
{
    broadcast use vstd::seq_lib::group_to_multiset_ensures;

    let r = crate::triage::insert_group(s, x);
    if s.len() == 0 {
        assert(r == seq![x]);
        assert(seq![x] =~= Seq::<(Seq<char>, Seq<FindingView>)>::empty().push(x));
    } else if crate::triage::triage_before(s.last().1, x.1) {
        assert(r == s.push(x));
        assert forall|k: int| 0 <= k < r.len() implies (#[trigger] r[k] == x || s.contains(r[k])) by {
            if k < s.len() {
                assert(r[k] == s[k]);
            }
        }
        assert forall|i: int, j: int| 0 <= i < j < r.len() implies crate::triage::triage_before(
            (#[trigger] r[i]).1,
            (#[trigger] r[j]).1,
        ) by {
            assert(r[i] == s[i]);
            if j < s.len() {
                assert(r[j] == s[j]);
            } else if i < s.len() - 1 {
                assert(crate::triage::triage_before(s[i].1, s[s.len() - 1].1));
            }
        }
    } else {
        let d = s.drop_last();
        let last = s.last();
        assert(triage_sorted(d)) by {
            assert forall|i: int, j: int| 0 <= i < j < d.len() implies crate::triage::triage_before(
                (#[trigger] d[i]).1,
                (#[trigger] d[j]).1,
            ) by {
                assert(d[i] == s[i] && d[j] == s[j]);
            }
        }
        lemma_insert_group(d, x);
        let rec = crate::triage::insert_group(d, x);
        assert(r == rec.push(last));
        assert(d.push(last) =~= s);
        assert forall|k: int| 0 <= k < r.len() implies (#[trigger] r[k] == x || s.contains(r[k])) by {
            if k < rec.len() {
                assert(r[k] == rec[k]);
                if rec[k] != x {
                    let m = choose|m: int| 0 <= m < d.len() && d[m] == rec[k];
                    assert(s[m] == d[m]);
                }
            } else {
                assert(r[k] == s[s.len() - 1]);
            }
        }
        assert forall|i: int, j: int| 0 <= i < j < r.len() implies crate::triage::triage_before(
            (#[trigger] r[i]).1,
            (#[trigger] r[j]).1,
        ) by {
            assert(r[i] == rec[i]);
            if j < rec.len() {
                assert(r[j] == rec[j]);
            } else {
                assert(r[j] == last);
                if rec[i] != x {
                    let m = choose|m: int| 0 <= m < d.len() && d[m] == rec[i];
                    assert(s[m] == d[m]);
                    assert(crate::triage::triage_before(s[m].1, s[s.len() - 1].1));
                }
            }
        }
    }
}

proof fn lemma_sort_groups(s: Seq<(Seq<char>, Seq<FindingView>)>)
    ensures
        triage_sorted(crate::triage::sort_groups(s)),
        crate::triage::sort_groups(s).to_multiset() == s.to_multiset(),
    decreases s.len(),
{
    broadcast use vstd::seq_lib::group_to_multiset_ensures;

    if s.len() == 0 {
        assert(crate::triage::sort_groups(s) =~= s);
    } else {
        lemma_sort_groups(s.drop_last());
        lemma_insert_group(crate::triage::sort_groups(s.drop_last()), s.last());
        assert(s.drop_last().push(s.last()) =~= s);
    }
}

/// Triage puts every finding in exactly one group, the group of its template:
/// no two groups share a template, none is empty, and together they hold as
/// many findings as there were. The reported groups are those groups, most
/// severe first and, among equally severe ones, the largest first.
pub proof fn law_triage_of_findings(fs: Seq<FindingView>)
    ensures
        finding_groups_well_formed(crate::triage::finding_groups(fs, fs.len())),
        finding_total(crate::triage::finding_groups(fs, fs.len())) == fs.len(),
        triage_sorted(crate::triage::triage_spec(fs)),
        crate::triage::triage_spec(fs).to_multiset() == crate::triage::finding_groups(
            fs,
            fs.len(),
        ).to_multiset(),
{
    lemma_finding_groups(fs, fs.len());
    lemma_sort_groups(crate::triage::finding_groups(fs, fs.len()));
}


// ---------------------------------------------------------------------------
// Wrapper constants are counted
// ---------------------------------------------------------------------------

/// Escaped bytes followed by anything count as many bytes as they were made
/// from, plus what follows counts by itself.
proof fn lemma_escaped_then_rest(b: Seq<u8>, rest: Seq<u8>)
    ensures
        c_bytes_from(encode_utf8(escape_bytes(b)) + rest, 0) == b.len() + c_bytes_from(rest, 0),
    decreases b.len(),
{
    if b.len() == 0 {
        assert(escape_bytes(b) =~= Seq::<char>::empty());
        assert(encode_utf8(Seq::<char>::empty()) =~= Seq::<u8>::empty());
        assert(encode_utf8(escape_bytes(b)) + rest =~= rest);
    } else {
        let tail = b.drop_first();
        lemma_escape_front(b);
        crate::text::lemma_encode_concat(escape_byte(b[0]), escape_bytes(tail));
        lemma_escape_byte_counts_one(b[0], encode_utf8(escape_bytes(tail)) + rest);
        lemma_escaped_then_rest(tail, rest);
        assert(encode_utf8(escape_bytes(b)) + rest =~= encode_utf8(escape_byte(b[0])) + (encode_utf8(
            escape_bytes(tail),
        ) + rest));
    }
}

/// Each quoted argument of a generated wrapper becomes a constant whose
/// declared size is the number of bytes its `c"..."` content denotes: the
/// argument's UTF-8 bytes and the terminating zero.
pub proof fn law_wrapper_arguments_are_counted(i: nat, a: Seq<char>)
    ensures
        ({
            let content = escape_bytes(encode_utf8(crate::eval::unquoted(a))) + "\\00"@;
            let n = encode_utf8(crate::eval::unquoted(a)).len() + 1;
            &&& crate::eval::string_arg_decl(i, a) == "@.culebra_str_"@ + crate::text::decimal(i)
                + " = private constant ["@ + crate::text::decimal(n) + " x i8] c\""@ + content
                + "\"\n"@
            &&& c_byte_count(encode_utf8(content)) == n
        }),
{
    reveal_strlit("\\00");
    reveal_strlit("\\00\"\n");
    reveal_strlit("\"\n");
    let b = encode_utf8(crate::eval::unquoted(a));
    let z = "\\00"@;
    assert(z == seq!['\x5C', '0', '0']);
    lemma_encode_three_ascii('\x5C', '0', '0');
    let zb = encode_utf8(z);
    assert(zb == seq![0x5Cu8, 0x30u8, 0x30u8]);
    assert(c_bytes_from(zb, 3) == 0);
    assert(c_bytes_from(zb, 0) == 1);
    crate::text::lemma_encode_concat(escape_bytes(b), z);
    lemma_escaped_then_rest(b, zb);
    assert("\\00\"\n"@ =~= z + "\"\n"@);
    let n = b.len() + 1;
    assert(crate::eval::string_arg_decl(i, a) =~= "@.culebra_str_"@ + crate::text::decimal(i)
        + " = private constant ["@ + crate::text::decimal(n) + " x i8] c\""@ + (escape_bytes(b) + z)
        + "\"\n"@);
}


/// Plain ASCII text (no backslash) followed by anything counts one byte per
/// character, plus what follows counts by itself.
proof fn lemma_plain_then_rest(p: Seq<char>, rest: Seq<u8>)
    requires
        forall|k: int| 0 <= k < p.len() ==> (#[trigger] p[k] as u32) < 0x80 && (p[k] as u32) != 0x5C,
    ensures
        c_bytes_from(encode_utf8(p) + rest, 0) == p.len() + c_bytes_from(rest, 0),
    decreases p.len(),
{
    if p.len() == 0 {
        assert(encode_utf8(p) =~= Seq::<u8>::empty());
        assert(encode_utf8(p) + rest =~= rest);
    } else {
        let c = p[0];
        let tail = p.drop_first();
        assert(seq![c] + tail =~= p);
        crate::text::lemma_encode_concat(seq![c], tail);
        lemma_encode_one_ascii(c);
        lemma_plain_then_rest(tail, rest);
        let x = encode_utf8(tail) + rest;
        assert(encode_utf8(p) + rest =~= seq![ascii_byte(c)] + x);
        assert((seq![ascii_byte(c)] + x)[0] == ascii_byte(c));
        let v = c as u32;
        assert(v != 0x5C);
        assert((v as u8) as u32 == v) by (bit_vector)
            requires
                v < 0x80,
        ;
        assert(ascii_byte(c) != 0x5C);
        lemma_c_bytes_shift(seq![ascii_byte(c)], x, 0);
    }
}

/// The bytes of `\0A\00` denote two bytes.
proof fn lemma_newline_zero_counts_two()
    ensures
        c_byte_count(encode_utf8("\\0A\\00"@)) == 2,
{
    reveal_strlit("\\0A\\00");
    let t = "\\0A\\00"@;
    assert(t =~= seq!['\x5C', '0', 'A'] + seq!['\x5C', '0', '0']);
    lemma_encode_three_ascii('\x5C', '0', 'A');
    lemma_encode_three_ascii('\x5C', '0', '0');
    crate::text::lemma_encode_concat(seq!['\x5C', '0', 'A'], seq!['\x5C', '0', '0']);
    let b = encode_utf8(t);
    assert(b =~= seq![0x5Cu8, 0x30u8, 0x41u8, 0x5Cu8, 0x30u8, 0x30u8]);
    assert(c_bytes_from(b, 6) == 0);
    assert(c_bytes_from(b, 3) == 1);
    assert(c_bytes_from(b, 0) == 2);
}

/// The two format constants of a generated wrapper declare, as `[22 x i8]`,
/// the number of bytes their `c"..."` content denotes.
pub proof fn law_wrapper_formats_are_counted()
    ensures
        crate::eval::format_constants() == "\n@.culebra_fmt_i64 = private constant [22 x i8] c\""@
            + "culebra_result: %lld\\0A\\00"@ + "\"\n"@
            + "@.culebra_fmt_str = private constant [22 x i8] c\""@ + "culebra_result: %.*s\\0A\\00"@
            + "\"\n"@,
        c_byte_count(encode_utf8("culebra_result: %lld\\0A\\00"@)) == 22,
        c_byte_count(encode_utf8("culebra_result: %.*s\\0A\\00"@)) == 22,
{
    reveal_strlit("\n@.culebra_fmt_i64 = private constant [22 x i8] c\"culebra_result: %lld\\0A\\00\"\n");
    reveal_strlit("@.culebra_fmt_str = private constant [22 x i8] c\"culebra_result: %.*s\\0A\\00\"\n");
    reveal_strlit("\n@.culebra_fmt_i64 = private constant [22 x i8] c\"");
    reveal_strlit("@.culebra_fmt_str = private constant [22 x i8] c\"");
    reveal_strlit("culebra_result: %lld\\0A\\00");
    reveal_strlit("culebra_result: %.*s\\0A\\00");
    reveal_strlit("\"\n");
    reveal_strlit("culebra_result: %lld");
    reveal_strlit("culebra_result: %.*s");
    reveal_strlit("\\0A\\00");
    assert(crate::eval::format_constants() =~= "\n@.culebra_fmt_i64 = private constant [22 x i8] c\""@
        + "culebra_result: %lld\\0A\\00"@ + "\"\n"@
        + "@.culebra_fmt_str = private constant [22 x i8] c\""@ + "culebra_result: %.*s\\0A\\00"@
        + "\"\n"@);
    lemma_newline_zero_counts_two();
    let tail = "\\0A\\00"@;
    let p1 = "culebra_result: %lld"@;
    let p2 = "culebra_result: %.*s"@;
    assert(p1.len() == 20 && p2.len() == 20);
    assert(forall|k: int| 0 <= k < p1.len() ==> (#[trigger] p1[k] as u32) < 0x80 && (p1[k] as u32) != 0x5C);
    assert(forall|k: int| 0 <= k < p2.len() ==> (#[trigger] p2[k] as u32) < 0x80 && (p2[k] as u32) != 0x5C);
    assert("culebra_result: %lld\\0A\\00"@ =~= p1 + tail);
    assert("culebra_result: %.*s\\0A\\00"@ =~= p2 + tail);
    crate::text::lemma_encode_concat(p1, tail);
    crate::text::lemma_encode_concat(p2, tail);
    lemma_plain_then_rest(p1, encode_utf8(tail));
    lemma_plain_then_rest(p2, encode_utf8(tail));
}


/// The three constants that instrumentation inserts declare, as `[31 x i8]`,
/// `[33 x i8]` and `[27 x i8]`, the number of bytes their `c"..."` content
/// denotes (`count_actual_bytes`, the terminator included).
pub proof fn law_probe_constants_are_counted()
    ensures
        crate::probe::probe_header() == "declare i32 @printf(ptr, ...)\n"@
            + "@.probe_fmt_i64 = private constant [31 x i8] c\""@ + "[PROBE] %s = %lld (block: %s)"@
            + "\\0A\\00"@ + "\"\n"@
            + "@.probe_fmt_ptr = private constant [33 x i8] c\""@ + "[PROBE] %s = 0x%llx (block: %s)"@
            + "\\0A\\00"@ + "\"\n"@
            + "@.probe_block = private constant [27 x i8] c\""@ + "[PROBE] entering block %s"@
            + "\\0A\\00"@ + "\"\n"@,
        c_byte_count(encode_utf8("[PROBE] %s = %lld (block: %s)"@ + "\\0A\\00"@)) == 31,
        c_byte_count(encode_utf8("[PROBE] %s = 0x%llx (block: %s)"@ + "\\0A\\00"@)) == 33,
        c_byte_count(encode_utf8("[PROBE] entering block %s"@ + "\\0A\\00"@)) == 27,
{
    reveal_strlit("declare i32 @printf(ptr, ...)\n");
    reveal_strlit("@.probe_fmt_i64 = private constant [31 x i8] c\"[PROBE] %s = %lld (block: %s)\\0A\\00\"\n");
    reveal_strlit("@.probe_fmt_ptr = private constant [33 x i8] c\"[PROBE] %s = 0x%llx (block: %s)\\0A\\00\"\n");
    reveal_strlit("@.probe_block = private constant [27 x i8] c\"[PROBE] entering block %s\\0A\\00\"\n");
    reveal_strlit("@.probe_fmt_i64 = private constant [31 x i8] c\"");
    reveal_strlit("@.probe_fmt_ptr = private constant [33 x i8] c\"");
    reveal_strlit("@.probe_block = private constant [27 x i8] c\"");
    reveal_strlit("[PROBE] %s = %lld (block: %s)");
    reveal_strlit("[PROBE] %s = 0x%llx (block: %s)");
    reveal_strlit("[PROBE] entering block %s");
    reveal_strlit("\\0A\\00");
    reveal_strlit("\"\n");
    assert("@.probe_fmt_i64 = private constant [31 x i8] c\"[PROBE] %s = %lld (block: %s)\\0A\\00\"\n"@ =~= "@.probe_fmt_i64 = private constant [31 x i8] c\""@ + "[PROBE] %s = %lld (block: %s)"@ + "\\0A\\00"@ + "\"\n"@);
    assert("@.probe_fmt_ptr = private constant [33 x i8] c\"[PROBE] %s = 0x%llx (block: %s)\\0A\\00\"\n"@ =~= "@.probe_fmt_ptr = private constant [33 x i8] c\""@ + "[PROBE] %s = 0x%llx (block: %s)"@ + "\\0A\\00"@ + "\"\n"@);
    assert("@.probe_block = private constant [27 x i8] c\"[PROBE] entering block %s\\0A\\00\"\n"@ =~= "@.probe_block = private constant [27 x i8] c\""@ + "[PROBE] entering block %s"@ + "\\0A\\00"@ + "\"\n"@);
    assert(crate::probe::probe_header() =~= "declare i32 @printf(ptr, ...)\n"@ + "@.probe_fmt_i64 = private constant [31 x i8] c\""@ + "[PROBE] %s = %lld (block: %s)"@
        + "\\0A\\00"@ + "\"\n"@ + "@.probe_fmt_ptr = private constant [33 x i8] c\""@ + "[PROBE] %s = 0x%llx (block: %s)"@ + "\\0A\\00"@ + "\"\n"@ + "@.probe_block = private constant [27 x i8] c\""@ + "[PROBE] entering block %s"@ + "\\0A\\00"@ + "\"\n"@);
    lemma_newline_zero_counts_two();
    let tail = "\\0A\\00"@;
    let c1 = "[PROBE] %s = %lld (block: %s)"@;
    let c2 = "[PROBE] %s = 0x%llx (block: %s)"@;
    let c3 = "[PROBE] entering block %s"@;
    assert(c1.len() == 29 && c2.len() == 31 && c3.len() == 25);
    assert(forall|k: int| 0 <= k < c1.len() ==> (#[trigger] c1[k] as u32) < 0x80 && (c1[k] as u32) != 0x5C);
    assert(forall|k: int| 0 <= k < c2.len() ==> (#[trigger] c2[k] as u32) < 0x80 && (c2[k] as u32) != 0x5C);
    assert(forall|k: int| 0 <= k < c3.len() ==> (#[trigger] c3[k] as u32) < 0x80 && (c3[k] as u32) != 0x5C);
    crate::text::lemma_encode_concat(c1, tail);
    crate::text::lemma_encode_concat(c2, tail);
    crate::text::lemma_encode_concat(c3, tail);
    lemma_plain_then_rest(c1, encode_utf8(tail));
    lemma_plain_then_rest(c2, encode_utf8(tail));
    lemma_plain_then_rest(c3, encode_utf8(tail));
}


// ---------------------------------------------------------------------------
// A generated wrapper keeps the module's lines
// ---------------------------------------------------------------------------

/// Joining lines only reads the lines it joins.
proof fn lemma_joined_prefix(t: Seq<Seq<char>>, u: Seq<Seq<char>>, b: int)
    requires
        0 <= b <= t.len(),
        b <= u.len(),
        forall|i: int| 0 <= i < b ==> t[i] == u[i],
    ensures
        joined(t, 0, b) == joined(u, 0, b),
    decreases b,
{
    if b > 0 {
        lemma_joined_prefix(t, u, b - 1);
    }
}

proof fn lemma_kept_lines(ls: Seq<Seq<char>>)
    ensures
        crate::eval::kept_module_lines(ls) == joined(
            ls.filter(|l: Seq<char>| !crate::eval::is_main_define(l)),
            0,
            ls.filter(|l: Seq<char>| !crate::eval::is_main_define(l)).len() as int,
        ),
    decreases ls.len(),
{
    let p = |l: Seq<char>| !crate::eval::is_main_define(l);
    reveal(Seq::filter);
    if ls.len() > 0 {
        lemma_kept_lines(ls.drop_last());
        let sub = ls.drop_last().filter(p);
        if p(ls.last()) {
            let f = sub.push(ls.last());
            assert(ls.filter(p) == f);
            lemma_joined_prefix(f, sub, sub.len() as int);
            assert(f[sub.len() as int] == ls.last());
        } else {
            assert(ls.filter(p) == sub);
        }
    }
}

/// A generated wrapper starts with the module's lines, in order, each followed
/// by a newline, less the lines that define `main` (so none of the kept lines
/// defines `main`); then come the `printf` declaration, the argument and
/// format constants, and the wrapper's own `main`.
pub proof fn law_wrapper_keeps_module_lines(
    ir: Seq<char>,
    fname: Seq<char>,
    ret: Seq<char>,
    args: Seq<Seq<char>>,
    floats: Seq<bool>,
    sret: bool,
)
    ensures
        ({
            let kept = crate::text::lines(ir).filter(|l: Seq<char>| !crate::eval::is_main_define(l));
            &&& crate::eval::wrapper_spec(ir, fname, ret, args, floats, sret) == joined(kept, 0, kept.len() as int)
                + "\ndeclare i32 @printf(ptr, ...)\n"@ + crate::eval::string_arg_decls(args, args.len())
                + crate::eval::format_constants() + "\ndefine i32 @main() {\nentry:\n"@ + crate::eval::main_body(
                fname,
                ret,
                crate::eval::call_operands(args, floats, args.len()),
                sret,
            ) + "  ret i32 0\n}\n"@
            &&& forall|i: int| 0 <= i < kept.len() ==> !crate::eval::is_main_define(#[trigger] kept[i])
        }),
{
    let ls = crate::text::lines(ir);
    let p = |l: Seq<char>| !crate::eval::is_main_define(l);
    lemma_kept_lines(ls);
    let kept = ls.filter(p);
    assert forall|i: int| 0 <= i < kept.len() implies !crate::eval::is_main_define(#[trigger] kept[i]) by {
        ls.filter_lemma(p);
        assert(p(kept[i]));
    }
}


// ---------------------------------------------------------------------------
// The Markdown report's headings and rows
// ---------------------------------------------------------------------------

/// The Markdown report's sections are one per finding, in order, each opening
/// with a `### ` heading; a severity's count row is there exactly when some
/// finding has that severity.
#[verifier::rlimit(40)]
pub proof fn law_markdown_sections(fs: Seq<FindingView>, file: Seq<char>)
    ensures
        forall|n: int|
            0 <= n < fs.len() ==> crate::report::md_sections(fs.take(n + 1), file) == crate::report::md_sections(
                #[trigger] fs.take(n),
                file,
            ) + crate::report::md_section(fs[n], file),
        crate::report::md_sections(fs.take(fs.len() as int), file) == crate::report::md_sections(fs, file),
        forall|n: int|
            0 <= n < fs.len() ==> (#[trigger] crate::report::md_section(fs[n], file)).take(4) == "### "@,
        forall|label: Seq<char>, c: nat|
            (#[trigger] crate::report::md_count_row(label, c)).len() > 0 <==> c > 0,
{
    reveal_strlit("### ");
    reveal_strlit("| ");
    assert forall|n: int| 0 <= n < fs.len() implies crate::report::md_sections(fs.take(n + 1), file)
        == crate::report::md_sections(#[trigger] fs.take(n), file) + crate::report::md_section(fs[n], file) by {
        assert(fs.take(n + 1).drop_last() =~= fs.take(n));
        assert(fs.take(n + 1).last() == fs[n]);
    }
    assert(fs.take(fs.len() as int) =~= fs);
    assert forall|n: int| 0 <= n < fs.len() implies (#[trigger] crate::report::md_section(fs[n], file)).take(4)
        == "### "@ by {
        let f = fs[n];
        let sec = crate::report::md_section(f, file);
        assert(sec.take(4) =~= "### "@);
    }
    assert forall|label: Seq<char>, c: nat| (#[trigger] crate::report::md_count_row(label, c)).len() > 0 <==> c
        > 0 by {
        if c > 0 {
            assert(("| "@ + label).len() >= 2);
        }
    }
}


// ---------------------------------------------------------------------------
// Basic blocks
// ---------------------------------------------------------------------------

/// A block record as the scan makes it: not empty, and its counts and
/// successors those of its own instructions and terminator.
pub open spec fn block_well_made(b: crate::cfg::BlockView) -> bool {
    &&& (b.instructions.len() > 0 || b.terminator is Some)
    &&& b.allocas == crate::cfg::count_instrs(b.instructions, "= alloca "@, false, b.instructions.len()) as usize
    &&& b.stores == crate::cfg::count_instrs(b.instructions, "store "@, true, b.instructions.len()) as usize
    &&& b.loads == crate::cfg::count_instrs(b.instructions, "= load "@, false, b.instructions.len()) as usize
    &&& b.calls == crate::cfg::count_instrs(b.instructions, "call "@, false, b.instructions.len()) as usize
    &&& b.successors == crate::cfg::successors_of(
        match b.terminator {
            Some(t) => t,
            None => Seq::empty(),
        },
    )
}

proof fn lemma_close_block_well_made(st: crate::cfg::BlockScan)
    requires
        forall|i: int| 0 <= i < st.blocks.len() ==> block_well_made(#[trigger] st.blocks[i]),
    ensures
        forall|i: int|
            0 <= i < crate::cfg::close_block(st).len() ==> block_well_made(#[trigger] crate::cfg::close_block(st)[i]),
{
    let r = crate::cfg::close_block(st);
    assert forall|i: int| 0 <= i < r.len() implies block_well_made(#[trigger] r[i]) by {
        if i < st.blocks.len() {
            assert(r[i] == st.blocks[i]);
        }
    }
}

proof fn lemma_block_scan_well_made(ls: Seq<Seq<char>>, n: nat)
    ensures
        forall|i: int|
            0 <= i < crate::cfg::block_scan(ls, n).blocks.len() ==> block_well_made(
                #[trigger] crate::cfg::block_scan(ls, n).blocks[i],
            ),
    decreases n,
{
    if n > 0 && n <= ls.len() {
        let st = crate::cfg::block_scan(ls, (n - 1) as nat);
        lemma_block_scan_well_made(ls, (n - 1) as nat);
        lemma_close_block_well_made(st);
    }
}

/// Every block that `parse_blocks` reports holds an instruction or a
/// terminator, and its alloca, store, load and call counts and its successors
/// are those of its own instructions and terminator.
pub proof fn law_blocks_well_made(body: Seq<char>)
    ensures
        forall|i: int|
            0 <= i < crate::cfg::blocks_spec(body).len() ==> block_well_made(
                #[trigger] crate::cfg::blocks_spec(body)[i],
            ),
{
    let ls = crate::text::lines(body);
    let st = crate::cfg::block_scan(ls, ls.len());
    lemma_block_scan_well_made(ls, ls.len());
    lemma_close_block_well_made(st);
    let bs = crate::cfg::close_block(st);
    assert forall|i: int| 0 <= i < crate::cfg::blocks_spec(body).len() implies block_well_made(
        #[trigger] crate::cfg::blocks_spec(body)[i],
    ) by {
        assert(block_well_made(bs[i]));
    }
}


/// The Markdown report opens with its title, the file and the number of
/// findings; with no findings it then says "No issues found."; otherwise the
/// severity table and the sections follow.
pub proof fn law_markdown_headline(fs: Seq<FindingView>, file: Seq<char>)
    ensures
        ({
            let head = "# Culebra Scan Report\n"@ + "\n"@ + "**File:** `"@ + file + "`\n"@ + "**Findings:** "@
                + crate::text::decimal(fs.len()) + "\n"@ + "\n"@;
            &&& crate::report::markdown_spec(fs, file).take(head.len() as int) == head
            &&& fs.len() == 0 ==> crate::report::markdown_spec(fs, file) == head + "No issues found.\n"@
            &&& fs.len() > 0 ==> crate::report::markdown_spec(fs, file).skip(head.len() as int).take(
                ("| Severity | Count |\n"@ + "|----------|-------|\n"@).len() as int,
            ) == "| Severity | Count |\n"@ + "|----------|-------|\n"@
        }),
{
    let head = "# Culebra Scan Report\n"@ + "\n"@ + "**File:** `"@ + file + "`\n"@ + "**Findings:** "@
        + crate::text::decimal(fs.len()) + "\n"@ + "\n"@;
    let m = crate::report::markdown_spec(fs, file);
    if fs.len() == 0 {
        assert(m.take(head.len() as int) =~= head);
    } else {
        let t = "| Severity | Count |\n"@ + "|----------|-------|\n"@;
        let rest = crate::report::md_count_row("Critical"@, crate::report::count_sev(fs, Severity::Critical, fs.len()))
            + crate::report::md_count_row("High"@, crate::report::count_sev(fs, Severity::High, fs.len()))
            + crate::report::md_count_row("Medium"@, crate::report::count_sev(fs, Severity::Medium, fs.len()))
            + crate::report::md_count_row("Low"@, crate::report::count_sev(fs, Severity::Low, fs.len())) + "\n"@
            + crate::report::md_sections(fs, file);
        assert(m =~= head + t + rest);
        assert(m.take(head.len() as int) =~= head);
        assert(m.skip(head.len() as int).take(t.len() as int) =~= t);
    }
}

// ---------------------------------------------------------------------------
// The lines a section selects
// ---------------------------------------------------------------------------

proof fn lemma_numbered_lines(ls: Seq<Seq<char>>, sec: crate::schema::Section, n: nat)
    requires
        n <= ls.len(),
        ls.len() < usize::MAX,
    ensures
        ({
            let nl = crate::engine::numbered_lines(ls, sec, n);
            &&& forall|k: int|
                0 <= k < nl.len() ==> 1 <= (#[trigger] nl[k]).0 <= n && ls[nl[k].0 - 1] == nl[k].1
                    && crate::engine::line_selected(sec, nl[k].1)
            &&& forall|a: int, b: int| 0 <= a < b < nl.len() ==> (#[trigger] nl[a]).0 < (#[trigger] nl[b]).0
            &&& forall|i: int|
                0 <= i < n && crate::engine::line_selected(sec, #[trigger] ls[i]) ==> exists|k: int|
                    0 <= k < nl.len() && nl[k] == ((i + 1) as usize, ls[i])
        }),
    decreases n,
{
    if n > 0 {
        lemma_numbered_lines(ls, sec, (n - 1) as nat);
        let prev = crate::engine::numbered_lines(ls, sec, (n - 1) as nat);
        let nl = crate::engine::numbered_lines(ls, sec, n);
        if crate::engine::line_selected(sec, ls[n - 1]) {
            assert(nl == prev.push((n as usize, ls[n - 1])));
            assert forall|k: int| 0 <= k < nl.len() implies 1 <= (#[trigger] nl[k]).0 <= n && ls[nl[k].0 - 1]
                == nl[k].1 && crate::engine::line_selected(sec, nl[k].1) by {
                if k < prev.len() {
                    assert(nl[k] == prev[k]);
                }
            }
            assert forall|a: int, b: int| 0 <= a < b < nl.len() implies (#[trigger] nl[a]).0 < (#[trigger] nl[b]).0 by {
                assert(nl[a] == prev[a]);
                if b < prev.len() {
                    assert(nl[b] == prev[b]);
                }
            }
            assert forall|i: int| 0 <= i < n && crate::engine::line_selected(sec, #[trigger] ls[i]) implies exists|k: int|
                0 <= k < nl.len() && nl[k] == ((i + 1) as usize, ls[i]) by {
                if i < n - 1 {
                    let k = choose|k: int| 0 <= k < prev.len() && prev[k] == ((i + 1) as usize, ls[i]);
                    assert(nl[k] == prev[k]);
                } else {
                    assert(nl[prev.len() as int] == ((i + 1) as usize, ls[i]));
                }
            }
        } else {
            assert(nl == prev);
        }
    }
}

/// The lines that a template scoped to declarations, globals or metadata looks
/// at are exactly the module's source lines of that section, numbered from 1
/// and in order: for declarations the lines whose trimmed text starts with
/// `declare` (so never a `define` line), for globals those that start with
/// `@` and hold `constant` or `global`, for metadata those that start with
/// `!`, and for the whole module every line.
pub proof fn law_section_lines(sec: crate::schema::Section, m: crate::ir::IRModuleView)
    requires
        sec != crate::schema::Section::Functions,
        crate::text::lines(m.source).len() < usize::MAX,
    ensures
        ({
            let ls = crate::text::lines(m.source);
            let tl = crate::engine::target_lines(sec, m);
            let wanted = |l: Seq<char>| {
                let t = crate::text::trim(l);
                match sec {
                    crate::schema::Section::Declarations => crate::text::starts_with(t, "declare"@),
                    crate::schema::Section::Globals => crate::text::starts_with(t, "@"@) && (crate::text::contains(
                        t,
                        "constant"@,
                    ) || crate::text::contains(t, "global"@)),
                    crate::schema::Section::Metadata => crate::text::starts_with(t, "!"@),
                    _ => true,
                }
            };
            &&& forall|k: int|
                0 <= k < tl.len() ==> 1 <= (#[trigger] tl[k]).0 <= ls.len() && ls[tl[k].0 - 1] == tl[k].1
                    && wanted(tl[k].1)
            &&& forall|a: int, b: int| 0 <= a < b < tl.len() ==> (#[trigger] tl[a]).0 < (#[trigger] tl[b]).0
            &&& forall|i: int|
                0 <= i < ls.len() && wanted(#[trigger] ls[i]) ==> exists|k: int|
                    0 <= k < tl.len() && tl[k] == ((i + 1) as usize, ls[i])
        }),
{
    let ls = crate::text::lines(m.source);
    lemma_numbered_lines(ls, sec, ls.len());
    let tl = crate::engine::target_lines(sec, m);
    assert(tl == crate::engine::numbered_lines(ls, sec, ls.len()));
    let wanted = |l: Seq<char>| {
        let t = crate::text::trim(l);
        match sec {
            crate::schema::Section::Declarations => crate::text::starts_with(t, "declare"@),
            crate::schema::Section::Globals => crate::text::starts_with(t, "@"@) && (crate::text::contains(
                t,
                "constant"@,
            ) || crate::text::contains(t, "global"@)),
            crate::schema::Section::Metadata => crate::text::starts_with(t, "!"@),
            _ => true,
        }
    };
    assert forall|l: Seq<char>| #[trigger] crate::engine::line_selected(sec, l) == wanted(l) by {}
}

// ---------------------------------------------------------------------------
// Duplicate switch cases
// ---------------------------------------------------------------------------

/// The messages of some reports, as a multiset.
pub open spec fn report_messages(ps: Seq<crate::ir::PathologyView>) -> vstd::multiset::Multiset<Seq<char>> {
    ps.map_values(|p: crate::ir::PathologyView| p.message).to_multiset()
}

proof fn lemma_dup_counts(f: crate::ir::IRFunctionView, vals: Seq<Seq<char>>, n: nat)
    requires
        n <= vals.len(),
    ensures
        ({
            let ds = crate::ir::dup_paths(f, vals, n);
            &&& forall|k: int|
                0 <= k < ds.len() ==> (#[trigger] ds[k]).severity == "error"@ && ds[k].code == "DUPLICATE_CASE"@
                    && ds[k].function == f.name && exists|x: Seq<char>|
                    #![trigger vals.take(n as int).to_multiset().count(x)]
                    ds[k].message == "Duplicate switch case value: "@ + x && vals.take(n as int).to_multiset().count(x) >= 2
            &&& forall|x: Seq<char>|
                #[trigger] report_messages(ds).count("Duplicate switch case value: "@ + x) == if vals.take(
                    n as int,
                ).to_multiset().count(x) > 0 {
                    (vals.take(n as int).to_multiset().count(x) - 1) as nat
                } else {
                    0nat
                }
        }),
    decreases n,
{
    broadcast use vstd::seq_lib::group_to_multiset_ensures;

    let pre = "Duplicate switch case value: "@;
    if n == 0 {
        assert(vals.take(0) =~= Seq::<Seq<char>>::empty());
        let ds = crate::ir::dup_paths(f, vals, n);
        assert(ds.map_values(|p: crate::ir::PathologyView| p.message) =~= Seq::<Seq<char>>::empty());
    } else {
        lemma_dup_counts(f, vals, (n - 1) as nat);
        let prev = crate::ir::dup_paths(f, vals, (n - 1) as nat);
        let ds = crate::ir::dup_paths(f, vals, n);
        let v = vals[n - 1];
        let t0 = vals.take(n - 1);
        let t1 = vals.take(n as int);
        assert(t1 =~= t0.push(v));
        assert(t1.to_multiset() =~= t0.to_multiset().insert(v));
        assert(t0.contains(v) <==> t0.to_multiset().count(v) > 0);
        if t0.contains(v) {
            let p = crate::ir::pathology("error"@, "DUPLICATE_CASE"@, f, pre + v);
            assert(ds == prev.push(p));
            assert(ds.map_values(|q: crate::ir::PathologyView| q.message) =~= prev.map_values(
                |q: crate::ir::PathologyView| q.message,
            ).push(pre + v));
            assert(report_messages(ds) =~= report_messages(prev).insert(pre + v));
            assert forall|x: Seq<char>| #[trigger] report_messages(ds).count(pre + x) == if t1.to_multiset().count(x) > 0 {
                (t1.to_multiset().count(x) - 1) as nat
            } else {
                0nat
            } by {
                if x == v {
                } else {
                    assert(pre + x != pre + v) by {
                        if pre + x == pre + v {
                            assert((pre + x).skip(pre.len() as int) =~= x);
                            assert((pre + v).skip(pre.len() as int) =~= v);
                        }
                    }
                }
            }
            assert forall|k: int| 0 <= k < ds.len() implies (#[trigger] ds[k]).severity == "error"@ && ds[k].code
                == "DUPLICATE_CASE"@ && ds[k].function == f.name && exists|x: Seq<char>|
                #![trigger t1.to_multiset().count(x)]
                ds[k].message == pre + x && t1.to_multiset().count(x) >= 2 by {
                if k < prev.len() {
                    assert(ds[k] == prev[k]);
                    let x = choose|x: Seq<char>| #![trigger t0.to_multiset().count(x)]
                        prev[k].message == pre + x && t0.to_multiset().count(x) >= 2;
                    assert(t1.to_multiset().count(x) >= t0.to_multiset().count(x));
                } else {
                    assert(ds[k] == p);
                    assert(t1.to_multiset().count(v) >= 2);
                }
            }
        } else {
            assert(ds == prev);
            assert forall|x: Seq<char>| #[trigger] report_messages(ds).count(pre + x) == if t1.to_multiset().count(x) > 0 {
                (t1.to_multiset().count(x) - 1) as nat
            } else {
                0nat
            } by {
                if x == v {
                    assert(t0.to_multiset().count(v) == 0);
                    assert(report_messages(prev).count(pre + v) == 0);
                }
            }
            assert forall|k: int| 0 <= k < ds.len() implies (#[trigger] ds[k]).severity == "error"@ && ds[k].code
                == "DUPLICATE_CASE"@ && ds[k].function == f.name && exists|x: Seq<char>|
                #![trigger t1.to_multiset().count(x)]
                ds[k].message == pre + x && t1.to_multiset().count(x) >= 2 by {
                let x = choose|x: Seq<char>| #![trigger t0.to_multiset().count(x)]
                    prev[k].message == pre + x && t0.to_multiset().count(x) >= 2;
                assert(t1.to_multiset().count(x) >= t0.to_multiset().count(x));
            }
        }
    }
}

/// For the case values of one switch, every value that occurs `c` times is
/// reported as a duplicate exactly `c - 1` times (once per occurrence after
/// the first, wherever the earlier one stands), each report an error
/// `DUPLICATE_CASE` of the function with the message "Duplicate switch case
/// value: " and the value; values that occur once are never reported.
pub proof fn law_duplicate_cases_counted(f: crate::ir::IRFunctionView, vals: Seq<Seq<char>>)
    ensures
        ({
            let ds = crate::ir::dup_paths(f, vals, vals.len());
            &&& ds.len() + vals.to_multiset().dom().len() == vals.len()
            &&& forall|k: int|
                0 <= k < ds.len() ==> (#[trigger] ds[k]).severity == "error"@ && ds[k].code == "DUPLICATE_CASE"@
                    && ds[k].function == f.name && exists|x: Seq<char>|
                    #![trigger vals.to_multiset().count(x)]
                    ds[k].message == "Duplicate switch case value: "@ + x && vals.to_multiset().count(x) >= 2
            &&& forall|x: Seq<char>|
                #[trigger] report_messages(ds).count("Duplicate switch case value: "@ + x) == if vals.to_multiset().count(
                    x,
                ) > 0 {
                    (vals.to_multiset().count(x) - 1) as nat
                } else {
                    0nat
                }
        }),
{
    lemma_dup_counts(f, vals, vals.len());
    assert(vals.take(vals.len() as int) =~= vals);
    lemma_dup_len(f, vals, vals.len());
}

/// Reports plus distinct values make up all the values.
proof fn lemma_dup_len(f: crate::ir::IRFunctionView, vals: Seq<Seq<char>>, n: nat)
    requires
        n <= vals.len(),
    ensures
        crate::ir::dup_paths(f, vals, n).len() + vals.take(n as int).to_multiset().dom().len() == n,
    decreases n,
{
    broadcast use vstd::seq_lib::group_to_multiset_ensures;
    broadcast use vstd::multiset::group_multiset_properties;

    if n == 0 {
        assert(vals.take(0) =~= Seq::<Seq<char>>::empty());
        assert(vals.take(0).to_multiset().dom() =~= Set::<Seq<char>>::empty());
    } else {
        lemma_dup_len(f, vals, (n - 1) as nat);
        let v = vals[n - 1];
        let t0 = vals.take(n - 1);
        let t1 = vals.take(n as int);
        assert(t1 =~= t0.push(v));
        assert(t1.to_multiset() =~= t0.to_multiset().insert(v));
        assert(t0.contains(v) <==> t0.to_multiset().count(v) > 0);
        if t0.contains(v) {
            assert(t1.to_multiset().dom() =~= t0.to_multiset().dom());
        } else {
            assert(t1.to_multiset().dom() =~= t0.to_multiset().dom().insert(v));
            assert(!t0.to_multiset().dom().contains(v));
        }
    }
}

// ---------------------------------------------------------------------------
// Enums that are kept
// ---------------------------------------------------------------------------

proof fn lemma_somes<T>(s: Seq<Option<T>>)
    ensures
        forall|i: int| 0 <= i < s.len() && (#[trigger] s[i]) is Some ==> crate::c_parser::somes(s).contains(s[i]->0),
        forall|k: int|
            0 <= k < crate::c_parser::somes(s).len() ==> exists|i: int|
                0 <= i < s.len() && s[i] == Some(#[trigger] crate::c_parser::somes(s)[k]),
    decreases s.len(),
{
    if s.len() > 0 {
        let d = s.drop_last();
        lemma_somes(d);
        let r = crate::c_parser::somes(s);
        let pr = crate::c_parser::somes(d);
        match s.last() {
            Some(x) => {
                assert(r == pr.push(x));
                assert forall|i: int| 0 <= i < s.len() && (#[trigger] s[i]) is Some implies r.contains(s[i]->0) by {
                    if i < d.len() {
                        assert(s[i] == d[i]);
                        let k = choose|k: int| 0 <= k < pr.len() && pr[k] == d[i]->0;
                        assert(r[k] == pr[k]);
                    } else {
                        assert(r[pr.len() as int] == x);
                    }
                }
                assert forall|k: int| 0 <= k < r.len() implies exists|i: int|
                    0 <= i < s.len() && s[i] == Some(#[trigger] r[k]) by {
                    if k < pr.len() {
                        assert(r[k] == pr[k]);
                        let i = choose|i: int| 0 <= i < d.len() && d[i] == Some(pr[k]);
                        assert(s[i] == d[i]);
                    } else {
                        assert(s[s.len() - 1] == Some(r[k]));
                    }
                }
            },
            None => {
                assert(r == pr);
                assert forall|i: int| 0 <= i < s.len() && (#[trigger] s[i]) is Some implies r.contains(s[i]->0) by {
                    assert(i < d.len());
                    assert(s[i] == d[i]);
                }
                assert forall|k: int| 0 <= k < r.len() implies exists|i: int|
                    0 <= i < s.len() && s[i] == Some(#[trigger] r[k]) by {
                    let i = choose|i: int| 0 <= i < d.len() && d[i] == Some(pr[k]);
                    assert(s[i] == d[i]);
                }
            },
        }
    }
}

/// The variants that the body of the enum match `c` holds.
pub open spec fn enum_match_variants(text: Seq<char>, c: Seq<Option<(usize, usize)>>) -> Seq<Seq<char>> {
    let body = crate::rx::text_between(text, crate::rx::match_end(c), crate::ir::fn_scan_end(text, c) - 1);
    crate::rx::rx_caps(crate::c_parser::C_VARIANT_PATTERN@, body).map_values(
        |vc: Seq<Option<(usize, usize)>>| crate::rx::group_text(body, vc, 1),
    )
}

/// Every `enum .. {` match that has a tag name or at least one variant is
/// among the parsed enums, with those variants and its line, named by its tag
/// or "(anonymous)" when it has none; and every parsed enum is one of them.
pub proof fn law_enums_kept(text: Seq<char>)
    ensures
        ({
            let cs = crate::rx::rx_caps(crate::c_parser::C_ENUM_PATTERN@, text);
            let es = crate::c_parser::c_enums(text);
            &&& forall|i: int|
                0 <= i < cs.len() && (enum_match_variants(text, #[trigger] cs[i]).len() > 0
                    || crate::rx::group_text(text, cs[i], 1).len() > 0) ==> es.contains(
                    crate::c_parser::CEnumView {
                        name: if crate::rx::group_text(text, cs[i], 1).len() == 0 {
                            "(anonymous)"@
                        } else {
                            crate::rx::group_text(text, cs[i], 1)
                        },
                        variants: enum_match_variants(text, cs[i]),
                        line: crate::ir::line_at(text, crate::rx::match_start(cs[i])),
                    },
                )
            &&& forall|k: int|
                0 <= k < es.len() ==> exists|i: int|
                    #![trigger cs[i]]
                    0 <= i < cs.len() && (#[trigger] es[k]).variants == enum_match_variants(text, cs[i])
                        && es[k].line == crate::ir::line_at(text, crate::rx::match_start(cs[i]))
                        && (es[k].variants.len() > 0 || crate::rx::group_text(text, cs[i], 1).len() > 0)
        }),
{
    let cs = crate::rx::rx_caps(crate::c_parser::C_ENUM_PATTERN@, text);
    let s = cs.map_values(|c: Seq<Option<(usize, usize)>>| crate::c_parser::c_enum_of(text, c));
    lemma_somes(s);
    let es = crate::c_parser::c_enums(text);
    assert forall|i: int|
        0 <= i < cs.len() && (enum_match_variants(text, #[trigger] cs[i]).len() > 0 || crate::rx::group_text(
            text,
            cs[i],
            1,
        ).len() > 0) implies es.contains(
        crate::c_parser::CEnumView {
            name: if crate::rx::group_text(text, cs[i], 1).len() == 0 {
                "(anonymous)"@
            } else {
                crate::rx::group_text(text, cs[i], 1)
            },
            variants: enum_match_variants(text, cs[i]),
            line: crate::ir::line_at(text, crate::rx::match_start(cs[i])),
        },
    ) by {
        assert(s[i] == crate::c_parser::c_enum_of(text, cs[i]));
    }
    assert forall|k: int| 0 <= k < es.len() implies exists|i: int|
        #![trigger cs[i]]
        0 <= i < cs.len() && (#[trigger] es[k]).variants == enum_match_variants(text, cs[i]) && es[k].line
            == crate::ir::line_at(text, crate::rx::match_start(cs[i])) && (es[k].variants.len() > 0
            || crate::rx::group_text(text, cs[i], 1).len() > 0) by {
        let i = choose|i: int| 0 <= i < s.len() && s[i] == Some(es[k]);
        assert(s[i] == crate::c_parser::c_enum_of(text, cs[i]));
    }
}

// ---------------------------------------------------------------------------
// Scalar fields are naturally aligned
// ---------------------------------------------------------------------------

/// A scalar LLVM type: an integer of 1 to 64 bits, a float, a double or a pointer.
pub open spec fn is_scalar_type(t: Seq<char>) -> bool {
    t == "i1"@ || t == "i8"@ || t == "i16"@ || t == "i32"@ || t == "i64"@ || t == "float"@ || t == "double"@
        || t == "ptr"@
}

/// Each scalar field is aligned to its own size: the padding before it is
/// less than its size, and its offset is a multiple of its size. So in
/// `{ i8, i32 }` the `i32` stands at offset 4.
pub proof fn law_scalar_fields_naturally_aligned(fs: Seq<Seq<char>>, i: int)
    requires
        0 <= i < fs.len(),
        is_scalar_type(crate::text::trim(fs[i])),
        crate::layout::layout_end(fs, i as nat) + 7 <= usize::MAX,
    ensures
        field_align(fs[i]) == crate::layout::field_size(fs[i]),
        field_offset(fs, i) % crate::layout::field_size(fs[i]) == 0,
        crate::layout::layout_end(fs, i as nat) <= field_offset(fs, i) < crate::layout::layout_end(fs, i as nat)
            + crate::layout::field_size(fs[i]),
{
    reveal_strlit("i1");
    reveal_strlit("i8");
    reveal_strlit("i16");
    reveal_strlit("i32");
    reveal_strlit("i64");
    reveal_strlit("float");
    reveal_strlit("double");
    reveal_strlit("ptr");
    assert(field_align(fs[i]) == crate::layout::field_size(fs[i]));
    law_align_up(crate::layout::layout_end(fs, i as nat), fs[i]);
}

// ---------------------------------------------------------------------------
// Branches are every `br ` instruction
// ---------------------------------------------------------------------------

/// Every position from `i` on where `n` occurs in `h`, in order.
pub open spec fn needle_positions(h: Seq<char>, n: Seq<char>, i: int) -> Seq<int>
    decreases h.len() - i,
{
    if i < 0 || i >= h.len() {
        Seq::empty()
    } else if matches_at(h, n, i) {
        seq![i] + needle_positions(h, n, i + 1)
    } else {
        needle_positions(h, n, i + 1)
    }
}

/// A function's branch count is the number of places its body holds `br `:
/// every branch, conditional (`br i1 %c, label %a, label %b`) or not.
pub proof fn law_branches_count_every_br(body: Seq<char>)
    ensures
        crate::ir::metrics_of(body).branches == needle_positions(body, "br "@, 0).len() as usize,
{
    law_metrics_count_every_occurrence(body);
}

/// No proper suffix of `n` is also its prefix: two occurrences of `n` never
/// overlap.
pub open spec fn no_self_overlap(n: Seq<char>) -> bool {
    forall|d: int| 0 < d < n.len() ==> #[trigger] n.subrange(d, n.len() as int) != n.subrange(0, n.len() - d)
}

proof fn lemma_positions_gap(h: Seq<char>, n: Seq<char>, i: int, j: int)
    requires
        n.len() > 0,
        no_self_overlap(n),
        matches_at(h, n, i),
        i < j <= i + n.len(),
    ensures
        needle_positions(h, n, j) == needle_positions(h, n, i + n.len()),
    decreases i + n.len() - j,
{
    if j < i + n.len() {
        let d = j - i;
        if matches_at(h, n, j) {
            assert(n.subrange(d, n.len() as int) =~= n.subrange(0, n.len() - d)) by {
                assert forall|k: int| 0 <= k < n.len() - d implies n.subrange(d, n.len() as int)[k] == n.subrange(
                    0,
                    n.len() - d,
                )[k] by {
                    assert(h.subrange(i, i + n.len())[d + k] == h[i + d + k]);
                    assert(h.subrange(j, j + n.len())[k] == h[j + k]);
                }
            }
        }
        lemma_positions_gap(h, n, i, j + 1);
        if j < h.len() {
            assert(!matches_at(h, n, j));
        }
    }
}

proof fn lemma_count_positions(h: Seq<char>, n: Seq<char>, i: int)
    requires
        0 <= i,
        n.len() > 0,
        no_self_overlap(n),
    ensures
        crate::text::count_from(h, n, i) == needle_positions(h, n, i).len(),
    decreases h.len() - i,
{
    if i >= h.len() {
    } else if i + n.len() > h.len() {
        lemma_no_positions_tail(h, n, i);
    } else if matches_at(h, n, i) {
        lemma_count_positions(h, n, i + n.len());
        lemma_positions_gap(h, n, i, i + 1);
    } else {
        lemma_count_positions(h, n, i + 1);
    }
}

proof fn lemma_no_positions_tail(h: Seq<char>, n: Seq<char>, i: int)
    requires
        0 <= i,
        i + n.len() > h.len(),
    ensures
        needle_positions(h, n, i).len() == 0,
    decreases h.len() - i,
{
    if i < h.len() {
        lemma_no_positions_tail(h, n, i + 1);
    }
}

/// The counts of a function's metrics are the numbers of places its body
/// holds the instruction text they count: allocas `= alloca `, stores
/// `store `, loads `= load `, switches `switch i64`, branches `br `,
/// `getelementptr`, list pushes `@__mn_list_push` and `insertvalue`
/// (occurrences of these never overlap, so each one counts).
pub proof fn law_metrics_count_every_occurrence(body: Seq<char>)
    ensures
        ({
            let m = crate::ir::metrics_of(body);
            &&& m.allocas == needle_positions(body, "= alloca "@, 0).len() as usize
            &&& m.stores == needle_positions(body, "store "@, 0).len() as usize
            &&& m.loads == needle_positions(body, "= load "@, 0).len() as usize
            &&& m.switches == needle_positions(body, "switch i64"@, 0).len() as usize
            &&& m.branches == needle_positions(body, "br "@, 0).len() as usize
            &&& m.geps == needle_positions(body, "getelementptr"@, 0).len() as usize
            &&& m.list_pushes == needle_positions(body, "@__mn_list_push"@, 0).len() as usize
            &&& m.insertvalues == needle_positions(body, "insertvalue"@, 0).len() as usize
        }),
{
    reveal_strlit("= alloca ");
    reveal_strlit("store ");
    reveal_strlit("= load ");
    reveal_strlit("switch i64");
    reveal_strlit("br ");
    reveal_strlit("getelementptr");
    reveal_strlit("@__mn_list_push");
    reveal_strlit("insertvalue");
    lemma_no_overlap_of("= alloca "@);
    lemma_no_overlap_of("store "@);
    lemma_no_overlap_of("= load "@);
    lemma_no_overlap_of("switch i64"@);
    lemma_no_overlap_of("br "@);
    lemma_no_overlap_of("getelementptr"@);
    lemma_no_overlap_of("@__mn_list_push"@);
    lemma_no_overlap_of("insertvalue"@);
    lemma_count_positions(body, "= alloca "@, 0);
    lemma_count_positions(body, "store "@, 0);
    lemma_count_positions(body, "= load "@, 0);
    lemma_count_positions(body, "switch i64"@, 0);
    lemma_count_positions(body, "br "@, 0);
    lemma_count_positions(body, "getelementptr"@, 0);
    lemma_count_positions(body, "@__mn_list_push"@, 0);
    lemma_count_positions(body, "insertvalue"@, 0);
}

/// A needle whose first character occurs nowhere else in it never overlaps
/// itself.
proof fn lemma_no_overlap_of(n: Seq<char>)
    requires
        n.len() > 0,
        forall|k: int| 0 < k < n.len() ==> #[trigger] n[k] != n[0],
    ensures
        no_self_overlap(n),
{
    assert forall|d: int| 0 < d < n.len() implies #[trigger] n.subrange(d, n.len() as int) != n.subrange(
        0,
        n.len() - d,
    ) by {
        assert(n.subrange(d, n.len() as int)[0] == n[d]);
        assert(n.subrange(0, n.len() - d)[0] == n[0]);
    }
}
} // verus!
