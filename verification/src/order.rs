//! The order of strings (`str` ordering) and sorted sets of names: what a
//! `BTreeSet<String>` holds, as a sorted `Vec` without repeats.
use vstd::prelude::*;
use crate::callgraph::distinct;
use crate::ir::{lex_le, lex_le_str};

verus! {

/// `a` sorts strictly before `b`.
pub open spec fn lex_lt(a: Seq<char>, b: Seq<char>) -> bool {
    lex_le(a, b) && a != b
}

/// Every name sorts strictly before the ones after it.
pub open spec fn strictly_sorted(s: Seq<Seq<char>>) -> bool {
    forall|i: int, j: int| 0 <= i < j < s.len() ==> lex_lt(#[trigger] s[i], #[trigger] s[j])
}

proof fn lemma_char_u32(c: char)
    ensures
        (c as u32) as int == c as int,
{
    assert(0 <= c as int <= 0x10FFFF);
}

/// The order is total.
pub proof fn lemma_lex_total(a: Seq<char>, b: Seq<char>)
    ensures
        lex_le(a, b) || lex_le(b, a),
    decreases a.len(),
{
    if a.len() > 0 && b.len() > 0 && (a[0] as u32) == (b[0] as u32) {
        lemma_lex_total(a.drop_first(), b.drop_first());
    }
}

/// Two strings that sort no later than each other are equal.
pub proof fn lemma_lex_antisym(a: Seq<char>, b: Seq<char>)
    requires
        lex_le(a, b),
        lex_le(b, a),
    ensures
        a == b,
    decreases a.len(),
{
    if a.len() > 0 && b.len() > 0 {
        assert((a[0] as u32) == (b[0] as u32));
        lemma_lex_antisym(a.drop_first(), b.drop_first());
        lemma_char_u32(a[0]);
        lemma_char_u32(b[0]);
        assert(a[0] == b[0]);
        assert(a =~= seq![a[0]] + a.drop_first());
        assert(b =~= seq![b[0]] + b.drop_first());
    } else {
        assert(a.len() == 0 && b.len() == 0);
        assert(a =~= b);
    }
}

/// The order is transitive.
pub proof fn lemma_lex_trans(a: Seq<char>, b: Seq<char>, c: Seq<char>)
    requires
        lex_le(a, b),
        lex_le(b, c),
    ensures
        lex_le(a, c),
    decreases a.len(),
{
    if a.len() > 0 && b.len() > 0 && c.len() > 0 && (a[0] as u32) == (b[0] as u32) && (b[0] as u32)
        == (c[0] as u32) {
        lemma_lex_trans(a.drop_first(), b.drop_first(), c.drop_first());
    }
}

/// The distinct names of `items`, sorted: what collecting them into a
/// `BTreeSet` and walking it gives.
pub fn sorted_unique(items: &Vec<String>) -> (r: Vec<String>)
    ensures
        strictly_sorted(r.deep_view()),
        forall|x: Seq<char>| r.deep_view().contains(x) <==> items.deep_view().contains(x),
{
    let mut r: Vec<String> = Vec::new();
    let mut i: usize = 0;
    while i < items.len()
        invariant
            i <= items@.len(),
            strictly_sorted(r.deep_view()),
            forall|x: Seq<char>|
                r.deep_view().contains(x) <==> items.deep_view().take(i as int).contains(x),
        decreases items@.len() - i,
    {
        let x = items[i].clone();
        let ghost xv = items.deep_view()[i as int];
        assert(x@ == xv);
        let ghost rv = r.deep_view();
        let mut j = r.len();
        while j > 0 && !lex_le_str(r[j - 1].as_str(), x.as_str())
            invariant
                j <= r@.len(),
                rv == r.deep_view(),
                x@ == xv,
                forall|k: int| j <= k < rv.len() ==> !lex_le(#[trigger] rv[k], xv),
            decreases j,
        {
            assert(rv[j - 1] == r@[j - 1]@);
            j -= 1;
        }
        assert forall|k: int| j <= k < rv.len() implies lex_lt(xv, #[trigger] rv[k]) by {
            lemma_lex_total(xv, rv[k]);
        }
        let present = j > 0 && r[j - 1] == x;
        proof {
            if j > 0 {
                assert(rv[j - 1] == r@[j - 1]@);
            }
            assert(items.deep_view().take(i + 1) =~= items.deep_view().take(i as int).push(xv));
        }
        if present {
            proof {
                assert forall|y: Seq<char>| rv.contains(y) <==> items.deep_view().take(
                    i + 1,
                ).contains(y) by {
                    if y == xv {
                        assert(rv[j - 1] == xv);
                    }
                }
            }
        } else {
            proof {
                assert(!rv.contains(xv)) by {
                    if rv.contains(xv) {
                        let m = choose|m: int| 0 <= m < rv.len() && rv[m] == xv;
                        if m < j {
                            if m < j - 1 {
                                assert(lex_lt(rv[m], rv[j - 1]));
                                lemma_lex_antisym(rv[m], rv[j - 1]);
                            }
                        } else {
                            assert(lex_lt(xv, rv[m]));
                        }
                    }
                }
                assert forall|k: int| 0 <= k < j implies lex_lt(#[trigger] rv[k], xv) by {
                    assert(lex_le(rv[j - 1], xv));
                    if k < j - 1 {
                        assert(lex_lt(rv[k], rv[j - 1]));
                        lemma_lex_trans(rv[k], rv[j - 1], xv);
                        if rv[k] == xv {
                            lemma_lex_antisym(rv[k], rv[j - 1]);
                        }
                    }
                }
            }
            r.insert(j, x);
            proof {
                let nv = r.deep_view();
                assert(nv =~= rv.insert(j as int, xv));
                assert forall|a: int, b: int| 0 <= a < b < nv.len() implies lex_lt(
                    #[trigger] nv[a],
                    #[trigger] nv[b],
                ) by {
                    if a < j && b < j {
                        assert(nv[a] == rv[a] && nv[b] == rv[b]);
                    } else if a < j && b == j {
                    } else if a < j && b > j {
                        assert(nv[a] == rv[a] && nv[b] == rv[b - 1]);
                        lemma_lex_trans(rv[a], xv, rv[b - 1]);
                        if rv[a] == rv[b - 1] {
                            lemma_lex_antisym(rv[a], xv);
                        }
                    } else if a == j {
                        assert(nv[b] == rv[b - 1]);
                    } else {
                        assert(nv[a] == rv[a - 1] && nv[b] == rv[b - 1]);
                    }
                }
                let ghost it = items.deep_view().take(i as int);
                assert forall|y: Seq<char>| nv.contains(y) <==> it.push(xv).contains(y) by {
                    if it.push(xv).contains(y) {
                        let m = choose|m: int| 0 <= m < it.push(xv).len() && it.push(xv)[m] == y;
                        if m < it.len() {
                            assert(it[m] == y);
                            assert(it.contains(y));
                            assert(rv.contains(y));
                        }
                    }
                    if y == xv {
                        assert(nv[j as int] == xv);
                        assert(it.push(xv)[it.len() as int] == xv);
                    } else if rv.contains(y) {
                        let m = choose|m: int| 0 <= m < rv.len() && rv[m] == y;
                        if m < j {
                            assert(nv[m] == y);
                        } else {
                            assert(nv[m + 1] == y);
                        }
                        assert(it.contains(y));
                        let q = choose|q: int| 0 <= q < it.len() && it[q] == y;
                        assert(it.push(xv)[q] == y);
                    } else if nv.contains(y) {
                        let m = choose|m: int| 0 <= m < nv.len() && nv[m] == y;
                        if m < j {
                            assert(rv[m] == y);
                        } else if m > j {
                            assert(rv[m - 1] == y);
                        }
                    }
                }
            }
        }
        i += 1;
    }
    assert(items.deep_view().take(i as int) =~= items.deep_view());
    r
}

/// `x` placed after every index whose key is at least its own (the insertion
/// step of a stable sort, largest key first).
pub open spec fn insert_desc(keys: Seq<usize>, s: Seq<usize>, x: usize) -> Seq<usize>
    decreases s.len(),
{
    if s.len() == 0 {
        seq![x]
    } else if keys[s.last() as int] >= keys[x as int] {
        s.push(x)
    } else {
        insert_desc(keys, s.drop_last(), x).push(s.last())
    }
}

/// The indices `0..n` ordered by key, largest first, equal keys in index
/// order: the order that a stable `sort_by(|a, b| b.cmp(a))` leaves.
pub open spec fn order_desc(keys: Seq<usize>, n: nat) -> Seq<usize>
    decreases n,
{
    if n == 0 {
        Seq::empty()
    } else {
        insert_desc(keys, order_desc(keys, (n - 1) as nat), (n - 1) as usize)
    }
}

proof fn lemma_insert_desc_at(keys: Seq<usize>, s: Seq<usize>, x: usize, j: int)
    requires
        0 <= j <= s.len(),
        j == 0 || keys[s[j - 1] as int] >= keys[x as int],
        forall|k: int| j <= k < s.len() ==> keys[#[trigger] s[k] as int] < keys[x as int],
    ensures
        insert_desc(keys, s, x) == s.insert(j, x),
    decreases s.len(),
{
    if s.len() == 0 {
        assert(s.insert(j, x) =~= seq![x]);
    } else if j == s.len() {
        assert(s.insert(j, x) =~= s.push(x));
    } else {
        assert(keys[s.last() as int] < keys[x as int]);
        lemma_insert_desc_at(keys, s.drop_last(), x, j);
        assert(s.insert(j, x) =~= s.drop_last().insert(j, x).push(s.last()));
    }
}

/// The indices of `keys`, largest key first; equal keys keep their order.
pub fn order_by_desc(keys: &Vec<usize>) -> (r: Vec<usize>)
    ensures
        r@ == order_desc(keys@, keys@.len() as nat),
{
    let mut r: Vec<usize> = Vec::new();
    let mut i: usize = 0;
    while i < keys.len()
        invariant
            i <= keys@.len(),
            r@ == order_desc(keys@, i as nat),
            forall|k: int| 0 <= k < r@.len() ==> r@[k] < i,
        decreases keys@.len() - i,
    {
        let mut j = r.len();
        while j > 0 && keys[r[j - 1]] < keys[i]
            invariant
                j <= r@.len(),
                i < keys@.len(),
                forall|k: int| 0 <= k < r@.len() ==> r@[k] < i,
                forall|k: int| j <= k < r@.len() ==> keys@[#[trigger] r@[k] as int] < keys@[i as int],
            decreases j,
        {
            j -= 1;
        }
        proof {
            lemma_insert_desc_at(keys@, r@, i, j as int);
        }
        r.insert(j, i);
        i += 1;
    }
    r
}

/// The positions, in increasing order, at which `key` occurs among the first
/// `n` keys.
pub open spec fn positions(keys: Seq<Seq<char>>, key: Seq<char>, n: nat) -> Seq<usize>
    decreases n,
{
    if n == 0 || n > keys.len() {
        Seq::empty()
    } else {
        let p = positions(keys, key, (n - 1) as nat);
        if keys[n - 1] == key {
            p.push((n - 1) as usize)
        } else {
            p
        }
    }
}

/// Each distinct key, in the order it first appears, with every position at
/// which it occurs: the groups that collecting into a map of `Vec`s builds.
pub open spec fn key_groups(keys: Seq<Seq<char>>, n: nat) -> Seq<(Seq<char>, Seq<usize>)> {
    distinct(keys, n).map_values(|k: Seq<char>| (k, positions(keys, k, n)))
}

/// A list built by `distinct` holds each value once.
pub proof fn lemma_distinct_unique(keys: Seq<Seq<char>>, n: nat)
    ensures
        forall|a: int, b: int|
            0 <= a < b < distinct(keys, n).len() ==> distinct(keys, n)[a] != distinct(keys, n)[b],
        forall|x: Seq<char>| distinct(keys, n).contains(x) ==> keys.take(n as int).contains(x),
    decreases n,
{
    if n > 0 && n <= keys.len() {
        lemma_distinct_unique(keys, (n - 1) as nat);
        let d = distinct(keys, (n - 1) as nat);
        assert forall|x: Seq<char>| distinct(keys, n).contains(x) implies keys.take(n as int).contains(x) by {
            if d.contains(x) {
                let q = choose|q: int| 0 <= q < keys.take(n - 1).len() && #[trigger] keys.take(n - 1)[q] == x;
                assert(keys.take(n as int)[q] == x);
            } else {
                assert(keys.take(n as int)[n - 1] == x);
            }
        }
    }
}

/// Positions of keys that differ from the new one are unchanged by it.
proof fn lemma_positions_step(keys: Seq<Seq<char>>, key: Seq<char>, n: nat)
    requires
        n < keys.len(),
    ensures
        keys[n as int] != key ==> positions(keys, key, n + 1) == positions(keys, key, n),
        keys[n as int] == key ==> positions(keys, key, n + 1) == positions(keys, key, n).push(n as usize),
{
}

/// A key that never occurred has no positions.
proof fn lemma_positions_absent(keys: Seq<Seq<char>>, key: Seq<char>, n: nat)
    requires
        n <= keys.len(),
        !keys.take(n as int).contains(key),
    ensures
        positions(keys, key, n) == Seq::<usize>::empty(),
    decreases n,
{
    if n > 0 {
        assert(keys.take(n as int)[n - 1] == keys[n - 1]);
        assert(!keys.take(n - 1).contains(key)) by {
            if keys.take(n - 1).contains(key) {
                let q = choose|q: int| 0 <= q < keys.take(n - 1).len() && #[trigger] keys.take(n - 1)[q] == key;
                assert(keys.take(n as int)[q] == key);
            }
        }
        lemma_positions_absent(keys, key, (n - 1) as nat);
    }
}

/// The keys grouped: each distinct key in the order it first appears, with
/// the positions at which it occurs.
pub fn group_keys(keys: &Vec<String>) -> (r: Vec<(String, Vec<usize>)>)
    ensures
        r@.len() == key_groups(keys.deep_view(), keys@.len() as nat).len(),
        forall|g: int|
            0 <= g < r@.len() ==> (#[trigger] r@[g]).0@ == key_groups(keys.deep_view(), keys@.len() as nat)[g].0
                && r@[g].1@ == key_groups(keys.deep_view(), keys@.len() as nat)[g].1,
{
    let ghost kv = keys.deep_view();
    let mut r: Vec<(String, Vec<usize>)> = Vec::new();
    let mut i: usize = 0;
    while i < keys.len()
        invariant
            i <= keys@.len(),
            kv == keys.deep_view(),
            r@.len() == key_groups(kv, i as nat).len(),
            forall|g: int|
                0 <= g < r@.len() ==> (#[trigger] r@[g]).0@ == key_groups(kv, i as nat)[g].0 && r@[g].1@
                    == key_groups(kv, i as nat)[g].1,
        decreases keys@.len() - i,
    {
        assert(kv[i as int] == keys@[i as int]@);
        let ghost d = distinct(kv, i as nat);
        proof {
            lemma_distinct_unique(kv, i as nat);
        }
        let mut g: usize = 0;
        while g < r.len() && r[g].0 != keys[i]
            invariant
                g <= r@.len(),
                i < keys@.len(),
                kv[i as int] == keys@[i as int]@,
                r@.len() == d.len(),
                forall|q: int| 0 <= q < r@.len() ==> (#[trigger] r@[q]).0@ == d[q],
                forall|q: int| 0 <= q < g ==> d[q] != kv[i as int],
            decreases r@.len() - g,
        {
            assert(r@[g as int].0@ == d[g as int]);
            g += 1;
        }
        let ghost old_r = r@;
        if g < r.len() {
            assert(r@[g as int].0@ == kv[i as int]);
            assert(d.contains(kv[i as int]));
            proof {
                assert(distinct(kv, (i + 1) as nat) == d);
            }
            let mut entry = r.remove(g);
            entry.1.push(i);
            r.insert(g, entry);
            proof {
                assert forall|q: int| 0 <= q < r@.len() implies (#[trigger] r@[q]).0@ == key_groups(
                    kv,
                    (i + 1) as nat,
                )[q].0 && r@[q].1@ == key_groups(kv, (i + 1) as nat)[q].1 by {
                    lemma_positions_step(kv, d[q], i as nat);
                    if q != g {
                        assert(r@[q] == old_r[q]);
                        assert(d[q] != d[g as int]);
                    }
                }
            }
        } else {
            proof {
                assert(!d.contains(kv[i as int]));
                assert(distinct(kv, (i + 1) as nat) == d.push(kv[i as int]));
                assert(!kv.take(i as int).contains(kv[i as int])) by {
                    if kv.take(i as int).contains(kv[i as int]) {
                        lemma_distinct_contains(kv, i as nat, kv[i as int]);
                    }
                }
                lemma_positions_absent(kv, kv[i as int], i as nat);
            }
            let mut ps: Vec<usize> = Vec::new();
            ps.push(i);
            r.push((keys[i].clone(), ps));
            proof {
                assert forall|q: int| 0 <= q < r@.len() implies (#[trigger] r@[q]).0@ == key_groups(
                    kv,
                    (i + 1) as nat,
                )[q].0 && r@[q].1@ == key_groups(kv, (i + 1) as nat)[q].1 by {
                    let nd = distinct(kv, (i + 1) as nat);
                    lemma_positions_step(kv, nd[q], i as nat);
                    if q < old_r.len() {
                        assert(r@[q] == old_r[q]);
                        assert(d[q] != kv[i as int]) by {
                            assert(d.contains(d[q]));
                        }
                    } else {
                        assert(r@[q].1@ =~= seq![i]);
                    }
                }
            }
        }
        i += 1;
    }
    r
}

/// Every key seen so far is in the list of distinct keys.
proof fn lemma_distinct_contains(keys: Seq<Seq<char>>, n: nat, x: Seq<char>)
    requires
        n <= keys.len(),
        keys.take(n as int).contains(x),
    ensures
        distinct(keys, n).contains(x),
    decreases n,
{
    if n > 0 {
        if keys[n - 1] == x {
            let d = distinct(keys, (n - 1) as nat);
            if !d.contains(x) {
                assert(distinct(keys, n)[d.len() as int] == x);
            }
        } else {
            let q = choose|q: int| 0 <= q < keys.take(n as int).len() && #[trigger] keys.take(n as int)[q] == x;
            assert(keys.take(n - 1)[q] == x);
            lemma_distinct_contains(keys, (n - 1) as nat, x);
            let d = distinct(keys, (n - 1) as nat);
            let w = choose|w: int| 0 <= w < d.len() && d[w] == x;
            assert(distinct(keys, n)[w] == x);
        }
    }
}

/// Every position is below `n`.
pub proof fn lemma_positions_bound(keys: Seq<Seq<char>>, key: Seq<char>, n: nat)
    ensures
        forall|q: int| 0 <= q < positions(keys, key, n).len() ==> (#[trigger] positions(keys, key, n)[q]) < n,
    decreases n,
{
    if n > 0 && n <= keys.len() {
        lemma_positions_bound(keys, key, (n - 1) as nat);
        let p = positions(keys, key, (n - 1) as nat);
        if keys[n - 1] == key {
            assert forall|q: int| 0 <= q < p.push((n - 1) as usize).len() implies (#[trigger] p.push(
                (n - 1) as usize,
            )[q]) < n by {
                if q < p.len() {
                    assert(p.push((n - 1) as usize)[q] == p[q]);
                }
            }
        }
    }
}

proof fn lemma_insert_desc_bound(keys: Seq<usize>, s: Seq<usize>, x: usize, b: nat)
    requires
        forall|q: int| 0 <= q < s.len() ==> (#[trigger] s[q]) < b,
        x < b,
    ensures
        insert_desc(keys, s, x).len() == s.len() + 1,
        forall|q: int| 0 <= q < insert_desc(keys, s, x).len() ==> (#[trigger] insert_desc(keys, s, x)[q]) < b,
    decreases s.len(),
{
    if s.len() > 0 && keys[s.last() as int] < keys[x as int] {
        lemma_insert_desc_bound(keys, s.drop_last(), x, b);
    }
}

/// The order holds `n` indices, each below `n`.
pub proof fn lemma_order_desc_perm(keys: Seq<usize>, n: nat)
    ensures
        order_desc(keys, n).len() == n,
        forall|q: int| 0 <= q < n ==> (#[trigger] order_desc(keys, n)[q]) < n,
    decreases n,
{
    if n > 0 {
        lemma_order_desc_perm(keys, (n - 1) as nat);
        lemma_insert_desc_bound(keys, order_desc(keys, (n - 1) as nat), (n - 1) as usize, n);
    }
}

/// Each distinct key with the number of times it occurs, the most frequent
/// first, keys that occur equally often in the order they first appear: a
/// count map sorted by count.
pub open spec fn tally_spec(keys: Seq<Seq<char>>) -> Seq<(Seq<char>, nat)> {
    let gs = key_groups(keys, keys.len());
    let ord = order_desc(gs.map_values(|g: (Seq<char>, Seq<usize>)| g.1.len() as usize), gs.len());
    ord.map_values(|k: usize| (gs[k as int].0, gs[k as int].1.len()))
}

/// Counts the keys: each distinct key with its number of occurrences, the most
/// frequent first.
pub fn tally(keys: &Vec<String>) -> (r: Vec<(String, usize)>)
    ensures
        r@.map_values(|e: (String, usize)| (e.0@, e.1 as nat)) == tally_spec(keys.deep_view()),
{
    let groups = group_keys(keys);
    let ghost gs = key_groups(keys.deep_view(), keys@.len() as nat);
    let mut sizes: Vec<usize> = Vec::new();
    let mut g: usize = 0;
    while g < groups.len()
        invariant
            g <= groups@.len(),
            groups@.len() == gs.len(),
            forall|q: int|
                0 <= q < groups@.len() ==> (#[trigger] groups@[q]).0@ == gs[q].0 && groups@[q].1@
                    == gs[q].1,
            sizes@ =~= gs.map_values(|e: (Seq<char>, Seq<usize>)| e.1.len() as usize).take(g as int),
        decreases groups@.len() - g,
    {
        assert(groups@[g as int].1@ == gs[g as int].1);
        sizes.push(groups[g].1.len());
        assert(gs.map_values(|e: (Seq<char>, Seq<usize>)| e.1.len() as usize).take(g + 1)
            =~= gs.map_values(|e: (Seq<char>, Seq<usize>)| e.1.len() as usize).take(g as int).push(
            gs[g as int].1.len() as usize,
        ));
        g += 1;
    }
    assert(sizes@ =~= gs.map_values(|e: (Seq<char>, Seq<usize>)| e.1.len() as usize));
    let ord = order_by_desc(&sizes);
    proof {
        lemma_order_desc_perm(sizes@, sizes@.len() as nat);
    }
    let mut r: Vec<(String, usize)> = Vec::new();
    let mut k: usize = 0;
    while k < ord.len()
        invariant
            k <= ord@.len(),
            groups@.len() == gs.len(),
            sizes@.len() == gs.len(),
            forall|q: int|
                0 <= q < groups@.len() ==> (#[trigger] groups@[q]).0@ == gs[q].0 && groups@[q].1@
                    == gs[q].1,
            ord@ == order_desc(sizes@, sizes@.len() as nat),
            forall|q: int| 0 <= q < ord@.len() ==> (#[trigger] ord@[q]) < sizes@.len(),
            ord@.len() == sizes@.len(),
            r@.map_values(|e: (String, usize)| (e.0@, e.1 as nat)) =~= ord@.take(k as int).map_values(
                |q: usize| (gs[q as int].0, gs[q as int].1.len()),
            ),
        decreases ord@.len() - k,
    {
        let gi = ord[k];
        assert(groups@[gi as int].1@ == gs[gi as int].1);
        let ghost before = r@.map_values(|e: (String, usize)| (e.0@, e.1 as nat));
        r.push((groups[gi].0.clone(), groups[gi].1.len()));
        assert(r@.map_values(|e: (String, usize)| (e.0@, e.1 as nat)) =~= before.push(
            (gs[gi as int].0, gs[gi as int].1.len()),
        ));
        assert(ord@.take(k + 1) =~= ord@.take(k as int).push(gi));
        k += 1;
    }
    assert(ord@.take(k as int) =~= ord@);
    r
}

} // verus!
