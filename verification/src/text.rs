//! Character-level text utilities with exact specifications: whitespace,
//! trimming, substring search and counting, line splitting.
use vstd::prelude::*;

verus! {

/// `String::push` appends one character.
pub assume_specification[ String::push ](s: &mut String, ch: char)
    ensures
        final(s)@ == old(s)@.push(ch),
;

/// The Unicode `White_Space` property, which `char::is_whitespace` and
/// `str::trim` use.
pub open spec fn is_ws(c: char) -> bool {
    let u = c as u32;
    ||| (0x09 <= u && u <= 0x0D)
    ||| u == 0x20
    ||| u == 0x85
    ||| u == 0xA0
    ||| u == 0x1680
    ||| (0x2000 <= u && u <= 0x200A)
    ||| u == 0x2028
    ||| u == 0x2029
    ||| u == 0x202F
    ||| u == 0x205F
    ||| u == 0x3000
}

pub fn is_whitespace(c: char) -> (b: bool)
    ensures
        b == is_ws(c),
{
    let u = c as u32;
    (0x09 <= u && u <= 0x0D) || u == 0x20 || u == 0x85 || u == 0xA0 || u == 0x1680 || (0x2000 <= u
        && u <= 0x200A) || u == 0x2028 || u == 0x2029 || u == 0x202F || u == 0x205F || u == 0x3000
}

/// Number of leading whitespace characters.
pub open spec fn lead_ws(s: Seq<char>) -> nat
    decreases s.len(),
{
    if s.len() > 0 && is_ws(s[0]) {
        1 + lead_ws(s.drop_first())
    } else {
        0
    }
}

/// Number of trailing whitespace characters.
pub open spec fn trail_ws(s: Seq<char>) -> nat
    decreases s.len(),
{
    if s.len() > 0 && is_ws(s.last()) {
        1 + trail_ws(s.drop_last())
    } else {
        0
    }
}

pub open spec fn trim_start(s: Seq<char>) -> Seq<char> {
    s.subrange(lead_ws(s) as int, s.len() as int)
}

pub open spec fn trim_end(s: Seq<char>) -> Seq<char> {
    s.subrange(0, s.len() - trail_ws(s))
}

/// `str::trim`: both ends stripped of whitespace.
pub open spec fn trim(s: Seq<char>) -> Seq<char> {
    trim_end(trim_start(s))
}

pub proof fn lemma_lead_ws(s: Seq<char>)
    ensures
        lead_ws(s) <= s.len(),
        forall|i: int| 0 <= i < lead_ws(s) ==> is_ws(#[trigger] s[i]),
        lead_ws(s) < s.len() ==> !is_ws(s[lead_ws(s) as int]),
    decreases s.len(),
{
    if s.len() > 0 && is_ws(s[0]) {
        lemma_lead_ws(s.drop_first());
        assert forall|i: int| 0 <= i < lead_ws(s) implies is_ws(#[trigger] s[i]) by {
            if i > 0 {
                assert(s[i] == s.drop_first()[i - 1]);
            }
        }
    }
}

pub proof fn lemma_trail_ws(s: Seq<char>)
    ensures
        trail_ws(s) <= s.len(),
        forall|i: int| s.len() - trail_ws(s) <= i < s.len() ==> is_ws(#[trigger] s[i]),
        trail_ws(s) < s.len() ==> !is_ws(s[s.len() - trail_ws(s) - 1]),
    decreases s.len(),
{
    if s.len() > 0 && is_ws(s.last()) {
        lemma_trail_ws(s.drop_last());
        assert forall|i: int| s.len() - trail_ws(s) <= i < s.len() implies is_ws(#[trigger] s[i]) by {
            if i < s.len() - 1 {
                assert(s[i] == s.drop_last()[i]);
            }
        }
    }
}

/// The characters of a string slice.
pub fn chars_of(s: &str) -> (v: Vec<char>)
    ensures
        v@ == s@,
{
    let mut v: Vec<char> = Vec::new();
    for c in it: s.chars()
        invariant
            v@ == it.seq().take(it.index() as int),
            it.seq() == s@,
    {
        v.push(c);
    }
    v
}

/// A `String` holding `v[lo..hi]`.
pub fn string_of(v: &[char], lo: usize, hi: usize) -> (s: String)
    requires
        lo <= hi <= v@.len(),
    ensures
        s@ == v@.subrange(lo as int, hi as int),
{
    let mut s = String::new();
    let mut i = lo;
    while i < hi
        invariant
            lo <= i <= hi <= v@.len(),
            s@ == v@.subrange(lo as int, i as int),
        decreases hi - i,
    {
        s.push(v[i]);
        i += 1;
        assert(s@ =~= v@.subrange(lo as int, i as int));
    }
    s
}

/// Index of the first non-whitespace character.
fn lead_ws_exec(v: &[char]) -> (n: usize)
    ensures
        n == lead_ws(v@),
{
    let mut i: usize = 0;
    assert(v@.subrange(0, v@.len() as int) =~= v@);
    while i < v.len() && is_whitespace(v[i])
        invariant
            i <= v@.len(),
            lead_ws(v@) == i + lead_ws(v@.subrange(i as int, v@.len() as int)),
        decreases v@.len() - i,
    {
        assert(v@.subrange(i as int, v@.len() as int).drop_first() =~= v@.subrange(
            i + 1,
            v@.len() as int,
        ));
        i += 1;
    }
    i
}

/// Number of trailing whitespace characters of `v[..hi]`.
fn trail_ws_exec(v: &[char], hi: usize) -> (n: usize)
    requires
        hi <= v@.len(),
    ensures
        n == trail_ws(v@.subrange(0, hi as int)),
{
    let mut j: usize = hi;
    while j > 0 && is_whitespace(v[j - 1])
        invariant
            j <= hi <= v@.len(),
            trail_ws(v@.subrange(0, hi as int)) == (hi - j) + trail_ws(v@.subrange(0, j as int)),
        decreases j,
    {
        assert(v@.subrange(0, j as int).drop_last() =~= v@.subrange(0, j - 1));
        j -= 1;
    }
    hi - j
}

/// `str::trim`, as an owned string.
pub fn trim_str(s: &str) -> (r: String)
    ensures
        r@ == trim(s@),
{
    let v = chars_of(s);
    let lo = lead_ws_exec(v.as_slice());
    proof {
        lemma_lead_ws(v@);
    }
    let t = trail_ws_exec(v.as_slice(), v.len());
    assert(v@.subrange(0, v@.len() as int) =~= v@);
    proof {
        lemma_trail_ws(v@);
    }
    let ghost ts = trim_start(v@);
    // trailing whitespace of the trimmed-start string
    let hi = if t == v.len() { lo } else { v.len() - t };
    proof {
        if t < v@.len() {
            // lead_ws < v.len() - t: the character at v.len()-t-1 is not whitespace
            assert(!is_ws(v@[v@.len() - t - 1]));
            lemma_trail_suffix(v@, lo as int);
        } else {
            lemma_all_ws(v@);
        }
    }
    string_of(v.as_slice(), lo, hi)
}

proof fn lemma_all_ws(s: Seq<char>)
    requires
        trail_ws(s) == s.len(),
    ensures
        trim(s) =~= Seq::<char>::empty(),
        lead_ws(s) == s.len(),
    decreases s.len(),
{
    lemma_trail_ws(s);
    lemma_lead_ws_all(s);
}

proof fn lemma_lead_ws_all(s: Seq<char>)
    requires
        forall|i: int| 0 <= i < s.len() ==> is_ws(#[trigger] s[i]),
    ensures
        lead_ws(s) == s.len(),
    decreases s.len(),
{
    if s.len() > 0 {
        assert forall|i: int| 0 <= i < s.drop_first().len() implies is_ws(
            #[trigger] s.drop_first()[i],
        ) by {
            assert(s.drop_first()[i] == s[i + 1]);
        }
        lemma_lead_ws_all(s.drop_first());
    }
}

/// Dropping a prefix that ends before the last non-whitespace character keeps the
/// trailing whitespace count.
proof fn lemma_trail_suffix(s: Seq<char>, k: int)
    requires
        0 <= k,
        k + trail_ws(s) < s.len(),
    ensures
        trail_ws(s.subrange(k, s.len() as int)) == trail_ws(s),
    decreases s.len(),
{
    let t = s.subrange(k, s.len() as int);
    if s.len() > 0 && is_ws(s.last()) {
        assert(t.last() == s.last());
        assert(t.drop_last() =~= s.drop_last().subrange(k, s.len() - 1));
        lemma_trail_suffix(s.drop_last(), k);
    } else {
        assert(t.len() > 0);
        assert(t.last() == s.last());
    }
}


/// `n` occurs in `h` at position `i`.
pub open spec fn matches_at(h: Seq<char>, n: Seq<char>, i: int) -> bool {
    0 <= i && i + n.len() <= h.len() && h.subrange(i, i + n.len()) == n
}

/// `h` contains `n` (`str::contains`).
pub open spec fn contains(h: Seq<char>, n: Seq<char>) -> bool {
    exists|i: int| matches_at(h, n, i)
}

pub open spec fn starts_with(h: Seq<char>, n: Seq<char>) -> bool {
    matches_at(h, n, 0)
}

pub open spec fn ends_with(h: Seq<char>, n: Seq<char>) -> bool {
    n.len() <= h.len() && matches_at(h, n, h.len() - n.len())
}

/// Number of non-overlapping occurrences of `n` in `h[i..]`, scanning left to
/// right (`str::matches(..).count()`).
pub open spec fn count_from(h: Seq<char>, n: Seq<char>, i: int) -> nat
    decreases h.len() - i,
{
    if n.len() == 0 || i < 0 || i + n.len() > h.len() {
        0
    } else if matches_at(h, n, i) {
        1 + count_from(h, n, i + n.len())
    } else {
        count_from(h, n, i + 1)
    }
}

pub open spec fn count_occ(h: Seq<char>, n: Seq<char>) -> nat {
    count_from(h, n, 0)
}

/// First position at or after `i` where `n` occurs.
pub open spec fn find_from(h: Seq<char>, n: Seq<char>, i: int) -> Option<int>
    decreases h.len() + 1 - i,
{
    if i < 0 || i + n.len() > h.len() {
        None
    } else if matches_at(h, n, i) {
        Some(i)
    } else {
        find_from(h, n, i + 1)
    }
}

pub fn matches_at_exec(h: &[char], n: &[char], i: usize) -> (b: bool)
    ensures
        b == matches_at(h@, n@, i as int),
{
    if i > h.len() || n.len() > h.len() - i {
        return false;
    }
    let end = i + n.len();
    let mut j: usize = i;
    while j < end
        invariant
            end == i + n@.len(),
            end <= h@.len(),
            i <= j <= end,
            forall|t: int| 0 <= t < j - i ==> h@[i + t] == n@[t],
        decreases end - j,
    {
        if h[j] != n[j - i] {
            assert(h@.subrange(i as int, i + n@.len())[j - i] != n@[j - i]);
            return false;
        }
        j += 1;
    }
    assert(h@.subrange(i as int, i + n@.len()) =~= n@);
    true
}

proof fn lemma_find_from_none(h: Seq<char>, n: Seq<char>, i: int)
    requires
        0 <= i,
        find_from(h, n, i) is None,
    ensures
        forall|j: int| i <= j ==> !matches_at(h, n, j),
    decreases h.len() + 1 - i,
{
    if i + n.len() <= h.len() {
        lemma_find_from_none(h, n, i + 1);
    }
}

pub proof fn lemma_find_from_some(h: Seq<char>, n: Seq<char>, i: int)
    requires
        0 <= i,
    ensures
        find_from(h, n, i) matches Some(k) ==> i <= k && matches_at(h, n, k) && forall|j: int|
            i <= j < k ==> !matches_at(h, n, j),
    decreases h.len() + 1 - i,
{
    if i + n.len() <= h.len() && !matches_at(h, n, i) {
        lemma_find_from_some(h, n, i + 1);
    }
}

/// `str::find`: the first occurrence of `n` in `h` at or after `from`.
pub fn find_exec(h: &[char], n: &[char], from: usize) -> (r: Option<usize>)
    ensures
        r matches Some(k) ==> find_from(h@, n@, from as int) == Some(k as int),
        r is None ==> find_from(h@, n@, from as int) is None,
{
    let mut i = from;
    if i > h.len() || n.len() > h.len() - i {
        return None;
    }
    let last = h.len() - n.len();
    while i <= last
        invariant
            from <= i,
            last == h@.len() - n@.len(),
            i <= h@.len(),
            find_from(h@, n@, from as int) == find_from(h@, n@, i as int),
        ensures
            find_from(h@, n@, from as int) is None,
        decreases h@.len() - i,
    {
        if matches_at_exec(h, n, i) {
            return Some(i);
        }
        if i == last {
            assert(find_from(h@, n@, i + 1) is None);
            break;
        }
        i += 1;
    }
    None
}

/// `str::contains`.
pub fn contains_str(h: &str, n: &str) -> (b: bool)
    ensures
        b == contains(h@, n@),
{
    let hv = chars_of(h);
    let nv = chars_of(n);
    let r = find_exec(hv.as_slice(), nv.as_slice(), 0);
    proof {
        if r is None {
            lemma_find_from_none(h@, n@, 0);
        } else {
            lemma_find_from_some(h@, n@, 0);
        }
    }
    r.is_some()
}

/// `str::starts_with`.
pub fn starts_with_str(h: &str, n: &str) -> (b: bool)
    ensures
        b == starts_with(h@, n@),
{
    let hv = chars_of(h);
    let nv = chars_of(n);
    matches_at_exec(hv.as_slice(), nv.as_slice(), 0)
}

/// `str::ends_with`.
pub fn ends_with_str(h: &str, n: &str) -> (b: bool)
    ensures
        b == ends_with(h@, n@),
{
    let hv = chars_of(h);
    let nv = chars_of(n);
    if nv.len() > hv.len() {
        return false;
    }
    matches_at_exec(hv.as_slice(), nv.as_slice(), hv.len() - nv.len())
}

/// `str::matches(n).count()` for a non-empty `n`.
pub fn count_matches(h: &str, n: &str) -> (c: usize)
    ensures
        c == count_occ(h@, n@),
{
    let hv = chars_of(h);
    let nv = chars_of(n);
    count_matches_chars(hv.as_slice(), nv.as_slice())
}

pub fn count_matches_chars(hv: &[char], nv: &[char]) -> (c: usize)
    ensures
        c == count_occ(hv@, nv@),
{
    if nv.len() == 0 || nv.len() > hv.len() {
        return 0;
    }
    let last = hv.len() - nv.len();
    let mut i: usize = 0;
    let mut c: usize = 0;
    while i <= last
        invariant_except_break
            c <= i,
            count_occ(hv@, nv@) == c + count_from(hv@, nv@, i as int),
        invariant
            nv@.len() > 0,
            hv@.len() <= usize::MAX,
            last == hv@.len() - nv@.len(),
            i <= last,
        ensures
            count_occ(hv@, nv@) == c,
        decreases hv@.len() - i,
    {
        if matches_at_exec(hv, nv, i) {
            c += 1;
            if nv.len() > last - i {
                assert(count_from(hv@, nv@, i + nv@.len()) == 0);
                break;
            }
            i += nv.len();
        } else {
            if i == last {
                assert(count_from(hv@, nv@, i + 1) == 0);
                break;
            }
            i += 1;
        }
    }
    c
}

/// Index of the first `c` in `s[i..]`.
pub open spec fn find_char_from(s: Seq<char>, c: char, i: int) -> Option<int>
    decreases s.len() - i,
{
    if i < 0 || i >= s.len() {
        None
    } else if s[i] == c {
        Some(i)
    } else {
        find_char_from(s, c, i + 1)
    }
}

/// A line without its terminator: a `\r` before the `\n` goes too.
pub open spec fn strip_cr(l: Seq<char>) -> Seq<char> {
    if l.len() > 0 && l.last() == '\r' {
        l.drop_last()
    } else {
        l
    }
}

/// `str::lines`: split at `\n`, each line without `\n` and a `\r` before it;
/// no final empty line when the text ends with a terminator.
pub open spec fn lines(s: Seq<char>) -> Seq<Seq<char>>
    decreases s.len(),
{
    if s.len() == 0 {
        Seq::empty()
    } else {
        match find_char_from(s, '\n', 0) {
            None => seq![s],
            Some(k) => if 0 <= k < s.len() {
                seq![strip_cr(s.take(k))] + lines(s.skip(k + 1))
            } else {
                Seq::empty()
            },
        }
    }
}

/// `str::split(c)`: every piece between separators, empty ones too.
pub open spec fn split(s: Seq<char>, c: char) -> Seq<Seq<char>>
    decreases s.len(),
{
    match find_char_from(s, c, 0) {
        None => seq![s],
        Some(k) => if 0 <= k < s.len() {
            seq![s.take(k)] + split(s.skip(k + 1), c)
        } else {
            seq![s]
        },
    }
}

proof fn lemma_find_char_from(s: Seq<char>, c: char, i: int)
    requires
        0 <= i,
    ensures
        find_char_from(s, c, i) matches Some(k) ==> i <= k < s.len() && s[k] == c && forall|
            j: int,
        | i <= j < k ==> s[j] != c,
        find_char_from(s, c, i) is None ==> forall|j: int| i <= j < s.len() ==> s[j] != c,
    decreases s.len() - i,
{
    if i < s.len() && s[i] != c {
        lemma_find_char_from(s, c, i + 1);
    }
}

pub proof fn lemma_find_char_shift(s: Seq<char>, c: char, i: int)
    requires
        0 <= i <= s.len(),
    ensures
        find_char_from(s.skip(i), c, 0) == (match find_char_from(s, c, i) {
            Some(k) => Some(k - i),
            None => None,
        }),
{
    lemma_find_char_from(s, c, i);
    lemma_find_char_from(s.skip(i), c, 0);
    let t = s.skip(i);
    match find_char_from(s, c, i) {
        Some(k) => {
            assert(t[k - i] == c);
            match find_char_from(t, c, 0) {
                Some(k2) => {
                    if k2 < k - i {
                        assert(s[k2 + i] == c);
                    } else if k2 > k - i {
                        assert(t[k - i] == c);
                    }
                },
                None => {},
            }
        },
        None => {
            match find_char_from(t, c, 0) {
                Some(k2) => {
                    assert(s[k2 + i] == t[k2]);
                },
                None => {},
            }
        },
    }
}

/// `text.split(c)` as owned strings.
pub fn split_str(s: &str, c: char) -> (r: Vec<String>)
    ensures
        r.deep_view() == split(s@, c),
{
    let v = chars_of(s);
    let mut r: Vec<String> = Vec::new();
    let mut start: usize = 0;
    let mut i: usize = 0;
    assert(v@.skip(0) =~= v@);
    while i < v.len()
        invariant
            start <= i <= v@.len(),
            v@ == s@,
            forall|j: int| start <= j < i ==> v@[j] != c,
            split(s@, c) == r.deep_view() + split(v@.skip(start as int), c),
        decreases v@.len() - i,
    {
        if v[i] == c {
            proof {
                let t = v@.skip(start as int);
                lemma_find_char_from(t, c, 0);
                let k = (i - start) as int;
                assert(t[k] == c);
                assert forall|j: int| 0 <= j < k implies t[j] != c by {
                    assert(t[j] == v@[start + j]);
                }
                match find_char_from(t, c, 0) {
                    Some(k2) => {
                        if k2 < k { assert(t[k2] == c); }
                        if k2 > k { assert(t[k] == c); }
                    },
                    None => {},
                }
                assert(t.take(k) =~= v@.subrange(start as int, i as int));
                assert(t.skip(k + 1) =~= v@.skip(i + 1));
            }
            let piece = string_of(v.as_slice(), start, i);
            r.push(piece);
            proof {

            }
            start = i + 1;
        }
        i += 1;
    }
    proof {
        let t = v@.skip(start as int);
        lemma_find_char_from(t, c, 0);
        assert forall|j: int| 0 <= j < t.len() implies t[j] != c by {
            assert(t[j] == v@[start + j]);
        }
        assert(find_char_from(t, c, 0) is None);
        assert(t =~= v@.subrange(start as int, v@.len() as int));
    }
    let last = string_of(v.as_slice(), start, v.len());
    r.push(last);
    r
}

/// `text.lines()` as owned strings.
pub fn lines_of(s: &str) -> (r: Vec<String>)
    ensures
        r.deep_view() == lines(s@),
{
    let v = chars_of(s);
    let mut r: Vec<String> = Vec::new();
    let mut start: usize = 0;
    let mut i: usize = 0;
    assert(v@.skip(0) =~= v@);
    while i < v.len()
        invariant
            start <= i <= v@.len(),
            v@ == s@,
            forall|j: int| start <= j < i ==> v@[j] != '\n',
            lines(s@) == r.deep_view() + lines(v@.skip(start as int)),
        decreases v@.len() - i,
    {
        if v[i] == '\n' {
            proof {
                let t = v@.skip(start as int);
                lemma_find_char_from(t, '\n', 0);
                let k = (i - start) as int;
                assert(t[k] == '\n');
                assert forall|j: int| 0 <= j < k implies t[j] != '\n' by {
                    assert(t[j] == v@[start + j]);
                }
                match find_char_from(t, '\n', 0) {
                    Some(k2) => {
                        if k2 < k { assert(t[k2] == '\n'); }
                        if k2 > k { assert(t[k] == '\n'); }
                    },
                    None => {},
                }
                assert(t.take(k) =~= v@.subrange(start as int, i as int));
                assert(t.skip(k + 1) =~= v@.skip(i + 1));
            }
            let end = if i > start && v[i - 1] == '\r' { i - 1 } else { i };
            let piece = string_of(v.as_slice(), start, end);
            proof {
                let l = v@.subrange(start as int, i as int);
                if i > start && v@[i - 1] == '\r' {
                    assert(l.last() == '\r');
                    assert(l.drop_last() =~= v@.subrange(start as int, end as int));
                } else {
                    assert(l =~= v@.subrange(start as int, end as int));
                }
            }
            r.push(piece);
            start = i + 1;
        }
        i += 1;
    }
    proof {
        let t = v@.skip(start as int);
        lemma_find_char_from(t, '\n', 0);
        assert forall|j: int| 0 <= j < t.len() implies t[j] != '\n' by {
            assert(t[j] == v@[start + j]);
        }
        assert(find_char_from(t, '\n', 0) is None);
        assert(t =~= v@.subrange(start as int, v@.len() as int));
    }
    if start < v.len() {
        let last = string_of(v.as_slice(), start, v.len());
        r.push(last);
    } else {
        assert(r.deep_view() + lines(v@.skip(start as int)) =~= r.deep_view());
    }
    r
}

/// `str::to_lowercase`: Unicode lowercase mapping of every character.
pub uninterp spec fn unicode_lowercase(s: Seq<char>) -> Seq<char>;

/// ASCII lowercase of one character.
pub open spec fn ascii_lower_char(c: char) -> char {
    if 'A' <= c && c <= 'Z' {
        ((c as u32) + 32) as char
    } else {
        c
    }
}

pub open spec fn all_ascii(s: Seq<char>) -> bool {
    forall|i: int| 0 <= i < s.len() ==> (s[i] as u32) < 128
}

/// Lowercase of `s` as `str::to_lowercase` gives it: ASCII text maps each
/// character to its ASCII lowercase; other text goes by the Unicode mapping.
pub open spec fn lowercase(s: Seq<char>) -> Seq<char> {
    if all_ascii(s) {
        s.map_values(|c: char| ascii_lower_char(c))
    } else {
        unicode_lowercase(s)
    }
}

/// Calls `str::to_lowercase`; the result is named by `unicode_lowercase`. The
/// contract adds the documented mapping of ASCII text: each character maps to
/// its ASCII lowercase.
#[verifier::external_body]
pub fn to_lowercase(s: &str) -> (r: String)
    ensures
        r@ == unicode_lowercase(s@),
        all_ascii(s@) ==> r@ == s@.map_values(|c: char| ascii_lower_char(c)),
{
    s.to_lowercase()
}

/// Value of a string of ASCII decimal digits.
pub open spec fn digits_value(s: Seq<char>) -> nat
    decreases s.len(),
{
    if s.len() == 0 {
        0
    } else {
        digits_value(s.drop_last()) * 10 + ((s.last() as u32) - ('0' as u32)) as nat
    }
}

pub open spec fn is_digit(c: char) -> bool {
    '0' <= c && c <= '9'
}

/// `str::parse::<usize>`: an optional `+`, then one or more ASCII digits whose
/// value fits in `usize`.
pub open spec fn parse_usize_spec(s: Seq<char>) -> Option<usize> {
    parse_digits(strip_plus(s))
}

pub open spec fn strip_plus(s: Seq<char>) -> Seq<char> {
    if s.len() > 0 && s[0] == '+' {
        s.drop_first()
    } else {
        s
    }
}

pub open spec fn parse_digits(d: Seq<char>) -> Option<usize> {
    if d.len() > 0 && (forall|i: int| 0 <= i < d.len() ==> is_digit(#[trigger] d[i]))
        && digits_value(d) <= usize::MAX {
        Some(digits_value(d) as usize)
    } else {
        None
    }
}

/// `s.parse::<usize>().ok()`.
pub fn parse_usize(s: &str) -> (r: Option<usize>)
    ensures
        r == parse_usize_spec(s@),
{
    let v = chars_of(s);
    let mut i: usize = 0;
    if v.len() > 0 && v[0] == '+' {
        i = 1;
    }
    let ghost d = strip_plus(s@);
    assert(d =~= v@.subrange(i as int, v@.len() as int));
    if i >= v.len() {
        return None;
    }
    let mut acc: usize = 0;
    let mut k = i;
    while k < v.len()
        invariant
            i <= k <= v@.len(),
            d == strip_plus(s@),
            d =~= v@.subrange(i as int, v@.len() as int),
            forall|j: int| i <= j < k ==> is_digit(#[trigger] v@[j]),
            acc as nat == digits_value(v@.subrange(i as int, k as int)),
        decreases v@.len() - k,
    {
        let c = v[k];
        if !('0' <= c && c <= '9') {
            proof {
                assert(d[k - i] == v@[k as int]);
                assert(!is_digit(d[k - i]));
                assert(!(forall|j: int| 0 <= j < d.len() ==> is_digit(#[trigger] d[j])));
            }
            return None;
        }
        let dv = (c as u32 - '0' as u32) as usize;
        assert(v@.subrange(i as int, k + 1).drop_last() =~= v@.subrange(i as int, k as int));
        if acc > (usize::MAX - dv) / 10 {
            proof {
                assert(digits_value(v@.subrange(i as int, k + 1)) > usize::MAX) by (nonlinear_arith)
                    requires
                        acc > (usize::MAX - dv) / 10,
                        digits_value(v@.subrange(i as int, k + 1)) == acc * 10 + dv,
                ;
            }
            // either a later non-digit or an overflowing value: both fail
            proof {
                assert(d.subrange(0, (k + 1 - i) as int) =~= v@.subrange(i as int, k + 1));
                lemma_overflow_or_bad(d, (k + 1 - i) as int);
            }
            return None;
        }
        acc = acc * 10 + dv;
        k += 1;
    }
    assert(v@.subrange(i as int, k as int) =~= d);
    Some(acc)
}

pub proof fn lemma_digits_value_mono(d: Seq<char>, n: int)
    requires
        0 <= n <= d.len(),
        forall|i: int| 0 <= i < d.len() ==> is_digit(#[trigger] d[i]),
    ensures
        digits_value(d.subrange(0, n)) <= digits_value(d),
    decreases d.len() - n,
{
    if n < d.len() {
        lemma_digits_value_mono(d, n + 1);
        assert(d.subrange(0, n + 1).drop_last() =~= d.subrange(0, n));
        if n + 1 == d.len() {
            assert(d.subrange(0, n + 1) =~= d);
        }
    } else {
        assert(d.subrange(0, n) =~= d);
    }
}

proof fn lemma_overflow_or_bad(d: Seq<char>, n: int)
    requires
        0 <= n <= d.len(),
        digits_value(d.subrange(0, n)) > usize::MAX,
    ensures
        !(d.len() > 0 && (forall|i: int| 0 <= i < d.len() ==> is_digit(#[trigger] d[i]))
            && digits_value(d) <= usize::MAX),
{
    if d.len() > 0 && (forall|i: int| 0 <= i < d.len() ==> is_digit(#[trigger] d[i])) {
        lemma_digits_value_mono(d, n);
    }
}

/// Lines joined with `\n` between them (`[..].join("\n")`).
pub open spec fn join_lines(ls: Seq<Seq<char>>) -> Seq<char>
    decreases ls.len(),
{
    if ls.len() == 0 {
        Seq::empty()
    } else if ls.len() == 1 {
        ls[0]
    } else {
        join_lines(ls.drop_last()) + seq!['\n'] + ls.last()
    }
}

/// Appends all of `t` to `s`.
pub fn push_all(s: &mut String, t: &str)
    ensures
        final(s)@ == old(s)@ + t@,
{
    let v = chars_of(t);
    let mut i: usize = 0;
    while i < v.len()
        invariant
            i <= v@.len(),
            v@ == t@,
            s@ == old(s)@ + v@.subrange(0, i as int),
        decreases v@.len() - i,
    {
        s.push(v[i]);
        i += 1;
        assert(s@ =~= old(s)@ + v@.subrange(0, i as int));
    }
    assert(v@.subrange(0, i as int) =~= v@);
}

/// `ls.join("\n")`.
pub fn join_newline(ls: &Vec<String>) -> (r: String)
    ensures
        r@ == join_lines(ls.deep_view()),
{
    let mut r = String::new();
    let mut i: usize = 0;
    while i < ls.len()
        invariant
            i <= ls@.len(),
            r@ == join_lines(ls.deep_view().take(i as int)),
        decreases ls@.len() - i,
    {
        if i > 0 {
            r.push('\n');
        }
        push_all(&mut r, ls[i].as_str());
        proof {
            let t = ls.deep_view().take(i + 1);
            assert(t.drop_last() =~= ls.deep_view().take(i as int));
            assert(t.last() == ls[i as int]@);
            if i == 0 {
                assert(r@ =~= t[0]);
            } else {
                assert(r@ =~= join_lines(t.drop_last()) + seq!['\n'] + t.last());
            }
        }
        i += 1;
    }
    assert(ls.deep_view().take(i as int) =~= ls.deep_view());
    r
}

/// Lowercase hex digit of a value below 16.
pub open spec fn hex_digit(d: nat) -> char {
    if d == 0 { '0' } else if d == 1 { '1' } else if d == 2 { '2' } else if d == 3 { '3' }
    else if d == 4 { '4' } else if d == 5 { '5' } else if d == 6 { '6' } else if d == 7 { '7' }
    else if d == 8 { '8' } else if d == 9 { '9' } else if d == 10 { 'a' } else if d == 11 { 'b' }
    else if d == 12 { 'c' } else if d == 13 { 'd' } else if d == 14 { 'e' } else { 'f' }
}

pub(crate) fn hex_digit_exec(d: u64) -> (c: char)
    requires
        d < 16,
    ensures
        c == hex_digit(d as nat),
{
    if d == 0 { '0' } else if d == 1 { '1' } else if d == 2 { '2' } else if d == 3 { '3' }
    else if d == 4 { '4' } else if d == 5 { '5' } else if d == 6 { '6' } else if d == 7 { '7' }
    else if d == 8 { '8' } else if d == 9 { '9' } else if d == 10 { 'a' } else if d == 11 { 'b' }
    else if d == 12 { 'c' } else if d == 13 { 'd' } else if d == 14 { 'e' } else { 'f' }
}

/// The last `n` lowercase hex digits of `v`, zero-padded (`format!("{:0nx}")` for
/// values below `16^n`).
pub open spec fn hex_digits(v: nat, n: nat) -> Seq<char>
    decreases n,
{
    if n == 0 {
        Seq::empty()
    } else {
        hex_digits(v / 16, (n - 1) as nat).push(hex_digit(v % 16))
    }
}

/// `format!("{:016x}", v)`.
pub fn hex16(v: u64) -> (r: String)
    ensures
        r@ == hex_digits(v as nat, 16),
{
    let mut digits: Vec<char> = Vec::new();
    let mut x = v;
    let mut k: usize = 0;
    while k < 16
        invariant
            k <= 16,
            digits@.len() == k,
            hex_digits(v as nat, 16) == hex_digits(x as nat, (16 - k) as nat) + digits@.reverse(),
        decreases 16 - k,
    {
        let c = hex_digit_exec(x % 16);
        proof {
            assert(c == hex_digit((x % 16) as nat));
            let old_digits = digits@;
            assert(hex_digits(x as nat, (16 - k) as nat) == hex_digits((x / 16) as nat, (15 - k) as nat).push(c));
            assert(old_digits.push(c).reverse() =~= seq![c] + old_digits.reverse());
        }
        digits.push(c);
        x = x / 16;
        k += 1;
    }
    assert(hex_digits(x as nat, 0) =~= Seq::<char>::empty());
    let mut r = String::new();
    let mut j: usize = 16;
    while j > 0
        invariant
            j <= 16,
            digits@.len() == 16,
            r@ == digits@.reverse().subrange(0, 16 - j),
        decreases j,
    {
        j -= 1;
        r.push(digits[j]);
        assert(r@ =~= digits@.reverse().subrange(0, 16 - j));
    }
    assert(digits@.reverse().subrange(0, 16) =~= digits@.reverse());
    r
}

pub open spec fn is_brace(c: char) -> bool {
    c == '{' || c == '}'
}

pub open spec fn lead_braces(s: Seq<char>) -> nat
    decreases s.len(),
{
    if s.len() > 0 && is_brace(s[0]) {
        1 + lead_braces(s.drop_first())
    } else {
        0
    }
}

pub open spec fn trail_braces(s: Seq<char>) -> nat
    decreases s.len(),
{
    if s.len() > 0 && is_brace(s.last()) {
        1 + trail_braces(s.drop_last())
    } else {
        0
    }
}

/// `s.trim_matches(|c| c == '{' || c == '}')`.
pub open spec fn strip_braces(s: Seq<char>) -> Seq<char> {
    let t = s.subrange(lead_braces(s) as int, s.len() as int);
    t.subrange(0, t.len() - trail_braces(t))
}

proof fn lemma_lead_braces(s: Seq<char>)
    ensures
        lead_braces(s) <= s.len(),
        forall|i: int| 0 <= i < lead_braces(s) ==> is_brace(#[trigger] s[i]),
        lead_braces(s) < s.len() ==> !is_brace(s[lead_braces(s) as int]),
    decreases s.len(),
{
    if s.len() > 0 && is_brace(s[0]) {
        lemma_lead_braces(s.drop_first());
        assert forall|i: int| 0 <= i < lead_braces(s) implies is_brace(#[trigger] s[i]) by {
            if i > 0 {
                assert(s[i] == s.drop_first()[i - 1]);
            }
        }
    }
}

proof fn lemma_trail_braces(s: Seq<char>)
    ensures
        trail_braces(s) <= s.len(),
    decreases s.len(),
{
    if s.len() > 0 && is_brace(s.last()) {
        lemma_trail_braces(s.drop_last());
    }
}

/// `s.trim_matches(|c| c == '{' || c == '}')`, owned.
pub fn strip_braces_str(s: &str) -> (r: String)
    ensures
        r@ == strip_braces(s@),
{
    let v = chars_of(s);
    let mut i: usize = 0;
    assert(v@.subrange(0, v@.len() as int) =~= v@);
    while i < v.len() && (v[i] == '{' || v[i] == '}')
        invariant
            i <= v@.len(),
            lead_braces(v@) == i + lead_braces(v@.subrange(i as int, v@.len() as int)),
        decreases v@.len() - i,
    {
        assert(v@.subrange(i as int, v@.len() as int).drop_first() =~= v@.subrange(
            i + 1,
            v@.len() as int,
        ));
        i += 1;
    }
    let ghost t = v@.subrange(i as int, v@.len() as int);
    let mut j: usize = v.len();
    assert(t.subrange(0, t.len() as int) =~= t);
    while j > i && (v[j - 1] == '{' || v[j - 1] == '}')
        invariant
            i <= j <= v@.len(),
            t == v@.subrange(i as int, v@.len() as int),
            trail_braces(t) == (v@.len() - j) + trail_braces(t.subrange(0, j - i)),
        decreases j,
    {
        assert(t.subrange(0, j - i).drop_last() =~= t.subrange(0, j - i - 1));
        j -= 1;
    }
    proof {
        lemma_trail_braces(t.subrange(0, j - i));
        assert(trail_braces(t.subrange(0, j - i)) == 0);
        assert(t.subrange(0, t.len() - trail_braces(t)) =~= v@.subrange(i as int, j as int));
    }
    string_of(v.as_slice(), i, j)
}

/// `h[i..]` with every non-overlapping occurrence of `n`, scanning left to
/// right, replaced by `r`.
pub open spec fn replace_from(h: Seq<char>, n: Seq<char>, r: Seq<char>, i: int) -> Seq<char>
    decreases h.len() - i,
{
    if n.len() == 0 || i < 0 || i >= h.len() {
        if 0 <= i <= h.len() {
            h.skip(i)
        } else {
            Seq::empty()
        }
    } else if matches_at(h, n, i) {
        r + replace_from(h, n, r, i + n.len())
    } else {
        seq![h[i]] + replace_from(h, n, r, i + 1)
    }
}

/// `str::replace(n, r)` for a non-empty `n`.
pub open spec fn replace_all(h: Seq<char>, n: Seq<char>, r: Seq<char>) -> Seq<char> {
    replace_from(h, n, r, 0)
}

/// `h.replace(n, r)` for a non-empty `n`.
pub fn replace_str(h: &str, n: &str, r: &str) -> (out: String)
    requires
        n@.len() > 0,
    ensures
        out@ == replace_all(h@, n@, r@),
{
    let hv = chars_of(h);
    let nv = chars_of(n);
    let mut out = String::new();
    let mut i: usize = 0;
    while i < hv.len()
        invariant
            i <= hv@.len(),
            hv@ == h@,
            nv@ == n@,
            nv@.len() > 0,
            replace_all(h@, n@, r@) == out@ + replace_from(h@, n@, r@, i as int),
        decreases hv@.len() - i,
    {
        if matches_at_exec(hv.as_slice(), nv.as_slice(), i) {
            let ghost o = out@;
            push_all(&mut out, r);
            assert(out@ + replace_from(h@, n@, r@, i + nv@.len()) =~= o + (r@ + replace_from(h@, n@, r@, i + nv@.len())));
            i += nv.len();
        } else {
            let ghost o = out@;
            out.push(hv[i]);
            assert(out@ + replace_from(h@, n@, r@, i + 1) =~= o + (seq![hv@[i as int]] + replace_from(h@, n@, r@, i + 1)));
            i += 1;
        }
    }
    assert(replace_from(h@, n@, r@, i as int) =~= Seq::<char>::empty());
    assert(out@ + Seq::<char>::empty() =~= out@);
    out
}

pub open spec fn digit_char(d: nat) -> char {
    hex_digit(d)
}

/// Decimal digits of `n` (`format!("{}", n)`).
pub open spec fn decimal(n: nat) -> Seq<char>
    decreases n,
{
    if n < 10 {
        seq![digit_char(n)]
    } else {
        decimal(n / 10).push(digit_char(n % 10))
    }
}

/// `n.to_string()`.
pub fn fmt_usize(n: usize) -> (r: String)
    ensures
        r@ == decimal(n as nat),
    decreases n,
{
    if n < 10 {
        let mut r = String::new();
        r.push(hex_digit_exec(n as u64));
        assert(r@ =~= seq![digit_char(n as nat)]);
        r
    } else {
        let mut r = fmt_usize(n / 10);
        let ghost a = r@;
        r.push(hex_digit_exec((n % 10) as u64));
        assert(r@ =~= a.push(digit_char((n % 10) as nat)));
        r
    }
}

/// `s` without the copies of `c` at its end (`str::trim_end_matches(c)`).
pub open spec fn strip_trailing(s: Seq<char>, c: char) -> Seq<char>
    decreases s.len(),
{
    if s.len() > 0 && s.last() == c {
        strip_trailing(s.drop_last(), c)
    } else {
        s
    }
}

/// `s.trim_end_matches(c)`.
pub fn strip_trailing_str(s: &str, c: char) -> (r: String)
    ensures
        r@ == strip_trailing(s@, c),
{
    let v = chars_of(s);
    let mut e = v.len();
    assert(v@.take(e as int) =~= v@);
    while e > 0 && v[e - 1] == c
        invariant
            e <= v@.len(),
            v@ == s@,
            strip_trailing(s@, c) == strip_trailing(v@.take(e as int), c),
        decreases e,
    {
        assert(v@.take(e as int).drop_last() =~= v@.take(e - 1));
        e -= 1;
    }
    assert(v@.subrange(0, e as int) =~= v@.take(e as int));
    string_of(v.as_slice(), 0, e)
}

/// `s` without the copies of `c` at its start (`str::trim_start_matches(c)`).
pub open spec fn strip_leading(s: Seq<char>, c: char) -> Seq<char>
    decreases s.len(),
{
    if s.len() > 0 && s[0] == c {
        strip_leading(s.drop_first(), c)
    } else {
        s
    }
}

/// `s.trim_start_matches(c)`.
pub fn strip_leading_str(s: &str, c: char) -> (r: String)
    ensures
        r@ == strip_leading(s@, c),
{
    let v = chars_of(s);
    let mut b: usize = 0;
    assert(v@.skip(0) =~= v@);
    while b < v.len() && v[b] == c
        invariant
            b <= v@.len(),
            v@ == s@,
            strip_leading(s@, c) == strip_leading(v@.skip(b as int), c),
        decreases v@.len() - b,
    {
        assert(v@.skip(b as int).drop_first() =~= v@.skip(b + 1));
        b += 1;
    }
    assert(v@.subrange(b as int, v@.len() as int) =~= v@.skip(b as int));
    string_of(v.as_slice(), b, v.len())
}

/// The UTF-8 encoding of a concatenation is the concatenation of the encodings.
pub proof fn lemma_encode_concat(a: Seq<char>, b: Seq<char>)
    ensures
        vstd::utf8::encode_utf8(a + b) == vstd::utf8::encode_utf8(a) + vstd::utf8::encode_utf8(b),
    decreases a.len(),
{
    if a.len() == 0 {
        assert(a + b =~= b);
        assert(vstd::utf8::encode_utf8(a) =~= Seq::<u8>::empty());
        assert(vstd::utf8::encode_utf8(a) + vstd::utf8::encode_utf8(b) =~= vstd::utf8::encode_utf8(b));
    } else {
        lemma_encode_concat(a.drop_first(), b);
        assert((a + b).drop_first() =~= a.drop_first() + b);
        assert((a + b)[0] == a[0]);
        assert(vstd::utf8::encode_utf8(a + b) =~= vstd::utf8::encode_scalar(a[0] as u32)
            + vstd::utf8::encode_utf8(a.drop_first() + b));
    }
}

/// An ASCII character encodes as one byte.
pub proof fn lemma_encode_ascii_char(c: char)
    requires
        (c as u32) < 0x80,
    ensures
        vstd::utf8::encode_utf8(seq![c]).len() == 1,
{
    reveal_with_fuel(vstd::utf8::encode_utf8, 2);
    assert(seq![c].drop_first() =~= Seq::<char>::empty());
    assert(vstd::utf8::encode_scalar(c as u32).len() == 1);
}

/// The items joined with `sep` between them (`[..].join(sep)`).
pub open spec fn join_sep(items: Seq<Seq<char>>, sep: Seq<char>) -> Seq<char>
    decreases items.len(),
{
    if items.len() == 0 {
        Seq::empty()
    } else if items.len() == 1 {
        items[0]
    } else {
        join_sep(items.drop_last(), sep) + sep + items.last()
    }
}

/// `items.join(sep)`.
pub fn join_with(items: &Vec<String>, sep: &str) -> (r: String)
    ensures
        r@ == join_sep(items.deep_view(), sep@),
{
    let mut r = String::new();
    let mut i: usize = 0;
    while i < items.len()
        invariant
            i <= items@.len(),
            r@ == join_sep(items.deep_view().take(i as int), sep@),
        decreases items@.len() - i,
    {
        let ghost before = r@;
        if i > 0 {
            push_all(&mut r, sep);
        }
        push_all(&mut r, items[i].as_str());
        proof {
            let t = items.deep_view().take(i + 1);
            assert(t.drop_last() =~= items.deep_view().take(i as int));
            assert(t.last() == items[i as int]@);
            if i == 0 {
                assert(r@ =~= t[0]);
            } else {
                assert(r@ =~= join_sep(t.drop_last(), sep@) + sep@ + t.last());
            }
        }
        i += 1;
    }
    assert(items.deep_view().take(i as int) =~= items.deep_view());
    r
}

/// `n.to_string()` for a `u64`.
pub fn fmt_u64(n: u64) -> (r: String)
    ensures
        r@ == decimal(n as nat),
    decreases n,
{
    if n < 10 {
        let mut r = String::new();
        r.push(hex_digit_exec(n));
        assert(r@ =~= seq![digit_char(n as nat)]);
        r
    } else {
        let mut r = fmt_u64(n / 10);
        let ghost a = r@;
        r.push(hex_digit_exec(n % 10));
        assert(r@ =~= a.push(digit_char((n % 10) as nat)));
        r
    }
}


/// Length of the run of non-whitespace characters that `s` starts with.
pub open spec fn word_len(s: Seq<char>) -> nat
    decreases s.len(),
{
    if s.len() == 0 || is_ws(s[0]) {
        0
    } else {
        1 + word_len(s.drop_first())
    }
}

/// `str::split_whitespace`: the maximal runs of non-whitespace characters.
pub open spec fn words(s: Seq<char>) -> Seq<Seq<char>>
    decreases s.len(),
{
    if s.len() == 0 {
        Seq::empty()
    } else if is_ws(s[0]) {
        words(s.drop_first())
    } else {
        proof {
            lemma_word_len_bound(s);
        }
        seq![s.take(word_len(s) as int)] + words(s.skip(word_len(s) as int))
    }
}

pub proof fn lemma_word_len_bound(s: Seq<char>)
    ensures
        word_len(s) <= s.len(),
        s.len() > 0 && !is_ws(s[0]) ==> word_len(s) >= 1,
    decreases s.len(),
{
    if s.len() > 0 && !is_ws(s[0]) {
        lemma_word_len_bound(s.drop_first());
    }
}

/// A run of `k` non-whitespace characters that whitespace or the end closes
/// is the leading word.
proof fn lemma_word_len_is(s: Seq<char>, k: int)
    requires
        0 <= k <= s.len(),
        forall|m: int| 0 <= m < k ==> !is_ws(#[trigger] s[m]),
        k == s.len() || is_ws(s[k]),
    ensures
        word_len(s) == k,
    decreases k,
{
    if k > 0 {
        assert forall|m: int| 0 <= m < k - 1 implies !is_ws(#[trigger] s.drop_first()[m]) by {
            assert(s.drop_first()[m] == s[m + 1]);
        }
        if k < s.len() {
            assert(s.drop_first()[k - 1] == s[k]);
        }
        lemma_word_len_is(s.drop_first(), k - 1);
    }
}

/// `s.split_whitespace()`, collected.
pub fn split_words(s: &str) -> (r: Vec<String>)
    ensures
        r.deep_view() == words(s@),
{
    let v = chars_of(s);
    let mut r: Vec<String> = Vec::new();
    let mut i: usize = 0;
    assert(v@.skip(0) =~= s@);
    assert(r.deep_view() + words(v@.skip(0)) =~= words(s@));
    while i < v.len()
        invariant
            i <= v@.len(),
            v@ == s@,
            r.deep_view() + words(v@.skip(i as int)) == words(s@),
        decreases v@.len() - i,
    {
        let ghost t = v@.skip(i as int);
        if is_whitespace(v[i]) {
            assert(t[0] == v@[i as int]);
            assert(t.drop_first() =~= v@.skip(i + 1));
            i += 1;
        } else {
            assert(t[0] == v@[i as int]);
            let mut j: usize = i + 1;
            while j < v.len() && !is_whitespace(v[j])
                invariant
                    i < j <= v@.len(),
                    forall|m: int| i <= m < j ==> !is_ws(#[trigger] v@[m]),
                decreases v@.len() - j,
            {
                j += 1;
            }
            proof {
                assert forall|m: int| 0 <= m < j - i implies !is_ws(#[trigger] t[m]) by {
                    assert(t[m] == v@[i + m]);
                }
                if j < v.len() {
                    assert(t[j - i] == v@[j as int]);
                }
                lemma_word_len_is(t, j - i);
                assert(t.take((j - i) as int) =~= v@.subrange(i as int, j as int));
                assert(t.skip((j - i) as int) =~= v@.skip(j as int));
            }
            let w = string_of(v.as_slice(), i, j);
            let ghost before = r.deep_view();
            r.push(w);
            assert(r.deep_view() =~= before.push(w@));
            assert(before + words(t) =~= before.push(w@) + words(v@.skip(j as int)));
            i = j;
        }
    }
    assert(words(v@.skip(i as int)) =~= Seq::<Seq<char>>::empty()) by {
        assert(v@.skip(i as int).len() == 0);
    }
    assert(r.deep_view() + Seq::<Seq<char>>::empty() =~= r.deep_view());
    r
}
} // verus!
