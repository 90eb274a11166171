//! Regular-expression matching through the `regex` crate, and slicing of a
//! string at the byte offsets that matching reports.
use vstd::prelude::*;
use vstd::string::StringSliceAdditionalSpecFns;
use vstd::utf8::{decode_utf8, encode_utf8, is_char_boundary};

verus! {

/// Whether `regex::Regex::new` accepts `pattern`.
pub uninterp spec fn regex_compiles(pattern: Seq<char>) -> bool;

/// What `regex::Regex::captures_iter` yields on `text` for the regex built from
/// `pattern`: one entry per successive non-overlapping match, holding for each
/// capture group its byte span `(start, end)` in the UTF-8 encoding of `text`,
/// or `None` when the group took no part in the match.
pub uninterp spec fn regex_captures(pattern: Seq<char>, text: Seq<char>) -> Seq<
    Seq<Option<(usize, usize)>>,
>;

/// What `regex::Regex::replace_all` returns for `text` with replacement `rep`.
pub uninterp spec fn regex_replaced(pattern: Seq<char>, text: Seq<char>, rep: Seq<char>) -> Seq<
    char,
>;

/// The characters that have a meaning in a regex (`regex_syntax::is_meta_character`).
pub open spec fn is_meta_char(c: char) -> bool {
    c == '\\' || c == '.' || c == '+' || c == '*' || c == '?' || c == '(' || c == ')' || c == '|'
        || c == '[' || c == ']' || c == '{' || c == '}' || c == '^' || c == '$' || c == '#' || c
        == '&' || c == '-' || c == '~'
}

/// What `regex::escape` returns: `s` with a backslash before each meta
/// character.
pub open spec fn regex_escaped(s: Seq<char>) -> Seq<char>
    decreases s.len(),
{
    if s.len() == 0 {
        Seq::empty()
    } else {
        regex_escaped(s.drop_last()) + if is_meta_char(s.last()) {
            seq!['\\', s.last()]
        } else {
            seq![s.last()]
        }
    }
}

/// A span lies inside `bytes` on character boundaries.
pub open spec fn span_ok(sp: Option<(usize, usize)>, bytes: Seq<u8>) -> bool {
    sp matches Some((s, e)) ==> s <= e <= bytes.len() && is_char_boundary(bytes, s as int)
        && is_char_boundary(bytes, e as int)
}

/// What the `regex` documentation promises of the matches that `captures_iter`
/// reports: group 0 (the whole match) is always present, every span lies inside
/// the haystack on character boundaries, and successive matches do not overlap.
pub open spec fn captures_ok(caps: Seq<Seq<Option<(usize, usize)>>>, bytes: Seq<u8>) -> bool {
    &&& forall|i: int| 0 <= i < caps.len() ==> (#[trigger] caps[i]).len() >= 1 && caps[i][0] is Some
    &&& forall|i: int, j: int|
        0 <= i < caps.len() && 0 <= j < caps[i].len() ==> span_ok(#[trigger] caps[i][j], bytes)
    &&& forall|i: int|
        0 <= i < caps.len() - 1 ==> match_end(#[trigger] caps[i]) <= match_start(caps[i + 1])
}

/// Start of the whole match (group 0).
pub open spec fn match_start(c: Seq<Option<(usize, usize)>>) -> int {
    match c[0] {
        Some(sp) => sp.0 as int,
        None => 0,
    }
}

/// End of the whole match (group 0).
pub open spec fn match_end(c: Seq<Option<(usize, usize)>>) -> int {
    match c[0] {
        Some(sp) => sp.1 as int,
        None => 0,
    }
}

/// Compiles `pattern` with `regex::Regex::new` and reports whether that succeeded.
#[verifier::external_body]
pub fn regex_is_valid(pattern: &str) -> (b: bool)
    ensures
        b == regex_compiles(pattern@),
{
    regex::Regex::new(pattern).is_ok()
}

/// Compiles `pattern` with `regex::Regex::new` and returns, for each match that
/// `captures_iter` yields on `text`, the byte span of every capture group; no
/// match at all when the pattern does not compile. The contract names the spans
/// by `regex_captures` and states the facts of `captures_ok`.
#[verifier::external_body]
pub fn regex_captures_all(pattern: &str, text: &str) -> (r: Vec<Vec<Option<(usize, usize)>>>)
    ensures
        regex_compiles(pattern@) ==> r.deep_view() == regex_captures(pattern@, text@),
        !regex_compiles(pattern@) ==> r@.len() == 0,
        captures_ok(r.deep_view(), text.spec_bytes()),
{
    match regex::Regex::new(pattern) {
        Ok(re) => re.captures_iter(text).map(
            |c| c.iter().map(|m| m.map(|m| (m.start(), m.end()))).collect(),
        ).collect(),
        Err(_) => Vec::new(),
    }
}

/// Compiles `pattern` with `regex::Regex::new` and returns `replace_all(text, rep)`,
/// or `text` unchanged when the pattern does not compile.
#[verifier::external_body]
pub fn regex_replace_all(pattern: &str, text: &str, rep: &str) -> (r: String)
    ensures
        regex_compiles(pattern@) ==> r@ == regex_replaced(pattern@, text@, rep@),
        !regex_compiles(pattern@) ==> r@ == text@,
{
    match regex::Regex::new(pattern) {
        Ok(re) => re.replace_all(text, rep).into_owned(),
        Err(_) => text.to_string(),
    }
}

/// Calls `regex::escape` (`regex_syntax::escape`), which puts a backslash
/// before each meta character of `s` and copies the others; the contract
/// states that result.
#[verifier::external_body]
pub fn regex_escape(s: &str) -> (r: String)
    ensures
        r@ == regex_escaped(s@),
{
    regex::escape(s)
}

/// The characters whose UTF-8 encoding is the byte range `s..e` of `text`.
pub open spec fn text_between(text: Seq<char>, s: int, e: int) -> Seq<char> {
    decode_utf8(encode_utf8(text).subrange(s, e))
}

/// The substring of `text` between two character boundaries, as an owned string.
pub fn substring(text: &str, s: usize, e: usize) -> (r: String)
    requires
        s <= e <= text.spec_bytes().len(),
        is_char_boundary(text.spec_bytes(), s as int),
        is_char_boundary(text.spec_bytes(), e as int),
    ensures
        r@ == text_between(text@, s as int, e as int),
        vstd::utf8::encode_utf8(r@) == text.spec_bytes().subrange(s as int, e as int),
{
    broadcast use vstd::utf8::group_utf8_lib;

    let (head, _) = text.split_at(e);
    proof {
        let b = text.spec_bytes();
        vstd::utf8::valid_utf8_split(b, e as int);
        assert(head.spec_bytes() =~= b.subrange(0, e as int));
        // a boundary of the whole string before `e` is a boundary of its prefix
        lemma_boundary_prefix(b, e as int, s as int);
    }
    let (_, mid) = head.split_at(s);
    proof {
        let b = text.spec_bytes();
        assert(mid.spec_bytes() =~= b.subrange(s as int, e as int));
        vstd::utf8::encode_utf8_decode_utf8(mid@);
    }
    mid.to_owned()
}

/// Character boundaries below a boundary `e` stay boundaries of the prefix `..e`.
pub proof fn lemma_boundary_prefix(b: Seq<u8>, e: int, s: int)
    requires
        vstd::utf8::valid_utf8(b),
        0 <= s <= e <= b.len(),
        is_char_boundary(b, e),
        is_char_boundary(b, s),
    ensures
        is_char_boundary(b.subrange(0, e), s),
{
    broadcast use vstd::utf8::group_utf8_lib;

    let p = b.subrange(0, e);
    vstd::utf8::valid_utf8_split(b, e);
    if s < e {
        vstd::utf8::is_char_boundary_iff_not_is_continuation_byte(b, s);
        vstd::utf8::is_char_boundary_iff_not_is_continuation_byte(p, s);
        assert(p[s] == b[s]);
    } else {
        vstd::utf8::is_char_boundary_start_end_of_seq(p);
    }
}

/// The text of capture group `g` of one match, empty when the group is absent.
pub open spec fn group_text(text: Seq<char>, c: Seq<Option<(usize, usize)>>, g: int) -> Seq<char> {
    if 0 <= g < c.len() {
        match c[g] {
            Some(sp) => text_between(text, sp.0 as int, sp.1 as int),
            None => Seq::empty(),
        }
    } else {
        Seq::empty()
    }
}

/// Number of matches of `pattern` in `text` (none when it does not compile).
pub open spec fn rx_count(pattern: Seq<char>, text: Seq<char>) -> nat {
    if regex_compiles(pattern) {
        regex_captures(pattern, text).len()
    } else {
        0
    }
}

/// The matches of `pattern` in `text` (none when it does not compile).
pub open spec fn rx_caps(pattern: Seq<char>, text: Seq<char>) -> Seq<Seq<Option<(usize, usize)>>> {
    if regex_compiles(pattern) {
        regex_captures(pattern, text)
    } else {
        Seq::empty()
    }
}

/// `text` with every match of `pattern` replaced (unchanged when it does not compile).
pub open spec fn rx_replace(pattern: Seq<char>, text: Seq<char>, rep: Seq<char>) -> Seq<char> {
    if regex_compiles(pattern) {
        regex_replaced(pattern, text, rep)
    } else {
        text
    }
}

/// The matches of `pattern` in `text`, with the facts of `captures_ok`.
pub fn captures(pattern: &str, text: &str) -> (r: Vec<Vec<Option<(usize, usize)>>>)
    ensures
        r.deep_view() == rx_caps(pattern@, text@),
        captures_ok(r.deep_view(), text.spec_bytes()),
{
    let r = regex_captures_all(pattern, text);
    proof {
        if !regex_compiles(pattern@) {
            assert(r.deep_view() =~= Seq::<Seq<Option<(usize, usize)>>>::empty());
        }
    }
    r
}

/// The text of capture group `g` of match `c`.
pub fn group_str(text: &str, c: &Vec<Option<(usize, usize)>>, g: usize) -> (r: String)
    requires
        forall|j: int| 0 <= j < c@.len() ==> span_ok(#[trigger] c.deep_view()[j], text.spec_bytes()),
    ensures
        r@ == group_text(text@, c.deep_view(), g as int),
{
    if g < c.len() {
        match c[g] {
            Some((s, e)) => {
                assert(span_ok(c.deep_view()[g as int], text.spec_bytes()));
                substring(text, s, e)
            },
            None => String::new(),
        }
    } else {
        String::new()
    }
}

/// The text of group `g` of every match of `pattern` in `text`, in order.
pub open spec fn rx_groups(pattern: Seq<char>, text: Seq<char>, g: int) -> Seq<Seq<char>> {
    rx_caps(pattern, text).map_values(|c: Seq<Option<(usize, usize)>>| group_text(text, c, g))
}

/// Group `g` of every match of `pattern` in `text` (`captures_iter`, then `&caps[g]`).
pub fn all_groups(pattern: &str, text: &str, g: usize) -> (r: Vec<String>)
    ensures
        r.deep_view() == rx_groups(pattern@, text@, g as int),
{
    let caps = captures(pattern, text);
    crate::c_parser::group_texts(text, &caps, g)
}

} // verus!
