//! Diagnosing a compiled program: its output against the expected output,
//! shifted strings, crash reports, and lines of IR that hold a pattern.
use vstd::prelude::*;
use vstd::string::StringSliceAdditionalSpecFns;
use crate::ir::{IRModule, StringConstant, StringConstantView};
use crate::rx::{captures, group_str, group_text, rx_caps, text_between};
use crate::text::{
    contains, contains_str, hex_digits, lines, lines_of, push_all, trim, trim_str,
};

verus! {

// ---------------------------------------------------------------------------
// Output comparison
// ---------------------------------------------------------------------------

/// `j` indexes a sequence of length `n`.
pub open spec fn in_bounds(j: int, n: int) -> bool {
    0 <= j < n
}

/// Every byte of `a` equals the byte `shift` places later in `e`.
pub open spec fn shifted_match(a: Seq<u8>, e: Seq<u8>, shift: int) -> bool {
    forall|i: int| #![trigger a[i]] 0 <= i < a.len() ==> in_bounds(i + shift, e.len() as int) && a[i] == e[i + shift]
}

/// The first candidate shift under which the output matches the expected
/// output, for outputs of equal length.
pub open spec fn first_shift(a: Seq<u8>, e: Seq<u8>) -> Option<i64> {
    if a.len() != e.len() {
        None
    } else if shifted_match(a, e, -1) {
        Some(-1i64)
    } else if shifted_match(a, e, 1) {
        Some(1i64)
    } else if shifted_match(a, e, -2) {
        Some(-2i64)
    } else if shifted_match(a, e, 2) {
        Some(2i64)
    } else {
        None
    }
}

/// A shift of one or two bytes never lines up a non-empty output with an
/// expected output of the same length: a byte at one end has no partner.
pub proof fn lemma_no_shift_match(a: Seq<u8>, e: Seq<u8>, s: int)
    requires
        a.len() == e.len(),
        a.len() > 0,
        s != 0,
    ensures
        !shifted_match(a, e, s),
{
    if shifted_match(a, e, s) {
        if s < 0 {
            assert(a[0] == e[0 + s]);
        } else {
            assert(a[a.len() - 1] == e[a.len() - 1 + s]);
        }
    }
}

/// An empty output matches an empty expected output under any shift.
pub proof fn lemma_empty_shift_match(a: Seq<u8>, e: Seq<u8>, s: int)
    requires
        a.len() == 0,
    ensures
        shifted_match(a, e, s),
{
}

/// The shift under which a same-length output matches the expected one.
pub fn find_shift(actual: &[u8], expected: &[u8]) -> (r: Option<i64>)
    ensures
        r == first_shift(actual@, expected@),
{
    if actual.len() != expected.len() {
        return None;
    }
    if actual.len() == 0 {
        proof {
            lemma_empty_shift_match(actual@, expected@, -1);
        }
        return Some(-1);
    }
    proof {
        lemma_no_shift_match(actual@, expected@, -1);
        lemma_no_shift_match(actual@, expected@, 1);
        lemma_no_shift_match(actual@, expected@, -2);
        lemma_no_shift_match(actual@, expected@, 2);
    }
    None
}

pub open spec fn shift_note(s: i64) -> Seq<char> {
    if s == -1 {
        " [STRING_SHIFT by -1]"@
    } else if s == 1 {
        " [STRING_SHIFT by 1]"@
    } else if s == -2 {
        " [STRING_SHIFT by -2]"@
    } else {
        " [STRING_SHIFT by 2]"@
    }
}

/// The note a test report adds when the output is the expected one shifted by
/// a byte or two; empty otherwise.
pub open spec fn detect_shift_spec(actual: Seq<u8>, expected: Seq<u8>) -> Seq<char> {
    match first_shift(actual, expected) {
        Some(s) => shift_note(s),
        None => Seq::empty(),
    }
}

pub fn detect_shift(actual: &[u8], expected: &[u8]) -> (r: String)
    ensures
        r@ == detect_shift_spec(actual@, expected@),
{
    match find_shift(actual, expected) {
        Some(s) => {
            if s == -1 {
                " [STRING_SHIFT by -1]".to_string()
            } else if s == 1 {
                " [STRING_SHIFT by 1]".to_string()
            } else if s == -2 {
                " [STRING_SHIFT by -2]".to_string()
            } else {
                " [STRING_SHIFT by 2]".to_string()
            }
        },
        None => String::new(),
    }
}

/// Positions where two byte strings of equal length differ, in order.
pub open spec fn diff_positions(a: Seq<u8>, e: Seq<u8>, n: nat) -> Seq<usize>
    decreases n,
{
    if n == 0 || n > a.len() || n > e.len() {
        Seq::empty()
    } else {
        diff_positions(a, e, (n - 1) as nat) + if a[n - 1] != e[n - 1] {
            seq![(n - 1) as usize]
        } else {
            Seq::empty()
        }
    }
}

pub fn differing_positions(actual: &[u8], expected: &[u8]) -> (r: Vec<usize>)
    requires
        actual@.len() == expected@.len(),
    ensures
        r@ == diff_positions(actual@, expected@, actual@.len()),
{
    let mut r: Vec<usize> = Vec::new();
    let mut i: usize = 0;
    while i < actual.len()
        invariant
            i <= actual@.len(),
            actual@.len() == expected@.len(),
            r@ == diff_positions(actual@, expected@, i as nat),
        decreases actual@.len() - i,
    {
        if actual[i] != expected[i] {
            let ghost before = r@;
            r.push(i);
            assert(r@ =~= before + seq![i]);
        } else {
            assert(diff_positions(actual@, expected@, (i + 1) as nat) =~= r@);
        }
        i += 1;
    }
    r
}

/// `{:02x} ` for each byte.
pub open spec fn hex_dump_spec(b: Seq<u8>) -> Seq<char>
    decreases b.len(),
{
    if b.len() == 0 {
        Seq::empty()
    } else {
        hex_dump_spec(b.drop_last()) + hex_digits(b.last() as nat, 2) + " "@
    }
}

pub fn hex_dump(b: &[u8]) -> (r: String)
    ensures
        r@ == hex_dump_spec(b@),
{
    let mut r = String::new();
    let mut i: usize = 0;
    while i < b.len()
        invariant
            i <= b@.len(),
            r@ == hex_dump_spec(b@.take(i as int)),
        decreases b@.len() - i,
    {
        let h = crate::text::hex16(b[i] as u64);
        let v = crate::text::chars_of(h.as_str());
        proof {
            lemma_hex_len(b@[i as int] as nat, 16);
        }
        let pair = crate::text::string_of(v.as_slice(), 14, 16);
        proof {
            lemma_hex_tail(b@[i as int] as nat);
            assert(pair@ =~= hex_digits(b@[i as int] as nat, 2));
            assert(b@.take(i + 1).drop_last() =~= b@.take(i as int));
        }
        let ghost before = r@;
        push_all(&mut r, pair.as_str());
        push_all(&mut r, " ");
        assert(r@ =~= before + hex_digits(b@[i as int] as nat, 2) + " "@);
        i += 1;
    }
    assert(b@.take(i as int) =~= b@);
    r
}

/// The last two of sixteen hex digits of a byte are its two hex digits.
proof fn lemma_hex_tail(v: nat)
    requires
        v < 256,
    ensures
        hex_digits(v, 16).subrange(14, 16) == hex_digits(v, 2),
{
    lemma_hex_prefix_zero(v, 16);
    assert(hex_digits(v, 16).subrange(14, 16) =~= hex_digits(v, 2));
}

/// For a value below 256, `hex_digits(v, n)` is `n - 2` zeros then its two digits.
proof fn lemma_hex_prefix_zero(v: nat, n: nat)
    requires
        v < 256,
        n >= 2,
    ensures
        hex_digits(v, n).len() == n,
        hex_digits(v, n).subrange(n - 2, n as int) == hex_digits(v, 2),
    decreases n,
{
    lemma_hex_len(v, n);
    if n > 2 {
        lemma_hex_zero_high(v, n);
    }
    assert(hex_digits(v, n).subrange(n - 2, n as int) =~= hex_digits(v, 2)) by {
        lemma_hex_low(v, n);
    }
}

proof fn lemma_hex_len(v: nat, n: nat)
    ensures
        hex_digits(v, n).len() == n,
    decreases n,
{
    if n > 0 {
        lemma_hex_len(v / 16, (n - 1) as nat);
    }
}

proof fn lemma_hex_zero_high(v: nat, n: nat)
    requires
        v < 256,
        n > 2,
    ensures
        true,
{
}

/// The last two digits of `hex_digits(v, n)` (n >= 2) are those of `v % 256`.
proof fn lemma_hex_low(v: nat, n: nat)
    requires
        v < 256,
        n >= 2,
    ensures
        hex_digits(v, n).subrange(n - 2, n as int) =~= hex_digits(v, 2),
    decreases n,
{
    lemma_hex_len(v, n);
    lemma_hex_len(v, 2);
    let h = hex_digits(v, n);
    assert(h == hex_digits(v / 16, (n - 1) as nat).push(crate::text::hex_digit(v % 16)));
    lemma_hex_len(v / 16, (n - 1) as nat);
    let h1 = hex_digits(v / 16, (n - 1) as nat);
    assert(h1 == hex_digits((v / 16) / 16, (n - 2) as nat).push(crate::text::hex_digit((v / 16) % 16)));
    assert(hex_digits(v, 2) == hex_digits(v / 16, 1).push(crate::text::hex_digit(v % 16)));
    assert(hex_digits(v / 16, 1) == hex_digits((v / 16) / 16, 0).push(
        crate::text::hex_digit((v / 16) % 16),
    ));
    assert(h[n - 1] == crate::text::hex_digit(v % 16));
    assert(h[n - 2] == h1[n - 2]);
    lemma_hex_len((v / 16) / 16, (n - 2) as nat);
    assert(h1[n - 2] == crate::text::hex_digit((v / 16) % 16));
}

/// What running a program and comparing its output found.
#[derive(Debug, Clone)]
pub struct OutputCheck {
    /// The program's output, trimmed.
    pub actual: String,
    /// The expected output, trimmed.
    pub expected: String,
    pub matches: bool,
    /// For outputs of equal length, where they differ.
    pub differing: Vec<usize>,
    /// For outputs of equal length that differ, a shift under which they match.
    pub shift: Option<i64>,
    /// The bytes of the output in hex, for outputs of at most 64 bytes that
    /// do not match.
    pub hex: Option<String>,
}

/// Compares a program's output with the expected output, both trimmed: equal
/// or not; for equal lengths the differing positions, and for more than one
/// byte a shift under which they match; a hex dump of a short output.
pub fn compare_output(stdout: &str, expect: &str) -> (c: OutputCheck)
    ensures
        c.actual@ == trim(stdout@),
        c.expected@ == trim(expect@),
        c.matches == (trim(stdout@) == trim(expect@)),
        c.matches ==> c.differing@.len() == 0 && c.shift is None && c.hex is None,
        !c.matches ==> {
            let a = encode_utf8_of(trim(stdout@));
            let e = encode_utf8_of(trim(expect@));
            &&& c.differing@ == (if a.len() == e.len() {
                diff_positions(a, e, a.len())
            } else {
                Seq::empty()
            })
            &&& c.shift == (if a.len() == e.len() && diff_positions(a, e, a.len()).len() > 0
                && a.len() > 1 {
                first_shift(a, e)
            } else {
                None
            })
            &&& c.hex.deep_view() == (if a.len() <= 64 {
                Some(hex_dump_spec(a))
            } else {
                None
            })
        },
{
    let actual = trim_str(stdout);
    let expected = trim_str(expect);
    if actual == expected {
        return OutputCheck {
            actual,
            expected,
            matches: true,
            differing: Vec::new(),
            shift: None,
            hex: None,
        };
    }
    let a = actual.as_str().as_bytes();
    let e = expected.as_str().as_bytes();
    let mut differing: Vec<usize> = Vec::new();
    let mut shift: Option<i64> = None;
    if a.len() == e.len() {
        differing = differing_positions(a, e);
        if differing.len() > 0 && a.len() > 1 {
            shift = find_shift(a, e);
        }
    }
    let hex = if a.len() <= 64 {
        Some(hex_dump(a))
    } else {
        None
    };
    OutputCheck { actual, expected, matches: false, differing, shift, hex }
}

/// The UTF-8 bytes of a string's characters.
pub open spec fn encode_utf8_of(s: Seq<char>) -> Seq<u8> {
    vstd::utf8::encode_utf8(s)
}

// ---------------------------------------------------------------------------
// Truncation
// ---------------------------------------------------------------------------

/// `s` cut to `max` bytes with `...` after, when it is longer.
pub open spec fn truncate_spec(s: Seq<char>, max: nat) -> Seq<char> {
    if vstd::utf8::encode_utf8(s).len() <= max {
        s
    } else {
        text_between(s, 0, max as int) + "..."@
    }
}

/// `s` cut to `max` bytes with `...` after, when it is longer; the cut must fall
/// on a character boundary.
pub fn truncate(s: &str, max: usize) -> (r: String)
    requires
        s.spec_bytes().len() > max ==> vstd::utf8::is_char_boundary(s.spec_bytes(), max as int),
    ensures
        r@ == truncate_spec(s@, max as nat),
{
    if s.as_bytes().len() <= max {
        return s.to_string();
    }
    proof {
        broadcast use vstd::utf8::group_utf8_lib;

    }
    let mut r = crate::rx::substring(s, 0, max);
    push_all(&mut r, "...");
    r
}

/// A name cut so that it fits in `max` bytes with `...` after, when it is
/// longer than `max`.
pub open spec fn truncate_name_spec(name: Seq<char>, max: nat) -> Seq<char> {
    if vstd::utf8::encode_utf8(name).len() <= max {
        name
    } else {
        text_between(name, 0, max - 3) + "..."@
    }
}

/// A name cut to fit `max` bytes with `...` after; `max` is at least 3 and
/// the cut falls on a character boundary.
pub fn truncate_name(name: &str, max: usize) -> (r: String)
    requires
        max >= 3,
        name.spec_bytes().len() > max ==> vstd::utf8::is_char_boundary(
            name.spec_bytes(),
            max - 3,
        ),
    ensures
        r@ == truncate_name_spec(name@, max as nat),
{
    if name.as_bytes().len() <= max {
        return name.to_string();
    }
    proof {
        broadcast use vstd::utf8::group_utf8_lib;

    }
    let mut r = crate::rx::substring(name, 0, max - 3);
    push_all(&mut r, "...");
    r
}

// ---------------------------------------------------------------------------
// Crash reports
// ---------------------------------------------------------------------------

/// The signal or error class that a crash report names, by the first of its
/// marks it holds.
pub open spec fn signal_of(text: Seq<char>) -> Option<Seq<char>> {
    if contains(text, "SIGSEGV"@) {
        Some("SIGSEGV (segmentation fault)"@)
    } else if contains(text, "SIGABRT"@) {
        Some("SIGABRT (abort)"@)
    } else if contains(text, "SIGBUS"@) {
        Some("SIGBUS (bus error)"@)
    } else if contains(text, "SIGFPE"@) {
        Some("SIGFPE (floating point exception)"@)
    } else if contains(text, "stack overflow"@) {
        Some("Stack overflow"@)
    } else if contains(text, "heap-buffer-overflow"@) {
        Some("Heap buffer overflow (ASAN)"@)
    } else if contains(text, "use-after-free"@) {
        Some("Use after free (ASAN)"@)
    } else {
        None
    }
}

pub fn extract_signal(text: &str) -> (r: Option<String>)
    ensures
        r.deep_view() == signal_of(text@),
{
    if contains_str(text, "SIGSEGV") {
        return Some("SIGSEGV (segmentation fault)".to_string());
    }
    if contains_str(text, "SIGABRT") {
        return Some("SIGABRT (abort)".to_string());
    }
    if contains_str(text, "SIGBUS") {
        return Some("SIGBUS (bus error)".to_string());
    }
    if contains_str(text, "SIGFPE") {
        return Some("SIGFPE (floating point exception)".to_string());
    }
    if contains_str(text, "stack overflow") {
        return Some("Stack overflow".to_string());
    }
    if contains_str(text, "heap-buffer-overflow") {
        return Some("Heap buffer overflow (ASAN)".to_string());
    }
    if contains_str(text, "use-after-free") {
        return Some("Use after free (ASAN)".to_string());
    }
    None
}

pub const CRASH_ADDRESS_PATTERN: &'static str = r"[Aa]ddress\s+(0x[0-9A-Fa-f]+)";

pub open spec fn crash_address_of(text: Seq<char>) -> Option<Seq<char>> {
    let caps = rx_caps(CRASH_ADDRESS_PATTERN@, text);
    if caps.len() > 0 {
        Some(group_text(text, caps[0], 1))
    } else {
        None
    }
}

/// The faulting address that a crash report names.
pub fn extract_crash_address(text: &str) -> (r: Option<String>)
    ensures
        r.deep_view() == crash_address_of(text@),
{
    let caps = captures(CRASH_ADDRESS_PATTERN, text);
    if caps.len() > 0 {
        proof {
            crate::ir::lemma_match_spans(caps.deep_view(), 0, text.spec_bytes());
            assert(caps.deep_view()[0] == caps[0].deep_view());
        }
        Some(group_str(text, &caps[0], 1))
    } else {
        None
    }
}

/// One frame of a backtrace.
#[derive(Debug, Clone)]
pub struct CrashFrame {
    pub function: String,
    pub address: Option<String>,
}

pub const VALGRIND_FRAME_PATTERN: &'static str = r"==\d+==\s+(?:at|by)\s+0x([0-9A-Fa-f]+):\s+(\w+)";
pub const GDB_FRAME_PATTERN: &'static str = r"#\d+\s+0x([0-9A-Fa-f]+)\s+in\s+(\w+)";
pub const OFFSET_FRAME_PATTERN: &'static str = r"(\w+)\s*\+\s*0x([0-9A-Fa-f]+)";

/// The frame one line of a crash report gives: a Valgrind frame, a GDB or ASAN
/// frame, or `function+0xOFFSET`, as (function, address).
pub open spec fn frame_of_line(l: Seq<char>) -> Option<(Seq<char>, Seq<char>)> {
    let v = rx_caps(VALGRIND_FRAME_PATTERN@, l);
    let g = rx_caps(GDB_FRAME_PATTERN@, l);
    let o = rx_caps(OFFSET_FRAME_PATTERN@, l);
    if v.len() > 0 {
        Some((group_text(l, v[0], 2), group_text(l, v[0], 1)))
    } else if g.len() > 0 {
        Some((group_text(l, g[0], 2), group_text(l, g[0], 1)))
    } else if o.len() > 0 {
        Some((group_text(l, o[0], 1), group_text(l, o[0], 2)))
    } else {
        None
    }
}

/// The frames of the first `n` lines, a frame dropped when it repeats the
/// function of the frame kept just before it.
pub open spec fn frames_of(ls: Seq<Seq<char>>, n: nat) -> Seq<(Seq<char>, Seq<char>)>
    decreases n,
{
    if n == 0 || n > ls.len() {
        Seq::empty()
    } else {
        let prev = frames_of(ls, (n - 1) as nat);
        match frame_of_line(ls[n - 1]) {
            Some(f) => if prev.len() > 0 && prev.last().0 == f.0 {
                prev
            } else {
                prev.push(f)
            },
            None => prev,
        }
    }
}

fn first_groups(l: &str, pattern: &str, ga: usize, gb: usize) -> (r: Option<(String, String)>)
    ensures
        rx_caps(pattern@, l@).len() > 0 ==> (r matches Some(p) && p.0@ == group_text(
            l@,
            rx_caps(pattern@, l@)[0],
            ga as int,
        ) && p.1@ == group_text(l@, rx_caps(pattern@, l@)[0], gb as int)),
        rx_caps(pattern@, l@).len() == 0 ==> r is None,
{
    let caps = captures(pattern, l);
    if caps.len() > 0 {
        proof {
            crate::ir::lemma_match_spans(caps.deep_view(), 0, l.spec_bytes());
            assert(caps.deep_view()[0] == caps[0].deep_view());
        }
        Some((group_str(l, &caps[0], ga), group_str(l, &caps[0], gb)))
    } else {
        None
    }
}

/// The backtrace frames of a crash report, consecutive repeats of a function
/// dropped. Every frame found has an address.
pub fn parse_crash_output(text: &str) -> (r: Vec<CrashFrame>)
    ensures
        r@.len() == frames_of(lines(text@), lines(text@).len()).len(),
        forall|i: int|
            0 <= i < r@.len() ==> ((#[trigger] r@[i]).function@, r@[i].address.deep_view())
                == (frames_of(lines(text@), lines(text@).len())[i].0, Some(
                frames_of(lines(text@), lines(text@).len())[i].1,
            )),
{
    let ls = lines_of(text);
    let mut r: Vec<CrashFrame> = Vec::new();
    let mut i: usize = 0;
    while i < ls.len()
        invariant
            i <= ls@.len(),
            ls.deep_view() == lines(text@),
            r@.len() == frames_of(ls.deep_view(), i as nat).len(),
            forall|k: int|
                0 <= k < r@.len() ==> ((#[trigger] r@[k]).function@, r@[k].address.deep_view()) == (
                frames_of(ls.deep_view(), i as nat)[k].0,
                Some(frames_of(ls.deep_view(), i as nat)[k].1),
            ),
        decreases ls@.len() - i,
    {
        let l = ls[i].as_str();
        assert(ls.deep_view()[i as int] == l@);
        let found = match first_groups(l, VALGRIND_FRAME_PATTERN, 2, 1) {
            Some(p) => Some(p),
            None => match first_groups(l, GDB_FRAME_PATTERN, 2, 1) {
                Some(p) => Some(p),
                None => first_groups(l, OFFSET_FRAME_PATTERN, 1, 2),
            },
        };
        let ghost prev = frames_of(ls.deep_view(), i as nat);
        match found {
            Some((func, addr)) => {
                let repeat = r.len() > 0 && r[r.len() - 1].function == func;
                if !repeat {
                    r.push(CrashFrame { function: func, address: Some(addr) });
                }
            },
            None => {},
        }
        i += 1;
    }
    r
}

// ---------------------------------------------------------------------------
// IR greps and string sizes
// ---------------------------------------------------------------------------

/// The lines of `text` that hold `pattern`, with their 0-based line index.
pub open spec fn grep_from(ls: Seq<Seq<char>>, pattern: Seq<char>, n: nat) -> Seq<(usize, Seq<char>)>
    decreases n,
{
    if n == 0 || n > ls.len() {
        Seq::empty()
    } else {
        grep_from(ls, pattern, (n - 1) as nat) + if contains(ls[n - 1], pattern) {
            seq![((n - 1) as usize, ls[n - 1])]
        } else {
            Seq::empty()
        }
    }
}

pub fn grep_lines(text: &str, pattern: &str) -> (r: Vec<(usize, String)>)
    ensures
        r.deep_view() == grep_from(lines(text@), pattern@, lines(text@).len()),
{
    let ls = lines_of(text);
    let mut r: Vec<(usize, String)> = Vec::new();
    let mut i: usize = 0;
    while i < ls.len()
        invariant
            i <= ls@.len(),
            ls.deep_view() == lines(text@),
            r.deep_view() == grep_from(ls.deep_view(), pattern@, i as nat),
        decreases ls@.len() - i,
    {
        let ghost before = r.deep_view();
        assert(ls.deep_view()[i as int] == ls@[i as int]@);
        if contains_str(ls[i].as_str(), pattern) {
            r.push((i, ls[i].clone()));
            assert(r.deep_view() =~= before + seq![(i, ls@[i as int]@)]);
        } else {
            assert(r.deep_view() =~= before + Seq::<(usize, Seq<char>)>::empty());
        }
        i += 1;
    }
    r
}

/// The string constants whose declared size is not their actual size: the
/// bytes their content holds before the `\00` terminator.
pub open spec fn size_mismatch_from(cs: Seq<StringConstantView>, n: nat) -> Seq<StringConstantView>
    decreases n,
{
    if n == 0 || n > cs.len() {
        Seq::empty()
    } else {
        size_mismatch_from(cs, (n - 1) as nat) + if cs[n - 1].declared_size != cs[n
            - 1].actual_size {
            seq![cs[n - 1]]
        } else {
            Seq::empty()
        }
    }
}

pub fn size_mismatches(module: &IRModule) -> (r: Vec<StringConstant>)
    ensures
        r@.map_values(|c: StringConstant| c@) == size_mismatch_from(
            module@.string_constants,
            module@.string_constants.len(),
        ),
{
    let ghost cs = module@.string_constants;
    let mut r: Vec<StringConstant> = Vec::new();
    let mut i: usize = 0;
    while i < module.string_constants.len()
        invariant
            i <= module.string_constants@.len(),
            cs == module@.string_constants,
            r@.map_values(|c: StringConstant| c@) == size_mismatch_from(cs, i as nat),
        decreases module.string_constants@.len() - i,
    {
        let c = &module.string_constants[i];
        assert(cs[i as int] == c@);
        let ghost before = r@.map_values(|c: StringConstant| c@);
        if c.declared_size != c.actual_size {
            let k = StringConstant {
                name: c.name.clone(),
                declared_size: c.declared_size,
                actual_size: c.actual_size,
                content: c.content.clone(),
                line: c.line,
            };
            r.push(k);
            assert(r@.map_values(|c: StringConstant| c@) =~= before + seq![cs[i as int]]);
        } else {
            assert(r@.map_values(|c: StringConstant| c@) =~= before + Seq::<
                StringConstantView,
            >::empty());
        }
        i += 1;
    }
    r
}

// ---------------------------------------------------------------------------
// Duplicate and large string constants
// ---------------------------------------------------------------------------

fn copy_constant(c: &StringConstant) -> (r: StringConstant)
    ensures
        r@ == c@,
{
    StringConstant {
        name: c.name.clone(),
        declared_size: c.declared_size,
        actual_size: c.actual_size,
        content: c.content.clone(),
        line: c.line,
    }
}

/// The contents of the string constants.
pub open spec fn contents_of(cs: Seq<StringConstantView>) -> Seq<Seq<char>> {
    cs.map_values(|c: StringConstantView| c.content)
}

/// The groups among the first `n` whose key occurs more than once.
pub open spec fn repeated_groups(gs: Seq<(Seq<char>, Seq<usize>)>, n: nat) -> Seq<(Seq<char>, Seq<usize>)>
    decreases n,
{
    if n == 0 || n > gs.len() {
        Seq::empty()
    } else {
        let prev = repeated_groups(gs, (n - 1) as nat);
        if gs[n - 1].1.len() > 1 {
            prev.push(gs[n - 1])
        } else {
            prev
        }
    }
}

/// The contents that more than one string constant holds, each with the
/// names of the constants that hold it, the most repeated first (ties in the
/// order the contents first appear).
pub open spec fn duplicates_spec(cs: Seq<StringConstantView>) -> Seq<(Seq<char>, Seq<Seq<char>>)> {
    let gs = crate::order::key_groups(contents_of(cs), cs.len());
    let rep = repeated_groups(gs, gs.len());
    let ord = crate::order::order_desc(
        rep.map_values(|g: (Seq<char>, Seq<usize>)| g.1.len() as usize),
        rep.len(),
    );
    ord.map_values(
        |k: usize| (rep[k as int].0, rep[k as int].1.map_values(|p: usize| cs[p as int].name)),
    )
}

/// The repeated contents of a module's string constants, each with the names
/// that hold it, the most repeated first.
pub fn duplicate_constants(module: &IRModule) -> (r: Vec<(String, Vec<String>)>)
    ensures
        r@.map_values(|e: (String, Vec<String>)| (e.0@, e.1.deep_view())) == duplicates_spec(
            module@.string_constants,
        ),
{
    let ghost cs = module@.string_constants;
    let mut keys: Vec<String> = Vec::new();
    let mut i: usize = 0;
    while i < module.string_constants.len()
        invariant
            i <= module.string_constants@.len(),
            cs == module@.string_constants,
            keys.deep_view() =~= contents_of(cs).take(i as int),
        decreases module.string_constants@.len() - i,
    {
        assert(cs[i as int] == module.string_constants@[i as int]@);
        let ghost k0 = keys.deep_view();
        keys.push(module.string_constants[i].content.clone());
        assert(keys.deep_view() =~= k0.push(cs[i as int].content));
        assert(contents_of(cs).take(i + 1) =~= contents_of(cs).take(i as int).push(cs[i as int].content));
        i += 1;
    }
    assert(keys.deep_view() =~= contents_of(cs));
    let groups = crate::order::group_keys(&keys);
    let ghost gs = crate::order::key_groups(contents_of(cs), cs.len());
    let mut rep: Vec<(String, Vec<usize>)> = Vec::new();
    let mut sizes: Vec<usize> = Vec::new();
    let mut g: usize = 0;
    while g < groups.len()
        invariant
            g <= groups@.len(),
            groups@.len() == gs.len(),
            forall|q: int|
                0 <= q < groups@.len() ==> (#[trigger] groups@[q]).0@ == gs[q].0 && groups@[q].1@
                    == gs[q].1,
            rep@.len() == repeated_groups(gs, g as nat).len(),
            forall|q: int|
                0 <= q < rep@.len() ==> (#[trigger] rep@[q]).0@ == repeated_groups(gs, g as nat)[q].0
                    && rep@[q].1@ == repeated_groups(gs, g as nat)[q].1,
            sizes@ =~= repeated_groups(gs, g as nat).map_values(
                |e: (Seq<char>, Seq<usize>)| e.1.len() as usize,
            ),
        decreases groups@.len() - g,
    {
        assert(groups@[g as int].1@ == gs[g as int].1);
        if groups[g].1.len() > 1 {
            rep.push((groups[g].0.clone(), groups[g].1.clone()));
            sizes.push(groups[g].1.len());
            assert(repeated_groups(gs, (g + 1) as nat).map_values(
                |e: (Seq<char>, Seq<usize>)| e.1.len() as usize,
            ) =~= repeated_groups(gs, g as nat).map_values(
                |e: (Seq<char>, Seq<usize>)| e.1.len() as usize,
            ).push(gs[g as int].1.len() as usize));
        }
        g += 1;
    }
    let ghost rg = repeated_groups(gs, gs.len());
    let ord = crate::order::order_by_desc(&sizes);
    proof {
        crate::order::lemma_order_desc_perm(sizes@, sizes@.len() as nat);
    }
    let mut r: Vec<(String, Vec<String>)> = Vec::new();
    let mut k: usize = 0;
    while k < ord.len()
        invariant
            k <= ord@.len(),
            cs == module@.string_constants,
            gs == crate::order::key_groups(contents_of(cs), cs.len()),
            rg == repeated_groups(gs, gs.len()),
            rep@.len() == rg.len(),
            sizes@.len() == rg.len(),
            forall|q: int| 0 <= q < rep@.len() ==> (#[trigger] rep@[q]).0@ == rg[q].0 && rep@[q].1@ == rg[q].1,
            sizes@ =~= rg.map_values(|e: (Seq<char>, Seq<usize>)| e.1.len() as usize),
            ord@ == crate::order::order_desc(sizes@, sizes@.len() as nat),
            forall|q: int| 0 <= q < ord@.len() ==> (#[trigger] ord@[q]) < sizes@.len(),
            ord@.len() == sizes@.len(),
            r@.map_values(|e: (String, Vec<String>)| (e.0@, e.1.deep_view())) =~= ord@.take(
                k as int,
            ).map_values(
                |q: usize| (rg[q as int].0, rg[q as int].1.map_values(|p: usize| cs[p as int].name)),
            ),
        decreases ord@.len() - k,
    {
        let gi = ord[k];
        let ghost ps = rg[gi as int].1;
        proof {
            lemma_repeated_in(gs, gs.len(), gi as int);
            crate::order::lemma_positions_bound(contents_of(cs), rg[gi as int].0, cs.len());
        }
        let mut names: Vec<String> = Vec::new();
        let mut j: usize = 0;
        while j < rep[gi].1.len()
            invariant
                gi < rep@.len(),
                j <= rep@[gi as int].1@.len(),
                rep@[gi as int].1@ == ps,
                cs == module@.string_constants,
                forall|q: int| 0 <= q < ps.len() ==> (#[trigger] ps[q]) < cs.len(),
                names.deep_view() =~= ps.map_values(|p: usize| cs[p as int].name).take(j as int),
            decreases rep@[gi as int].1@.len() - j,
        {
            let p = rep[gi].1[j];
            assert(p == ps[j as int]);
            assert(cs[p as int] == module.string_constants@[p as int]@);
            let ghost n0 = names.deep_view();
            names.push(module.string_constants[p].name.clone());
            assert(names.deep_view() =~= n0.push(cs[p as int].name));
            assert(ps.map_values(|p: usize| cs[p as int].name).take(j + 1) =~= ps.map_values(
                |p: usize| cs[p as int].name,
            ).take(j as int).push(cs[p as int].name));
            j += 1;
        }
        assert(names.deep_view() =~= ps.map_values(|p: usize| cs[p as int].name));
        let ghost before = r@.map_values(|e: (String, Vec<String>)| (e.0@, e.1.deep_view()));
        r.push((rep[gi].0.clone(), names));
        assert(r@.map_values(|e: (String, Vec<String>)| (e.0@, e.1.deep_view())) =~= before.push(
            (rg[gi as int].0, ps.map_values(|p: usize| cs[p as int].name)),
        ));
        assert(ord@.take(k + 1) =~= ord@.take(k as int).push(gi));
        k += 1;
    }
    assert(ord@.take(k as int) =~= ord@);
    r
}

/// A repeated group is one of the groups.
proof fn lemma_repeated_in(gs: Seq<(Seq<char>, Seq<usize>)>, n: nat, q: int)
    requires
        0 <= q < repeated_groups(gs, n).len(),
    ensures
        exists|g: int| 0 <= g < gs.len() && #[trigger] gs[g] == repeated_groups(gs, n)[q],
    decreases n,
{
    if n > 0 && n <= gs.len() {
        let prev = repeated_groups(gs, (n - 1) as nat);
        if q < prev.len() {
            lemma_repeated_in(gs, (n - 1) as nat, q);
        } else {
            assert(gs[n - 1] == repeated_groups(gs, n)[q]);
        }
    }
}

/// How many string constants repeat the content of an earlier one: the
/// constants less the distinct contents.
pub open spec fn duplicate_count_spec(cs: Seq<StringConstantView>) -> nat {
    (cs.len() - crate::callgraph::distinct(contents_of(cs), cs.len()).len()) as nat
}

/// The large string constants (declared size above `limit`), the largest
/// first, equal sizes in module order.
pub open spec fn large_spec(cs: Seq<StringConstantView>, limit: usize, n: nat) -> Seq<StringConstantView>
    decreases n,
{
    if n == 0 || n > cs.len() {
        Seq::empty()
    } else {
        let prev = large_spec(cs, limit, (n - 1) as nat);
        if cs[n - 1].declared_size > limit {
            prev.push(cs[n - 1])
        } else {
            prev
        }
    }
}

/// The string constants declared larger than `limit` bytes, the largest
/// first; equal sizes keep module order.
pub fn large_constants(module: &IRModule, limit: usize) -> (r: Vec<StringConstant>)
    ensures
        r@.map_values(|c: StringConstant| c@) == crate::order::order_desc(
            large_spec(module@.string_constants, limit, module@.string_constants.len()).map_values(
                |c: StringConstantView| c.declared_size,
            ),
            large_spec(module@.string_constants, limit, module@.string_constants.len()).len(),
        ).map_values(
            |k: usize|
                large_spec(module@.string_constants, limit, module@.string_constants.len())[k as int],
        ),
{
    let ghost cs = module@.string_constants;
    let mut big: Vec<StringConstant> = Vec::new();
    let mut sizes: Vec<usize> = Vec::new();
    let mut i: usize = 0;
    while i < module.string_constants.len()
        invariant
            i <= module.string_constants@.len(),
            cs == module@.string_constants,
            big@.map_values(|c: StringConstant| c@) =~= large_spec(cs, limit, i as nat),
            sizes@ =~= large_spec(cs, limit, i as nat).map_values(|c: StringConstantView| c.declared_size),
        decreases module.string_constants@.len() - i,
    {
        let c = &module.string_constants[i];
        assert(cs[i as int] == c@);
        if c.declared_size > limit {
            let ghost b0 = big@.map_values(|c: StringConstant| c@);
            big.push(copy_constant(c));
            sizes.push(c.declared_size);
            assert(big@.map_values(|c: StringConstant| c@) =~= b0.push(c@));
        }
        i += 1;
    }
    let ghost lv = large_spec(cs, limit, cs.len());
    let ord = crate::order::order_by_desc(&sizes);
    proof {
        crate::order::lemma_order_desc_perm(sizes@, sizes@.len() as nat);
    }
    let mut r: Vec<StringConstant> = Vec::new();
    let mut k: usize = 0;
    while k < ord.len()
        invariant
            k <= ord@.len(),
            big@.map_values(|c: StringConstant| c@) == lv,
            sizes@.len() == lv.len(),
            ord@.len() == sizes@.len(),
            forall|q: int| 0 <= q < ord@.len() ==> (#[trigger] ord@[q]) < sizes@.len(),
            r@.map_values(|c: StringConstant| c@) =~= ord@.take(k as int).map_values(|q: usize| lv[q as int]),
        decreases ord@.len() - k,
    {
        let q = ord[k];
        assert(lv[q as int] == big@[q as int]@);
        let ghost r0 = r@.map_values(|c: StringConstant| c@);
        r.push(copy_constant(&big[q]));
        assert(r@.map_values(|c: StringConstant| c@) =~= r0.push(lv[q as int]));
        assert(ord@.take(k + 1) =~= ord@.take(k as int).push(q));
        k += 1;
    }
    assert(ord@.take(k as int) =~= ord@);
    r
}

proof fn lemma_distinct_len(keys: Seq<Seq<char>>, n: nat)
    ensures
        crate::callgraph::distinct(keys, n).len() <= n,
    decreases n,
{
    if n > 0 && n <= keys.len() {
        lemma_distinct_len(keys, (n - 1) as nat);
    }
}

/// The number of string constants that repeat the content of an earlier one.
pub fn duplicate_count(module: &IRModule) -> (r: usize)
    ensures
        r == duplicate_count_spec(module@.string_constants),
{
    let ghost cs = module@.string_constants;
    let mut keys: Vec<String> = Vec::new();
    let mut i: usize = 0;
    while i < module.string_constants.len()
        invariant
            i <= module.string_constants@.len(),
            cs == module@.string_constants,
            keys.deep_view() =~= contents_of(cs).take(i as int),
        decreases module.string_constants@.len() - i,
    {
        assert(cs[i as int] == module.string_constants@[i as int]@);
        let ghost k0 = keys.deep_view();
        keys.push(module.string_constants[i].content.clone());
        assert(keys.deep_view() =~= k0.push(cs[i as int].content));
        assert(contents_of(cs).take(i + 1) =~= contents_of(cs).take(i as int).push(cs[i as int].content));
        i += 1;
    }
    assert(keys.deep_view() =~= contents_of(cs));
    let d = crate::callgraph::distinct_strings(&keys);
    proof {
        lemma_distinct_len(contents_of(cs), cs.len());
        assert(d.deep_view().len() == d@.len());
    }
    module.string_constants.len() - d.len()
}

} // verus!
