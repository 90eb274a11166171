//! Evaluating one IR function: its signature read as a return type and
//! parameter types, and a wrapper module whose `main` calls it with given
//! arguments and prints the result.
use vstd::prelude::*;
use vstd::string::StringSliceAdditionalSpecFns;
use vstd::utf8::encode_utf8;
use crate::rx::{captures, group_str, group_text, rx_caps, span_ok};
use crate::text::{
    chars_of, contains, contains_str, decimal, digits_value, ends_with, fmt_usize, is_digit, is_ws,
    lines, lines_of, push_all, starts_with, starts_with_str, string_of, trim, trim_str,
};

verus! {

// ---------------------------------------------------------------------------
// Signatures
// ---------------------------------------------------------------------------

pub const PARAM_NAME_PATTERN: &'static str = r"^(.+?)\s+%";
pub const SIG_RET_TYPE_PATTERN: &'static str = r"define\s+(?:internal\s+)?(?:dso_local\s+)?(?:void\s+)?(.+?)\s+@";
pub const SIG_PARAMS_PATTERN: &'static str = r"@\w+\((.+)\)";

/// Length of the run of non-whitespace characters that starts `s`.
pub open spec fn word_len(s: Seq<char>) -> nat
    decreases s.len(),
{
    if s.len() == 0 || is_ws(s[0]) {
        0
    } else {
        1 + word_len(s.drop_first())
    }
}

/// Length of the run of whitespace characters that starts `s`.
pub open spec fn space_len(s: Seq<char>) -> nat
    decreases s.len(),
{
    if s.len() == 0 || !is_ws(s[0]) {
        0
    } else {
        1 + space_len(s.drop_first())
    }
}

/// `s.split_whitespace().next()`.
pub open spec fn first_word(s: Seq<char>) -> Option<Seq<char>> {
    let t = s.skip(space_len(s) as int);
    if t.len() == 0 {
        None
    } else {
        Some(t.take(word_len(t) as int))
    }
}

proof fn lemma_space_len(s: Seq<char>)
    ensures
        space_len(s) <= s.len(),
        forall|i: int| 0 <= i < space_len(s) ==> is_ws(#[trigger] s[i]),
        space_len(s) < s.len() ==> !is_ws(s[space_len(s) as int]),
    decreases s.len(),
{
    if s.len() > 0 && is_ws(s[0]) {
        lemma_space_len(s.drop_first());
        assert forall|i: int| 0 <= i < space_len(s) implies is_ws(#[trigger] s[i]) by {
            if i > 0 {
                assert(s[i] == s.drop_first()[i - 1]);
            }
        }
    }
}

proof fn lemma_word_len(s: Seq<char>)
    ensures
        word_len(s) <= s.len(),
        forall|i: int| 0 <= i < word_len(s) ==> !is_ws(#[trigger] s[i]),
        word_len(s) < s.len() ==> is_ws(s[word_len(s) as int]),
    decreases s.len(),
{
    if s.len() > 0 && !is_ws(s[0]) {
        lemma_word_len(s.drop_first());
        assert forall|i: int| 0 <= i < word_len(s) implies !is_ws(#[trigger] s[i]) by {
            if i > 0 {
                assert(s[i] == s.drop_first()[i - 1]);
            }
        }
    }
}

/// The first whitespace-separated word of `s`.
pub fn first_word_str(s: &str) -> (r: Option<String>)
    ensures
        r.deep_view() == first_word(s@),
{
    let v = chars_of(s);
    let mut a: usize = 0;
    proof {
        lemma_space_len(s@);
    }
    while a < v.len() && crate::text::is_whitespace(v[a])
        invariant
            a <= space_len(s@),
            v@ == s@,
            space_len(s@) <= s@.len(),
            forall|i: int| 0 <= i < space_len(s@) ==> is_ws(#[trigger] s@[i]),
            space_len(s@) < s@.len() ==> !is_ws(s@[space_len(s@) as int]),
        decreases v@.len() - a,
    {
        a += 1;
    }
    assert(a == space_len(s@));
    if a == v.len() {
        return None;
    }
    let ghost t = s@.skip(a as int);
    proof {
        lemma_word_len(t);
    }
    let mut e = a;
    while e < v.len() && !crate::text::is_whitespace(v[e])
        invariant
            a <= e <= v@.len(),
            e - a <= word_len(t),
            v@ == s@,
            t == s@.skip(a as int),
            word_len(t) <= t.len(),
            forall|i: int| 0 <= i < word_len(t) ==> !is_ws(#[trigger] t[i]),
            word_len(t) < t.len() ==> is_ws(t[word_len(t) as int]),
        decreases v@.len() - e,
    {
        assert(t[e - a] == v@[e as int]);
        e += 1;
    }
    proof {
        if e < v@.len() {
            assert(t[e - a] == v@[e as int]);
        }
        assert(e - a == word_len(t));
        assert(v@.subrange(a as int, e as int) =~= t.take(word_len(t) as int));
    }
    Some(string_of(v.as_slice(), a, e))
}

/// The type of one parameter: `ptr` for `sret`/`byref` pointers, the part
/// before ` %name`, else its first word, else `i64`.
pub open spec fn param_type(param: Seq<char>) -> Seq<char> {
    let p = trim(param);
    if starts_with(p, "ptr sret("@) || starts_with(p, "ptr byref("@) {
        "ptr"@
    } else if rx_caps(PARAM_NAME_PATTERN@, p).len() > 0 {
        trim(group_text(p, rx_caps(PARAM_NAME_PATTERN@, p)[0], 1))
    } else {
        match first_word(p) {
            Some(w) => w,
            None => "i64"@,
        }
    }
}

/// The type of one parameter of a signature (see `param_type`).
pub fn extract_type_from_param(param: &str) -> (r: String)
    ensures
        r@ == param_type(param@),
{
    let p = trim_str(param);
    let ps = p.as_str();
    if starts_with_str(ps, "ptr sret(") || starts_with_str(ps, "ptr byref(") {
        return "ptr".to_string();
    }
    let caps = captures(PARAM_NAME_PATTERN, ps);
    if caps.len() > 0 {
        proof {
            crate::ir::lemma_match_spans(caps.deep_view(), 0, ps.spec_bytes());
            assert(caps.deep_view()[0] == caps[0].deep_view());
        }
        let g = group_str(ps, &caps[0], 1);
        return trim_str(g.as_str());
    }
    match first_word_str(ps) {
        Some(w) => w,
        None => "i64".to_string(),
    }
}

/// The state of a scan of a parameter list: bracket depth, the parameter being
/// read, and the types read so far.
pub struct ParamScan {
    pub depth: i32,
    pub cur: Seq<char>,
    pub types: Seq<Seq<char>>,
}

/// Scan of a parameter list: `{` `(` `[` open, `}` `)` `]` close (the depth
/// wraps as an `i32`); a comma at depth 0 ends a parameter, whose type is kept
/// when not empty.
pub open spec fn param_scan(s: Seq<char>) -> ParamScan
    decreases s.len(),
{
    if s.len() == 0 {
        ParamScan { depth: 0, cur: Seq::empty(), types: Seq::empty() }
    } else {
        let st = param_scan(s.drop_last());
        let ch = s.last();
        if ch == '{' || ch == '(' || ch == '[' {
            ParamScan { depth: st.depth.wrapping_add(1), cur: st.cur.push(ch), types: st.types }
        } else if ch == '}' || ch == ')' || ch == ']' {
            ParamScan { depth: st.depth.wrapping_sub(1), cur: st.cur.push(ch), types: st.types }
        } else if ch == ',' && st.depth == 0 {
            let ty = param_type(trim(st.cur));
            ParamScan {
                depth: st.depth,
                cur: Seq::empty(),
                types: if ty.len() > 0 {
                    st.types.push(ty)
                } else {
                    st.types
                },
            }
        } else {
            ParamScan { depth: st.depth, cur: st.cur.push(ch), types: st.types }
        }
    }
}

/// The types of the parameters of a parameter list.
pub open spec fn param_types(params: Seq<char>) -> Seq<Seq<char>> {
    let st = param_scan(params);
    let ty = param_type(trim(st.cur));
    if ty.len() > 0 {
        st.types.push(ty)
    } else {
        st.types
    }
}

/// The types of the parameters of a parameter list, split at the commas that
/// no bracket encloses.
pub fn parse_param_types(params: &str) -> (r: Vec<String>)
    ensures
        r.deep_view() == param_types(params@),
{
    let v = chars_of(params);
    let mut types: Vec<String> = Vec::new();
    let mut depth: i32 = 0;
    let mut current = String::new();
    let mut i: usize = 0;
    assert(v@.take(0) =~= Seq::<char>::empty());
    assert(types.deep_view() =~= Seq::<Seq<char>>::empty());
    assert(current@ =~= Seq::<char>::empty());
    while i < v.len()
        invariant
            i <= v@.len(),
            v@ == params@,
            param_scan(v@.take(i as int)) == (ParamScan {
                depth,
                cur: current@,
                types: types.deep_view(),
            }),
        decreases v@.len() - i,
    {
        let ch = v[i];
        proof {
            assert(v@.take(i + 1).drop_last() =~= v@.take(i as int));
            assert(v@.take(i + 1).last() == ch);
        }
        if ch == '{' || ch == '(' || ch == '[' {
            depth = depth.wrapping_add(1);
            current.push(ch);
        } else if ch == '}' || ch == ')' || ch == ']' {
            depth = depth.wrapping_sub(1);
            current.push(ch);
        } else if ch == ',' && depth == 0 {
            let t = trim_str(current.as_str());
            let ty = extract_type_from_param(t.as_str());
            if !ty.as_str().is_empty() {
                let ghost before = types.deep_view();
                types.push(ty);
                assert(types.deep_view() =~= before.push(ty@));
            }
            current = String::new();
            assert(current@ =~= Seq::<char>::empty());
        } else {
            current.push(ch);
        }
        i += 1;
    }
    assert(v@.take(i as int) =~= v@);
    let t = trim_str(current.as_str());
    let ty = extract_type_from_param(t.as_str());
    if !ty.as_str().is_empty() {
        let ghost before = types.deep_view();
        types.push(ty);
        assert(types.deep_view() =~= before.push(ty@));
    }
    types
}

/// The return type of a `define` signature: the captured type, `i64` when none
/// is found, `void` for a `void` type or an `sret` return.
pub open spec fn sig_return_type(sig: Seq<char>) -> Seq<char> {
    let caps = rx_caps(SIG_RET_TYPE_PATTERN@, sig);
    let ret = if caps.len() > 0 {
        trim(group_text(sig, caps[0], 1))
    } else {
        "i64"@
    };
    if contains(sig, "sret("@) || ret == "void"@ {
        "void"@
    } else {
        ret
    }
}

/// The parameter types of a `define` signature.
pub open spec fn sig_param_types(sig: Seq<char>) -> Seq<Seq<char>> {
    let caps = rx_caps(SIG_PARAMS_PATTERN@, sig);
    if caps.len() > 0 {
        param_types(group_text(sig, caps[0], 1))
    } else {
        Seq::empty()
    }
}

/// The return type and parameter types of a `define` signature.
pub fn parse_signature(sig: &str) -> (r: (String, Vec<String>))
    ensures
        r.0@ == sig_return_type(sig@),
        r.1.deep_view() == sig_param_types(sig@),
{
    let rcaps = captures(SIG_RET_TYPE_PATTERN, sig);
    let ret = if rcaps.len() > 0 {
        proof {
            crate::ir::lemma_match_spans(rcaps.deep_view(), 0, sig.spec_bytes());
            assert(rcaps.deep_view()[0] == rcaps[0].deep_view());
        }
        trim_str(group_str(sig, &rcaps[0], 1).as_str())
    } else {
        "i64".to_string()
    };
    let ret = if contains_str(sig, "sret(") || ret == "void".to_string() {
        "void".to_string()
    } else {
        ret
    };
    let pcaps = captures(SIG_PARAMS_PATTERN, sig);
    let params = if pcaps.len() > 0 {
        proof {
            crate::ir::lemma_match_spans(pcaps.deep_view(), 0, sig.spec_bytes());
            assert(pcaps.deep_view()[0] == pcaps[0].deep_view());
        }
        parse_param_types(group_str(sig, &pcaps[0], 1).as_str())
    } else {
        Vec::new()
    };
    proof {
        if pcaps@.len() == 0 {
            assert(params.deep_view() =~= Seq::<Seq<char>>::empty());
        }
    }
    (ret, params)
}

// ---------------------------------------------------------------------------
// String constants
// ---------------------------------------------------------------------------

/// Uppercase hex digit of a value below 16.
pub open spec fn upper_hex_digit(d: nat) -> char {
    if d < 10 {
        (('0' as u32) + d) as char
    } else {
        (('A' as u32) + (d - 10)) as char
    }
}

fn upper_hex_digit_exec(d: u8) -> (c: char)
    requires
        d < 16,
    ensures
        c == upper_hex_digit(d as nat),
{
    if d < 10 {
        ((0x30u8 + d) as char)
    } else {
        ((0x41u8 + (d - 10)) as char)
    }
}

/// How one byte is written inside `c"..."`: backslash and quote as `\5C` and
/// `\22`, other bytes outside printable ASCII as `\XX`, the rest as themselves.
pub open spec fn escape_byte(b: u8) -> Seq<char> {
    if b == 0x5C {
        seq!['\x5C', '5', 'C']
    } else if b == 0x22 {
        seq!['\x5C', '2', '2']
    } else if b < 0x20 || b > 0x7E {
        seq!['\x5C', upper_hex_digit((b / 16) as nat), upper_hex_digit((b % 16) as nat)]
    } else {
        seq![b as char]
    }
}

pub open spec fn escape_bytes(b: Seq<u8>) -> Seq<char>
    decreases b.len(),
{
    if b.len() == 0 {
        Seq::empty()
    } else {
        escape_bytes(b.drop_last()) + escape_byte(b.last())
    }
}

/// The UTF-8 bytes of `s` written for the body of an LLVM `c"..."` constant.
pub fn escape_llvm_string(s: &str) -> (r: String)
    ensures
        r@ == escape_bytes(s.spec_bytes()),
{
    let b = s.as_bytes();
    let mut r = String::new();
    let mut i: usize = 0;
    while i < b.len()
        invariant
            i <= b@.len(),
            b@ == s.spec_bytes(),
            r@ == escape_bytes(b@.take(i as int)),
        decreases b@.len() - i,
    {
        let x = b[i];
        proof {
            assert(b@.take(i + 1).drop_last() =~= b@.take(i as int));
            assert(b@.take(i + 1).last() == x);
        }
        let ghost before = r@;
        if x == 0x5C {
            r.push('\x5C');
            r.push('5');
            r.push('C');
        } else if x == 0x22 {
            r.push('\x5C');
            r.push('2');
            r.push('2');
        } else if x < 0x20 || x > 0x7E {
            r.push('\x5C');
            r.push(upper_hex_digit_exec(x / 16));
            r.push(upper_hex_digit_exec(x % 16));
        } else {
            r.push(x as char);
        }
        assert(r@ =~= before + escape_byte(x));
        i += 1;
    }
    assert(b@.take(i as int) =~= b@);
    r
}

// ---------------------------------------------------------------------------
// Wrapper modules
// ---------------------------------------------------------------------------

/// One or more ASCII digits whose value is at most `limit`.
pub open spec fn digits_within(d: Seq<char>, limit: nat) -> bool {
    d.len() > 0 && (forall|i: int| 0 <= i < d.len() ==> is_digit(#[trigger] d[i])) && digits_value(
        d,
    ) <= limit
}

/// `s.parse::<i64>().is_ok()`: an optional sign, then digits whose value fits.
pub open spec fn parses_as_i64(s: Seq<char>) -> bool {
    if s.len() > 0 && s[0] == '-' {
        digits_within(s.drop_first(), 0x8000_0000_0000_0000)
    } else if s.len() > 0 && s[0] == '+' {
        digits_within(s.drop_first(), 0x7FFF_FFFF_FFFF_FFFF)
    } else {
        digits_within(s, 0x7FFF_FFFF_FFFF_FFFF)
    }
}

fn digits_within_exec(v: &Vec<char>, from: usize, limit: u64) -> (b: bool)
    requires
        from <= v@.len(),
    ensures
        b == digits_within(v@.subrange(from as int, v@.len() as int), limit as nat),
{
    let ghost d = v@.subrange(from as int, v@.len() as int);
    if from >= v.len() {
        return false;
    }
    let mut acc: u64 = 0;
    let mut k = from;
    while k < v.len()
        invariant
            from <= k <= v@.len(),
            d == v@.subrange(from as int, v@.len() as int),
            forall|j: int| from <= j < k ==> is_digit(#[trigger] v@[j]),
            acc as nat == digits_value(v@.subrange(from as int, k as int)),
            acc <= limit,
        decreases v@.len() - k,
    {
        let c = v[k];
        if !('0' <= c && c <= '9') {
            proof {
                assert(d[k - from] == v@[k as int]);
            }
            return false;
        }
        let dv = (c as u32 - '0' as u32) as u64;
        assert(v@.subrange(from as int, k + 1).drop_last() =~= v@.subrange(from as int, k as int));
        if dv > limit || acc > (limit - dv) / 10 {
            proof {
                assert(digits_value(v@.subrange(from as int, k + 1)) > limit) by (nonlinear_arith)
                    requires
                        dv > limit || acc > (limit - dv) / 10,
                        digits_value(v@.subrange(from as int, k + 1)) == acc * 10 + dv,
                        acc >= 0,
                ;
                assert(d.subrange(0, (k + 1 - from) as int) =~= v@.subrange(from as int, k + 1));
                if d.len() > 0 && (forall|i: int| 0 <= i < d.len() ==> is_digit(#[trigger] d[i])) {
                    crate::text::lemma_digits_value_mono(d, (k + 1 - from) as int);
                }
            }
            return false;
        }
        proof {
            assert(acc * 10 + dv <= limit) by (nonlinear_arith)
                requires
                    acc <= (limit - dv) / 10,
                    dv <= limit,
            ;
        }
        acc = acc * 10 + dv;
        k += 1;
    }
    assert(v@.subrange(from as int, k as int) =~= d);
    true
}

/// Whether `s` parses as an `i64`.
pub fn parses_i64(s: &str) -> (b: bool)
    ensures
        b == parses_as_i64(s@),
{
    let v = chars_of(s);
    if v.len() > 0 && v[0] == '-' {
        assert(v@.subrange(1, v@.len() as int) =~= s@.drop_first());
        digits_within_exec(&v, 1, 0x8000_0000_0000_0000)
    } else if v.len() > 0 && v[0] == '+' {
        assert(v@.subrange(1, v@.len() as int) =~= s@.drop_first());
        digits_within_exec(&v, 1, 0x7FFF_FFFF_FFFF_FFFF)
    } else {
        assert(v@.subrange(0, v@.len() as int) =~= s@);
        digits_within_exec(&v, 0, 0x7FFF_FFFF_FFFF_FFFF)
    }
}

/// An argument written in double quotes: a string argument.
pub open spec fn is_quoted(a: Seq<char>) -> bool {
    starts_with(a, "\""@) && ends_with(a, "\""@)
}

/// The text between the quotes of a quoted argument.
pub open spec fn unquoted(a: Seq<char>) -> Seq<char> {
    a.subrange(1, a.len() - 1)
}

/// The typed operand that argument `i` is passed as; `is_float` says whether
/// the argument parses as an `f64`.
pub open spec fn arg_operand(i: nat, a: Seq<char>, is_float: bool) -> Seq<char> {
    if is_quoted(a) {
        "{ ptr, i64 } @.culebra_str_arg_"@ + decimal(i)
    } else if parses_as_i64(a) {
        "i64 "@ + a
    } else if is_float {
        "double "@ + a
    } else if a == "true"@ {
        "i1 1"@
    } else if a == "false"@ {
        "i1 0"@
    } else {
        "i64 "@ + a
    }
}

/// The operands of the first `n` arguments, separated by `, `.
pub open spec fn call_operands(args: Seq<Seq<char>>, floats: Seq<bool>, n: nat) -> Seq<char>
    decreases n,
{
    if n == 0 || n > args.len() {
        Seq::empty()
    } else {
        let prev = call_operands(args, floats, (n - 1) as nat);
        let sep = if n - 1 > 0 {
            ", "@
        } else {
            Seq::empty()
        };
        prev + sep + arg_operand((n - 1) as nat, args[n - 1], floats[n - 1])
    }
}

/// The constant that holds quoted argument `i`.
pub open spec fn string_arg_decl(i: nat, a: Seq<char>) -> Seq<char> {
    let s = unquoted(a);
    "@.culebra_str_"@ + decimal(i) + " = private constant ["@ + decimal(encode_utf8(s).len() + 1)
        + " x i8] c\""@ + escape_bytes(encode_utf8(s)) + "\\00\"\n"@
}

/// The constants of the quoted arguments among the first `n`.
pub open spec fn string_arg_decls(args: Seq<Seq<char>>, n: nat) -> Seq<char>
    decreases n,
{
    if n == 0 || n > args.len() {
        Seq::empty()
    } else {
        string_arg_decls(args, (n - 1) as nat) + if is_quoted(args[n - 1]) {
            string_arg_decl((n - 1) as nat, args[n - 1])
        } else {
            Seq::empty()
        }
    }
}

/// A line of the original module that defines `main`, which the wrapper replaces.
pub open spec fn is_main_define(l: Seq<char>) -> bool {
    starts_with(l, "define"@) && contains(l, "@main("@)
}

/// The lines of the module, each followed by a newline, without `main`'s `define` line.
pub open spec fn kept_module_lines(ls: Seq<Seq<char>>) -> Seq<char>
    decreases ls.len(),
{
    if ls.len() == 0 {
        Seq::empty()
    } else {
        kept_module_lines(ls.drop_last()) + if is_main_define(ls.last()) {
            Seq::empty()
        } else {
            ls.last() + "\n"@
        }
    }
}

pub open spec fn print_i64_line() -> Seq<char> {
    "  call i32 (ptr, ...) @printf(ptr @.culebra_fmt_i64, i64 %rv64)\n"@
}

pub open spec fn print_zero_line() -> Seq<char> {
    "  call i32 (ptr, ...) @printf(ptr @.culebra_fmt_i64, i64 0)\n"@
}

/// The body of the wrapper's `main`, up to its `ret`.
pub open spec fn main_body(fname: Seq<char>, ret: Seq<char>, ops: Seq<char>, sret: bool) -> Seq<char> {
    if sret {
        "  %retbuf = alloca [1024 x i8], align 8\n"@ + "  call void @"@ + fname + "(ptr %retbuf"@ + (
        if ops.len() == 0 {
            Seq::empty()
        } else {
            ", "@
        }) + ops + ")\n"@ + "  ; sret return — print first i64 of result\n"@
            + "  %rv = load i64, ptr %retbuf\n"@
            + "  call i32 (ptr, ...) @printf(ptr @.culebra_fmt_i64, i64 %rv)\n"@
    } else if ret == "i64"@ || ret == "i32"@ || ret == "i1"@ {
        "  %rv = call "@ + ret + " @"@ + fname + "("@ + ops + ")\n"@ + if ret == "i1"@ {
            "  %rv64 = zext i1 %rv to i64\n"@ + print_i64_line()
        } else {
            "  %rv64 = sext "@ + ret + " %rv to i64\n"@ + print_i64_line()
        }
    } else if ret == "void"@ {
        "  call void @"@ + fname + "("@ + ops + ")\n"@ + print_zero_line()
    } else {
        "  %rv = call "@ + ret + " @"@ + fname + "("@ + ops + ")\n"@ + "  %rv0 = extractvalue "@ + ret
            + " %rv, 0\n"@ + "  ; printing first field of complex return\n"@ + print_zero_line()
    }
}

pub open spec fn format_constants() -> Seq<char> {
    "\n@.culebra_fmt_i64 = private constant [22 x i8] c\"culebra_result: %lld\\0A\\00\"\n"@
        + "@.culebra_fmt_str = private constant [22 x i8] c\"culebra_result: %.*s\\0A\\00\"\n"@
}

/// The wrapper module: the original module without `main`'s `define` line, a
/// `printf` declaration, a constant per quoted argument, the format constants,
/// and a `main` that calls the function and prints its result.
pub open spec fn wrapper_spec(
    ir: Seq<char>,
    fname: Seq<char>,
    ret: Seq<char>,
    args: Seq<Seq<char>>,
    floats: Seq<bool>,
    sret: bool,
) -> Seq<char> {
    kept_module_lines(lines(ir)) + "\ndeclare i32 @printf(ptr, ...)\n"@ + string_arg_decls(
        args,
        args.len(),
    ) + format_constants() + "\ndefine i32 @main() {\nentry:\n"@ + main_body(
        fname,
        ret,
        call_operands(args, floats, args.len()),
        sret,
    ) + "  ret i32 0\n}\n"@
}

fn module_without_main(ir: &str) -> (r: String)
    ensures
        r@ == kept_module_lines(lines(ir@)),
{
    let ls = lines_of(ir);
    let mut r = String::new();
    let mut i: usize = 0;
    while i < ls.len()
        invariant
            i <= ls@.len(),
            r@ == kept_module_lines(ls.deep_view().take(i as int)),
        decreases ls@.len() - i,
    {
        let l = ls[i].as_str();
        proof {
            assert(ls.deep_view().take(i + 1).drop_last() =~= ls.deep_view().take(i as int));
            assert(ls.deep_view().take(i + 1).last() == l@);
        }
        let ghost before = r@;
        if !(starts_with_str(l, "define") && contains_str(l, "@main(")) {
            push_all(&mut r, l);
            r.push('\n');
            proof {
                reveal_strlit("\n");
                assert(r@ =~= before + (l@ + "\n"@));
            }
        }
        assert(r@ =~= before + if is_main_define(l@) {
            Seq::empty()
        } else {
            l@ + "\n"@
        });
        i += 1;
    }
    assert(ls.deep_view().take(i as int) =~= ls.deep_view());
    r
}

fn push_decimal(s: &mut String, n: usize)
    ensures
        final(s)@ == old(s)@ + decimal(n as nat),
{
    let d = fmt_usize(n);
    push_all(s, d.as_str());
}

fn arg_operand_exec(i: usize, a: &str, is_float: bool) -> (r: String)
    ensures
        r@ == arg_operand(i as nat, a@, is_float),
{
    let mut r = String::new();
    if starts_with_str(a, "\"") && crate::text::ends_with_str(a, "\"") {
        push_all(&mut r, "{ ptr, i64 } @.culebra_str_arg_");
        push_decimal(&mut r, i);
    } else if parses_i64(a) {
        push_all(&mut r, "i64 ");
        push_all(&mut r, a);
    } else if is_float {
        push_all(&mut r, "double ");
        push_all(&mut r, a);
    } else if a.to_string() == "true".to_string() {
        push_all(&mut r, "i1 1");
    } else if a.to_string() == "false".to_string() {
        push_all(&mut r, "i1 0");
    } else {
        push_all(&mut r, "i64 ");
        push_all(&mut r, a);
    }
    r
}

fn string_arg_decl_exec(i: usize, a: &str) -> (r: String)
    requires
        is_quoted(a@),
        a@.len() >= 2,
    ensures
        r@ == string_arg_decl(i as nat, a@),
{
    let v = chars_of(a);
    let inner = string_of(v.as_slice(), 1, v.len() - 1);
    assert(inner@ =~= unquoted(a@));
    let n = inner.as_str().as_bytes().len();
    let total = a.as_bytes().len();
    proof {
        reveal_strlit("\"");
        let q = seq!['\x22'];
        assert("\""@ =~= q);
        let len = a@.len() as int;
        assert(a@.subrange(0, 1)[0] == a@[0]);
        assert(a@.subrange(len - 1, len)[0] == a@[len - 1]);
        assert(a@ =~= (q + inner@) + q);
        crate::text::lemma_encode_concat(q + inner@, q);
        crate::text::lemma_encode_concat(q, inner@);
        crate::text::lemma_encode_ascii_char('\x22');
    }
    assert(n < total);
    let mut r = String::new();
    push_all(&mut r, "@.culebra_str_");
    push_decimal(&mut r, i);
    push_all(&mut r, " = private constant [");
    push_decimal(&mut r, n + 1);
    push_all(&mut r, " x i8] c\"");
    let esc = escape_llvm_string(inner.as_str());
    push_all(&mut r, esc.as_str());
    push_all(&mut r, "\\00\"\n");
    r
}

fn main_body_exec(fname: &str, ret: &str, ops: &str, sret: bool) -> (r: String)
    ensures
        r@ == main_body(fname@, ret@, ops@, sret),
{
    let mut r = String::new();
    let rs = ret.to_string();
    if sret {
        push_all(&mut r, "  %retbuf = alloca [1024 x i8], align 8\n");
        push_all(&mut r, "  call void @");
        push_all(&mut r, fname);
        push_all(&mut r, "(ptr %retbuf");
        if !ops.is_empty() {
            push_all(&mut r, ", ");
        }
        push_all(&mut r, ops);
        push_all(&mut r, ")\n");
        push_all(&mut r, "  ; sret return — print first i64 of result\n");
        push_all(&mut r, "  %rv = load i64, ptr %retbuf\n");
        push_all(&mut r, "  call i32 (ptr, ...) @printf(ptr @.culebra_fmt_i64, i64 %rv)\n");
        proof {
            let sep: Seq<char> = if ops@.len() == 0 {
                Seq::empty()
            } else {
                ", "@
            };
            assert(r@ =~= "  %retbuf = alloca [1024 x i8], align 8\n"@ + "  call void @"@ + fname@
                + "(ptr %retbuf"@ + sep + ops@ + ")\n"@ + "  ; sret return — print first i64 of result\n"@
                + "  %rv = load i64, ptr %retbuf\n"@
                + "  call i32 (ptr, ...) @printf(ptr @.culebra_fmt_i64, i64 %rv)\n"@);
        }
    } else if rs == "i64".to_string() || rs == "i32".to_string() || rs == "i1".to_string() {
        push_all(&mut r, "  %rv = call ");
        push_all(&mut r, ret);
        push_all(&mut r, " @");
        push_all(&mut r, fname);
        push_all(&mut r, "(");
        push_all(&mut r, ops);
        push_all(&mut r, ")\n");
        let ghost head = r@;
        if rs == "i1".to_string() {
            push_all(&mut r, "  %rv64 = zext i1 %rv to i64\n");
            push_all(&mut r, "  call i32 (ptr, ...) @printf(ptr @.culebra_fmt_i64, i64 %rv64)\n");
            assert(r@ =~= head + ("  %rv64 = zext i1 %rv to i64\n"@ + print_i64_line()));
        } else {
            push_all(&mut r, "  %rv64 = sext ");
            push_all(&mut r, ret);
            push_all(&mut r, " %rv to i64\n");
            push_all(&mut r, "  call i32 (ptr, ...) @printf(ptr @.culebra_fmt_i64, i64 %rv64)\n");
            assert(r@ =~= head + ("  %rv64 = sext "@ + ret@ + " %rv to i64\n"@ + print_i64_line()));
        }
        assert(head =~= "  %rv = call "@ + ret@ + " @"@ + fname@ + "("@ + ops@ + ")\n"@);
    } else if rs == "void".to_string() {
        push_all(&mut r, "  call void @");
        push_all(&mut r, fname);
        push_all(&mut r, "(");
        push_all(&mut r, ops);
        push_all(&mut r, ")\n");
        push_all(&mut r, "  call i32 (ptr, ...) @printf(ptr @.culebra_fmt_i64, i64 0)\n");
        assert(r@ =~= "  call void @"@ + fname@ + "("@ + ops@ + ")\n"@ + print_zero_line());
    } else {
        push_all(&mut r, "  %rv = call ");
        push_all(&mut r, ret);
        push_all(&mut r, " @");
        push_all(&mut r, fname);
        push_all(&mut r, "(");
        push_all(&mut r, ops);
        push_all(&mut r, ")\n");
        push_all(&mut r, "  %rv0 = extractvalue ");
        push_all(&mut r, ret);
        push_all(&mut r, " %rv, 0\n");
        push_all(&mut r, "  ; printing first field of complex return\n");
        push_all(&mut r, "  call i32 (ptr, ...) @printf(ptr @.culebra_fmt_i64, i64 0)\n");
        assert(r@ =~= "  %rv = call "@ + ret@ + " @"@ + fname@ + "("@ + ops@ + ")\n"@
            + "  %rv0 = extractvalue "@ + ret@ + " %rv, 0\n"@
            + "  ; printing first field of complex return\n"@ + print_zero_line());
    }
    r
}

/// Quoted arguments hold at least the two quotes.
pub open spec fn args_well_quoted(args: Seq<Seq<char>>) -> bool {
    forall|i: int| 0 <= i < args.len() ==> (is_quoted(#[trigger] args[i]) ==> args[i].len() >= 2)
}

/// The wrapper module that calls `func_name` with `args` and prints its result
/// (see `wrapper_spec`). `float_args[i]` says whether `args[i]` parses as an
/// `f64`, which is then passed as a `double`.
pub fn generate_wrapper(
    original_ir: &str,
    func_name: &str,
    ret_type: &str,
    param_types: &[String],
    args: &[String],
    float_args: &[bool],
    has_sret: bool,
) -> (r: String)
    requires
        float_args@.len() == args@.len(),
        args_well_quoted(args.deep_view()),
    ensures
        r@ == wrapper_spec(
            original_ir@,
            func_name@,
            ret_type@,
            args.deep_view(),
            float_args@,
            has_sret,
        ),
{
    let mut wrapper = module_without_main(original_ir);
    push_all(&mut wrapper, "\ndeclare i32 @printf(ptr, ...)\n");
    let ghost head = wrapper@;
    let ghost av = args.deep_view();
    let mut call_args = String::new();
    let mut i: usize = 0;
    while i < args.len()
        invariant
            i <= args@.len(),
            av == args.deep_view(),
            float_args@.len() == args@.len(),
            args_well_quoted(av),
            wrapper@ == head + string_arg_decls(av, i as nat),
            call_args@ == call_operands(av, float_args@, i as nat),
        decreases args@.len() - i,
    {
        let a = args[i].as_str();
        assert(av[i as int] == a@);
        let ghost w0 = wrapper@;
        let ghost c0 = call_args@;
        if i > 0 {
            push_all(&mut call_args, ", ");
        }
        if starts_with_str(a, "\"") && crate::text::ends_with_str(a, "\"") {
            let d = string_arg_decl_exec(i, a);
            push_all(&mut wrapper, d.as_str());
        }
        let op = arg_operand_exec(i, a, float_args[i]);
        push_all(&mut call_args, op.as_str());
        proof {
            let sep: Seq<char> = if i > 0 {
                ", "@
            } else {
                Seq::empty()
            };
            assert(call_args@ =~= c0 + sep + arg_operand(i as nat, av[i as int], float_args@[i as int]));
            assert(wrapper@ =~= w0 + if is_quoted(av[i as int]) {
                string_arg_decl(i as nat, av[i as int])
            } else {
                Seq::empty()
            });
        }
        i += 1;
    }
    push_all(&mut wrapper, "\n@.culebra_fmt_i64 = private constant [22 x i8] c\"culebra_result: %lld\\0A\\00\"\n");
    push_all(&mut wrapper, "@.culebra_fmt_str = private constant [22 x i8] c\"culebra_result: %.*s\\0A\\00\"\n");
    push_all(&mut wrapper, "\ndefine i32 @main() {\nentry:\n");
    let body = main_body_exec(func_name, ret_type, call_args.as_str(), has_sret);
    push_all(&mut wrapper, body.as_str());
    push_all(&mut wrapper, "  ret i32 0\n}\n");
    proof {
        assert(wrapper@ =~= wrapper_spec(
            original_ir@,
            func_name@,
            ret_type@,
            av,
            float_args@,
            has_sret,
        ));
    }
    wrapper
}

/// The marker line that a wrapper's `main` prints before the result.
pub const RESULT_MARKER: &'static str = "culebra_result: ";

/// The value after the marker on the first output line that starts with it.
pub open spec fn marked_result(ls: Seq<Seq<char>>) -> Option<Seq<char>>
    decreases ls.len(),
{
    if ls.len() == 0 {
        None
    } else if starts_with(ls[0], RESULT_MARKER@) {
        Some(ls[0].skip(RESULT_MARKER@.len() as int))
    } else {
        marked_result(ls.drop_first())
    }
}

/// The result that a wrapper printed, if its output holds the marker line.
pub fn result_value(stdout: &str) -> (r: Option<String>)
    ensures
        r.deep_view() == marked_result(lines(stdout@)),
{
    let ls = lines_of(stdout);
    let mut i: usize = 0;
    assert(ls.deep_view().skip(0) =~= ls.deep_view());
    while i < ls.len()
        invariant
            i <= ls@.len(),
            marked_result(lines(stdout@)) == marked_result(ls.deep_view().skip(i as int)),
            ls.deep_view() == lines(stdout@),
        decreases ls@.len() - i,
    {
        let l = ls[i].as_str();
        assert(ls.deep_view().skip(i as int)[0] == l@);
        if starts_with_str(l, RESULT_MARKER) {
            let v = chars_of(l);
            let m = chars_of(RESULT_MARKER);
            let rest = string_of(v.as_slice(), m.len(), v.len());
            assert(rest@ =~= l@.skip(RESULT_MARKER@.len() as int));
            return Some(rest);
        }
        assert(ls.deep_view().skip(i as int).drop_first() =~= ls.deep_view().skip(i + 1));
        i += 1;
    }
    None
}

// ---------------------------------------------------------------------------
// Choosing the function
// ---------------------------------------------------------------------------

/// Index of the first function from `i` on named `name` or whose name holds it.
pub open spec fn eval_target_from(fs: Seq<crate::ir::IRFunctionView>, name: Seq<char>, i: int) -> Option<
    int,
>
    decreases fs.len() - i,
{
    if i < 0 || i >= fs.len() {
        None
    } else if fs[i].name == name || contains(fs[i].name, name) {
        Some(i)
    } else {
        eval_target_from(fs, name, i + 1)
    }
}

/// The function to evaluate: the first one named `name` or whose name holds it.
pub fn find_eval_target(module: &crate::ir::IRModule, name: &str) -> (r: Option<usize>)
    ensures
        r matches Some(i) ==> eval_target_from(module@.functions, name@, 0) == Some(i as int),
        r is None ==> eval_target_from(module@.functions, name@, 0) is None,
{
    let ghost fs = module@.functions;
    let mut i: usize = 0;
    while i < module.functions.len()
        invariant
            i <= module.functions@.len(),
            fs == module@.functions,
            eval_target_from(fs, name@, 0) == eval_target_from(fs, name@, i as int),
        decreases module.functions@.len() - i,
    {
        assert(fs[i as int] == module.functions@[i as int]@);
        let n = module.functions[i].name.as_str();
        if n.to_string() == name.to_string() || contains_str(n, name) {
            return Some(i);
        }
        i += 1;
    }
    None
}

/// Bytes of a name that a search for similar names uses: its first four, at
/// least one.
pub open spec fn probe_len(name: Seq<char>) -> int {
    let n = encode_utf8(name).len() as int;
    let k = if n < 4 {
        n
    } else {
        4
    };
    if k < 1 {
        1
    } else {
        k
    }
}

/// The names among the first `n` functions that hold `probe`, at most ten.
pub open spec fn similar_from(fs: Seq<crate::ir::IRFunctionView>, probe: Seq<char>, n: nat) -> Seq<
    Seq<char>,
>
    decreases n,
{
    if n == 0 || n > fs.len() {
        Seq::empty()
    } else {
        let prev = similar_from(fs, probe, (n - 1) as nat);
        if prev.len() < 10 && contains(fs[n - 1].name, probe) {
            prev.push(fs[n - 1].name)
        } else {
            prev
        }
    }
}

/// Up to ten function names that hold the first bytes of `name`, for a name
/// that no function has. The name must be non-empty and its first four bytes
/// (or all of it) must end on a character boundary.
pub fn similar_names(module: &crate::ir::IRModule, name: &str) -> (r: Vec<String>)
    requires
        name.spec_bytes().len() >= 1,
        vstd::utf8::is_char_boundary(name.spec_bytes(), probe_len(name@)),
    ensures
        r.deep_view() == similar_from(
            module@.functions,
            crate::rx::text_between(name@, 0, probe_len(name@)),
            module@.functions.len(),
        ),
{
    let n = name.as_bytes().len();
    let k = if n < 4 {
        n
    } else {
        4
    };
    let k = if k < 1 {
        1
    } else {
        k
    };
    proof {
        broadcast use vstd::utf8::group_utf8_lib;

    }
    let probe = crate::rx::substring(name, 0, k);
    let ghost fs = module@.functions;
    let mut r: Vec<String> = Vec::new();
    let mut i: usize = 0;
    while i < module.functions.len()
        invariant
            i <= module.functions@.len(),
            fs == module@.functions,
            r.deep_view() == similar_from(fs, probe@, i as nat),
        decreases module.functions@.len() - i,
    {
        assert(fs[i as int] == module.functions@[i as int]@);
        if r.len() < 10 && contains_str(module.functions[i].name.as_str(), probe.as_str()) {
            let ghost before = r.deep_view();
            r.push(module.functions[i].name.clone());
            assert(r.deep_view() =~= before.push(fs[i as int].name));
        }
        i += 1;
    }
    r
}

// ---------------------------------------------------------------------------
// Test wrappers
// ---------------------------------------------------------------------------

/// The sign and the digits of an `i64` literal.
pub open spec fn i64_parts(s: Seq<char>) -> (bool, Seq<char>) {
    if s.len() > 0 && s[0] == '-' {
        (true, s.drop_first())
    } else if s.len() > 0 && s[0] == '+' {
        (false, s.drop_first())
    } else {
        (false, s)
    }
}

/// The text of the `i64` that `s` parses as (`format!("{}", v)`), for an `s`
/// that parses.
pub open spec fn i64_text(s: Seq<char>) -> Seq<char> {
    let (neg, d) = i64_parts(s);
    let v = digits_value(d);
    if v == 0 {
        "0"@
    } else if neg {
        "-"@ + decimal(v)
    } else {
        decimal(v)
    }
}

/// The operand of a test argument: an `i64` by its value, `true` and `false`
/// as `i1`, anything else as an `i64` operand written as given.
pub open spec fn test_operand(a: Seq<char>) -> Seq<char> {
    if parses_as_i64(a) {
        "i64 "@ + i64_text(a)
    } else if a == "true"@ {
        "i1 1"@
    } else if a == "false"@ {
        "i1 0"@
    } else {
        "i64 "@ + a
    }
}

pub open spec fn test_operands(args: Seq<Seq<char>>) -> Seq<Seq<char>> {
    args.map_values(|a: Seq<char>| test_operand(a))
}

/// The lines of a module, each followed by a newline.
pub open spec fn module_lines(ls: Seq<Seq<char>>) -> Seq<char>
    decreases ls.len(),
{
    if ls.len() == 0 {
        Seq::empty()
    } else {
        module_lines(ls.drop_last()) + ls.last() + "\n"@
    }
}

/// The module that calls `fname` with `args` and prints the `i64` it returns.
pub open spec fn test_wrapper_spec(ir: Seq<char>, fname: Seq<char>, args: Seq<Seq<char>>, sret: bool) -> Seq<
    char,
> {
    let ops = crate::text::join_sep(test_operands(args), ", "@);
    module_lines(lines(ir)) + "\ndeclare i32 @printf(ptr, ...)\n"@
        + "@.test_fmt = private constant [22 x i8] c\"culebra_result: %lld\\0A\\00\"\n"@
        + "\ndefine i32 @main() {\nentry:\n"@ + (if sret {
        "  %retbuf = alloca [1024 x i8], align 8\n"@ + "  call void @"@ + fname + "(ptr %retbuf"@ + (
        if args.len() == 0 {
            Seq::empty()
        } else {
            ", "@
        }) + ops + ")\n"@ + "  %rv = load i64, ptr %retbuf\n"@
    } else {
        "  %rv = call i64 @"@ + fname + "("@ + ops + ")\n"@
    }) + "  call i32 (ptr, ...) @printf(ptr @.test_fmt, i64 %rv)\n"@ + "  ret i32 0\n}\n"@
}

fn digits_value_exec(v: &Vec<char>, from: usize) -> (r: u64)
    requires
        from <= v@.len(),
        digits_within(v@.subrange(from as int, v@.len() as int), 0x8000_0000_0000_0000),
    ensures
        r as nat == digits_value(v@.subrange(from as int, v@.len() as int)),
{
    let ghost d = v@.subrange(from as int, v@.len() as int);
    let mut acc: u64 = 0;
    let mut k = from;
    while k < v.len()
        invariant
            from <= k <= v@.len(),
            d == v@.subrange(from as int, v@.len() as int),
            digits_within(d, 0x8000_0000_0000_0000),
            acc as nat == digits_value(v@.subrange(from as int, k as int)),
        decreases v@.len() - k,
    {
        proof {
            assert(d[k - from] == v@[k as int]);
            assert(d.subrange(0, (k + 1 - from) as int) =~= v@.subrange(from as int, k + 1));
            crate::text::lemma_digits_value_mono(d, (k + 1 - from) as int);
            assert(v@.subrange(from as int, k + 1).drop_last() =~= v@.subrange(from as int, k as int));
        }
        let c = v[k];
        let dv = (c as u32 - '0' as u32) as u64;
        acc = acc * 10 + dv;
        k += 1;
    }
    assert(v@.subrange(from as int, k as int) =~= d);
    acc
}

fn i64_text_exec(a: &str) -> (r: String)
    requires
        parses_as_i64(a@),
    ensures
        r@ == i64_text(a@),
{
    let v = chars_of(a);
    let (neg, from) = if v.len() > 0 && v[0] == '-' {
        (true, 1usize)
    } else if v.len() > 0 && v[0] == '+' {
        (false, 1usize)
    } else {
        (false, 0usize)
    };
    proof {
        assert(v@.subrange(from as int, v@.len() as int) =~= i64_parts(a@).1);
        if from == 0 {
            assert(a@ =~= v@.subrange(0, v@.len() as int));
        }
    }
    let mag = digits_value_exec(&v, from);
    if mag == 0 {
        return "0".to_string();
    }
    let digits = crate::text::fmt_u64(mag);
    if neg {
        let mut r = "-".to_string();
        push_all(&mut r, digits.as_str());
        r
    } else {
        digits
    }
}

fn test_operand_exec(a: &str) -> (r: String)
    ensures
        r@ == test_operand(a@),
{
    let mut r = String::new();
    if parses_i64(a) {
        push_all(&mut r, "i64 ");
        let t = i64_text_exec(a);
        push_all(&mut r, t.as_str());
    } else if a.to_string() == "true".to_string() {
        push_all(&mut r, "i1 1");
    } else if a.to_string() == "false".to_string() {
        push_all(&mut r, "i1 0");
    } else {
        push_all(&mut r, "i64 ");
        push_all(&mut r, a);
    }
    r
}

/// The module that calls `func_name` with `args` (integers and booleans) and
/// prints the `i64` it returns, through a return buffer for an `sret` function.
pub fn generate_test_wrapper(ir: &str, func_name: &str, args: &[String], has_sret: bool) -> (r: String)
    ensures
        r@ == test_wrapper_spec(ir@, func_name@, args.deep_view(), has_sret),
{
    let ls = lines_of(ir);
    let mut w = String::new();
    let mut i: usize = 0;
    while i < ls.len()
        invariant
            i <= ls@.len(),
            w@ == module_lines(ls.deep_view().take(i as int)),
        decreases ls@.len() - i,
    {
        let ghost before = w@;
        push_all(&mut w, ls[i].as_str());
        w.push('\n');
        proof {
            reveal_strlit("\n");
            assert(ls.deep_view().take(i + 1).drop_last() =~= ls.deep_view().take(i as int));
            assert(ls.deep_view().take(i + 1).last() == ls@[i as int]@);
            assert(w@ =~= before + ls@[i as int]@ + "\n"@);
        }
        i += 1;
    }
    assert(ls.deep_view().take(i as int) =~= ls.deep_view());
    push_all(&mut w, "\ndeclare i32 @printf(ptr, ...)\n");
    push_all(&mut w, "@.test_fmt = private constant [22 x i8] c\"culebra_result: %lld\\0A\\00\"\n");
    let mut ops: Vec<String> = Vec::new();
    let mut j: usize = 0;
    while j < args.len()
        invariant
            j <= args@.len(),
            ops.deep_view() == test_operands(args.deep_view().take(j as int)),
        decreases args@.len() - j,
    {
        let o = test_operand_exec(args[j].as_str());
        let ghost before = ops.deep_view();
        let ghost ov = o@;
        ops.push(o);
        proof {
            assert(args.deep_view()[j as int] == args@[j as int]@);
            assert(ops.deep_view() =~= before.push(ov));
            assert(args.deep_view().take(j + 1) =~= args.deep_view().take(j as int).push(
                args@[j as int]@,
            ));
            assert(test_operands(args.deep_view().take(j + 1)) =~= test_operands(
                args.deep_view().take(j as int),
            ).push(ov));
        }
        j += 1;
    }
    assert(args.deep_view().take(j as int) =~= args.deep_view());
    let joined = crate::text::join_with(&ops, ", ");
    push_all(&mut w, "\ndefine i32 @main() {\nentry:\n");
    let ghost head = w@;
    if has_sret {
        push_all(&mut w, "  %retbuf = alloca [1024 x i8], align 8\n");
        push_all(&mut w, "  call void @");
        push_all(&mut w, func_name);
        push_all(&mut w, "(ptr %retbuf");
        if args.len() > 0 {
            push_all(&mut w, ", ");
        }
        push_all(&mut w, joined.as_str());
        push_all(&mut w, ")\n");
        push_all(&mut w, "  %rv = load i64, ptr %retbuf\n");
    } else {
        push_all(&mut w, "  %rv = call i64 @");
        push_all(&mut w, func_name);
        push_all(&mut w, "(");
        push_all(&mut w, joined.as_str());
        push_all(&mut w, ")\n");
    }
    let ghost mid = w@;
    push_all(&mut w, "  call i32 (ptr, ...) @printf(ptr @.test_fmt, i64 %rv)\n");
    push_all(&mut w, "  ret i32 0\n}\n");
    proof {
        let sep: Seq<char> = if args@.len() == 0 {
            Seq::empty()
        } else {
            ", "@
        };
        assert(args.deep_view().len() == args@.len());
        let call: Seq<char> = if has_sret {
            "  %retbuf = alloca [1024 x i8], align 8\n"@ + "  call void @"@ + func_name@ + "(ptr %retbuf"@
                + sep + joined@ + ")\n"@ + "  %rv = load i64, ptr %retbuf\n"@
        } else {
            "  %rv = call i64 @"@ + func_name@ + "("@ + joined@ + ")\n"@
        };
        assert(mid =~= head + call);
        assert(w@ =~= test_wrapper_spec(ir@, func_name@, args.deep_view(), has_sret));
    }
    w
}

} // verus!
