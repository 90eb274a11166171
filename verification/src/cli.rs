//! Command-line values: crash offsets in decimal or hex, and `key=value` pairs.
use vstd::prelude::*;
use crate::text::{chars_of, find_char_from, push_all, starts_with, starts_with_str, string_of};

verus! {

/// Value of a digit in base 10 or 16 (either case), if it is one.
pub open spec fn digit_value(c: char, radix: u32) -> Option<nat> {
    if '0' <= c && c <= '9' {
        Some(((c as u32) - ('0' as u32)) as nat)
    } else if radix == 16 && 'a' <= c && c <= 'f' {
        Some(((c as u32) - ('a' as u32) + 10) as nat)
    } else if radix == 16 && 'A' <= c && c <= 'F' {
        Some(((c as u32) - ('A' as u32) + 10) as nat)
    } else {
        None
    }
}

/// Value of a string of digits in base `radix`, if every character is one.
pub open spec fn digits_in_radix(d: Seq<char>, radix: u32) -> Option<nat>
    decreases d.len(),
{
    if d.len() == 0 {
        Some(0)
    } else {
        match (digits_in_radix(d.drop_last(), radix), digit_value(d.last(), radix)) {
            (Some(v), Some(x)) => Some(v * (radix as nat) + x),
            _ => None,
        }
    }
}

/// `usize::from_str_radix(s, radix)` for radix 10 or 16, as documented: an
/// optional `+`, then one or more digits, whose value fits in `usize`.
pub open spec fn radix_value(s: Seq<char>, radix: u32) -> Option<usize> {
    let d = if s.len() > 0 && s[0] == '+' {
        s.drop_first()
    } else {
        s
    };
    if d.len() == 0 {
        None
    } else {
        match digits_in_radix(d, radix) {
            Some(v) => if v <= usize::MAX {
                Some(v as usize)
            } else {
                None
            },
            None => None,
        }
    }
}

/// The text of the `ParseIntError` that `usize::from_str_radix(s, radix)` gives.
pub uninterp spec fn int_error_text(s: Seq<char>, radix: u32) -> Seq<char>;

/// `usize::from_str_radix(s, radix)`, its error as the error's text. Its
/// documentation: the string is an optional `+` sign then digits; it is an
/// error when it is empty, holds a character that is no digit, or its value
/// does not fit. The error text is named by `int_error_text`.
#[verifier::external_body]
fn parse_usize_radix(s: &str, radix: u32) -> (r: Result<usize, String>)
    requires
        radix == 10 || radix == 16,
    ensures
        r matches Ok(v) ==> radix_value(s@, radix) == Some(v),
        r matches Err(m) ==> radix_value(s@, radix) is None && m@ == int_error_text(s@, radix),
{
    usize::from_str_radix(s, radix).map_err(|e| e.to_string())
}

/// What `parse_offset` gives for a value: hex after `0x` or `0X`, else decimal.
pub open spec fn offset_spec(s: Seq<char>) -> Result<usize, Seq<char>> {
    if starts_with(s, "0x"@) || starts_with(s, "0X"@) {
        let d = s.skip(2);
        match radix_value(d, 16) {
            Some(v) => Ok(v),
            None => Err("invalid hex offset: "@ + int_error_text(d, 16)),
        }
    } else {
        match radix_value(s, 10) {
            Some(v) => Ok(v),
            None => Err("invalid offset: "@ + int_error_text(s, 10)),
        }
    }
}

pub open spec fn offset_result_view(r: Result<usize, String>) -> Result<usize, Seq<char>> {
    match r {
        Ok(v) => Ok(v),
        Err(m) => Err(m@),
    }
}

/// A crash offset: hex after `0x` or `0X`, else decimal.
pub fn parse_offset(s: &str) -> (r: Result<usize, String>)
    ensures
        offset_result_view(r) == offset_spec(s@),
{
    if starts_with_str(s, "0x") || starts_with_str(s, "0X") {
        let v = chars_of(s);
        proof {
            reveal_strlit("0x");
            reveal_strlit("0X");
        }
        let d = string_of(v.as_slice(), 2, v.len());
        assert(d@ =~= s@.skip(2));
        match parse_usize_radix(d.as_str(), 16) {
            Ok(n) => Ok(n),
            Err(e) => {
                let mut m = "invalid hex offset: ".to_string();
                push_all(&mut m, e.as_str());
                Err(m)
            },
        }
    } else {
        match parse_usize_radix(s, 10) {
            Ok(n) => Ok(n),
            Err(e) => {
                let mut m = "invalid offset: ".to_string();
                push_all(&mut m, e.as_str());
                Err(m)
            },
        }
    }
}

/// What `parse_kv` gives: the text before the first `=` and the text after it.
pub open spec fn kv_spec(s: Seq<char>) -> Result<(Seq<char>, Seq<char>), Seq<char>> {
    match find_char_from(s, '=', 0) {
        Some(k) => Ok((s.take(k), s.skip(k + 1))),
        None => Err("expected key=value, got '"@ + s + "'"@),
    }
}

pub open spec fn kv_result_view(r: Result<(String, String), String>) -> Result<
    (Seq<char>, Seq<char>),
    Seq<char>,
> {
    match r {
        Ok((k, v)) => Ok((k@, v@)),
        Err(m) => Err(m@),
    }
}

/// A `key=value` pair, split at the first `=`.
pub fn parse_kv(s: &str) -> (r: Result<(String, String), String>)
    ensures
        kv_result_view(r) == kv_spec(s@),
{
    let v = chars_of(s);
    let mut i: usize = 0;
    while i < v.len() && v[i] != '='
        invariant
            i <= v@.len(),
            v@ == s@,
            find_char_from(s@, '=', 0) == find_char_from(s@, '=', i as int),
        decreases v@.len() - i,
    {
        i += 1;
    }
    if i == v.len() {
        let mut m = "expected key=value, got '".to_string();
        push_all(&mut m, s);
        push_all(&mut m, "'");
        return Err(m);
    }
    let k = string_of(v.as_slice(), 0, i);
    let val = string_of(v.as_slice(), i + 1, v.len());
    assert(k@ =~= s@.take(i as int));
    assert(val@ =~= s@.skip(i + 1));
    Ok((k, val))
}

} // verus!
