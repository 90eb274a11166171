//! The fingerprint of an IR text that fixed-point detection compares between
//! bootstrap stages: the SHA-256 of its meaningful lines (trimmed, neither
//! empty nor comments), in lowercase hex.
use vstd::prelude::*;
use sha2::Digest;
use vstd::string::StringSliceAdditionalSpecFns;
use crate::text::{hex_digit, hex_digit_exec, lines, lines_of, push_all, starts_with, starts_with_str, trim, trim_str};

verus! {

/// What `sha2::Sha256::digest` returns for `data`: the 32 bytes of its SHA-256.
pub uninterp spec fn sha256_of(data: Seq<u8>) -> Seq<u8>;

/// Calls `sha2::Sha256::digest` on `data`. The contract names the digest by
/// `sha256_of` and states its size, 32 bytes (the output size of SHA-256).
#[verifier::external_body]
fn sha256(data: &[u8]) -> (r: Vec<u8>)
    ensures
        r@ == sha256_of(data@),
        r@.len() == 32,
{
    sha2::Sha256::digest(data).to_vec()
}

/// The meaningful lines among the first `n`, each trimmed and followed by a
/// newline: those that are neither empty nor a `;` comment.
pub open spec fn meaningful_from(ls: Seq<Seq<char>>, n: nat) -> Seq<char>
    decreases n,
{
    if n == 0 || n > ls.len() {
        Seq::empty()
    } else {
        let t = trim(ls[n - 1]);
        let prev = meaningful_from(ls, (n - 1) as nat);
        if t.len() > 0 && !starts_with(t, ";"@) {
            prev + t + "\n"@
        } else {
            prev
        }
    }
}

/// The text that a fingerprint hashes.
pub open spec fn meaningful_text(text: Seq<char>) -> Seq<char> {
    meaningful_from(lines(text), lines(text).len())
}

/// Two lowercase hex digits per byte.
pub open spec fn lower_hex(bs: Seq<u8>) -> Seq<char>
    decreases bs.len(),
{
    if bs.len() == 0 {
        Seq::empty()
    } else {
        lower_hex(bs.drop_last()) + seq![
            hex_digit((bs.last() / 16) as nat),
            hex_digit((bs.last() % 16) as nat),
        ]
    }
}

/// The lines of `text` that a fingerprint covers, trimmed, each followed by a
/// newline.
pub fn meaningful_lines(text: &str) -> (r: String)
    ensures
        r@ == meaningful_text(text@),
{
    let ls = lines_of(text);
    let ghost lv = ls.deep_view();
    let mut r = String::new();
    let mut i: usize = 0;
    while i < ls.len()
        invariant
            i <= ls@.len(),
            lv == ls.deep_view(),
            lv == lines(text@),
            r@ == meaningful_from(lv, i as nat),
        decreases ls@.len() - i,
    {
        assert(lv[i as int] == ls@[i as int]@);
        let t = trim_str(ls[i].as_str());
        if !t.as_str().is_empty() && !starts_with_str(t.as_str(), ";") {
            push_all(&mut r, t.as_str());
            push_all(&mut r, "\n");
            proof {
                reveal_strlit("\n");
            }
        }
        i += 1;
    }
    r
}

/// Bytes in lowercase hex, two digits each.
pub fn hex_lower(bs: &[u8]) -> (r: String)
    ensures
        r@ == lower_hex(bs@),
        r@.len() == 2 * bs@.len(),
{
    let mut r = String::new();
    let mut i: usize = 0;
    while i < bs.len()
        invariant
            i <= bs@.len(),
            r@ == lower_hex(bs@.take(i as int)),
            r@.len() == 2 * i,
        decreases bs@.len() - i,
    {
        let b = bs[i];
        let hi = hex_digit_exec((b / 16) as u64);
        let lo = hex_digit_exec((b % 16) as u64);
        let ghost before = r@;
        r.push(hi);
        r.push(lo);
        proof {
            assert(bs@.take(i + 1).drop_last() =~= bs@.take(i as int));
            assert(r@ =~= before + seq![hi, lo]);
        }
        i += 1;
    }
    assert(bs@.take(i as int) =~= bs@);
    r
}

/// The fingerprint of an IR text: the SHA-256 of its meaningful lines,
/// trimmed and newline-terminated, in 64 lowercase hex digits.
pub fn ir_fingerprint(text: &str) -> (r: String)
    ensures
        r@ == lower_hex(sha256_of(vstd::utf8::encode_utf8(meaningful_text(text@)))),
        r@.len() == 64,
{
    let m = meaningful_lines(text);
    let ms = m.as_str();
    proof {
        broadcast use vstd::utf8::group_utf8_lib;

        assert(ms.spec_bytes() == vstd::utf8::encode_utf8(ms@));
    }
    let digest = sha256(ms.as_bytes());
    hex_lower(digest.as_slice())
}

} // verus!
