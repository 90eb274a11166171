//! Marking a function for probing: the module with the `printf` declarations
//! and formats that probes use, and a note at each block where execution
//! should stop.
use vstd::prelude::*;
use vstd::string::StringSliceAdditionalSpecFns;
use vstd::utf8::encode_utf8;
use crate::rx::{captures, group_str, group_text, rx_caps};
use crate::text::{contains, contains_str, lines, lines_of, push_all, starts_with, starts_with_str, trim, trim_str};

verus! {

pub const PROBE_LABEL_PATTERN: &'static str = r"^([a-zA-Z_][\w.]*):";

/// The declarations that probes print with.
pub open spec fn probe_header() -> Seq<char> {
    "declare i32 @printf(ptr, ...)\n"@
        + "@.probe_fmt_i64 = private constant [31 x i8] c\"[PROBE] %s = %lld (block: %s)\\0A\\00\"\n"@
        + "@.probe_fmt_ptr = private constant [33 x i8] c\"[PROBE] %s = 0x%llx (block: %s)\\0A\\00\"\n"@
        + "@.probe_block = private constant [27 x i8] c\"[PROBE] entering block %s\\0A\\00\"\n"@
}

/// Brace depth after the bytes `b[..n]`, from `d` (wrapping as an `i32`).
pub open spec fn brace_depth(b: Seq<u8>, d: i32, n: nat) -> i32
    decreases n,
{
    if n == 0 || n > b.len() {
        d
    } else {
        let prev = brace_depth(b, d, (n - 1) as nat);
        if b[n - 1] == 0x7B {
            prev.wrapping_add(1)
        } else if b[n - 1] == 0x7D {
            prev.wrapping_sub(1)
        } else {
            prev
        }
    }
}

/// The state of a pass over the lines: whether the header was added, whether
/// the pass is inside the function, the brace depth, and the output so far.
pub struct ProbeScan {
    pub added: bool,
    pub inside: bool,
    pub depth: i32,
    pub out: Seq<char>,
}

/// The note after a block label of the function where execution should stop.
pub open spec fn stop_note(l: Seq<char>, stop: Option<Seq<char>>) -> Seq<char> {
    let t = trim(l);
    let lc = rx_caps(PROBE_LABEL_PATTERN@, t);
    match stop {
        Some(s) => if lc.len() > 0 && contains(group_text(t, lc[0], 1), s) {
            "  ; PROBE: stop at "@ + group_text(t, lc[0], 1) + "\n"@
        } else {
            Seq::empty()
        },
        None => Seq::empty(),
    }
}

/// One line of the pass.
pub open spec fn probe_step(st: ProbeScan, l: Seq<char>, fname: Seq<char>, stop: Option<Seq<char>>) -> ProbeScan {
    let header_here = !st.added && (starts_with(l, "declare"@) || starts_with(l, "define"@));
    let out1 = if header_here {
        st.out + probe_header()
    } else {
        st.out
    };
    let enters = starts_with(l, "define"@) && contains(l, "@"@ + fname + "("@);
    let in1 = if enters {
        true
    } else {
        st.inside
    };
    let d1 = if enters {
        0i32
    } else {
        st.depth
    };
    let d2 = if in1 {
        brace_depth(encode_utf8(l), d1, encode_utf8(l).len())
    } else {
        d1
    };
    let in2 = if in1 && d2 <= 0 && trim(l) == "}"@ {
        false
    } else {
        in1
    };
    let out2 = out1 + l + "\n"@;
    ProbeScan {
        added: st.added || header_here,
        inside: in2,
        depth: d2,
        out: if in2 {
            out2 + stop_note(l, stop)
        } else {
            out2
        },
    }
}

pub open spec fn probe_scan(ls: Seq<Seq<char>>, fname: Seq<char>, stop: Option<Seq<char>>, n: nat) -> ProbeScan
    decreases n,
{
    if n == 0 || n > ls.len() {
        ProbeScan { added: false, inside: false, depth: 0, out: Seq::empty() }
    } else {
        probe_step(probe_scan(ls, fname, stop, (n - 1) as nat), ls[n - 1], fname, stop)
    }
}

/// The probed module: every line, with the probe declarations before the first
/// `declare` or `define` line, and a stop note after each block label of the
/// function whose name holds `stop_at`.
pub open spec fn instrument_spec(ir: Seq<char>, fname: Seq<char>, stop: Option<Seq<char>>) -> Seq<char> {
    let ls = lines(ir);
    probe_scan(ls, fname, stop, ls.len()).out
}

fn brace_depth_exec(l: &str, d: i32) -> (r: i32)
    ensures
        r == brace_depth(l.spec_bytes(), d, l.spec_bytes().len()),
{
    let b = l.as_bytes();
    let mut x = d;
    let mut i: usize = 0;
    while i < b.len()
        invariant
            i <= b@.len(),
            b@ == l.spec_bytes(),
            x == brace_depth(b@, d, i as nat),
        decreases b@.len() - i,
    {
        if b[i] == 0x7B {
            x = x.wrapping_add(1);
        } else if b[i] == 0x7D {
            x = x.wrapping_sub(1);
        }
        i += 1;
    }
    x
}

fn stop_note_exec(l: &str, stop: &str) -> (r: String)
    ensures
        r@ == stop_note(l@, Some(stop@)),
{
    let t = trim_str(l);
    let lc = captures(PROBE_LABEL_PATTERN, t.as_str());
    if lc.len() > 0 {
        proof {
            crate::ir::lemma_match_spans(lc.deep_view(), 0, encode_utf8(t@));
            assert(lc.deep_view()[0] == lc[0].deep_view());
        }
        let name = group_str(t.as_str(), &lc[0], 1);
        if contains_str(name.as_str(), stop) {
            let mut r = "  ; PROBE: stop at ".to_string();
            push_all(&mut r, name.as_str());
            push_all(&mut r, "\n");
            return r;
        }
    }
    String::new()
}

/// The module prepared for probing `func_name` (see `instrument_spec`). The
/// variables to watch choose which stores a probe would follow; no probe is
/// written for them.
pub fn instrument_function(ir: &str, func_name: &str, watch_vars: &[String], stop_at: Option<&str>) -> (r: String)
    ensures
        r@ == instrument_spec(ir@, func_name@, match stop_at {
            Some(s) => Some(s@),
            None => None,
        }),
{
    let ghost stop = match stop_at {
        Some(s) => Some(s@),
        None => None,
    };
    let ls = lines_of(ir);
    let mut target = "@".to_string();
    push_all(&mut target, func_name);
    push_all(&mut target, "(");
    let mut out = String::new();
    let mut added = false;
    let mut inside = false;
    let mut depth: i32 = 0;
    let mut i: usize = 0;
    while i < ls.len()
        invariant
            i <= ls@.len(),
            target@ == "@"@ + func_name@ + "("@,
            stop == (match stop_at {
                Some(s) => Some(s@),
                None => None,
            }),
            probe_scan(ls.deep_view(), func_name@, stop, i as nat) == (ProbeScan {
                added,
                inside,
                depth,
                out: out@,
            }),
        decreases ls@.len() - i,
    {
        let l = ls[i].as_str();
        assert(ls.deep_view()[i as int] == l@);
        let ghost st = ProbeScan { added, inside, depth, out: out@ };
        if !added && (starts_with_str(l, "declare") || starts_with_str(l, "define")) {
            push_all(&mut out, "declare i32 @printf(ptr, ...)\n");
            push_all(
                &mut out,
                "@.probe_fmt_i64 = private constant [31 x i8] c\"[PROBE] %s = %lld (block: %s)\\0A\\00\"\n",
            );
            push_all(
                &mut out,
                "@.probe_fmt_ptr = private constant [33 x i8] c\"[PROBE] %s = 0x%llx (block: %s)\\0A\\00\"\n",
            );
            push_all(&mut out, "@.probe_block = private constant [27 x i8] c\"[PROBE] entering block %s\\0A\\00\"\n");
            added = true;
            assert(out@ =~= st.out + probe_header());
        }
        if starts_with_str(l, "define") && contains_str(l, target.as_str()) {
            inside = true;
            depth = 0;
        }
        if inside {
            depth = brace_depth_exec(l, depth);
            if depth <= 0 && trim_str(l) == "}".to_string() {
                inside = false;
            }
        }
        let ghost o1 = out@;
        push_all(&mut out, l);
        push_all(&mut out, "\n");
        let ghost o2 = out@;
        if inside {
            match stop_at {
                Some(sv) => {
                    let note = stop_note_exec(l, sv);
                    push_all(&mut out, note.as_str());
                },
                None => {
                    assert(stop_note(l@, stop) =~= Seq::<char>::empty());
                    assert(out@ =~= o2 + stop_note(l@, stop));
                },
            }
        }
        proof {
            reveal_strlit("\n");
            let ns = probe_step(st, l@, func_name@, stop);
            assert(o2 =~= o1 + l@ + "\n"@);
            assert(added == ns.added);
            assert(inside == ns.inside);
            assert(depth == ns.depth);
            assert(ls.deep_view().take(i + 1).drop_last() =~= ls.deep_view().take(i as int));
            assert(out@ =~= ns.out);
        }
        i += 1;
    }
    out
}

} // verus!
