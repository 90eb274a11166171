//! Session logs of wrapped commands: entries, their categories and truncated
//! output, relative times, and workflow inputs.
use vstd::prelude::*;
use vstd::string::StringSliceAdditionalSpecFns;
use crate::rx::text_between;
use crate::text::{
    chars_of, decimal, fmt_usize, join_sep, join_with, push_all, replace_all, replace_str,
    starts_with, starts_with_str, string_of,
};

verus! {

/// Bytes of a command's standard output that a log entry keeps.
pub const STDOUT_KEPT: usize = 10000;

/// Bytes of a command's standard error that a log entry keeps.
pub const STDERR_KEPT: usize = 5000;

/// `s` cut to `max` bytes, with a note of how many bytes were cut.
pub open spec fn truncate_log_spec(s: Seq<char>, max: nat) -> Seq<char> {
    let n = vstd::utf8::encode_utf8(s).len();
    if n <= max {
        s
    } else {
        text_between(s, 0, max as int) + "\n... ("@ + decimal((n - max) as nat) + " bytes truncated)"@
    }
}

/// The cut must fall on a character boundary.
pub open spec fn cut_ok(s: Seq<char>, max: nat) -> bool {
    vstd::utf8::encode_utf8(s).len() > max ==> vstd::utf8::is_char_boundary(
        vstd::utf8::encode_utf8(s),
        max as int,
    )
}

pub fn truncate_log(s: &str, max: usize) -> (r: String)
    requires
        cut_ok(s@, max as nat),
    ensures
        r@ == truncate_log_spec(s@, max as nat),
{
    let n = s.as_bytes().len();
    if n <= max {
        return s.to_string();
    }
    proof {
        broadcast use vstd::utf8::group_utf8_lib;

    }
    let mut r = crate::rx::substring(s, 0, max);
    push_all(&mut r, "\n... (");
    let d = fmt_usize(n - max);
    push_all(&mut r, d.as_str());
    push_all(&mut r, " bytes truncated)");
    r
}

/// The text after the last `/`, or all of it.
pub open spec fn after_last_slash(s: Seq<char>) -> Seq<char>
    decreases s.len(),
{
    if s.len() == 0 {
        s
    } else if s.last() == '/' {
        Seq::empty()
    } else {
        after_last_slash(s.drop_last()).push(s.last())
    }
}

/// The category of a command by its program's base name.
pub open spec fn command_category(cmd: Seq<char>) -> Seq<char> {
    let b = after_last_slash(cmd);
    if b == "clang"@ || b == "gcc"@ || b == "cc"@ {
        "compile"@
    } else if b == "llvm-as"@ || b == "llc"@ || b == "opt"@ {
        "llvm"@
    } else if b == "valgrind"@ {
        "valgrind"@
    } else if b == "ld"@ || b == "lld"@ {
        "link"@
    } else if b == "python3"@ || b == "python"@ {
        "python"@
    } else if b == "culebra"@ {
        "culebra"@
    } else if b == "wc"@ || b == "grep"@ || b == "awk"@ || b == "sed"@ || b == "head"@ || b
        == "tail"@ || b == "cat"@ || b == "diff"@ {
        "inspect"@
    } else if b == "objdump"@ || b == "readelf"@ || b == "nm"@ || b == "file"@ {
        "binary-inspect"@
    } else if starts_with(b, "mnc-"@) {
        "compiler"@
    } else {
        "other"@
    }
}

fn base_name(cmd: &str) -> (r: String)
    ensures
        r@ == after_last_slash(cmd@),
{
    let v = chars_of(cmd);
    let mut k = v.len();
    assert(v@.take(k as int) =~= v@);
    assert(v@.subrange(k as int, v@.len() as int) =~= Seq::<char>::empty());
    assert(after_last_slash(cmd@) =~= after_last_slash(v@.take(k as int)) + v@.subrange(
        k as int,
        v@.len() as int,
    ));
    while k > 0 && v[k - 1] != '/'
        invariant
            k <= v@.len(),
            v@ == cmd@,
            after_last_slash(cmd@) == after_last_slash(v@.take(k as int)) + v@.subrange(
                k as int,
                v@.len() as int,
            ),
        decreases k,
    {
        proof {
            let t = v@.take(k as int);
            assert(t.drop_last() =~= v@.take(k - 1));
            assert(after_last_slash(t) == after_last_slash(t.drop_last()).push(t.last()));
            assert(v@.subrange(k - 1, v@.len() as int) =~= seq![t.last()] + v@.subrange(
                k as int,
                v@.len() as int,
            ));
        }
        k -= 1;
    }
    proof {
        if k > 0 {
            assert(v@.take(k as int).last() == '/');
        }
        assert(after_last_slash(v@.take(k as int)) =~= Seq::<char>::empty());
    }
    let r = string_of(v.as_slice(), k, v.len());
    assert(r@ =~= after_last_slash(cmd@));
    r
}

pub fn categorize_command(cmd: &str) -> (r: String)
    ensures
        r@ == command_category(cmd@),
{
    let b = base_name(cmd);
    let c = if b == "clang".to_string() || b == "gcc".to_string() || b == "cc".to_string() {
        "compile"
    } else if b == "llvm-as".to_string() || b == "llc".to_string() || b == "opt".to_string() {
        "llvm"
    } else if b == "valgrind".to_string() {
        "valgrind"
    } else if b == "ld".to_string() || b == "lld".to_string() {
        "link"
    } else if b == "python3".to_string() || b == "python".to_string() {
        "python"
    } else if b == "culebra".to_string() {
        "culebra"
    } else if b == "wc".to_string() || b == "grep".to_string() || b == "awk".to_string() || b
        == "sed".to_string() || b == "head".to_string() || b == "tail".to_string() || b
        == "cat".to_string() || b == "diff".to_string() {
        "inspect"
    } else if b == "objdump".to_string() || b == "readelf".to_string() || b == "nm".to_string()
        || b == "file".to_string() {
        "binary-inspect"
    } else if starts_with_str(b.as_str(), "mnc-") {
        "compiler"
    } else {
        "other"
    };
    c.to_string()
}

/// One logged command.
#[derive(Debug, Clone)]
pub struct LogEntry {
    pub timestamp: u64,
    pub command: String,
    pub stdout: String,
    pub stderr: String,
    pub exit_code: i32,
    pub duration_ms: u64,
    pub category: String,
}

/// The log entry of a finished command: the command line joined by spaces,
/// its output cut to `STDOUT_KEPT` and `STDERR_KEPT` bytes, its category by
/// the program run.
pub fn log_record(
    timestamp: u64,
    command: &Vec<String>,
    stdout: &str,
    stderr: &str,
    exit_code: i32,
    duration_ms: u64,
) -> (e: LogEntry)
    requires
        command@.len() > 0,
        cut_ok(stdout@, STDOUT_KEPT as nat),
        cut_ok(stderr@, STDERR_KEPT as nat),
    ensures
        e.timestamp == timestamp,
        e.command@ == join_sep(command.deep_view(), " "@),
        e.stdout@ == truncate_log_spec(stdout@, STDOUT_KEPT as nat),
        e.stderr@ == truncate_log_spec(stderr@, STDERR_KEPT as nat),
        e.exit_code == exit_code,
        e.duration_ms == duration_ms,
        e.category@ == command_category(command.deep_view()[0]),
{
    assert(command.deep_view()[0] == command@[0]@);
    LogEntry {
        timestamp,
        command: join_with(command, " "),
        stdout: truncate_log(stdout, STDOUT_KEPT),
        stderr: truncate_log(stderr, STDERR_KEPT),
        exit_code,
        duration_ms,
        category: categorize_command(command[0].as_str()),
    }
}

/// How long ago `ts` was at time `now` (seconds), in words.
pub open spec fn ago_text(ts: u64, now: u64) -> Seq<char> {
    let diff: nat = if now >= ts {
        (now - ts) as nat
    } else {
        0
    };
    if diff < 60 {
        "just now"@
    } else if diff < 3600 {
        decimal(diff / 60) + "m ago"@
    } else if diff < 86400 {
        decimal(diff / 3600) + "h ago"@
    } else {
        decimal(diff / 86400) + "d ago"@
    }
}

/// How long ago a timestamp was, at time `now`.
pub fn format_timestamp(ts: u64, now: u64) -> (r: String)
    ensures
        r@ == ago_text(ts, now),
{
    let diff = now.saturating_sub(ts);
    if diff < 60 {
        return "just now".to_string();
    }
    let (n, unit) = if diff < 3600 {
        (diff / 60, "m ago")
    } else if diff < 86400 {
        (diff / 3600, "h ago")
    } else {
        (diff / 86400, "d ago")
    };
    let mut r = crate::text::fmt_u64(n);
    push_all(&mut r, unit);
    r
}

/// `template` with each `{key}` replaced by its value, one input after another.
pub open spec fn resolve_spec(template: Seq<char>, inputs: Seq<(Seq<char>, Seq<char>)>, n: nat) -> Seq<
    char,
>
    decreases n,
{
    if n == 0 || n > inputs.len() {
        template
    } else {
        replace_all(
            resolve_spec(template, inputs, (n - 1) as nat),
            "{"@ + inputs[n - 1].0 + "}"@,
            inputs[n - 1].1,
        )
    }
}

/// Fills the `{key}` placeholders of a workflow step with its inputs.
pub fn resolve_input(template: &str, inputs: &Vec<(String, String)>) -> (r: String)
    ensures
        r@ == resolve_spec(template@, inputs.deep_view(), inputs@.len() as nat),
{
    let mut result = template.to_string();
    let mut i: usize = 0;
    while i < inputs.len()
        invariant
            i <= inputs@.len(),
            result@ == resolve_spec(template@, inputs.deep_view(), i as nat),
        decreases inputs@.len() - i,
    {
        let mut key = "{".to_string();
        push_all(&mut key, inputs[i].0.as_str());
        push_all(&mut key, "}");
        proof {
            reveal_strlit("{");
            assert(key@.len() > 0);
            assert(inputs.deep_view()[i as int] == (inputs@[i as int].0@, inputs@[i as int].1@));
        }
        result = replace_str(result.as_str(), key.as_str(), inputs[i].1.as_str());
        i += 1;
    }
    result
}

} // verus!
