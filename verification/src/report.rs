//! Report shaping: output formats, severity labels and levels, counts, and the
//! content of Markdown and SARIF reports.
use vstd::prelude::*;
use crate::engine::{Finding, FindingView, finding_views};
use crate::schema::Severity;
use crate::text::{
    decimal, fmt_usize, lines, lines_of, push_all, lowercase, to_lowercase, trim, trim_str,
};

verus! {

#[derive(Debug, Clone, Copy, PartialEq, Eq, Structural)]
pub enum OutputFormat {
    Text,
    Json,
    Sarif,
    Markdown,
}

pub open spec fn output_format_of(w: Seq<char>) -> OutputFormat {
    if w == "json"@ {
        OutputFormat::Json
    } else if w == "sarif"@ {
        OutputFormat::Sarif
    } else if w == "markdown"@ || w == "md"@ {
        OutputFormat::Markdown
    } else {
        OutputFormat::Text
    }
}

impl OutputFormat {
    /// The format a (case-insensitive) name selects; text for anything else.
    pub fn from_str(s: &str) -> (f: OutputFormat)
        ensures
            f == output_format_of(lowercase(s@)),
    {
        let w = to_lowercase(s);
        if w == "json".to_string() {
            OutputFormat::Json
        } else if w == "sarif".to_string() {
            OutputFormat::Sarif
        } else if w == "markdown".to_string() || w == "md".to_string() {
            OutputFormat::Markdown
        } else {
            OutputFormat::Text
        }
    }
}

pub open spec fn sarif_level_spec(s: Severity) -> Seq<char> {
    match s {
        Severity::Critical | Severity::High => "error"@,
        Severity::Medium => "warning"@,
        Severity::Low | Severity::Info => "note"@,
    }
}

/// The SARIF level of a severity.
pub fn sarif_level(sev: &Severity) -> (r: &'static str)
    ensures
        r@ == sarif_level_spec(*sev),
{
    match sev {
        Severity::Critical | Severity::High => "error",
        Severity::Medium => "warning",
        Severity::Low | Severity::Info => "note",
    }
}

pub open spec fn severity_tag(s: Severity) -> Seq<char> {
    match s {
        Severity::Critical => "[CRITICAL]"@,
        Severity::High => "[HIGH]"@,
        Severity::Medium => "[MEDIUM]"@,
        Severity::Low => "[LOW]"@,
        Severity::Info => "[INFO]"@,
    }
}

/// The bracketed tag that Markdown reports show for a severity.
pub fn severity_emoji(sev: &Severity) -> (r: &'static str)
    ensures
        r@ == severity_tag(*sev),
{
    match sev {
        Severity::Critical => "[CRITICAL]",
        Severity::High => "[HIGH]",
        Severity::Medium => "[MEDIUM]",
        Severity::Low => "[LOW]",
        Severity::Info => "[INFO]",
    }
}

pub open spec fn severity_label_spec(s: Severity) -> Seq<char> {
    match s {
        Severity::Critical => "CRITICAL"@,
        Severity::High => "HIGH"@,
        Severity::Medium => "MEDIUM"@,
        Severity::Low => "LOW"@,
        Severity::Info => "INFO"@,
    }
}

/// The uppercase label that text reports show for a severity (which they
/// color by severity).
pub fn format_severity(sev: &Severity) -> (r: &'static str)
    ensures
        r@ == severity_label_spec(*sev),
{
    match sev {
        Severity::Critical => "CRITICAL",
        Severity::High => "HIGH",
        Severity::Medium => "MEDIUM",
        Severity::Low => "LOW",
        Severity::Info => "INFO",
    }
}

/// The lowercase label that a triage report shows for a severity.
pub fn severity_label(s: &Severity) -> (r: &'static str)
    ensures
        r@ == crate::schema::severity_name(*s),
{
    match s {
        Severity::Critical => "critical",
        Severity::High => "high",
        Severity::Medium => "medium",
        Severity::Low => "low",
        Severity::Info => "info",
    }
}

/// Findings of severity `s` among the first `n`.
pub open spec fn count_sev(fs: Seq<FindingView>, s: Severity, n: nat) -> nat
    decreases n,
{
    if n == 0 || n > fs.len() {
        0
    } else {
        count_sev(fs, s, (n - 1) as nat) + if fs[n - 1].severity == s {
            1nat
        } else {
            0nat
        }
    }
}

/// Number of findings of one severity.
pub fn count_severity(findings: &[Finding], sev: Severity) -> (n: usize)
    ensures
        n == count_sev(finding_views(findings@), sev, findings@.len()),
{
    let mut n: usize = 0;
    let mut i: usize = 0;
    while i < findings.len()
        invariant
            i <= findings@.len(),
            n <= i,
            n == count_sev(finding_views(findings@), sev, i as nat),
        decreases findings@.len() - i,
    {
        assert(finding_views(findings@)[i as int] == findings@[i as int]@);
        if findings[i].severity == sev {
            n += 1;
        }
        i += 1;
    }
    n
}

// ---------------------------------------------------------------------------
// Pieces of the text report
// ---------------------------------------------------------------------------

/// `s.lines().next().unwrap_or("")`.
pub open spec fn first_line(s: Seq<char>) -> Seq<char> {
    if lines(s).len() > 0 {
        lines(s)[0]
    } else {
        Seq::empty()
    }
}

pub fn first_line_str(s: &str) -> (r: String)
    ensures
        r@ == first_line(s@),
{
    let ls = lines_of(s);
    if ls.len() > 0 {
        ls[0].clone()
    } else {
        String::new()
    }
}

/// Where a finding is: `file:line`, with ` (in function)` when it has one.
pub open spec fn location_text(f: FindingView, file: Seq<char>) -> Seq<char> {
    match f.function {
        Some(func) => file + ":"@ + decimal(f.line as nat) + " (in "@ + func + ")"@,
        None => file + ":"@ + decimal(f.line as nat),
    }
}

pub fn finding_location(f: &Finding, file: &str) -> (r: String)
    ensures
        r@ == location_text(f@, file@),
{
    let mut r = file.to_string();
    push_all(&mut r, ":");
    let n = fmt_usize(f.line);
    push_all(&mut r, n.as_str());
    match &f.function {
        Some(func) => {
            push_all(&mut r, " (in ");
            push_all(&mut r, func.as_str());
            push_all(&mut r, ")");
            assert(r@ =~= file@ + ":"@ + decimal(f.line as nat) + " (in "@ + func@ + ")"@);
        },
        None => {
            assert(r@ =~= file@ + ":"@ + decimal(f.line as nat));
        },
    }
    r
}

/// The trimmed lines of `ls` that are not blank.
pub open spec fn nonblank_lines(ls: Seq<Seq<char>>) -> Seq<Seq<char>>
    decreases ls.len(),
{
    if ls.len() == 0 {
        Seq::empty()
    } else {
        let prev = nonblank_lines(ls.drop_last());
        if trim(ls.last()).len() > 0 {
            prev.push(trim(ls.last()))
        } else {
            prev
        }
    }
}

/// The lines a text report shows under a finding: the non-blank lines of its
/// report, else its matched text, else none.
pub open spec fn detail_lines_spec(f: FindingView) -> Seq<Seq<char>> {
    if f.report_format.len() > 0 {
        nonblank_lines(lines(f.report_format))
    } else if f.matched_text.len() > 0 {
        seq![f.matched_text]
    } else {
        Seq::empty()
    }
}

pub fn detail_lines(f: &Finding) -> (r: Vec<String>)
    ensures
        r.deep_view() == detail_lines_spec(f@),
{
    if !f.report_format.as_str().is_empty() {
        let ls = lines_of(f.report_format.as_str());
        let mut r: Vec<String> = Vec::new();
        let mut i: usize = 0;
        while i < ls.len()
            invariant
                i <= ls@.len(),
                r.deep_view() == nonblank_lines(ls.deep_view().take(i as int)),
            decreases ls@.len() - i,
        {
            let t = trim_str(ls[i].as_str());
            proof {
                assert(ls.deep_view().take(i + 1).drop_last() =~= ls.deep_view().take(i as int));
            }
            let ghost before = r.deep_view();
            if !t.as_str().is_empty() {
                r.push(t);
            }
            assert(r.deep_view() =~= nonblank_lines(ls.deep_view().take(i + 1)));
            i += 1;
        }
        assert(ls.deep_view().take(i as int) =~= ls.deep_view());
        r
    } else if !f.matched_text.as_str().is_empty() {
        let r = vec![f.matched_text.clone()];
        assert(r.deep_view() =~= seq![f@.matched_text]);
        r
    } else {
        let r: Vec<String> = Vec::new();
        assert(r.deep_view() =~= Seq::<Seq<char>>::empty());
        r
    }
}

/// The fix line a report shows: the first line of the suggestion, if any.
pub fn fix_line(f: &Finding) -> (r: Option<String>)
    ensures
        r.deep_view() == (if f@.suggestion.len() > 0 {
            Some(first_line(f@.suggestion))
        } else {
            None
        }),
{
    if f.suggestion.as_str().is_empty() {
        None
    } else {
        Some(first_line_str(f.suggestion.as_str()))
    }
}

/// `"{n} {label}"` for each of critical, high, medium and low that has findings.
pub open spec fn summary_parts_spec(fs: Seq<FindingView>) -> Seq<Seq<char>> {
    let part = |s: Severity, label: Seq<char>| if count_sev(fs, s, fs.len()) > 0 {
        seq![decimal(count_sev(fs, s, fs.len())) + " "@ + label]
    } else {
        Seq::<Seq<char>>::empty()
    };
    part(Severity::Critical, "critical"@) + part(Severity::High, "high"@) + part(
        Severity::Medium,
        "medium"@,
    ) + part(Severity::Low, "low"@)
}

fn push_count_part(parts: &mut Vec<String>, n: usize, label: &str)
    ensures
        final(parts).deep_view() == old(parts).deep_view() + if n > 0 {
            seq![decimal(n as nat) + " "@ + label@]
        } else {
            Seq::<Seq<char>>::empty()
        },
{
    let ghost before = parts.deep_view();
    if n > 0 {
        let mut p = fmt_usize(n);
        push_all(&mut p, " ");
        push_all(&mut p, label);
        parts.push(p);
        assert(parts.deep_view() =~= before + seq![decimal(n as nat) + " "@ + label@]);
    } else {
        assert(parts.deep_view() =~= before + Seq::<Seq<char>>::empty());
    }
}

/// The parts of the summary line; none when there is nothing above info.
pub fn summary_parts(findings: &[Finding]) -> (r: Vec<String>)
    ensures
        r.deep_view() == summary_parts_spec(finding_views(findings@)),
{
    let mut parts: Vec<String> = Vec::new();
    assert(parts.deep_view() =~= Seq::<Seq<char>>::empty());
    push_count_part(&mut parts, count_severity(findings, Severity::Critical), "critical");
    push_count_part(&mut parts, count_severity(findings, Severity::High), "high");
    push_count_part(&mut parts, count_severity(findings, Severity::Medium), "medium");
    push_count_part(&mut parts, count_severity(findings, Severity::Low), "low");
    proof {
        let fs = finding_views(findings@);
        assert(fs.len() == findings@.len());
        assert(parts.deep_view() =~= summary_parts_spec(fs));
    }
    parts
}

// ---------------------------------------------------------------------------
// Markdown report
// ---------------------------------------------------------------------------

/// A table row for a severity that has findings.
pub open spec fn md_count_row(label: Seq<char>, n: nat) -> Seq<char> {
    if n > 0 {
        "| "@ + label + " | "@ + decimal(n) + " |\n"@
    } else {
        Seq::empty()
    }
}

/// Where a finding is, as Markdown code spans.
pub open spec fn md_location(f: FindingView, file: Seq<char>) -> Seq<char> {
    match f.function {
        Some(func) => "`"@ + file + ":"@ + decimal(f.line as nat) + "` (in `"@ + func + "`)"@,
        None => "`"@ + file + ":"@ + decimal(f.line as nat) + "`"@,
    }
}

/// The Markdown section of one finding.
pub open spec fn md_section(f: FindingView, file: Seq<char>) -> Seq<char> {
    "### "@ + severity_tag(f.severity) + " `"@ + f.template_id + "` — "@ + f.template_name + "\n"@
        + "\n"@ + "**Location:** "@ + md_location(f, file) + "\n"@ + "\n"@ + (if f.report_format.len()
        > 0 {
        trim(f.report_format) + "\n"@ + "\n"@
    } else {
        Seq::empty()
    }) + (if f.suggestion.len() > 0 {
        "**Fix:** "@ + first_line(f.suggestion) + "\n"@ + "\n"@
    } else {
        Seq::empty()
    }) + "---\n"@ + "\n"@
}

pub open spec fn md_sections(fs: Seq<FindingView>, file: Seq<char>) -> Seq<char>
    decreases fs.len(),
{
    if fs.len() == 0 {
        Seq::empty()
    } else {
        md_sections(fs.drop_last(), file) + md_section(fs.last(), file)
    }
}

/// The Markdown report of the findings of one file.
pub open spec fn markdown_spec(fs: Seq<FindingView>, file: Seq<char>) -> Seq<char> {
    let head = "# Culebra Scan Report\n"@ + "\n"@ + "**File:** `"@ + file + "`\n"@ + "**Findings:** "@
        + decimal(fs.len()) + "\n"@ + "\n"@;
    if fs.len() == 0 {
        head + "No issues found.\n"@
    } else {
        head + "| Severity | Count |\n"@ + "|----------|-------|\n"@ + md_count_row(
            "Critical"@,
            count_sev(fs, Severity::Critical, fs.len()),
        ) + md_count_row("High"@, count_sev(fs, Severity::High, fs.len())) + md_count_row(
            "Medium"@,
            count_sev(fs, Severity::Medium, fs.len()),
        ) + md_count_row("Low"@, count_sev(fs, Severity::Low, fs.len())) + "\n"@ + md_sections(
            fs,
            file,
        )
    }
}

fn push_count_row(r: &mut String, label: &str, n: usize)
    ensures
        final(r)@ == old(r)@ + md_count_row(label@, n as nat),
{
    if n > 0 {
        let ghost before = r@;
        push_all(r, "| ");
        push_all(r, label);
        push_all(r, " | ");
        let d = fmt_usize(n);
        push_all(r, d.as_str());
        push_all(r, " |\n");
        assert(r@ =~= before + md_count_row(label@, n as nat));
    } else {
        assert(r@ =~= old(r)@ + md_count_row(label@, n as nat));
    }
}

#[verifier::rlimit(40)]
fn md_section_exec(f: &Finding, file: &str) -> (r: String)
    ensures
        r@ == md_section(f@, file@),
{
    let mut r = "### ".to_string();
    push_all(&mut r, severity_emoji(&f.severity));
    push_all(&mut r, " `");
    push_all(&mut r, f.template_id.as_str());
    push_all(&mut r, "` — ");
    push_all(&mut r, f.template_name.as_str());
    push_all(&mut r, "\n\n**Location:** ");
    let ghost p1 = r@;
    push_all(&mut r, "`");
    push_all(&mut r, file);
    push_all(&mut r, ":");
    let d = fmt_usize(f.line);
    push_all(&mut r, d.as_str());
    match &f.function {
        Some(func) => {
            push_all(&mut r, "` (in `");
            push_all(&mut r, func.as_str());
            push_all(&mut r, "`)");
        },
        None => {
            push_all(&mut r, "`");
        },
    }
    assert(r@ =~= p1 + md_location(f@, file@));
    push_all(&mut r, "\n\n");
    let ghost p2 = r@;
    if !f.report_format.as_str().is_empty() {
        let t = trim_str(f.report_format.as_str());
        push_all(&mut r, t.as_str());
        push_all(&mut r, "\n\n");
    }
    let ghost p3 = r@;
    if !f.suggestion.as_str().is_empty() {
        push_all(&mut r, "**Fix:** ");
        let l = first_line_str(f.suggestion.as_str());
        push_all(&mut r, l.as_str());
        push_all(&mut r, "\n\n");
    }
    let ghost p4 = r@;
    push_all(&mut r, "---\n\n");
    proof {
        reveal_strlit("\n\n");
        reveal_strlit("\n");
        reveal_strlit("\n\n**Location:** ");
        reveal_strlit("\n**Location:** ");
        reveal_strlit("**Location:** ");
        reveal_strlit("---\n\n");
        reveal_strlit("---\n");
        assert("\n\n**Location:** "@ =~= "\n"@ + "\n"@ + "**Location:** "@);
        assert("\n\n"@ =~= "\n"@ + "\n"@);
        assert("---\n\n"@ =~= "---\n"@ + "\n"@);
        assert(r@ =~= md_section(f@, file@));
    }
    r
}

/// The Markdown report of the findings of one file: a header, a count per
/// severity, and a section per finding.
pub fn markdown_report(findings: &[Finding], file: &str) -> (r: String)
    ensures
        r@ == markdown_spec(finding_views(findings@), file@),
{
    let ghost fs = finding_views(findings@);
    let mut r = "# Culebra Scan Report\n\n**File:** `".to_string();
    push_all(&mut r, file);
    push_all(&mut r, "`\n**Findings:** ");
    let d = fmt_usize(findings.len());
    push_all(&mut r, d.as_str());
    push_all(&mut r, "\n\n");
    let ghost head = r@;
    proof {
        reveal_strlit("# Culebra Scan Report\n\n**File:** `");
        reveal_strlit("# Culebra Scan Report\n");
        reveal_strlit("\n");
        reveal_strlit("**File:** `");
        reveal_strlit("`\n**Findings:** ");
        reveal_strlit("`\n");
        reveal_strlit("**Findings:** ");
        reveal_strlit("\n\n");
        assert(head =~= "# Culebra Scan Report\n"@ + "\n"@ + "**File:** `"@ + file@ + "`\n"@
            + "**Findings:** "@ + decimal(fs.len()) + "\n"@ + "\n"@);
    }
    if findings.len() == 0 {
        push_all(&mut r, "No issues found.\n");
        return r;
    }
    push_all(&mut r, "| Severity | Count |\n|----------|-------|\n");
    proof {
        reveal_strlit("| Severity | Count |\n|----------|-------|\n");
        reveal_strlit("| Severity | Count |\n");
        reveal_strlit("|----------|-------|\n");
        assert(r@ =~= head + "| Severity | Count |\n"@ + "|----------|-------|\n"@);
    }
    push_count_row(&mut r, "Critical", count_severity(findings, Severity::Critical));
    push_count_row(&mut r, "High", count_severity(findings, Severity::High));
    push_count_row(&mut r, "Medium", count_severity(findings, Severity::Medium));
    push_count_row(&mut r, "Low", count_severity(findings, Severity::Low));
    push_all(&mut r, "\n");
    let ghost table = r@;
    let mut i: usize = 0;
    while i < findings.len()
        invariant
            i <= findings@.len(),
            fs == finding_views(findings@),
            r@ == table + md_sections(fs.take(i as int), file@),
        decreases findings@.len() - i,
    {
        let sec = md_section_exec(&findings[i], file);
        proof {
            assert(fs.take(i + 1).drop_last() =~= fs.take(i as int));
            assert(fs.take(i + 1).last() == findings@[i as int]@);
        }
        let ghost before = r@;
        push_all(&mut r, sec.as_str());
        assert(r@ =~= table + md_sections(fs.take(i + 1), file@));
        i += 1;
    }
    assert(fs.take(i as int) =~= fs);
    assert(fs.len() == findings@.len());
    r
}

// ---------------------------------------------------------------------------
// SARIF report content
// ---------------------------------------------------------------------------

/// One SARIF result: the rule, its level, the message and the line.
#[derive(Debug, Clone)]
pub struct SarifResult {
    pub rule_id: String,
    pub level: String,
    pub message: String,
    pub line: usize,
}

/// One SARIF rule, one per finding.
#[derive(Debug, Clone)]
pub struct SarifRule {
    pub id: String,
    pub name: String,
    pub description: String,
    pub level: String,
    pub help: String,
}

pub open spec fn sarif_result_of(f: FindingView) -> (Seq<char>, Seq<char>, Seq<char>, usize) {
    (
        f.template_id,
        sarif_level_spec(f.severity),
        if f.report_format.len() > 0 {
            f.report_format
        } else {
            f.template_name
        },
        f.line,
    )
}

pub open spec fn sarif_rule_of(f: FindingView) -> (Seq<char>, Seq<char>, Seq<char>, Seq<char>, Seq<char>) {
    (f.template_id, f.template_name, f.description, sarif_level_spec(f.severity), f.suggestion)
}

/// The SARIF results of the findings: the message is the report when there is
/// one, else the template name.
pub fn sarif_results(findings: &[Finding]) -> (r: Vec<SarifResult>)
    ensures
        r@.len() == findings@.len(),
        forall|i: int|
            0 <= i < r@.len() ==> ((#[trigger] r@[i]).rule_id@, r@[i].level@, r@[i].message@, r@[i].line)
                == sarif_result_of(findings@[i]@),
{
    let mut r: Vec<SarifResult> = Vec::new();
    let mut i: usize = 0;
    while i < findings.len()
        invariant
            i <= findings@.len(),
            r@.len() == i,
            forall|j: int|
                0 <= j < i ==> ((#[trigger] r@[j]).rule_id@, r@[j].level@, r@[j].message@, r@[j].line)
                    == sarif_result_of(findings@[j]@),
        decreases findings@.len() - i,
    {
        let f = &findings[i];
        let message = if !f.report_format.as_str().is_empty() {
            f.report_format.clone()
        } else {
            f.template_name.clone()
        };
        r.push(
            SarifResult {
                rule_id: f.template_id.clone(),
                level: sarif_level(&f.severity).to_string(),
                message,
                line: f.line,
            },
        );
        i += 1;
    }
    r
}

/// The SARIF rules of the findings, one per finding.
pub fn sarif_rules(findings: &[Finding]) -> (r: Vec<SarifRule>)
    ensures
        r@.len() == findings@.len(),
        forall|i: int|
            0 <= i < r@.len() ==> ((#[trigger] r@[i]).id@, r@[i].name@, r@[i].description@, r@[i].level@,
            r@[i].help@) == sarif_rule_of(findings@[i]@),
{
    let mut r: Vec<SarifRule> = Vec::new();
    let mut i: usize = 0;
    while i < findings.len()
        invariant
            i <= findings@.len(),
            r@.len() == i,
            forall|j: int|
                0 <= j < i ==> ((#[trigger] r@[j]).id@, r@[j].name@, r@[j].description@, r@[j].level@,
                r@[j].help@) == sarif_rule_of(findings@[j]@),
        decreases findings@.len() - i,
    {
        let f = &findings[i];
        r.push(
            SarifRule {
                id: f.template_id.clone(),
                name: f.template_name.clone(),
                description: f.description.clone(),
                level: sarif_level(&f.severity).to_string(),
                help: f.suggestion.clone(),
            },
        );
        i += 1;
    }
    r
}

} // verus!
