//! The template engine: runs a template's matchers, sequences and extractors
//! over an IR module and reports findings.
use vstd::prelude::*;
use vstd::string::StringSliceAdditionalSpecFns;
use crate::ir::{IRFunction, IRFunctionView, IRModule, IRModuleView};
use crate::rx::{
    captures, captures_ok, group_str, group_text, regex_compiles, regex_escape, regex_escaped,
    regex_is_valid, rx_caps, span_ok,
};
use crate::schema::{
    Autofix, AutofixView, Condition, CrossRefStep, CrossRefStepView, ExtractorType, FileType, MatchBlock, Matcher,
    MatcherCondition, MatcherType, MatcherView, Section, SequenceStep, SequenceStepView,
    Severity, Template, TemplateView, copy_strings,
};
use crate::text::{
    contains, contains_str, lines, lines_of, push_all, replace_all, replace_str, starts_with,
    starts_with_str, trim, trim_str,
};
use vstd::utf8::encode_utf8;

verus! {

// ---------------------------------------------------------------------------
// Finding — a single match result from a template
// ---------------------------------------------------------------------------

#[derive(Debug, Clone)]
pub struct Finding {
    pub template_id: String,
    pub template_name: String,
    pub severity: Severity,
    pub tags: Vec<String>,
    pub matched_text: String,
    pub line: usize,
    pub function: Option<String>,
    /// Extracted name/value pairs, names unique, in insertion order.
    pub extractions: Vec<(String, String)>,
    pub report_format: String,
    pub suggestion: String,
    pub description: String,
    pub impact: String,
    pub cwe: String,
    pub autofix: Option<Autofix>,
}

pub struct FindingView {
    pub template_id: Seq<char>,
    pub template_name: Seq<char>,
    pub severity: Severity,
    pub tags: Seq<Seq<char>>,
    pub matched_text: Seq<char>,
    pub line: usize,
    pub function: Option<Seq<char>>,
    pub extractions: Seq<(Seq<char>, Seq<char>)>,
    pub report_format: Seq<char>,
    pub suggestion: Seq<char>,
    pub description: Seq<char>,
    pub impact: Seq<char>,
    pub cwe: Seq<char>,
    pub autofix: Option<AutofixView>,
}

impl View for Finding {
    type V = FindingView;

    open spec fn view(&self) -> FindingView {
        FindingView {
            template_id: self.template_id@,
            template_name: self.template_name@,
            severity: self.severity,
            tags: self.tags.deep_view(),
            matched_text: self.matched_text@,
            line: self.line,
            function: self.function.deep_view(),
            extractions: self.extractions.deep_view(),
            report_format: self.report_format@,
            suggestion: self.suggestion@,
            description: self.description@,
            impact: self.impact@,
            cwe: self.cwe@,
            autofix: match self.autofix {
                Some(a) => Some(a@),
                None => None,
            },
        }
    }
}

pub open spec fn finding_views(fs: Seq<Finding>) -> Seq<FindingView> {
    fs.map_values(|f: Finding| f@)
}

// ---------------------------------------------------------------------------
// Name/value maps as association lists
// ---------------------------------------------------------------------------

/// Index of the first entry with key `k`, from `i` on.
pub open spec fn key_index<V>(m: Seq<(Seq<char>, V)>, k: Seq<char>, i: int) -> Option<int>
    decreases m.len() - i,
{
    if i < 0 || i >= m.len() {
        None
    } else if m[i].0 == k {
        Some(i)
    } else {
        key_index(m, k, i + 1)
    }
}

/// `HashMap::insert`: replace the value of key `k`, or append the entry.
pub open spec fn map_insert<V>(m: Seq<(Seq<char>, V)>, k: Seq<char>, v: V) -> Seq<(Seq<char>, V)> {
    match key_index(m, k, 0) {
        Some(i) => m.update(i, (k, v)),
        None => m.push((k, v)),
    }
}

/// `HashMap::get`.
pub open spec fn map_get<V>(m: Seq<(Seq<char>, V)>, k: Seq<char>) -> Option<V> {
    match key_index(m, k, 0) {
        Some(i) => Some(m[i].1),
        None => None,
    }
}

pub(crate) proof fn lemma_key_index<V>(m: Seq<(Seq<char>, V)>, k: Seq<char>, i: int)
    requires
        0 <= i,
    ensures
        key_index(m, k, i) matches Some(j) ==> i <= j < m.len() && m[j].0 == k && forall|l: int|
            i <= l < j ==> m[l].0 != k,
        key_index(m, k, i) is None ==> forall|l: int| i <= l < m.len() ==> m[l].0 != k,
    decreases m.len() - i,
{
    if i < m.len() && m[i].0 != k {
        lemma_key_index(m, k, i + 1);
    }
}

pub(crate) fn find_key_str(m: &Vec<(String, String)>, k: &String) -> (r: Option<usize>)
    ensures
        r matches Some(i) ==> key_index(m.deep_view(), k@, 0) == Some(i as int),
        r is None ==> key_index(m.deep_view(), k@, 0) is None,
{
    let mut i: usize = 0;
    while i < m.len()
        invariant
            i <= m@.len(),
            key_index(m.deep_view(), k@, 0) == key_index(m.deep_view(), k@, i as int),
        decreases m@.len() - i,
    {
        if m[i].0 == *k {
            assert(m.deep_view()[i as int].0 == k@);
            return Some(i);
        }
        assert(m.deep_view()[i as int].0 != k@);
        i += 1;
    }
    None
}

/// Inserts `k => v`, replacing the value of an existing `k`.
pub fn insert_pair(m: &mut Vec<(String, String)>, k: String, v: String)
    ensures
        final(m).deep_view() == map_insert(old(m).deep_view(), k@, v@),
{
    match find_key_str(m, &k) {
        Some(i) => {
            proof {
                lemma_key_index(m.deep_view(), k@, 0);
            }
            let ghost before = m.deep_view();
            let ghost kv = k@;
            let ghost vv = v@;
            m.set(i, (k, v));
            assert(m.deep_view() =~= before.update(i as int, (kv, vv)));
        },
        None => {
            let ghost before = m.deep_view();
            let ghost kv = k@;
            let ghost vv = v@;
            m.push((k, v));
            assert(m.deep_view() =~= before.push((kv, vv)));
        },
    }
}

// ---------------------------------------------------------------------------
// Interpolation
// ---------------------------------------------------------------------------

/// `{key}` of a variable name.
pub open spec fn placeholder(k: Seq<char>) -> Seq<char> {
    seq!['{'] + k + seq!['}']
}

/// Replaces `{key}` by its value for the first `n` variables in turn.
pub open spec fn interpolate_n(t: Seq<char>, vars: Seq<(Seq<char>, Seq<char>)>, n: nat) -> Seq<char>
    decreases n,
{
    if n == 0 || n > vars.len() {
        t
    } else {
        replace_all(interpolate_n(t, vars, (n - 1) as nat), placeholder(vars[n - 1].0), vars[n - 1].1)
    }
}

pub open spec fn interpolate_spec(t: Seq<char>, vars: Seq<(Seq<char>, Seq<char>)>) -> Seq<char> {
    interpolate_n(t, vars, vars.len())
}

/// Replaces each `{name}` by its value, one variable after another.
pub fn interpolate(template: &str, vars: &Vec<(String, String)>) -> (r: String)
    ensures
        r@ == interpolate_spec(template@, vars.deep_view()),
{
    let mut result = template.to_string();
    let mut i: usize = 0;
    while i < vars.len()
        invariant
            i <= vars@.len(),
            result@ == interpolate_n(template@, vars.deep_view(), i as nat),
        decreases vars@.len() - i,
    {
        let mut key = String::new();
        key.push('{');
        push_all(&mut key, vars[i].0.as_str());
        key.push('}');
        assert(key@ =~= placeholder(vars.deep_view()[i as int].0));
        result = replace_str(result.as_str(), key.as_str(), vars[i].1.as_str());
        i += 1;
    }
    result
}

// ---------------------------------------------------------------------------
// Findings
// ---------------------------------------------------------------------------

pub open spec fn make_finding_spec(
    t: TemplateView,
    matched_text: Seq<char>,
    line: usize,
    function: Option<Seq<char>>,
    extractions: Seq<(Seq<char>, Seq<char>)>,
) -> FindingView {
    FindingView {
        template_id: t.id,
        template_name: t.info.name,
        severity: t.info.severity,
        tags: t.info.tags,
        matched_text,
        line,
        function,
        extractions,
        report_format: Seq::empty(),
        suggestion: match t.remediation {
            Some(r) => r.suggestion,
            None => Seq::empty(),
        },
        description: t.info.description,
        impact: t.info.impact,
        cwe: t.info.cwe,
        autofix: match t.remediation {
            Some(r) => r.autofix,
            None => None,
        },
    }
}

fn make_finding(
    template: &Template,
    matched_text: String,
    line: usize,
    function: Option<String>,
    extractions: Vec<(String, String)>,
) -> (f: Finding)
    ensures
        f@ == make_finding_spec(template@, matched_text@, line, function.deep_view(), extractions.deep_view()),
{
    Finding {
        template_id: template.id.clone(),
        template_name: template.info.name.clone(),
        severity: template.info.severity,
        tags: copy_strings(&template.info.tags),
        matched_text,
        line,
        function,
        extractions,
        report_format: String::new(),
        suggestion: match &template.remediation {
            Some(r) => r.suggestion.clone(),
            None => String::new(),
        },
        description: template.info.description.clone(),
        impact: template.info.impact.clone(),
        cwe: template.info.cwe.clone(),
        autofix: match &template.remediation {
            Some(r) => match &r.autofix {
                Some(a) => Some(a.copy()),
                None => None,
            },
            None => None,
        },
    }
}

// ---------------------------------------------------------------------------
// Single matchers
// ---------------------------------------------------------------------------

/// Some pattern compiles and matches `text`.
pub open spec fn any_pattern_matches(ps: Seq<Seq<char>>, text: Seq<char>) -> bool {
    exists|k: int| 0 <= k < ps.len() && crate::rx::rx_count(#[trigger] ps[k], text) > 0
}

/// Some byte of `b` lies in `lo..=hi` and is not excluded.
pub open spec fn byte_hit(b: Seq<u8>, lo: u8, hi: u8, ex: Seq<u8>) -> bool {
    exists|i: int| 0 <= i < b.len() && lo <= #[trigger] b[i] && b[i] <= hi && !ex.contains(b[i])
}

pub open spec fn match_single_spec(m: MatcherView, text: Seq<char>) -> bool {
    let negated = m.condition == Some(MatcherCondition::NotContains);
    match m.matcher_type {
        MatcherType::Regex => any_pattern_matches(m.pattern, text) != negated,
        MatcherType::Contains => (match m.value {
            Some(v) => contains(text, v),
            None => false,
        }) != negated,
        MatcherType::ByteScan => match m.byte_range {
            Some(r) => r.len() == 2 && byte_hit(
                encode_utf8(text),
                r[0],
                r[1],
                match m.exclude {
                    Some(e) => e,
                    None => Seq::empty(),
                },
            ),
            None => false,
        },
    }
}

/// Whether `pattern` compiles and matches somewhere in `text`.
pub fn regex_matches(pattern: &str, text: &str) -> (b: bool)
    ensures
        b == (crate::rx::rx_count(pattern@, text@) > 0),
{
    let c = captures(pattern, text);
    assert(c.deep_view().len() == c@.len());
    c.len() > 0
}

fn bytes_contain(v: &Vec<u8>, b: u8) -> (r: bool)
    ensures
        r == v@.contains(b),
{
    let mut i: usize = 0;
    while i < v.len()
        invariant
            i <= v@.len(),
            forall|j: int| 0 <= j < i ==> v@[j] != b,
        decreases v@.len() - i,
    {
        if v[i] == b {
            return true;
        }
        i += 1;
    }
    false
}

/// Whether one matcher accepts one line.
pub fn match_single(matcher: &Matcher, text: &str) -> (b: bool)
    ensures
        b == match_single_spec(matcher@, text@),
{
    let negated = matcher.condition == Some(MatcherCondition::NotContains);
    match matcher.matcher_type {
        MatcherType::Regex => {
            let mut matched = false;
            let mut k: usize = 0;
            while k < matcher.pattern.len()
                invariant
                    k <= matcher.pattern@.len(),
                    matched == exists|j: int|
                        0 <= j < k && crate::rx::rx_count(#[trigger] matcher@.pattern[j], text@) > 0,
                decreases matcher.pattern@.len() - k,
            {
                let hit = regex_matches(matcher.pattern[k].as_str(), text);
                proof {
                    assert(matcher@.pattern[k as int] == matcher.pattern@[k as int]@);
                }
                matched = matched || hit;
                k += 1;
            }
            assert(matcher@.pattern.len() == matcher.pattern@.len());
            matched != negated
        },
        MatcherType::Contains => {
            let matched = match &matcher.value {
                Some(v) => contains_str(text, v.as_str()),
                None => false,
            };
            matched != negated
        },
        MatcherType::ByteScan => {
            match &matcher.byte_range {
                Some(range) => {
                    assert(range.deep_view() =~= range@);
                    if range.len() == 2 {
                        let lo = range[0];
                        let hi = range[1];
                        let empty: Vec<u8> = Vec::new();
                        let exclude = match &matcher.exclude {
                            Some(e) => e,
                            None => &empty,
                        };
                        proof {
                            match &matcher.exclude {
                                Some(e) => {
                                    assert(e.deep_view() =~= e@);
                                },
                                None => {
                                    assert(empty@ =~= Seq::<u8>::empty());
                                },
                            }
                        }
                        let bytes = text.as_bytes();
                        let mut i: usize = 0;
                        while i < bytes.len()
                            invariant
                                i <= bytes@.len(),
                                bytes@ == encode_utf8(text@),
                                exclude@ == (match matcher@.exclude {
                                    Some(e) => e,
                                    None => Seq::<u8>::empty(),
                                }),
                                matcher@.byte_range == Some(range@),
                                matcher@.matcher_type == MatcherType::ByteScan,
                                range@.len() == 2,
                                range@[0] == lo,
                                range@[1] == hi,
                                forall|j: int|
                                    0 <= j < i ==> !(lo <= #[trigger] bytes@[j] && bytes@[j] <= hi
                                        && !exclude@.contains(bytes@[j])),
                            decreases bytes@.len() - i,
                        {
                            let b = bytes[i];
                            if b >= lo && b <= hi && !bytes_contain(exclude, b) {
                                proof {
                                    let ex = match matcher@.exclude {
                                        Some(e) => e,
                                        None => Seq::<u8>::empty(),
                                    };
                                    assert(lo <= bytes@[i as int] && bytes@[i as int] <= hi && !ex.contains(bytes@[i as int]));
                                    assert(byte_hit(encode_utf8(text@), lo, hi, ex));
                                }
                                return true;
                            }
                            i += 1;
                        }
                    }
                    false
                },
                None => false,
            }
        },
    }
}

// ---------------------------------------------------------------------------
// Target lines
// ---------------------------------------------------------------------------

pub open spec fn flatten_seq<A>(ss: Seq<Seq<A>>) -> Seq<A>
    decreases ss.len(),
{
    if ss.len() == 0 {
        Seq::empty()
    } else {
        flatten_seq(ss.drop_last()) + ss.last()
    }
}

/// Whether a source line belongs to a (non-function) section.
pub open spec fn line_selected(sec: Section, l: Seq<char>) -> bool {
    let t = trim(l);
    match sec {
        Section::Globals => starts_with(t, "@"@) && (contains(t, "constant"@) || contains(t, "global"@)),
        Section::Declarations => starts_with(t, "declare"@),
        Section::Metadata => starts_with(t, "!"@),
        _ => true,
    }
}

/// The selected lines among the first `n`, with 1-based line numbers.
pub open spec fn numbered_lines(ls: Seq<Seq<char>>, sec: Section, n: nat) -> Seq<(usize, Seq<char>)>
    decreases n,
{
    if n == 0 || n > ls.len() {
        Seq::empty()
    } else {
        let prev = numbered_lines(ls, sec, (n - 1) as nat);
        if line_selected(sec, ls[n - 1]) {
            prev.push((n as usize, ls[n - 1]))
        } else {
            prev
        }
    }
}

/// The lines of a function body numbered from its first line.
pub open spec fn body_lines(f: IRFunctionView) -> Seq<(usize, Seq<char>)> {
    Seq::new(
        lines(f.body).len(),
        |i: int| (f.line_start.wrapping_add(i as usize), lines(f.body)[i]),
    )
}

/// The lines a template looks at, with their line numbers.
pub open spec fn target_lines(sec: Section, m: IRModuleView) -> Seq<(usize, Seq<char>)> {
    match sec {
        Section::Functions => flatten_seq(m.functions.map_values(|f: IRFunctionView| body_lines(f))),
        _ => numbered_lines(lines(m.source), sec, lines(m.source).len()),
    }
}

fn line_selected_exec(sec: Section, l: &str) -> (b: bool)
    ensures
        b == line_selected(sec, l@),
{
    let t = trim_str(l);
    let ts = t.as_str();
    match sec {
        Section::Globals => starts_with_str(ts, "@") && (contains_str(ts, "constant")
            || contains_str(ts, "global")),
        Section::Declarations => starts_with_str(ts, "declare"),
        Section::Metadata => starts_with_str(ts, "!"),
        _ => true,
    }
}

/// Lines of a section, numbered from 1.
pub fn section_lines(section: Section, module: &IRModule) -> (r: Vec<(usize, String)>)
    ensures
        r.deep_view() == target_lines(section, module@),
{
    let mut r: Vec<(usize, String)> = Vec::new();
    match section {
        Section::Functions => {
            let ghost fs = module@.functions;
            let mut i: usize = 0;
            while i < module.functions.len()
                invariant
                    i <= module.functions@.len(),
                    fs == module@.functions,
                    r.deep_view() == flatten_seq(fs.take(i as int).map_values(|f: IRFunctionView| body_lines(f))),
                decreases module.functions@.len() - i,
            {
                let f = &module.functions[i];
                let ls = lines_of(f.body.as_str());
                let ghost before = r.deep_view();
                let mut k: usize = 0;
                while k < ls.len()
                    invariant
                        k <= ls@.len(),
                        ls.deep_view() == lines(f@.body),
                        r.deep_view() == before + body_lines(f@).take(k as int),
                    decreases ls@.len() - k,
                {
                    let ghost b2 = r.deep_view();
                    r.push((f.line_start.wrapping_add(k), ls[k].clone()));
                    proof {
                        assert(r.deep_view() =~= b2.push(body_lines(f@)[k as int]));
                        assert(body_lines(f@).take(k + 1) =~= body_lines(f@).take(k as int).push(body_lines(f@)[k as int]));
                    }
                    k += 1;
                }
                proof {
                    assert(body_lines(f@).take(k as int) =~= body_lines(f@));
                    let m = fs.take(i + 1).map_values(|f: IRFunctionView| body_lines(f));
                    assert(m.drop_last() =~= fs.take(i as int).map_values(|f: IRFunctionView| body_lines(f)));
                    assert(fs[i as int] == f@);
                }
                i += 1;
            }
            assert(fs.take(i as int) =~= fs);
        },
        _ => {
            let ls = lines_of(module.source.as_str());
            let mut i: usize = 0;
            while i < ls.len()
                invariant
                    i <= ls@.len(),
                    section != Section::Functions,
                    ls.deep_view() == lines(module@.source),
                    r.deep_view() == numbered_lines(ls.deep_view(), section, i as nat),
                decreases ls@.len() - i,
            {
                if line_selected_exec(section, ls[i].as_str()) {
                    let ghost b2 = r.deep_view();
                    r.push((i + 1, ls[i].clone()));
                    assert(r.deep_view() =~= b2.push(((i + 1) as usize, ls.deep_view()[i as int])));
                }
                i += 1;
            }
        },
    }
    r
}

/// Lines of the section that a template scopes, numbered from 1.
pub fn get_target_lines(template: &Template, module: &IRModule) -> (r: Vec<(usize, String)>)
    ensures
        r.deep_view() == target_lines(template@.scope.section, module@),
{
    section_lines(template.scope.section, module)
}

// ---------------------------------------------------------------------------
// Matcher-based matching
// ---------------------------------------------------------------------------

/// Group `g` took part in match `c`.
pub open spec fn group_present(c: Seq<Option<(usize, usize)>>, g: int) -> bool {
    0 <= g < c.len() && c[g] is Some
}

/// The first match of `p` in `text` binds `name` to group `g` when that group
/// took part.
pub open spec fn extract_first(
    ex: Seq<(Seq<char>, Seq<char>)>,
    name: Seq<char>,
    g: int,
    p: Seq<char>,
    text: Seq<char>,
) -> Seq<(Seq<char>, Seq<char>)> {
    let c = rx_caps(p, text);
    if c.len() > 0 && group_present(c[0], g) {
        map_insert(ex, name, group_text(text, c[0], g))
    } else {
        ex
    }
}

pub open spec fn inline_ex_pats(
    ex: Seq<(Seq<char>, Seq<char>)>,
    name: Seq<char>,
    g: int,
    pats: Seq<Seq<char>>,
    text: Seq<char>,
    n: nat,
) -> Seq<(Seq<char>, Seq<char>)>
    decreases n,
{
    if n == 0 || n > pats.len() {
        ex
    } else {
        extract_first(inline_ex_pats(ex, name, g, pats, text, (n - 1) as nat), name, g, pats[n - 1], text)
    }
}

/// What the inline extractors of the first `n` matchers take from a line.
pub open spec fn inline_ex(ms: Seq<MatcherView>, text: Seq<char>, n: nat) -> Seq<
    (Seq<char>, Seq<char>),
>
    decreases n,
{
    if n == 0 || n > ms.len() {
        Seq::empty()
    } else {
        let e = inline_ex(ms, text, (n - 1) as nat);
        match ms[n - 1].extractor {
            Some(x) => inline_ex_pats(e, x.0, x.1 as int, ms[n - 1].pattern, text, ms[n - 1].pattern.len()),
            None => e,
        }
    }
}

/// The matchers accept a line: one of them for `or`, all for `and`/`all`.
pub open spec fn line_matches(ms: Seq<MatcherView>, cond: Condition, text: Seq<char>) -> bool {
    match cond {
        Condition::Or => exists|k: int| 0 <= k < ms.len() && match_single_spec(#[trigger] ms[k], text),
        _ => forall|k: int| 0 <= k < ms.len() ==> match_single_spec(#[trigger] ms[k], text),
    }
}

/// Findings of a matcher list over the first `n` target lines.
pub open spec fn matcher_findings(
    t: TemplateView,
    ms: Seq<MatcherView>,
    cond: Condition,
    ls: Seq<(usize, Seq<char>)>,
    n: nat,
) -> Seq<FindingView>
    decreases n,
{
    if n == 0 || n > ls.len() {
        Seq::empty()
    } else {
        let prev = matcher_findings(t, ms, cond, ls, (n - 1) as nat);
        let (ln, text) = ls[n - 1];
        if line_matches(ms, cond, text) {
            prev.push(make_finding_spec(t, text, ln, None, inline_ex(ms, text, ms.len())))
        } else {
            prev
        }
    }
}

fn extract_first_exec(ex: &mut Vec<(String, String)>, name: &String, g: usize, p: &str, text: &str)
    ensures
        final(ex).deep_view() == extract_first(old(ex).deep_view(), name@, g as int, p@, text@),
{
    let c = captures(p, text);
    if c.len() > 0 {
        proof {
            crate::ir::lemma_match_spans(c.deep_view(), 0, text.spec_bytes());
            assert(c.deep_view()[0] == c[0].deep_view());
        }
        if g < c[0].len() && c[0][g].is_some() {
            let v = group_str(text, &c[0], g);
            insert_pair(ex, name.clone(), v);
        }
    }
}

fn inline_extractions(matchers: &Vec<Matcher>, text: &str) -> (ex: Vec<(String, String)>)
    ensures
        ex.deep_view() == inline_ex(matchers@.map_values(|m: Matcher| m@), text@, matchers@.len()),
{
    let ghost ms = matchers@.map_values(|m: Matcher| m@);
    let mut ex: Vec<(String, String)> = Vec::new();
    let mut k: usize = 0;
    while k < matchers.len()
        invariant
            k <= matchers@.len(),
            ms == matchers@.map_values(|m: Matcher| m@),
            ex.deep_view() == inline_ex(ms, text@, k as nat),
        decreases matchers@.len() - k,
    {
        let m = &matchers[k];
        assert(ms[k as int] == m@);
        match &m.extractor {
            Some(x) => {
                let ghost e0 = ex.deep_view();
                let mut j: usize = 0;
                while j < m.pattern.len()
                    invariant
                        j <= m.pattern@.len(),
                        ex.deep_view() == inline_ex_pats(e0, x.name@, x.group as int, m@.pattern, text@, j as nat),
                    decreases m.pattern@.len() - j,
                {
                    assert(m@.pattern[j as int] == m.pattern@[j as int]@);
                    extract_first_exec(&mut ex, &x.name, x.group, m.pattern[j].as_str(), text);
                    j += 1;
                }
                assert(m@.pattern.len() == m.pattern@.len());
            },
            None => {},
        }
        k += 1;
    }
    ex
}

fn line_matches_exec(matchers: &Vec<Matcher>, cond: Condition, text: &str) -> (b: bool)
    ensures
        b == line_matches(matchers@.map_values(|m: Matcher| m@), cond, text@),
{
    let ghost ms = matchers@.map_values(|m: Matcher| m@);
    let mut any = false;
    let mut all = true;
    let mut k: usize = 0;
    while k < matchers.len()
        invariant
            k <= matchers@.len(),
            ms == matchers@.map_values(|m: Matcher| m@),
            any == exists|j: int| 0 <= j < k && match_single_spec(#[trigger] ms[j], text@),
            all == forall|j: int| 0 <= j < k ==> match_single_spec(#[trigger] ms[j], text@),
        decreases matchers@.len() - k,
    {
        let r = match_single(&matchers[k], text);
        assert(ms[k as int] == matchers@[k as int]@);
        any = any || r;
        all = all && r;
        k += 1;
    }
    match cond {
        Condition::Or => any,
        _ => all,
    }
}

/// Findings for the target lines that the matchers accept.
pub fn run_matchers(
    template: &Template,
    module: &IRModule,
    matchers: &Vec<Matcher>,
    condition: Condition,
) -> (r: Vec<Finding>)
    ensures
        finding_views(r@) == matcher_findings(
            template@,
            matchers@.map_values(|m: Matcher| m@),
            condition,
            target_lines(template@.scope.section, module@),
            target_lines(template@.scope.section, module@).len(),
        ),
{
    let ls = get_target_lines(template, module);
    let ghost ms = matchers@.map_values(|m: Matcher| m@);
    let mut r: Vec<Finding> = Vec::new();
    let mut i: usize = 0;
    while i < ls.len()
        invariant
            i <= ls@.len(),
            ms == matchers@.map_values(|m: Matcher| m@),
            ls.deep_view() == target_lines(template@.scope.section, module@),
            finding_views(r@) == matcher_findings(template@, ms, condition, ls.deep_view(), i as nat),
        decreases ls@.len() - i,
    {
        let text = ls[i].1.as_str();
        let ln = ls[i].0;
        assert(ls.deep_view()[i as int] == (ln, text@));
        if line_matches_exec(matchers, condition, text) {
            let ex = inline_extractions(matchers, text);
            assert(ms.len() == matchers@.len());
            let f = make_finding(template, ls[i].1.clone(), ln, None, ex);
            let ghost before = r@;
            r.push(f);
            assert(finding_views(r@) =~= finding_views(before).push(f@));
        }
        i += 1;
    }
    r
}

// ---------------------------------------------------------------------------
// Sequence matching — multi-step patterns within function bodies
// ---------------------------------------------------------------------------

/// State of a sequence match: escaped captures, the line after each step's
/// match, the first matching line and its text.
pub struct SeqState {
    pub caps: Seq<(Seq<char>, Seq<char>)>,
    pub pos: Seq<(Seq<char>, usize)>,
    pub first: usize,
    pub text: Seq<char>,
}

/// Largest recorded position (0 when none).
pub open spec fn max_pos(pos: Seq<(Seq<char>, usize)>) -> usize
    decreases pos.len(),
{
    if pos.len() == 0 {
        0
    } else {
        let m = max_pos(pos.drop_last());
        if pos.last().1 > m {
            pos.last().1
        } else {
            m
        }
    }
}

/// Line where a step starts searching: after the named step, else after the
/// furthest step so far.
pub open spec fn step_start(st: SeqState, step: SequenceStepView) -> usize {
    match step.after {
        Some(a) => match map_get(st.pos, a) {
            Some(v) => v,
            None => 0,
        },
        None => max_pos(st.pos),
    }
}

/// Line where a step stops searching.
pub open spec fn step_end(start: usize, step: SequenceStepView, n: nat) -> usize {
    match step.within_lines {
        Some(w) => if start.wrapping_add(w) < n {
            start.wrapping_add(w)
        } else {
            n as usize
        },
        None => n as usize,
    }
}

/// First line in `i..end` that `p` matches.
pub open spec fn first_hit(p: Seq<char>, ls: Seq<Seq<char>>, i: int, end: int) -> Option<int>
    decreases end - i,
{
    if i < 0 || i >= end || end > ls.len() {
        None
    } else if crate::rx::rx_count(p, ls[i]) > 0 {
        Some(i)
    } else {
        first_hit(p, ls, i + 1, end)
    }
}

/// The escaped text of each present capture group, bound to its name.
pub open spec fn capture_fold(
    caps: Seq<(Seq<char>, Seq<char>)>,
    names: Seq<(Seq<char>, usize)>,
    c: Seq<Option<(usize, usize)>>,
    text: Seq<char>,
    n: nat,
) -> Seq<(Seq<char>, Seq<char>)>
    decreases n,
{
    if n == 0 || n > names.len() {
        caps
    } else {
        let prev = capture_fold(caps, names, c, text, (n - 1) as nat);
        let g = names[n - 1].1 as int;
        if group_present(c, g) {
            map_insert(prev, names[n - 1].0, regex_escaped(group_text(text, c, g)))
        } else {
            prev
        }
    }
}

/// One step of a sequence, or `None` when the sequence fails there.
pub open spec fn seq_step(st: SeqState, step: SequenceStepView, ls: Seq<Seq<char>>) -> Option<SeqState> {
    let start = step_start(st, step);
    let end = step_end(start, step, ls.len());
    let pattern = interpolate_spec(step.pattern, st.caps);
    if !regex_compiles(pattern) {
        None
    } else if step.step_type == Some("absent"@) {
        if first_hit(pattern, ls, start as int, end as int) is Some {
            None
        } else {
            Some(SeqState { pos: map_insert(st.pos, step.id, start), ..st })
        }
    } else {
        match first_hit(pattern, ls, start as int, end as int) {
            None => None,
            Some(i) => {
                let c = rx_caps(pattern, ls[i])[0];
                Some(
                    SeqState {
                        caps: capture_fold(st.caps, step.capture, c, ls[i], step.capture.len()),
                        pos: map_insert(st.pos, step.id, (i + 1) as usize),
                        first: if st.first == 0 {
                            i as usize
                        } else {
                            st.first
                        },
                        text: if st.first == 0 {
                            ls[i]
                        } else {
                            st.text
                        },
                    },
                )
            },
        }
    }
}

pub open spec fn seq_run(steps: Seq<SequenceStepView>, ls: Seq<Seq<char>>, n: nat) -> Option<SeqState>
    decreases n,
{
    if n == 0 || n > steps.len() {
        Some(SeqState { caps: Seq::empty(), pos: Seq::empty(), first: 0, text: Seq::empty() })
    } else {
        match seq_run(steps, ls, (n - 1) as nat) {
            Some(st) => seq_step(st, steps[n - 1], ls),
            None => None,
        }
    }
}

/// The finding of a sequence in one function, if every step holds.
pub open spec fn sequence_finding(t: TemplateView, steps: Seq<SequenceStepView>, f: IRFunctionView) -> Option<
    FindingView,
> {
    seq_finding_lines(t, steps, lines(f.body), f)
}

/// The finding of a sequence over given body lines of a function.
pub open spec fn seq_finding_lines(
    t: TemplateView,
    steps: Seq<SequenceStepView>,
    ls: Seq<Seq<char>>,
    f: IRFunctionView,
) -> Option<FindingView> {
    match seq_run(steps, ls, steps.len()) {
        Some(st) => Some(
            make_finding_spec(t, st.text, f.line_start.wrapping_add(st.first), Some(f.name), st.caps),
        ),
        None => None,
    }
}

pub open spec fn opt_seq<A>(o: Option<A>) -> Seq<A> {
    match o {
        Some(x) => seq![x],
        None => Seq::empty(),
    }
}

pub open spec fn sequence_findings(
    t: TemplateView,
    steps: Seq<SequenceStepView>,
    fs: Seq<IRFunctionView>,
) -> Seq<FindingView> {
    flatten_seq(fs.map_values(|f: IRFunctionView| opt_seq(sequence_finding(t, steps, f))))
}

fn find_pos(m: &Vec<(String, usize)>, k: &String) -> (r: Option<usize>)
    ensures
        r matches Some(i) ==> key_index(m.deep_view(), k@, 0) == Some(i as int),
        r is None ==> key_index(m.deep_view(), k@, 0) is None,
{
    let mut i: usize = 0;
    while i < m.len()
        invariant
            i <= m@.len(),
            key_index(m.deep_view(), k@, 0) == key_index(m.deep_view(), k@, i as int),
        decreases m@.len() - i,
    {
        if m[i].0 == *k {
            assert(m.deep_view()[i as int].0 == k@);
            return Some(i);
        }
        assert(m.deep_view()[i as int].0 != k@);
        i += 1;
    }
    None
}

fn insert_pos(m: &mut Vec<(String, usize)>, k: String, v: usize)
    ensures
        final(m).deep_view() == map_insert(old(m).deep_view(), k@, v),
{
    match find_pos(m, &k) {
        Some(i) => {
            proof {
                lemma_key_index(m.deep_view(), k@, 0);
            }
            let ghost before = m.deep_view();
            let ghost kv = k@;
            m.set(i, (k, v));
            assert(m.deep_view() =~= before.update(i as int, (kv, v)));
        },
        None => {
            let ghost before = m.deep_view();
            let ghost kv = k@;
            m.push((k, v));
            assert(m.deep_view() =~= before.push((kv, v)));
        },
    }
}

fn max_pos_exec(m: &Vec<(String, usize)>) -> (r: usize)
    ensures
        r == max_pos(m.deep_view()),
{
    let mut best: usize = 0;
    let mut i: usize = 0;
    while i < m.len()
        invariant
            i <= m@.len(),
            best == max_pos(m.deep_view().take(i as int)),
        decreases m@.len() - i,
    {
        assert(m.deep_view().take(i + 1).drop_last() =~= m.deep_view().take(i as int));
        assert(m.deep_view().take(i + 1).last() == m.deep_view()[i as int]);
        if m[i].1 > best {
            best = m[i].1;
        }
        i += 1;
    }
    assert(m.deep_view().take(i as int) =~= m.deep_view());
    best
}

fn first_hit_exec(p: &str, ls: &Vec<String>, start: usize, end: usize) -> (r: Option<usize>)
    requires
        end <= ls@.len(),
    ensures
        r matches Some(i) ==> first_hit(p@, ls.deep_view(), start as int, end as int) == Some(i as int) && i < end,
        r is None ==> first_hit(p@, ls.deep_view(), start as int, end as int) is None,
{
    let mut i = start;
    while i < end
        invariant
            start <= i,
            end <= ls@.len(),
            first_hit(p@, ls.deep_view(), start as int, end as int) == first_hit(p@, ls.deep_view(), i as int, end as int),
        decreases end - i,
    {
        if regex_matches(p, ls[i].as_str()) {
            return Some(i);
        }
        i += 1;
    }
    None
}

proof fn lemma_first_hit(p: Seq<char>, ls: Seq<Seq<char>>, i: int, end: int)
    ensures
        first_hit(p, ls, i, end) matches Some(j) ==> i <= j < end && end <= ls.len() && 0 <= j
            && crate::rx::rx_count(p, ls[j]) > 0,
    decreases end - i,
{
    if 0 <= i < end && end <= ls.len() && crate::rx::rx_count(p, ls[i]) == 0 {
        lemma_first_hit(p, ls, i + 1, end);
    }
}

proof fn lemma_seq_run_none(steps: Seq<SequenceStepView>, ls: Seq<Seq<char>>, k: nat, n: nat)
    requires
        k <= n <= steps.len(),
        seq_run(steps, ls, k) is None,
    ensures
        seq_run(steps, ls, n) is None,
    decreases n - k,
{
    if k < n {
        lemma_seq_run_none(steps, ls, k + 1, n);
    }
}

fn capture_fold_exec(
    caps: &mut Vec<(String, String)>,
    names: &Vec<(String, usize)>,
    c: &Vec<Option<(usize, usize)>>,
    text: &str,
)
    requires
        forall|j: int| 0 <= j < c@.len() ==> span_ok(#[trigger] c.deep_view()[j], text.spec_bytes()),
    ensures
        final(caps).deep_view() == capture_fold(old(caps).deep_view(), names.deep_view(), c.deep_view(), text@, names@.len()),
{
    let ghost c0 = caps.deep_view();
    let mut k: usize = 0;
    while k < names.len()
        invariant
            k <= names@.len(),
            forall|j: int| 0 <= j < c@.len() ==> span_ok(#[trigger] c.deep_view()[j], text.spec_bytes()),
            caps.deep_view() == capture_fold(c0, names.deep_view(), c.deep_view(), text@, k as nat),
        decreases names@.len() - k,
    {
        let g = names[k].1;
        assert(names.deep_view()[k as int] == (names@[k as int].0@, g));
        if g < c.len() && c[g].is_some() {
            let v = group_str(text, c, g);
            let e = regex_escape(v.as_str());
            insert_pair(caps, names[k].0.clone(), e);
        }
        k += 1;
    }
}

/// The finding of a sequence of steps in one function body, if every step holds:
/// each present step must match within its line window (after a named step or
/// the furthest one so far), each absent step must not; captures are escaped
/// and interpolated into later patterns.
pub fn match_sequence_in_body(
    template: &Template,
    steps: &Vec<SequenceStep>,
    lines: &Vec<String>,
    func: &IRFunction,
) -> (r: Option<Finding>)
    ensures
        r matches Some(f) ==> seq_finding_lines(template@, steps@.map_values(|s: SequenceStep| s@), lines.deep_view(), func@) == Some(f@),
        r is None ==> seq_finding_lines(template@, steps@.map_values(|s: SequenceStep| s@), lines.deep_view(), func@) is None,
{
    let ghost sv = steps@.map_values(|s: SequenceStep| s@);
    let ghost ls = lines.deep_view();
    let mut caps: Vec<(String, String)> = Vec::new();
    let mut pos: Vec<(String, usize)> = Vec::new();
    let mut first: usize = 0;
    let mut matched_text = String::new();
    let mut k: usize = 0;
    assert(caps.deep_view() =~= Seq::<(Seq<char>, Seq<char>)>::empty());
    assert(pos.deep_view() =~= Seq::<(Seq<char>, usize)>::empty());
    while k < steps.len()
        invariant
            k <= steps@.len(),
            sv == steps@.map_values(|s: SequenceStep| s@),
            ls == lines.deep_view(),
            seq_run(sv, ls, k as nat) == Some(SeqState { caps: caps.deep_view(), pos: pos.deep_view(), first, text: matched_text@ }),
        decreases steps@.len() - k,
    {
        let step = &steps[k];
        assert(sv[k as int] == step@);
        let ghost st = SeqState { caps: caps.deep_view(), pos: pos.deep_view(), first, text: matched_text@ };
        let is_absent = match &step.step_type {
            Some(t) => *t == "absent".to_string(),
            None => false,
        };
        let start = match &step.after {
            Some(a) => match find_pos(&pos, a) {
                Some(i) => {
                    proof {
                        lemma_key_index(pos.deep_view(), a@, 0);
                    }
                    pos[i].1
                },
                None => 0,
            },
            None => max_pos_exec(&pos),
        };
        assert(start == step_start(st, step@));
        let end = match step.within_lines {
            Some(w) => if start.wrapping_add(w) < lines.len() {
                start.wrapping_add(w)
            } else {
                lines.len()
            },
            None => lines.len(),
        };
        let pattern = interpolate(step.pattern.as_str(), &caps);
        if !regex_is_valid(pattern.as_str()) {
            proof {
                lemma_seq_run_none(sv, ls, (k + 1) as nat, sv.len());
            }
            return None;
        }
        let hit = first_hit_exec(pattern.as_str(), lines, start, end);
        if is_absent {
            if hit.is_some() {
                proof {
                    lemma_seq_run_none(sv, ls, (k + 1) as nat, sv.len());
                }
                return None;
            }
            insert_pos(&mut pos, step.id.clone(), start);
        } else {
            match hit {
                None => {
                    proof {
                        lemma_seq_run_none(sv, ls, (k + 1) as nat, sv.len());
                    }
                    return None;
                },
                Some(i) => {
                    let line = lines[i].as_str();
                    let c = captures(pattern.as_str(), line);
                    proof {
                        lemma_first_hit(pattern@, ls, start as int, end as int);
                        assert(ls[i as int] == line@);
                        assert(c.deep_view().len() == c@.len());
                        crate::ir::lemma_match_spans(c.deep_view(), 0, line.spec_bytes());
                        assert(c.deep_view()[0] == c[0].deep_view());
                    }
                    capture_fold_exec(&mut caps, &step.capture, &c[0], line);
                    insert_pos(&mut pos, step.id.clone(), i + 1);
                    if first == 0 {
                        first = i;
                        matched_text = lines[i].clone();
                    }
                },
            }
        }
        k += 1;
    }
    let f = make_finding(template, matched_text, func.line_start.wrapping_add(first), Some(func.name.clone()), caps);
    Some(f)
}

/// Sequence findings over every function, in module order.
pub fn run_sequence(template: &Template, module: &IRModule, steps: &Vec<SequenceStep>) -> (r: Vec<Finding>)
    ensures
        finding_views(r@) == sequence_findings(template@, steps@.map_values(|s: SequenceStep| s@), module@.functions),
{
    let ghost sv = steps@.map_values(|s: SequenceStep| s@);
    let ghost fs = module@.functions;
    let mut r: Vec<Finding> = Vec::new();
    let mut i: usize = 0;
    while i < module.functions.len()
        invariant
            i <= module.functions@.len(),
            fs == module@.functions,
            sv == steps@.map_values(|s: SequenceStep| s@),
            finding_views(r@) == flatten_seq(fs.take(i as int).map_values(
                |f: IRFunctionView| opt_seq(sequence_finding(template@, sv, f)),
            )),
        decreases module.functions@.len() - i,
    {
        let f = &module.functions[i];
        let body_lines = lines_of(f.body.as_str());
        let res = match_sequence_in_body(template, steps, &body_lines, f);
        let ghost before = finding_views(r@);
        match res {
            Some(x) => {
                r.push(x);
                assert(finding_views(r@) =~= before + seq![x@]);
            },
            None => {
                assert(before + Seq::<FindingView>::empty() =~= before);
            },
        }
        proof {
            assert(fs[i as int] == f@);
            let m = fs.take(i + 1).map_values(|f: IRFunctionView| opt_seq(sequence_finding(template@, sv, f)));
            assert(m.drop_last() =~= fs.take(i as int).map_values(
                |f: IRFunctionView| opt_seq(sequence_finding(template@, sv, f)),
            ));
        }
        i += 1;
    }
    assert(fs.take(i as int) =~= fs);
    r
}

// ---------------------------------------------------------------------------
// Extractors
// ---------------------------------------------------------------------------

pub open spec fn extractor_step(
    ex: Seq<(Seq<char>, Seq<char>)>,
    e: crate::schema::ExtractorView,
    text: Seq<char>,
) -> Seq<(Seq<char>, Seq<char>)> {
    match e.extractor_type {
        ExtractorType::Regex => match e.pattern {
            Some(p) => extract_first(
                ex,
                e.name,
                (match e.group {
                    Some(g) => g,
                    None => 1,
                }) as int,
                p,
                text,
            ),
            None => ex,
        },
        ExtractorType::Computed => map_insert(ex, e.name, "(computed)"@),
    }
}

pub open spec fn extractors_spec(
    es: Seq<crate::schema::ExtractorView>,
    text: Seq<char>,
    ex: Seq<(Seq<char>, Seq<char>)>,
    n: nat,
) -> Seq<(Seq<char>, Seq<char>)>
    decreases n,
{
    if n == 0 || n > es.len() {
        ex
    } else {
        extractor_step(extractors_spec(es, text, ex, (n - 1) as nat), es[n - 1], text)
    }
}

/// Runs the template's extractors on a matched text.
pub fn run_extractors(template: &Template, matched_text: &str, extractions: &mut Vec<(String, String)>)
    ensures
        final(extractions).deep_view() == extractors_spec(
            template@.extractors,
            matched_text@,
            old(extractions).deep_view(),
            template@.extractors.len(),
        ),
{
    let ghost e0 = extractions.deep_view();
    let mut k: usize = 0;
    while k < template.extractors.len()
        invariant
            k <= template.extractors@.len(),
            extractions.deep_view() == extractors_spec(template@.extractors, matched_text@, e0, k as nat),
        decreases template.extractors@.len() - k,
    {
        let e = &template.extractors[k];
        assert(template@.extractors[k as int] == e@);
        match e.extractor_type {
            ExtractorType::Regex => {
                match &e.pattern {
                    Some(p) => {
                        let g = match e.group {
                            Some(g) => g,
                            None => 1,
                        };
                        extract_first_exec(extractions, &e.name, g, p.as_str(), matched_text);
                    },
                    None => {},
                }
            },
            ExtractorType::Computed => {
                insert_pair(extractions, e.name.clone(), "(computed)".to_string());
            },
        }
        k += 1;
    }
}

// ---------------------------------------------------------------------------
// Engine — runs templates against an IR module
// ---------------------------------------------------------------------------

/// The findings of a template before extraction and report formatting.
pub open spec fn base_findings(t: TemplateView, m: IRModuleView) -> Seq<FindingView> {
    if t.scope.file_type != FileType::LlvmIr {
        Seq::empty()
    } else {
        match t.match_block {
            crate::schema::MatchBlockView::Matchers { matchers, condition } => matcher_findings(
                t,
                matchers,
                condition,
                target_lines(t.scope.section, m),
                target_lines(t.scope.section, m).len(),
            ),
            crate::schema::MatchBlockView::Sequence { steps, .. } => sequence_findings(t, steps, m.functions),
            crate::schema::MatchBlockView::CrossReference { .. } => Seq::empty(),
        }
    }
}

/// The report format of a template (empty without a report section).
pub open spec fn report_fmt(t: TemplateView) -> Seq<char> {
    match t.report {
        Some(r) => r.0,
        None => Seq::empty(),
    }
}

/// A finding after the template's extractors ran and its report was formatted.
pub open spec fn finish_finding(t: TemplateView, f: FindingView) -> FindingView {
    let ex = extractors_spec(t.extractors, f.matched_text, f.extractions, t.extractors.len());
    FindingView { extractions: ex, report_format: interpolate_spec(report_fmt(t), ex), ..f }
}

pub open spec fn run_template_spec(t: TemplateView, m: IRModuleView) -> Seq<FindingView> {
    base_findings(t, m).map_values(|f: FindingView| finish_finding(t, f))
}

/// Runs one template over a module: its matchers on the scoped lines, or its
/// sequence in each function; cross-reference templates need two files and
/// give nothing here. Extractors then fill each finding's extractions, and the
/// report format is interpolated with them. Templates for other file types
/// give nothing.
pub fn run_template(template: &Template, module: &IRModule) -> (r: Vec<Finding>)
    ensures
        finding_views(r@) == run_template_spec(template@, module@),
{
    if template.scope.file_type != FileType::LlvmIr {
        let r: Vec<Finding> = Vec::new();
        assert(finding_views(r@) =~= run_template_spec(template@, module@));
        return r;
    }
    let mut findings = match &template.match_block {
        MatchBlock::Matchers { matchers, condition } => run_matchers(template, module, matchers, *condition),
        MatchBlock::Sequence { steps, .. } => run_sequence(template, module, steps),
        MatchBlock::CrossReference { .. } => Vec::new(),
    };
    let ghost base = finding_views(findings@);
    assert(base =~= base_findings(template@, module@));
    let fmt = match &template.report {
        Some(r) => r.format.clone(),
        None => String::new(),
    };
    let mut i: usize = 0;
    while i < findings.len()
        invariant
            i <= findings@.len(),
            base.len() == findings@.len(),
            fmt@ == report_fmt(template@),
            forall|j: int| 0 <= j < i ==> (#[trigger] findings@[j])@ == finish_finding(template@, base[j]),
            forall|j: int| i <= j < findings@.len() ==> (#[trigger] findings@[j])@ == base[j],
        decreases findings@.len() - i,
    {
        let mut f = findings[i].clone_finding();
        run_extractors(template, f.matched_text.as_str(), &mut f.extractions);
        f.report_format = interpolate(fmt.as_str(), &f.extractions);
        findings.set(i, f);
        i += 1;
    }
    assert(finding_views(findings@) =~= run_template_spec(template@, module@));
    findings
}

impl Finding {
    /// A copy with an equal view.
    pub fn clone_finding(&self) -> (f: Finding)
        ensures
            f@ == self@,
    {
        Finding {
            template_id: self.template_id.clone(),
            template_name: self.template_name.clone(),
            severity: self.severity,
            tags: copy_strings(&self.tags),
            matched_text: self.matched_text.clone(),
            line: self.line,
            function: crate::schema::copy_opt_string(&self.function),
            extractions: crate::schema::copy_string_pairs(&self.extractions),
            report_format: self.report_format.clone(),
            suggestion: self.suggestion.clone(),
            description: self.description.clone(),
            impact: self.impact.clone(),
            cwe: self.cwe.clone(),
            autofix: match &self.autofix {
                Some(a) => Some(a.copy()),
                None => None,
            },
        }
    }
}

// ---------------------------------------------------------------------------
// Cross-reference matching with two files
// ---------------------------------------------------------------------------

/// Binds each name to the text of its group in match `c`, where present.
pub open spec fn bind_groups(
    m: Seq<(Seq<char>, Seq<char>)>,
    names: Seq<(Seq<char>, usize)>,
    c: Seq<Option<(usize, usize)>>,
    text: Seq<char>,
    n: nat,
) -> Seq<(Seq<char>, Seq<char>)>
    decreases n,
{
    if n == 0 || n > names.len() {
        m
    } else {
        let prev = bind_groups(m, names, c, text, (n - 1) as nat);
        let g = names[n - 1].1 as int;
        if group_present(c, g) {
            map_insert(prev, names[n - 1].0, group_text(text, c, g))
        } else {
            prev
        }
    }
}

/// `bind_groups` over the first `k` matches in turn.
pub open spec fn bind_matches(
    m: Seq<(Seq<char>, Seq<char>)>,
    names: Seq<(Seq<char>, usize)>,
    caps: Seq<Seq<Option<(usize, usize)>>>,
    text: Seq<char>,
    k: nat,
) -> Seq<(Seq<char>, Seq<char>)>
    decreases k,
{
    if k == 0 || k > caps.len() {
        m
    } else {
        bind_groups(bind_matches(m, names, caps, text, (k - 1) as nat), names, caps[k - 1], text, names.len())
    }
}

pub open spec fn is_layout_compare(s: CrossRefStepView) -> bool {
    s.step_type == Some("layout_compare"@)
}

/// Captures from the IR (`.0`) and from the header (`.1`) after the first `n` steps.
pub open spec fn xref_collect(
    steps: Seq<CrossRefStepView>,
    ir: Seq<char>,
    hdr: Seq<char>,
    n: nat,
) -> (Seq<(Seq<char>, Seq<char>)>, Seq<(Seq<char>, Seq<char>)>)
    decreases n,
{
    if n == 0 || n > steps.len() {
        (Seq::empty(), Seq::empty())
    } else {
        let prev = xref_collect(steps, ir, hdr, (n - 1) as nat);
        let s = steps[n - 1];
        if is_layout_compare(s) {
            prev
        } else {
            match s.pattern {
                None => prev,
                Some(p) => if !regex_compiles(p) {
                    prev
                } else if s.file == Some("ir_file"@) {
                    let caps = rx_caps(p, ir);
                    (bind_matches(prev.0, s.capture, caps, ir, caps.len()), prev.1)
                } else if s.file == Some("c_header"@) {
                    let caps = rx_caps(p, hdr);
                    (prev.0, bind_matches(prev.1, s.capture, caps, hdr, caps.len()))
                } else {
                    prev
                },
            }
        }
    }
}

/// Pieces of `v.split(';')` that are not blank after trimming.
pub open spec fn nonblank_count(ps: Seq<Seq<char>>) -> nat
    decreases ps.len(),
{
    if ps.len() == 0 {
        0
    } else {
        nonblank_count(ps.drop_last()) + if trim(ps.last()).len() > 0 {
            1nat
        } else {
            0nat
        }
    }
}

/// Field count of the first IR capture: its comma-separated pieces.
pub open spec fn ir_field_count(m: Seq<(Seq<char>, Seq<char>)>) -> nat {
    if m.len() > 0 {
        crate::text::split(m[0].1, ',').len()
    } else {
        0
    }
}

/// Field count of the first header capture: its non-blank `;`-separated pieces.
pub open spec fn c_field_count(m: Seq<(Seq<char>, Seq<char>)>) -> nat {
    if m.len() > 0 {
        nonblank_count(crate::text::split(m[0].1, ';'))
    } else {
        0
    }
}

/// All entries of `src` inserted into `m`, in order.
pub open spec fn insert_all(m: Seq<(Seq<char>, Seq<char>)>, src: Seq<(Seq<char>, Seq<char>)>, n: nat) -> Seq<
    (Seq<char>, Seq<char>),
>
    decreases n,
{
    if n == 0 || n > src.len() {
        m
    } else {
        let prev = insert_all(m, src, (n - 1) as nat);
        map_insert(prev, src[n - 1].0, src[n - 1].1)
    }
}

pub open spec fn layout_extractions(
    irm: Seq<(Seq<char>, Seq<char>)>,
    hm: Seq<(Seq<char>, Seq<char>)>,
) -> Seq<(Seq<char>, Seq<char>)> {
    let e0 = map_insert(
        map_insert(Seq::empty(), "ir_field_count"@, crate::text::decimal(ir_field_count(irm))),
        "c_field_count"@,
        crate::text::decimal(c_field_count(hm)),
    );
    insert_all(insert_all(e0, irm, irm.len()), hm, hm.len())
}

pub open spec fn layout_message(irm: Seq<(Seq<char>, Seq<char>)>, hm: Seq<(Seq<char>, Seq<char>)>) -> Seq<char> {
    "IR has "@ + crate::text::decimal(ir_field_count(irm)) + " fields, C has "@ + crate::text::decimal(
        c_field_count(hm),
    ) + " fields"@
}

/// Findings of the first `n` steps: one per layout comparison whose field
/// counts differ while both are non-zero.
pub open spec fn xref_findings(
    t: TemplateView,
    steps: Seq<CrossRefStepView>,
    irm: Seq<(Seq<char>, Seq<char>)>,
    hm: Seq<(Seq<char>, Seq<char>)>,
    n: nat,
) -> Seq<FindingView>
    decreases n,
{
    if n == 0 || n > steps.len() {
        Seq::empty()
    } else {
        let prev = xref_findings(t, steps, irm, hm, (n - 1) as nat);
        let a = ir_field_count(irm);
        let b = c_field_count(hm);
        if is_layout_compare(steps[n - 1]) && a != b && a > 0 && b > 0 {
            prev.push(make_finding_spec(t, layout_message(irm, hm), 0, None, layout_extractions(irm, hm)))
        } else {
            prev
        }
    }
}

pub open spec fn xref_spec(t: TemplateView, ir: Seq<char>, hdr: Seq<char>) -> Seq<FindingView> {
    match t.match_block {
        crate::schema::MatchBlockView::CrossReference { steps, .. } => {
            let (irm, hm) = xref_collect(steps, ir, hdr, steps.len());
            xref_findings(t, steps, irm, hm, steps.len())
        },
        _ => Seq::empty(),
    }
}

fn bind_groups_exec(
    m: &mut Vec<(String, String)>,
    names: &Vec<(String, usize)>,
    c: &Vec<Option<(usize, usize)>>,
    text: &str,
)
    requires
        forall|j: int| 0 <= j < c@.len() ==> span_ok(#[trigger] c.deep_view()[j], text.spec_bytes()),
    ensures
        final(m).deep_view() == bind_groups(old(m).deep_view(), names.deep_view(), c.deep_view(), text@, names@.len()),
{
    let ghost m0 = m.deep_view();
    let mut k: usize = 0;
    while k < names.len()
        invariant
            k <= names@.len(),
            forall|j: int| 0 <= j < c@.len() ==> span_ok(#[trigger] c.deep_view()[j], text.spec_bytes()),
            m.deep_view() == bind_groups(m0, names.deep_view(), c.deep_view(), text@, k as nat),
        decreases names@.len() - k,
    {
        let g = names[k].1;
        assert(names.deep_view()[k as int] == (names@[k as int].0@, g));
        if g < c.len() && c[g].is_some() {
            let v = group_str(text, c, g);
            insert_pair(m, names[k].0.clone(), v);
        }
        k += 1;
    }
}

fn bind_matches_exec(m: &mut Vec<(String, String)>, names: &Vec<(String, usize)>, pattern: &str, text: &str)
    ensures
        final(m).deep_view() == bind_matches(
            old(m).deep_view(),
            names.deep_view(),
            rx_caps(pattern@, text@),
            text@,
            rx_caps(pattern@, text@).len(),
        ),
{
    let caps = captures(pattern, text);
    let ghost m0 = m.deep_view();
    let mut k: usize = 0;
    while k < caps.len()
        invariant
            k <= caps@.len(),
            caps.deep_view() == rx_caps(pattern@, text@),
            captures_ok(caps.deep_view(), text.spec_bytes()),
            m.deep_view() == bind_matches(m0, names.deep_view(), caps.deep_view(), text@, k as nat),
        decreases caps@.len() - k,
    {
        proof {
            crate::ir::lemma_match_spans(caps.deep_view(), k as int, text.spec_bytes());
            assert(caps.deep_view()[k as int] == caps[k as int].deep_view());
        }
        bind_groups_exec(m, names, &caps[k], text);
        k += 1;
    }
}

fn nonblank_pieces(v: &str) -> (n: usize)
    ensures
        n == nonblank_count(crate::text::split(v@, ';')),
{
    let ps = crate::text::split_str(v, ';');
    let mut n: usize = 0;
    let mut i: usize = 0;
    while i < ps.len()
        invariant
            i <= ps@.len(),
            n <= i,
            n == nonblank_count(ps.deep_view().take(i as int)),
        decreases ps@.len() - i,
    {
        assert(ps.deep_view().take(i + 1).drop_last() =~= ps.deep_view().take(i as int));
        let t = trim_str(ps[i].as_str());
        if !t.as_str().is_empty() {
            n += 1;
        }
        i += 1;
    }
    assert(ps.deep_view().take(i as int) =~= ps.deep_view());
    n
}

fn insert_all_exec(m: &mut Vec<(String, String)>, src: &Vec<(String, String)>)
    ensures
        final(m).deep_view() == insert_all(old(m).deep_view(), src.deep_view(), src@.len()),
{
    let ghost m0 = m.deep_view();
    let mut k: usize = 0;
    while k < src.len()
        invariant
            k <= src@.len(),
            m.deep_view() == insert_all(m0, src.deep_view(), k as nat),
        decreases src@.len() - k,
    {
        assert(src.deep_view()[k as int] == (src@[k as int].0@, src@[k as int].1@));
        insert_pair(m, src[k].0.clone(), src[k].1.clone());
        k += 1;
    }
}

/// Runs a cross-reference template over an IR file and a C header: captures
/// from each, then one finding per layout comparison whose field counts differ.
/// Where several captures exist, the first one captured is compared.
pub fn run_cross_reference_with_files(template: &Template, ir_content: &str, header_content: &str) -> (r: Vec<
    Finding,
>)
    ensures
        finding_views(r@) == xref_spec(template@, ir_content@, header_content@),
{
    let steps = match &template.match_block {
        MatchBlock::CrossReference { steps, .. } => steps,
        _ => {
            let r: Vec<Finding> = Vec::new();
            assert(finding_views(r@) =~= Seq::<FindingView>::empty());
            return r;
        },
    };
    let ghost sv = steps@.map_values(|s: CrossRefStep| s@);
    let mut ir_caps: Vec<(String, String)> = Vec::new();
    let mut hdr_caps: Vec<(String, String)> = Vec::new();
    assert(ir_caps.deep_view() =~= Seq::<(Seq<char>, Seq<char>)>::empty());
    assert(hdr_caps.deep_view() =~= Seq::<(Seq<char>, Seq<char>)>::empty());
    let mut k: usize = 0;
    while k < steps.len()
        invariant
            k <= steps@.len(),
            sv == steps@.map_values(|s: CrossRefStep| s@),
            (ir_caps.deep_view(), hdr_caps.deep_view()) == xref_collect(sv, ir_content@, header_content@, k as nat),
        decreases steps@.len() - k,
    {
        let s = &steps[k];
        assert(sv[k as int] == s@);
        let layout = match &s.step_type {
            Some(t) => *t == "layout_compare".to_string(),
            None => false,
        };
        if !layout {
            match &s.pattern {
                Some(p) => {
                    if regex_is_valid(p.as_str()) {
                        let is_ir = match &s.file {
                            Some(f) => *f == "ir_file".to_string(),
                            None => false,
                        };
                        let is_hdr = match &s.file {
                            Some(f) => *f == "c_header".to_string(),
                            None => false,
                        };
                        if is_ir {
                            bind_matches_exec(&mut ir_caps, &s.capture, p.as_str(), ir_content);
                        } else if is_hdr {
                            bind_matches_exec(&mut hdr_caps, &s.capture, p.as_str(), header_content);
                        }
                    }
                },
                None => {},
            }
        }
        k += 1;
    }
    let ir_fields = if ir_caps.len() > 0 {
        crate::text::split_str(ir_caps[0].1.as_str(), ',').len()
    } else {
        0
    };
    let c_fields = if hdr_caps.len() > 0 {
        nonblank_pieces(hdr_caps[0].1.as_str())
    } else {
        0
    };
    proof {
        if ir_caps@.len() > 0 {
            assert(ir_caps.deep_view()[0].1 == ir_caps@[0].1@);
        }
        if hdr_caps@.len() > 0 {
            assert(hdr_caps.deep_view()[0].1 == hdr_caps@[0].1@);
        }
        assert(ir_fields == ir_field_count(ir_caps.deep_view()));
        assert(c_fields == c_field_count(hdr_caps.deep_view()));
    }
    let mut r: Vec<Finding> = Vec::new();
    let mut k: usize = 0;
    while k < steps.len()
        invariant
            k <= steps@.len(),
            sv == steps@.map_values(|s: CrossRefStep| s@),
            ir_fields == ir_field_count(ir_caps.deep_view()),
            c_fields == c_field_count(hdr_caps.deep_view()),
            finding_views(r@) == xref_findings(template@, sv, ir_caps.deep_view(), hdr_caps.deep_view(), k as nat),
        decreases steps@.len() - k,
    {
        let s = &steps[k];
        assert(sv[k as int] == s@);
        let layout = match &s.step_type {
            Some(t) => *t == "layout_compare".to_string(),
            None => false,
        };
        if layout && ir_fields != c_fields && ir_fields > 0 && c_fields > 0 {
            let mut ex: Vec<(String, String)> = Vec::new();
            assert(ex.deep_view() =~= Seq::<(Seq<char>, Seq<char>)>::empty());
            insert_pair(&mut ex, "ir_field_count".to_string(), crate::text::fmt_usize(ir_fields));
            insert_pair(&mut ex, "c_field_count".to_string(), crate::text::fmt_usize(c_fields));
            insert_all_exec(&mut ex, &ir_caps);
            insert_all_exec(&mut ex, &hdr_caps);
            let mut msg = "IR has ".to_string();
            push_all(&mut msg, crate::text::fmt_usize(ir_fields).as_str());
            push_all(&mut msg, " fields, C has ");
            push_all(&mut msg, crate::text::fmt_usize(c_fields).as_str());
            push_all(&mut msg, " fields");
            assert(ex.deep_view() == layout_extractions(ir_caps.deep_view(), hdr_caps.deep_view()));
            assert(msg@ =~= layout_message(ir_caps.deep_view(), hdr_caps.deep_view()));
            let f = make_finding(template, msg, 0, None, ex);
            let ghost before = r@;
            r.push(f);
            assert(finding_views(r@) =~= finding_views(before).push(f@));
        }
        k += 1;
    }
    r
}

// ---------------------------------------------------------------------------
// Autofix engine
// ---------------------------------------------------------------------------

/// The source after the `line_replace` autofixes of the first `n` findings, in turn.
pub open spec fn autofixed(src: Seq<char>, fs: Seq<FindingView>, n: nat) -> Seq<char>
    decreases n,
{
    if n == 0 || n > fs.len() {
        src
    } else {
        let prev = autofixed(src, fs, (n - 1) as nat);
        match fs[n - 1].autofix {
            Some(a) => if a.fix_type == "line_replace"@ {
                crate::rx::rx_replace(a.match_pattern, prev, a.replace)
            } else {
                prev
            },
            None => prev,
        }
    }
}

/// Applies each finding's `line_replace` autofix (a regex replace over the whole
/// text) in turn.
pub fn apply_autofixes(source: &str, findings: &Vec<Finding>) -> (r: String)
    ensures
        r@ == autofixed(source@, finding_views(findings@), findings@.len()),
{
    let mut result = source.to_string();
    let mut i: usize = 0;
    while i < findings.len()
        invariant
            i <= findings@.len(),
            result@ == autofixed(source@, finding_views(findings@), i as nat),
        decreases findings@.len() - i,
    {
        assert(finding_views(findings@)[i as int] == findings@[i as int]@);
        match &findings[i].autofix {
            Some(a) => {
                if a.fix_type == "line_replace".to_string() {
                    result = crate::rx::regex_replace_all(a.match_pattern.as_str(), result.as_str(), a.replace.as_str());
                }
            },
            None => {},
        }
        i += 1;
    }
    result
}

} // verus!
