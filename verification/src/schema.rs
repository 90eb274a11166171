//! The template schema: bug-pattern templates, their match blocks, extractors,
//! reports and remediations, drain queues and workflows. Maps keyed by name are
//! association lists in insertion order.
use vstd::prelude::*;

verus! {

// ---------------------------------------------------------------------------
// Top-level template
// ---------------------------------------------------------------------------

#[derive(Debug, Clone)]
pub struct Template {
    pub id: String,
    pub info: TemplateInfo,
    pub scope: Scope,
    pub match_block: MatchBlock,
    pub extractors: Vec<Extractor>,
    pub report: Option<Report>,
    pub remediation: Option<Remediation>,
    pub related: Vec<String>,
}

// ---------------------------------------------------------------------------
// Info section
// ---------------------------------------------------------------------------

#[derive(Debug, Clone)]
pub struct TemplateInfo {
    pub name: String,
    pub severity: Severity,
    pub author: String,
    pub description: String,
    pub impact: String,
    pub tags: Vec<String>,
    pub references: Vec<String>,
    pub cwe: String,
    pub created: String,
    pub updated: String,
}

/// Ordered from most to least severe.
#[derive(Debug, Clone, Copy, PartialEq, Eq, Structural, PartialOrd, Ord, Hash)]
pub enum Severity {
    Critical,
    High,
    Medium,
    Low,
    Info,
}

/// The severity used when a template names none.
pub fn default_severity() -> (s: Severity)
    ensures
        s == Severity::Medium,
{
    Severity::Medium
}

/// Position in the order `Critical < High < Medium < Low < Info`.
pub open spec fn severity_rank(s: Severity) -> nat {
    match s {
        Severity::Critical => 0,
        Severity::High => 1,
        Severity::Medium => 2,
        Severity::Low => 3,
        Severity::Info => 4,
    }
}

/// The lowercase name of a severity.
pub open spec fn severity_name(s: Severity) -> Seq<char> {
    match s {
        Severity::Critical => "critical"@,
        Severity::High => "high"@,
        Severity::Medium => "medium"@,
        Severity::Low => "low"@,
        Severity::Info => "info"@,
    }
}

impl Severity {
    /// Position in the order `Critical < High < Medium < Low < Info`.
    pub fn rank(&self) -> (r: u8)
        ensures
            r as nat == severity_rank(*self),
    {
        match self {
            Severity::Critical => 0,
            Severity::High => 1,
            Severity::Medium => 2,
            Severity::Low => 3,
            Severity::Info => 4,
        }
    }

    /// The lowercase name, as the severity displays.
    pub fn as_str(&self) -> (r: &'static str)
        ensures
            r@ == severity_name(*self),
    {
        match self {
            Severity::Critical => "critical",
            Severity::High => "high",
            Severity::Medium => "medium",
            Severity::Low => "low",
            Severity::Info => "info",
        }
    }

    /// The lowercase name, as an owned string (what `Display` prints).
    pub fn to_string(&self) -> (r: String)
        ensures
            r@ == severity_name(*self),
    {
        self.as_str().to_string()
    }
}

// ---------------------------------------------------------------------------
// Scope
// ---------------------------------------------------------------------------

#[derive(Debug, Clone)]
pub struct Scope {
    pub file_type: FileType,
    pub section: Section,
    pub inputs: Vec<(String, String)>,
}

impl Default for Scope {
    fn default() -> (s: Scope)
        ensures
            s.file_type == FileType::LlvmIr,
            s.section == Section::All,
            s.inputs@.len() == 0,
    {
        Scope { file_type: FileType::LlvmIr, section: Section::All, inputs: Vec::new() }
    }
}

#[derive(Debug, Clone, Copy, PartialEq, Eq, Structural)]
pub enum FileType {
    LlvmIr,
    CSource,
    ElfBinary,
    CHeader,
    CrossReference,
}

/// The file type used when a template names none.
pub fn default_file_type() -> (f: FileType)
    ensures
        f == FileType::LlvmIr,
{
    FileType::LlvmIr
}

#[derive(Debug, Clone, Copy, PartialEq, Eq, Structural)]
pub enum Section {
    Globals,
    Functions,
    Declarations,
    Metadata,
    All,
}

/// The section used when a template names none.
pub fn default_section() -> (s: Section)
    ensures
        s == Section::All,
{
    Section::All
}

// ---------------------------------------------------------------------------
// Match block
// ---------------------------------------------------------------------------

#[derive(Debug, Clone)]
pub enum MatchBlock {
    Matchers { matchers: Vec<Matcher>, condition: Condition },
    Sequence { match_type: String, steps: Vec<SequenceStep>, condition: Condition },
    CrossReference { match_type: String, steps: Vec<CrossRefStep> },
}

/// The condition of a matcher list when a template names none.
pub fn default_condition() -> (c: Condition)
    ensures
        c == Condition::Or,
{
    Condition::Or
}

/// The condition of a sequence when a template names none.
pub fn default_condition_all() -> (c: Condition)
    ensures
        c == Condition::All,
{
    Condition::All
}

#[derive(Debug, Clone, Copy, PartialEq, Eq, Structural)]
pub enum Condition {
    Or,
    And,
    All,
}

// ---------------------------------------------------------------------------
// Matchers
// ---------------------------------------------------------------------------

#[derive(Debug, Clone)]
pub struct Matcher {
    pub matcher_type: MatcherType,
    pub name: String,
    pub pattern: Vec<String>,
    pub condition: Option<MatcherCondition>,
    pub value: Option<String>,
    pub byte_range: Option<Vec<u8>>,
    pub exclude: Option<Vec<u8>>,
    pub extractor: Option<MatcherExtractor>,
}

#[derive(Debug, Clone, Copy, PartialEq, Eq, Structural)]
pub enum MatcherType {
    Regex,
    ByteScan,
    Contains,
}

#[derive(Debug, Clone, Copy, PartialEq, Eq, Structural)]
pub enum MatcherCondition {
    Contains,
    NotContains,
    ContainsRawBytes,
}

#[derive(Debug, Clone)]
pub struct MatcherExtractor {
    pub name: String,
    pub group: usize,
}

// ---------------------------------------------------------------------------
// Sequence steps
// ---------------------------------------------------------------------------

#[derive(Debug, Clone)]
pub struct SequenceStep {
    pub id: String,
    pub pattern: String,
    /// Capture name to regex group.
    pub capture: Vec<(String, usize)>,
    pub after: Option<String>,
    pub within_lines: Option<usize>,
    /// "absent" means this pattern must NOT appear
    pub step_type: Option<String>,
}

// ---------------------------------------------------------------------------
// Cross-reference steps
// ---------------------------------------------------------------------------

#[derive(Debug, Clone)]
pub struct CrossRefStep {
    pub id: String,
    pub file: Option<String>,
    pub pattern: Option<String>,
    pub capture: Vec<(String, usize)>,
    pub step_type: Option<String>,
    pub type_map: Option<Vec<(String, Vec<String>)>>,
}

// ---------------------------------------------------------------------------
// Extractors
// ---------------------------------------------------------------------------

#[derive(Debug, Clone)]
pub struct Extractor {
    pub extractor_type: ExtractorType,
    pub name: String,
    pub pattern: Option<String>,
    pub group: Option<usize>,
    pub scope: Option<String>,
    pub method: Option<String>,
}

#[derive(Debug, Clone, Copy, PartialEq, Eq, Structural)]
pub enum ExtractorType {
    Regex,
    Computed,
}

// ---------------------------------------------------------------------------
// Report
// ---------------------------------------------------------------------------

#[derive(Debug, Clone)]
pub struct Report {
    pub format: String,
    pub evidence: Option<Evidence>,
}

#[derive(Debug, Clone, Copy)]
pub struct Evidence {
    pub show_line: bool,
    pub show_context: usize,
}

/// Lines of context shown around evidence when a template names none.
pub fn default_context() -> (n: usize)
    ensures
        n == 0,
{
    0
}

// ---------------------------------------------------------------------------
// Remediation
// ---------------------------------------------------------------------------

#[derive(Debug, Clone)]
pub struct Remediation {
    pub suggestion: String,
    pub autofix: Option<Autofix>,
    pub difficulty: Option<String>,
}

#[derive(Debug, Clone)]
pub struct Autofix {
    pub fix_type: String,
    pub match_pattern: String,
    pub replace: String,
}

impl Autofix {
    /// A copy with equal fields.
    pub fn copy(&self) -> (a: Autofix)
        ensures
            a.fix_type@ == self.fix_type@,
            a.match_pattern@ == self.match_pattern@,
            a.replace@ == self.replace@,
    {
        Autofix {
            fix_type: self.fix_type.clone(),
            match_pattern: self.match_pattern.clone(),
            replace: self.replace.clone(),
        }
    }
}

// ---------------------------------------------------------------------------
// Drain queue — templates queued for running by external tools
// ---------------------------------------------------------------------------

#[derive(Debug, Clone)]
pub struct DrainQueue {
    pub queued: Vec<DrainEntry>,
}

#[derive(Debug, Clone)]
pub struct DrainEntry {
    /// Run a specific template by ID (e.g. "abi/return-type-divergence")
    pub template: Option<String>,
    /// Or select templates by tags
    pub tags: Vec<String>,
    /// Target file to scan
    pub target: String,
    /// Optional C header for cross-reference templates
    pub header: Option<String>,
    /// Why this entry was queued (for reporting)
    pub reason: Option<String>,
    /// Stop the entire drain if this entry produces findings at this severity or above
    pub stop_on: Option<Severity>,
}

// ---------------------------------------------------------------------------
// Workflow (separate template type)
// ---------------------------------------------------------------------------

#[derive(Debug, Clone)]
pub struct WorkflowTemplate {
    pub id: String,
    pub info: TemplateInfo,
    pub workflow: Vec<WorkflowStep>,
}

#[derive(Debug, Clone)]
pub struct WorkflowStep {
    pub templates: WorkflowTemplateSelector,
    pub input: Option<String>,
    pub inputs: Option<Vec<(String, String)>>,
    pub stop_on: Option<Severity>,
}

#[derive(Debug, Clone)]
pub struct WorkflowTemplateSelector {
    pub tags: Vec<String>,
    pub ids: Vec<String>,
}

// ---------------------------------------------------------------------------
// Views and copies
// ---------------------------------------------------------------------------

pub struct TemplateInfoView {
    pub name: Seq<char>,
    pub severity: Severity,
    pub author: Seq<char>,
    pub description: Seq<char>,
    pub impact: Seq<char>,
    pub tags: Seq<Seq<char>>,
    pub references: Seq<Seq<char>>,
    pub cwe: Seq<char>,
    pub created: Seq<char>,
    pub updated: Seq<char>,
}

impl View for TemplateInfo {
    type V = TemplateInfoView;

    open spec fn view(&self) -> TemplateInfoView {
        TemplateInfoView {
            name: self.name@,
            severity: self.severity,
            author: self.author@,
            description: self.description@,
            impact: self.impact@,
            tags: self.tags.deep_view(),
            references: self.references.deep_view(),
            cwe: self.cwe@,
            created: self.created@,
            updated: self.updated@,
        }
    }
}

pub struct ScopeView {
    pub file_type: FileType,
    pub section: Section,
    pub inputs: Seq<(Seq<char>, Seq<char>)>,
}

impl View for Scope {
    type V = ScopeView;

    open spec fn view(&self) -> ScopeView {
        ScopeView { file_type: self.file_type, section: self.section, inputs: self.inputs.deep_view() }
    }
}

pub struct MatcherView {
    pub matcher_type: MatcherType,
    pub name: Seq<char>,
    pub pattern: Seq<Seq<char>>,
    pub condition: Option<MatcherCondition>,
    pub value: Option<Seq<char>>,
    pub byte_range: Option<Seq<u8>>,
    pub exclude: Option<Seq<u8>>,
    pub extractor: Option<(Seq<char>, usize)>,
}

impl View for Matcher {
    type V = MatcherView;

    open spec fn view(&self) -> MatcherView {
        MatcherView {
            matcher_type: self.matcher_type,
            name: self.name@,
            pattern: self.pattern.deep_view(),
            condition: self.condition,
            value: self.value.deep_view(),
            byte_range: self.byte_range.deep_view(),
            exclude: self.exclude.deep_view(),
            extractor: match self.extractor {
                Some(e) => Some((e.name@, e.group)),
                None => None,
            },
        }
    }
}

pub struct SequenceStepView {
    pub id: Seq<char>,
    pub pattern: Seq<char>,
    pub capture: Seq<(Seq<char>, usize)>,
    pub after: Option<Seq<char>>,
    pub within_lines: Option<usize>,
    pub step_type: Option<Seq<char>>,
}

impl View for SequenceStep {
    type V = SequenceStepView;

    open spec fn view(&self) -> SequenceStepView {
        SequenceStepView {
            id: self.id@,
            pattern: self.pattern@,
            capture: self.capture.deep_view(),
            after: self.after.deep_view(),
            within_lines: self.within_lines,
            step_type: self.step_type.deep_view(),
        }
    }
}

pub struct CrossRefStepView {
    pub id: Seq<char>,
    pub file: Option<Seq<char>>,
    pub pattern: Option<Seq<char>>,
    pub capture: Seq<(Seq<char>, usize)>,
    pub step_type: Option<Seq<char>>,
    pub type_map: Option<Seq<(Seq<char>, Seq<Seq<char>>)>>,
}

impl View for CrossRefStep {
    type V = CrossRefStepView;

    open spec fn view(&self) -> CrossRefStepView {
        CrossRefStepView {
            id: self.id@,
            file: self.file.deep_view(),
            pattern: self.pattern.deep_view(),
            capture: self.capture.deep_view(),
            step_type: self.step_type.deep_view(),
            type_map: self.type_map.deep_view(),
        }
    }
}

pub enum MatchBlockView {
    Matchers { matchers: Seq<MatcherView>, condition: Condition },
    Sequence { match_type: Seq<char>, steps: Seq<SequenceStepView>, condition: Condition },
    CrossReference { match_type: Seq<char>, steps: Seq<CrossRefStepView> },
}

impl View for MatchBlock {
    type V = MatchBlockView;

    open spec fn view(&self) -> MatchBlockView {
        match self {
            MatchBlock::Matchers { matchers, condition } => MatchBlockView::Matchers {
                matchers: matchers@.map_values(|m: Matcher| m@),
                condition: *condition,
            },
            MatchBlock::Sequence { match_type, steps, condition } => MatchBlockView::Sequence {
                match_type: match_type@,
                steps: steps@.map_values(|s: SequenceStep| s@),
                condition: *condition,
            },
            MatchBlock::CrossReference { match_type, steps } => MatchBlockView::CrossReference {
                match_type: match_type@,
                steps: steps@.map_values(|s: CrossRefStep| s@),
            },
        }
    }
}

pub struct ExtractorView {
    pub extractor_type: ExtractorType,
    pub name: Seq<char>,
    pub pattern: Option<Seq<char>>,
    pub group: Option<usize>,
    pub scope: Option<Seq<char>>,
    pub method: Option<Seq<char>>,
}

impl View for Extractor {
    type V = ExtractorView;

    open spec fn view(&self) -> ExtractorView {
        ExtractorView {
            extractor_type: self.extractor_type,
            name: self.name@,
            pattern: self.pattern.deep_view(),
            group: self.group,
            scope: self.scope.deep_view(),
            method: self.method.deep_view(),
        }
    }
}

pub struct AutofixView {
    pub fix_type: Seq<char>,
    pub match_pattern: Seq<char>,
    pub replace: Seq<char>,
}

impl View for Autofix {
    type V = AutofixView;

    open spec fn view(&self) -> AutofixView {
        AutofixView {
            fix_type: self.fix_type@,
            match_pattern: self.match_pattern@,
            replace: self.replace@,
        }
    }
}

pub struct RemediationView {
    pub suggestion: Seq<char>,
    pub autofix: Option<AutofixView>,
    pub difficulty: Option<Seq<char>>,
}

impl View for Remediation {
    type V = RemediationView;

    open spec fn view(&self) -> RemediationView {
        RemediationView {
            suggestion: self.suggestion@,
            autofix: match self.autofix {
                Some(a) => Some(a@),
                None => None,
            },
            difficulty: self.difficulty.deep_view(),
        }
    }
}

pub struct TemplateView {
    pub id: Seq<char>,
    pub info: TemplateInfoView,
    pub scope: ScopeView,
    pub match_block: MatchBlockView,
    pub extractors: Seq<ExtractorView>,
    pub report: Option<(Seq<char>, Option<Evidence>)>,
    pub remediation: Option<RemediationView>,
    pub related: Seq<Seq<char>>,
}

impl View for Template {
    type V = TemplateView;

    open spec fn view(&self) -> TemplateView {
        TemplateView {
            id: self.id@,
            info: self.info@,
            scope: self.scope@,
            match_block: self.match_block@,
            extractors: self.extractors@.map_values(|e: Extractor| e@),
            report: match self.report {
                Some(r) => Some((r.format@, r.evidence)),
                None => None,
            },
            remediation: match self.remediation {
                Some(r) => Some(r@),
                None => None,
            },
            related: self.related.deep_view(),
        }
    }
}

/// A copy of a list of strings.
pub fn copy_strings(v: &Vec<String>) -> (r: Vec<String>)
    ensures
        r.deep_view() == v.deep_view(),
{
    let mut r: Vec<String> = Vec::new();
    let mut i: usize = 0;
    while i < v.len()
        invariant
            i <= v@.len(),
            r.deep_view() == v.deep_view().take(i as int),
        decreases v@.len() - i,
    {
        let ghost before = r.deep_view();
        r.push(v[i].clone());
        assert(r.deep_view() =~= before.push(v@[i as int]@));
        assert(v.deep_view().take(i + 1) =~= v.deep_view().take(i as int).push(v@[i as int]@));
        i += 1;
    }
    assert(v.deep_view().take(i as int) =~= v.deep_view());
    r
}

pub fn copy_opt_string(o: &Option<String>) -> (r: Option<String>)
    ensures
        r.deep_view() == o.deep_view(),
{
    match o {
        Some(s) => Some(s.clone()),
        None => None,
    }
}

pub fn copy_opt_bytes(o: &Option<Vec<u8>>) -> (r: Option<Vec<u8>>)
    ensures
        r.deep_view() == o.deep_view(),
{
    match o {
        Some(v) => {
            let c = v.clone();
            assert(c.deep_view() =~= v.deep_view());
            Some(c)
        },
        None => None,
    }
}

pub fn copy_string_pairs(v: &Vec<(String, String)>) -> (r: Vec<(String, String)>)
    ensures
        r.deep_view() == v.deep_view(),
{
    let mut r: Vec<(String, String)> = Vec::new();
    let mut i: usize = 0;
    while i < v.len()
        invariant
            i <= v@.len(),
            r.deep_view() == v.deep_view().take(i as int),
        decreases v@.len() - i,
    {
        let ghost before = r.deep_view();
        let p = (v[i].0.clone(), v[i].1.clone());
        r.push(p);
        assert(r.deep_view() =~= before.push(v.deep_view()[i as int]));
        assert(v.deep_view().take(i + 1) =~= v.deep_view().take(i as int).push(
            v.deep_view()[i as int],
        ));
        i += 1;
    }
    assert(v.deep_view().take(i as int) =~= v.deep_view());
    r
}

pub fn copy_name_groups(v: &Vec<(String, usize)>) -> (r: Vec<(String, usize)>)
    ensures
        r.deep_view() == v.deep_view(),
{
    let mut r: Vec<(String, usize)> = Vec::new();
    let mut i: usize = 0;
    while i < v.len()
        invariant
            i <= v@.len(),
            r.deep_view() == v.deep_view().take(i as int),
        decreases v@.len() - i,
    {
        let ghost before = r.deep_view();
        let p = (v[i].0.clone(), v[i].1);
        r.push(p);
        assert(r.deep_view() =~= before.push(v.deep_view()[i as int]));
        assert(v.deep_view().take(i + 1) =~= v.deep_view().take(i as int).push(
            v.deep_view()[i as int],
        ));
        i += 1;
    }
    assert(v.deep_view().take(i as int) =~= v.deep_view());
    r
}

fn copy_type_map(v: &Vec<(String, Vec<String>)>) -> (r: Vec<(String, Vec<String>)>)
    ensures
        r.deep_view() == v.deep_view(),
{
    let mut r: Vec<(String, Vec<String>)> = Vec::new();
    let mut i: usize = 0;
    while i < v.len()
        invariant
            i <= v@.len(),
            r.deep_view() == v.deep_view().take(i as int),
        decreases v@.len() - i,
    {
        let ghost before = r.deep_view();
        let p = (v[i].0.clone(), copy_strings(&v[i].1));
        r.push(p);
        assert(r.deep_view() =~= before.push(v.deep_view()[i as int]));
        assert(v.deep_view().take(i + 1) =~= v.deep_view().take(i as int).push(
            v.deep_view()[i as int],
        ));
        i += 1;
    }
    assert(v.deep_view().take(i as int) =~= v.deep_view());
    r
}

impl TemplateInfo {
    pub fn copy(&self) -> (r: TemplateInfo)
        ensures
            r@ == self@,
    {
        TemplateInfo {
            name: self.name.clone(),
            severity: self.severity,
            author: self.author.clone(),
            description: self.description.clone(),
            impact: self.impact.clone(),
            tags: copy_strings(&self.tags),
            references: copy_strings(&self.references),
            cwe: self.cwe.clone(),
            created: self.created.clone(),
            updated: self.updated.clone(),
        }
    }
}

impl Matcher {
    pub fn copy(&self) -> (r: Matcher)
        ensures
            r@ == self@,
    {
        Matcher {
            matcher_type: self.matcher_type,
            name: self.name.clone(),
            pattern: copy_strings(&self.pattern),
            condition: self.condition,
            value: copy_opt_string(&self.value),
            byte_range: copy_opt_bytes(&self.byte_range),
            exclude: copy_opt_bytes(&self.exclude),
            extractor: match &self.extractor {
                Some(e) => Some(MatcherExtractor { name: e.name.clone(), group: e.group }),
                None => None,
            },
        }
    }
}

impl SequenceStep {
    pub fn copy(&self) -> (r: SequenceStep)
        ensures
            r@ == self@,
    {
        SequenceStep {
            id: self.id.clone(),
            pattern: self.pattern.clone(),
            capture: copy_name_groups(&self.capture),
            after: copy_opt_string(&self.after),
            within_lines: self.within_lines,
            step_type: copy_opt_string(&self.step_type),
        }
    }
}

impl CrossRefStep {
    pub fn copy(&self) -> (r: CrossRefStep)
        ensures
            r@ == self@,
    {
        CrossRefStep {
            id: self.id.clone(),
            file: copy_opt_string(&self.file),
            pattern: copy_opt_string(&self.pattern),
            capture: copy_name_groups(&self.capture),
            step_type: copy_opt_string(&self.step_type),
            type_map: match &self.type_map {
                Some(m) => Some(copy_type_map(m)),
                None => None,
            },
        }
    }
}

impl Extractor {
    pub fn copy(&self) -> (r: Extractor)
        ensures
            r@ == self@,
    {
        Extractor {
            extractor_type: self.extractor_type,
            name: self.name.clone(),
            pattern: copy_opt_string(&self.pattern),
            group: self.group,
            scope: copy_opt_string(&self.scope),
            method: copy_opt_string(&self.method),
        }
    }
}

impl Remediation {
    pub fn copy(&self) -> (r: Remediation)
        ensures
            r@ == self@,
    {
        Remediation {
            suggestion: self.suggestion.clone(),
            autofix: match &self.autofix {
                Some(a) => Some(a.copy()),
                None => None,
            },
            difficulty: copy_opt_string(&self.difficulty),
        }
    }
}

fn copy_matchers(v: &Vec<Matcher>) -> (r: Vec<Matcher>)
    ensures
        r@.map_values(|x: Matcher| x@) == v@.map_values(|x: Matcher| x@),
{
    let mut r: Vec<Matcher> = Vec::new();
    let mut i: usize = 0;
    while i < v.len()
        invariant
            i <= v@.len(),
            r@.len() == i,
            forall|j: int| 0 <= j < i ==> (#[trigger] r@[j])@ == v@[j]@,
        decreases v@.len() - i,
    {
        r.push(v[i].copy());
        i += 1;
    }
    assert(r@.map_values(|x: Matcher| x@) =~= v@.map_values(|x: Matcher| x@));
    r
}

fn copy_seq_steps(v: &Vec<SequenceStep>) -> (r: Vec<SequenceStep>)
    ensures
        r@.map_values(|x: SequenceStep| x@) == v@.map_values(|x: SequenceStep| x@),
{
    let mut r: Vec<SequenceStep> = Vec::new();
    let mut i: usize = 0;
    while i < v.len()
        invariant
            i <= v@.len(),
            r@.len() == i,
            forall|j: int| 0 <= j < i ==> (#[trigger] r@[j])@ == v@[j]@,
        decreases v@.len() - i,
    {
        r.push(v[i].copy());
        i += 1;
    }
    assert(r@.map_values(|x: SequenceStep| x@) =~= v@.map_values(|x: SequenceStep| x@));
    r
}

fn copy_xref_steps(v: &Vec<CrossRefStep>) -> (r: Vec<CrossRefStep>)
    ensures
        r@.map_values(|x: CrossRefStep| x@) == v@.map_values(|x: CrossRefStep| x@),
{
    let mut r: Vec<CrossRefStep> = Vec::new();
    let mut i: usize = 0;
    while i < v.len()
        invariant
            i <= v@.len(),
            r@.len() == i,
            forall|j: int| 0 <= j < i ==> (#[trigger] r@[j])@ == v@[j]@,
        decreases v@.len() - i,
    {
        r.push(v[i].copy());
        i += 1;
    }
    assert(r@.map_values(|x: CrossRefStep| x@) =~= v@.map_values(|x: CrossRefStep| x@));
    r
}

fn copy_extractors(v: &Vec<Extractor>) -> (r: Vec<Extractor>)
    ensures
        r@.map_values(|x: Extractor| x@) == v@.map_values(|x: Extractor| x@),
{
    let mut r: Vec<Extractor> = Vec::new();
    let mut i: usize = 0;
    while i < v.len()
        invariant
            i <= v@.len(),
            r@.len() == i,
            forall|j: int| 0 <= j < i ==> (#[trigger] r@[j])@ == v@[j]@,
        decreases v@.len() - i,
    {
        r.push(v[i].copy());
        i += 1;
    }
    assert(r@.map_values(|x: Extractor| x@) =~= v@.map_values(|x: Extractor| x@));
    r
}

impl MatchBlock {
    pub fn copy(&self) -> (r: MatchBlock)
        ensures
            r@ == self@,
    {
        match self {
            MatchBlock::Matchers { matchers, condition } => MatchBlock::Matchers {
                matchers: copy_matchers(matchers),
                condition: *condition,
            },
            MatchBlock::Sequence { match_type, steps, condition } => MatchBlock::Sequence {
                match_type: match_type.clone(),
                steps: copy_seq_steps(steps),
                condition: *condition,
            },
            MatchBlock::CrossReference { match_type, steps } => MatchBlock::CrossReference {
                match_type: match_type.clone(),
                steps: copy_xref_steps(steps),
            },
        }
    }
}

impl Template {
    /// A copy with an equal view.
    pub fn copy(&self) -> (r: Template)
        ensures
            r@ == self@,
    {
        Template {
            id: self.id.clone(),
            info: self.info.copy(),
            scope: Scope {
                file_type: self.scope.file_type,
                section: self.scope.section,
                inputs: copy_string_pairs(&self.scope.inputs),
            },
            match_block: self.match_block.copy(),
            extractors: copy_extractors(&self.extractors),
            report: match &self.report {
                Some(r) => Some(Report { format: r.format.clone(), evidence: r.evidence }),
                None => None,
            },
            remediation: match &self.remediation {
                Some(r) => Some(r.copy()),
                None => None,
            },
            related: copy_strings(&self.related),
        }
    }
}

} // verus!
