//! Template selection: filtering by tags, severities and ids, and parsing
//! severity lists.
use vstd::prelude::*;
use crate::schema::{Severity, Template, TemplateView};
use crate::text::{
    contains, contains_str, join_sep, join_with, lines, lines_of, push_all, split, split_str,
    lowercase, to_lowercase, trim, trim_str, unicode_lowercase,
};
use crate::schema::severity_name;

verus! {

/// A template passes the filters: its id is among `ids`, one of its tags is
/// among `tags`, its severity is among `sevs`; an empty filter passes all.
pub open spec fn passes_filter(
    t: TemplateView,
    tags: Seq<Seq<char>>,
    sevs: Seq<Severity>,
    ids: Seq<Seq<char>>,
) -> bool {
    &&& (ids.len() == 0 || ids.contains(t.id))
    &&& (tags.len() == 0 || exists|k: int| 0 <= k < tags.len() && t.info.tags.contains(#[trigger] tags[k]))
    &&& (sevs.len() == 0 || sevs.contains(t.info.severity))
}

/// The templates among the first `n` that pass the filters, in order.
pub open spec fn filtered(
    ts: Seq<TemplateView>,
    tags: Seq<Seq<char>>,
    sevs: Seq<Severity>,
    ids: Seq<Seq<char>>,
    n: nat,
) -> Seq<TemplateView>
    decreases n,
{
    if n == 0 || n > ts.len() {
        Seq::empty()
    } else {
        let prev = filtered(ts, tags, sevs, ids, (n - 1) as nat);
        if passes_filter(ts[n - 1], tags, sevs, ids) {
            prev.push(ts[n - 1])
        } else {
            prev
        }
    }
}

pub open spec fn template_views(ts: Seq<Template>) -> Seq<TemplateView> {
    ts.map_values(|t: Template| t@)
}

fn strings_contain(v: &[String], x: &String) -> (b: bool)
    ensures
        b == v.deep_view().contains(x@),
{
    let mut i: usize = 0;
    while i < v.len()
        invariant
            i <= v@.len(),
            forall|j: int| 0 <= j < i ==> v.deep_view()[j] != x@,
        decreases v@.len() - i,
    {
        if v[i] == *x {
            assert(v.deep_view()[i as int] == x@);
            return true;
        }
        i += 1;
    }
    false
}

fn severities_contain(v: &[Severity], x: Severity) -> (b: bool)
    ensures
        b == v@.contains(x),
{
    let mut i: usize = 0;
    while i < v.len()
        invariant
            i <= v@.len(),
            forall|j: int| 0 <= j < i ==> v@[j] != x,
        decreases v@.len() - i,
    {
        if v[i] == x {
            return true;
        }
        i += 1;
    }
    false
}

fn passes_filter_exec(t: &Template, tags: &[String], severities: &[Severity], ids: &[String]) -> (b: bool)
    ensures
        b == passes_filter(t@, tags.deep_view(), severities@, ids.deep_view()),
{
    if ids.len() != 0 && !strings_contain(ids, &t.id) {
        return false;
    }
    if tags.len() != 0 {
        let mut any = false;
        let mut k: usize = 0;
        while k < tags.len()
            invariant
                k <= tags@.len(),
                any == exists|j: int| 0 <= j < k && t@.info.tags.contains(#[trigger] tags.deep_view()[j]),
            decreases tags@.len() - k,
        {
            let hit = strings_contain(t.info.tags.as_slice(), &tags[k]);
            assert(tags.deep_view()[k as int] == tags@[k as int]@);
            any = any || hit;
            k += 1;
        }
        if !any {
            return false;
        }
    }
    if severities.len() != 0 && !severities_contain(severities, t.info.severity) {
        return false;
    }
    true
}

/// The templates that pass the id, tag and severity filters, in order.
pub fn filter_templates(
    templates: &[Template],
    tags: &[String],
    severities: &[Severity],
    ids: &[String],
) -> (r: Vec<Template>)
    ensures
        template_views(r@) == filtered(
            template_views(templates@),
            tags.deep_view(),
            severities@,
            ids.deep_view(),
            templates@.len(),
        ),
{
    let ghost tv = template_views(templates@);
    let mut r: Vec<Template> = Vec::new();
    let mut i: usize = 0;
    while i < templates.len()
        invariant
            i <= templates@.len(),
            tv == template_views(templates@),
            template_views(r@) == filtered(tv, tags.deep_view(), severities@, ids.deep_view(), i as nat),
        decreases templates@.len() - i,
    {
        assert(tv[i as int] == templates@[i as int]@);
        if passes_filter_exec(&templates[i], tags, severities, ids) {
            let t = templates[i].copy();
            let ghost before = r@;
            r.push(t);
            assert(template_views(r@) =~= template_views(before).push(t@));
        }
        i += 1;
    }
    r
}

/// The severity a (lowercased, trimmed) word names.
pub open spec fn severity_of_word(w: Seq<char>) -> Option<Severity> {
    if w == "critical"@ {
        Some(Severity::Critical)
    } else if w == "high"@ {
        Some(Severity::High)
    } else if w == "medium"@ {
        Some(Severity::Medium)
    } else if w == "low"@ {
        Some(Severity::Low)
    } else if w == "info"@ {
        Some(Severity::Info)
    } else {
        None
    }
}

/// The severities that the first `n` comma-separated pieces name, in order.
pub open spec fn severities_of(ps: Seq<Seq<char>>, n: nat) -> Seq<Severity>
    decreases n,
{
    if n == 0 || n > ps.len() {
        Seq::empty()
    } else {
        let prev = severities_of(ps, (n - 1) as nat);
        match severity_of_word(lowercase(trim(ps[n - 1]))) {
            Some(s) => prev.push(s),
            None => prev,
        }
    }
}

pub open spec fn parse_severities_spec(s: Seq<char>) -> Seq<Severity> {
    severities_of(split(s, ','), split(s, ',').len())
}

fn severity_of_word_exec(w: &String) -> (r: Option<Severity>)
    ensures
        r == severity_of_word(w@),
{
    if *w == "critical".to_string() {
        Some(Severity::Critical)
    } else if *w == "high".to_string() {
        Some(Severity::High)
    } else if *w == "medium".to_string() {
        Some(Severity::Medium)
    } else if *w == "low".to_string() {
        Some(Severity::Low)
    } else if *w == "info".to_string() {
        Some(Severity::Info)
    } else {
        None
    }
}

/// Parses a comma-separated severity list; unknown names are skipped.
pub fn parse_severities(s: &str) -> (r: Vec<Severity>)
    ensures
        r@ == parse_severities_spec(s@),
{
    let ps = split_str(s, ',');
    let mut r: Vec<Severity> = Vec::new();
    let mut i: usize = 0;
    while i < ps.len()
        invariant
            i <= ps@.len(),
            ps.deep_view() == split(s@, ','),
            r@ == severities_of(ps.deep_view(), i as nat),
        decreases ps@.len() - i,
    {
        let w = to_lowercase(trim_str(ps[i].as_str()).as_str());
        match severity_of_word_exec(&w) {
            Some(sev) => {
                r.push(sev);
            },
            None => {},
        }
        i += 1;
    }
    r
}

// ---------------------------------------------------------------------------
// Template files, listings and details
// ---------------------------------------------------------------------------

/// A YAML file that holds a workflow rather than a template: it has a
/// `workflow:` key and no `match:` block.
pub open spec fn is_workflow_text(content: Seq<char>) -> bool {
    contains(content, "workflow:"@) && !contains(content, "match:"@)
}

pub fn is_workflow_file(content: &str) -> (b: bool)
    ensures
        b == is_workflow_text(content@),
{
    contains_str(content, "workflow:") && !contains_str(content, "match:")
}

/// Index of the first template with id `id`.
pub open spec fn template_pos(ts: Seq<TemplateView>, id: Seq<char>, i: int) -> Option<int>
    decreases ts.len() - i,
{
    if i < 0 || i >= ts.len() {
        None
    } else if ts[i].id == id {
        Some(i)
    } else {
        template_pos(ts, id, i + 1)
    }
}

pub fn find_template(templates: &[Template], id: &str) -> (r: Option<usize>)
    ensures
        r matches Some(i) ==> template_pos(template_views(templates@), id@, 0) == Some(i as int),
        r is None ==> template_pos(template_views(templates@), id@, 0) is None,
{
    let ghost tv = template_views(templates@);
    let mut i: usize = 0;
    while i < templates.len()
        invariant
            i <= templates@.len(),
            tv == template_views(templates@),
            template_pos(tv, id@, 0) == template_pos(tv, id@, i as int),
        decreases templates@.len() - i,
    {
        assert(tv[i as int] == templates@[i as int]@);
        if templates[i].id == id.to_string() {
            return Some(i);
        }
        i += 1;
    }
    None
}

/// `a` lists no later than `b`: by severity, then by id.
pub open spec fn listed_before(a: TemplateView, b: TemplateView) -> bool {
    crate::schema::severity_rank(a.info.severity) < crate::schema::severity_rank(b.info.severity)
        || (crate::schema::severity_rank(a.info.severity) == crate::schema::severity_rank(
        b.info.severity,
    ) && crate::ir::lex_le(a.id, b.id))
}

pub open spec fn insert_listed(s: Seq<TemplateView>, x: TemplateView) -> Seq<TemplateView>
    decreases s.len(),
{
    if s.len() == 0 {
        seq![x]
    } else if listed_before(s.last(), x) {
        s.push(x)
    } else {
        insert_listed(s.drop_last(), x).push(s.last())
    }
}

/// Stable sort by severity, then id: the order of a listing.
pub open spec fn listing_order(s: Seq<TemplateView>) -> Seq<TemplateView>
    decreases s.len(),
{
    if s.len() == 0 {
        Seq::empty()
    } else {
        insert_listed(listing_order(s.drop_last()), s.last())
    }
}

proof fn lemma_insert_listed_at(s: Seq<TemplateView>, x: TemplateView, j: int)
    requires
        0 <= j <= s.len(),
        j == 0 || listed_before(s[j - 1], x),
        forall|k: int| j <= k < s.len() ==> !listed_before(#[trigger] s[k], x),
    ensures
        insert_listed(s, x) == s.insert(j, x),
    decreases s.len(),
{
    if s.len() == 0 {
        assert(s.insert(j, x) =~= seq![x]);
    } else if j == s.len() {
        assert(s.insert(j, x) =~= s.push(x));
    } else {
        lemma_insert_listed_at(s.drop_last(), x, j);
        assert(s.insert(j, x) =~= s.drop_last().insert(j, x).push(s.last()));
    }
}

fn listed_before_exec(a: &Template, b: &Template) -> (r: bool)
    ensures
        r == listed_before(a@, b@),
{
    let ra = a.info.severity.rank();
    let rb = b.info.severity.rank();
    ra < rb || (ra == rb && crate::ir::lex_le_str(a.id.as_str(), b.id.as_str()))
}

/// The templates in listing order: by severity, then id.
pub fn sort_for_listing(templates: &[Template]) -> (r: Vec<Template>)
    ensures
        template_views(r@) == listing_order(template_views(templates@)),
{
    let mut r: Vec<Template> = Vec::new();
    let mut i: usize = 0;
    while i < templates.len()
        invariant
            i <= templates@.len(),
            template_views(r@) == listing_order(template_views(templates@.take(i as int))),
        decreases templates@.len() - i,
    {
        let x = templates[i].copy();
        let mut j = r.len();
        while j > 0 && !listed_before_exec(&r[j - 1], &x)
            invariant
                j <= r@.len(),
                forall|k: int| j <= k < r@.len() ==> !listed_before(#[trigger] r@[k]@, x@),
            decreases j,
        {
            j -= 1;
        }
        proof {
            let tv = template_views(r@);
            assert forall|k: int| j <= k < tv.len() implies !listed_before(#[trigger] tv[k], x@) by {
                assert(tv[k] == r@[k]@);
            }
            if j > 0 {
                assert(tv[j - 1] == r@[j - 1]@);
            }
            lemma_insert_listed_at(tv, x@, j as int);
            assert(template_views(templates@.take(i + 1)).drop_last() =~= template_views(
                templates@.take(i as int),
            ));
            assert(template_views(templates@.take(i + 1)).last() == templates@[i as int]@);
        }
        let ghost before = r@;
        r.insert(j, x);
        proof {
            assert(template_views(r@) =~= template_views(before).insert(j as int, x@));
        }
        i += 1;
    }
    assert(templates@.take(i as int) =~= templates@);
    r
}

/// The labelled fields that the details of a template start with; the CWE only
/// when there is one.
pub open spec fn template_fields_spec(t: TemplateView) -> Seq<(Seq<char>, Seq<char>)> {
    seq![("Name:"@, t.info.name), ("Severity:"@, severity_name(t.info.severity)), ("Author:"@, t.info.author)]
        + (if t.info.cwe.len() > 0 {
        seq![("CWE:"@, t.info.cwe)]
    } else {
        Seq::empty()
    }) + seq![("Tags:"@, join_sep(t.info.tags, ", "@))]
}

pub fn template_fields(t: &Template) -> (r: Vec<(String, String)>)
    ensures
        r.deep_view() == template_fields_spec(t@),
{
    let mut r: Vec<(String, String)> = Vec::new();
    r.push(("Name:".to_string(), t.info.name.clone()));
    r.push(("Severity:".to_string(), t.info.severity.as_str().to_string()));
    r.push(("Author:".to_string(), t.info.author.clone()));
    if !t.info.cwe.as_str().is_empty() {
        r.push(("CWE:".to_string(), t.info.cwe.clone()));
    }
    r.push(("Tags:".to_string(), join_with(&t.info.tags, ", ")));
    assert(r.deep_view() =~= template_fields_spec(t@));
    r
}

/// A titled block of lines in the details of a template.
#[derive(Debug, Clone)]
pub struct DetailSection {
    pub title: String,
    pub lines: Vec<String>,
}

pub open spec fn section_views(ss: Seq<DetailSection>) -> Seq<(Seq<char>, Seq<Seq<char>>)> {
    ss.map_values(|s: DetailSection| (s.title@, s.lines.deep_view()))
}

/// The lines of a remediation: its suggestion, then whether it can be fixed
/// automatically and how hard a fix is.
pub open spec fn remediation_lines(r: crate::schema::RemediationView) -> Seq<Seq<char>> {
    lines(r.suggestion) + (match r.autofix {
        Some(a) => seq![">> auto-fixable ("@ + a.fix_type + ")"@],
        None => Seq::empty(),
    }) + (match r.difficulty {
        Some(d) => seq!["Difficulty: "@ + d],
        None => Seq::empty(),
    })
}

pub open spec fn bulleted(items: Seq<Seq<char>>) -> Seq<Seq<char>> {
    items.map_values(|x: Seq<char>| "- "@ + x)
}

/// The blocks of the details of a template: description, impact, remediation,
/// references and related templates, each only when it has content.
pub open spec fn template_sections_spec(t: TemplateView) -> Seq<(Seq<char>, Seq<Seq<char>>)> {
    (if t.info.description.len() > 0 {
        seq![("Description:"@, lines(t.info.description))]
    } else {
        Seq::empty()
    }) + (if t.info.impact.len() > 0 {
        seq![("Impact:"@, lines(t.info.impact))]
    } else {
        Seq::empty()
    }) + (match t.remediation {
        Some(r) => seq![("Remediation:"@, remediation_lines(r))],
        None => Seq::empty(),
    }) + (if t.info.references.len() > 0 {
        seq![("References:"@, bulleted(t.info.references))]
    } else {
        Seq::empty()
    }) + (if t.related.len() > 0 {
        seq![("Related:"@, bulleted(t.related))]
    } else {
        Seq::empty()
    })
}

fn bulleted_exec(items: &Vec<String>) -> (r: Vec<String>)
    ensures
        r.deep_view() == bulleted(items.deep_view()),
{
    let mut r: Vec<String> = Vec::new();
    let mut i: usize = 0;
    while i < items.len()
        invariant
            i <= items@.len(),
            r.deep_view() == bulleted(items.deep_view().take(i as int)),
        decreases items@.len() - i,
    {
        let mut x = "- ".to_string();
        push_all(&mut x, items[i].as_str());
        let ghost before = r.deep_view();
        assert(x@ =~= "- "@ + items.deep_view()[i as int]);
        r.push(x);
        assert(items.deep_view().take(i + 1) =~= items.deep_view().take(i as int).push(
            items.deep_view()[i as int],
        ));
        assert(r.deep_view() =~= before.push("- "@ + items.deep_view()[i as int]));
        assert(r.deep_view() =~= bulleted(items.deep_view().take(i + 1)));
        i += 1;
    }
    assert(items.deep_view().take(i as int) =~= items.deep_view());
    r
}

pub fn template_sections(t: &Template) -> (r: Vec<DetailSection>)
    ensures
        section_views(r@) == template_sections_spec(t@),
{
    let mut r: Vec<DetailSection> = Vec::new();
    if !t.info.description.as_str().is_empty() {
        r.push(
            DetailSection {
                title: "Description:".to_string(),
                lines: lines_of(t.info.description.as_str()),
            },
        );
    }
    if !t.info.impact.as_str().is_empty() {
        r.push(DetailSection { title: "Impact:".to_string(), lines: lines_of(t.info.impact.as_str()) });
    }
    match &t.remediation {
        Some(rem) => {
            let mut ls = lines_of(rem.suggestion.as_str());
            let ghost l0 = ls.deep_view();
            match &rem.autofix {
                Some(a) => {
                    let mut x = ">> auto-fixable (".to_string();
                    push_all(&mut x, a.fix_type.as_str());
                    push_all(&mut x, ")");
                    ls.push(x);
                },
                None => {},
            }
            let ghost l1 = ls.deep_view();
            match &rem.difficulty {
                Some(d) => {
                    let mut x = "Difficulty: ".to_string();
                    push_all(&mut x, d.as_str());
                    ls.push(x);
                },
                None => {},
            }
            proof {
                let rv = t@.remediation->0;
                assert(l1 =~= l0 + match rv.autofix {
                    Some(a) => seq![">> auto-fixable ("@ + a.fix_type + ")"@],
                    None => Seq::<Seq<char>>::empty(),
                });
                assert(ls.deep_view() =~= remediation_lines(rv));
            }
            r.push(DetailSection { title: "Remediation:".to_string(), lines: ls });
        },
        None => {},
    }
    if t.info.references.len() > 0 {
        r.push(
            DetailSection {
                title: "References:".to_string(),
                lines: bulleted_exec(&t.info.references),
            },
        );
    }
    if t.related.len() > 0 {
        r.push(DetailSection { title: "Related:".to_string(), lines: bulleted_exec(&t.related) });
    }
    assert(section_views(r@) =~= template_sections_spec(t@));
    r
}

// ---------------------------------------------------------------------------
// Searching templates by words
// ---------------------------------------------------------------------------

/// `acc` plus `x` (wrapping) when `c` holds.
pub open spec fn add_if(acc: usize, c: bool, x: usize) -> usize {
    if c {
        acc.wrapping_add(x)
    } else {
        acc
    }
}

/// `acc` plus `w` for each of the first `n` texts whose lowercase form holds `term`.
pub open spec fn add_per_hit(acc: usize, texts: Seq<Seq<char>>, term: Seq<char>, w: usize, n: nat) -> usize
    decreases n,
{
    if n == 0 || n > texts.len() {
        acc
    } else {
        add_if(
            add_per_hit(acc, texts, term, w, (n - 1) as nat),
            contains(unicode_lowercase(texts[n - 1]), term),
            w,
        )
    }
}

/// `acc` plus the weight of one search word for a template: 10 for its id, 8
/// per tag, 5 for its name, 3 each for its description and impact, 4 for its
/// CWE, 1 per related template, each where the lowercase text holds the word.
pub open spec fn term_score(acc: usize, t: TemplateView, term: Seq<char>) -> usize {
    let a1 = add_if(acc, contains(unicode_lowercase(t.id), term), 10);
    let a2 = add_per_hit(a1, t.info.tags, term, 8, t.info.tags.len());
    let a3 = add_if(a2, contains(unicode_lowercase(t.info.name), term), 5);
    let a4 = add_if(a3, contains(unicode_lowercase(t.info.description), term), 3);
    let a5 = add_if(a4, contains(unicode_lowercase(t.info.impact), term), 3);
    let a6 = add_if(a5, t.info.cwe.len() > 0 && contains(unicode_lowercase(t.info.cwe), term), 4);
    add_per_hit(a6, t.related, term, 1, t.related.len())
}

pub open spec fn terms_score(t: TemplateView, terms: Seq<Seq<char>>, n: nat) -> usize
    decreases n,
{
    if n == 0 || n > terms.len() {
        0
    } else {
        term_score(terms_score(t, terms, (n - 1) as nat), t, terms[n - 1])
    }
}

/// How well a template answers a search: the weights of all words, then a
/// third more for a critical template and a fifth more for a high one.
/// Arithmetic wraps as in a release build.
pub open spec fn score_spec(t: TemplateView, terms: Seq<Seq<char>>) -> usize {
    let raw = terms_score(t, terms, terms.len());
    match t.info.severity {
        Severity::Critical => raw.wrapping_add(raw / 3),
        Severity::High => raw.wrapping_add(raw / 5),
        _ => raw,
    }
}

fn add_per_hit_exec(acc: usize, texts: &Vec<String>, term: &str, w: usize) -> (r: usize)
    ensures
        r == add_per_hit(acc, texts.deep_view(), term@, w, texts@.len() as nat),
{
    let mut a = acc;
    let mut i: usize = 0;
    while i < texts.len()
        invariant
            i <= texts@.len(),
            a == add_per_hit(acc, texts.deep_view(), term@, w, i as nat),
        decreases texts@.len() - i,
    {
        assert(texts.deep_view()[i as int] == texts@[i as int]@);
        if contains_str(to_lowercase(texts[i].as_str()).as_str(), term) {
            a = a.wrapping_add(w);
        }
        i += 1;
    }
    a
}

fn hit(text: &String, term: &str) -> (b: bool)
    ensures
        b == contains(unicode_lowercase(text@), term@),
{
    contains_str(to_lowercase(text.as_str()).as_str(), term)
}

/// The search score of a template for the given (lowercase) words.
pub fn score_template(t: &Template, terms: &[String]) -> (r: usize)
    ensures
        r == score_spec(t@, terms.deep_view()),
{
    let mut score: usize = 0;
    let mut i: usize = 0;
    while i < terms.len()
        invariant
            i <= terms@.len(),
            score == terms_score(t@, terms.deep_view(), i as nat),
        decreases terms@.len() - i,
    {
        let term = terms[i].as_str();
        assert(terms.deep_view()[i as int] == term@);
        let mut a = score;
        if hit(&t.id, term) {
            a = a.wrapping_add(10);
        }
        a = add_per_hit_exec(a, &t.info.tags, term, 8);
        if hit(&t.info.name, term) {
            a = a.wrapping_add(5);
        }
        if hit(&t.info.description, term) {
            a = a.wrapping_add(3);
        }
        if hit(&t.info.impact, term) {
            a = a.wrapping_add(3);
        }
        if !t.info.cwe.as_str().is_empty() && hit(&t.info.cwe, term) {
            a = a.wrapping_add(4);
        }
        a = add_per_hit_exec(a, &t.related, term, 1);
        score = a;
        i += 1;
    }
    match t.info.severity {
        Severity::Critical => score.wrapping_add(score / 3),
        Severity::High => score.wrapping_add(score / 5),
        _ => score,
    }
}

/// The first sentence of a text: its first line when trimmed, cut after the
/// first `. ` in it.
pub open spec fn first_sentence_spec(text: Seq<char>) -> Seq<char> {
    let t = trim(text);
    if t.len() == 0 {
        Seq::empty()
    } else {
        let fl = if lines(t).len() > 0 {
            lines(t)[0]
        } else {
            Seq::empty()
        };
        match crate::text::find_from(fl, ". "@, 0) {
            Some(k) => fl.take(k + 1),
            None => fl,
        }
    }
}

pub fn first_sentence(text: &str) -> (r: String)
    ensures
        r@ == first_sentence_spec(text@),
{
    let t = trim_str(text);
    if t.as_str().is_empty() {
        return String::new();
    }
    let ls = lines_of(t.as_str());
    let fl = if ls.len() > 0 {
        ls[0].clone()
    } else {
        String::new()
    };
    let fv = crate::text::chars_of(fl.as_str());
    let nv = crate::text::chars_of(". ");
    let flen = fv.len();
    match crate::text::find_exec(fv.as_slice(), nv.as_slice(), 0) {
        Some(k) => {
            proof {
                reveal_strlit(". ");
                crate::text::lemma_find_from_some(fv@, nv@, 0);
                assert(nv@.len() == 2);
                assert(crate::text::matches_at(fv@, nv@, k as int));
                assert(k + 2 <= flen);
            }
            let r = crate::text::string_of(fv.as_slice(), 0, k + 1);
            assert(r@ =~= fl@.take(k + 1));
            r
        },
        None => fl,
    }
}

/// The marker a map shows before a template of each severity.
pub fn bullet_for_severity(sev: &Severity) -> (r: &'static str)
    ensures
        r@ == (match *sev {
            Severity::Critical => "!!!"@,
            Severity::High => " !!"@,
            Severity::Medium => "  !"@,
            Severity::Low => "  -"@,
            Severity::Info => "  ."@,
        }),
{
    match sev {
        Severity::Critical => "!!!",
        Severity::High => " !!",
        Severity::Medium => "  !",
        Severity::Low => "  -",
        Severity::Info => "  .",
    }
}

/// The tags of the templates, in order.
pub open spec fn all_tags(ts: Seq<TemplateView>) -> Seq<Seq<char>>
    decreases ts.len(),
{
    if ts.len() == 0 {
        Seq::empty()
    } else {
        all_tags(ts.drop_last()) + ts.last().info.tags
    }
}

/// Index of the entry for `tag`.
pub open spec fn tag_pos(cs: Seq<(Seq<char>, nat)>, tag: Seq<char>, i: int) -> Option<int>
    decreases cs.len() - i,
{
    if i < 0 || i >= cs.len() {
        None
    } else if cs[i].0 == tag {
        Some(i)
    } else {
        tag_pos(cs, tag, i + 1)
    }
}

/// How often each of the first `n` tags occurs, tags in the order they first appear.
pub open spec fn tag_counts(tags: Seq<Seq<char>>, n: nat) -> Seq<(Seq<char>, nat)>
    decreases n,
{
    if n == 0 || n > tags.len() {
        Seq::empty()
    } else {
        let cs = tag_counts(tags, (n - 1) as nat);
        match tag_pos(cs, tags[n - 1], 0) {
            Some(j) => cs.update(j, (cs[j].0, cs[j].1 + 1)),
            None => cs.push((tags[n - 1], 1)),
        }
    }
}

/// Tags too broad to say what an area of templates is about.
pub open spec fn is_broad_tag(t: Seq<char>) -> bool {
    t == "ir"@ || t == "abi"@ || t == "bootstrap"@ || t == "binary"@
}

pub open spec fn without_broad(cs: Seq<(Seq<char>, nat)>) -> Seq<(Seq<char>, nat)>
    decreases cs.len(),
{
    if cs.len() == 0 {
        Seq::empty()
    } else if is_broad_tag(cs.last().0) {
        without_broad(cs.drop_last())
    } else {
        without_broad(cs.drop_last()).push(cs.last())
    }
}

pub open spec fn insert_by_tag_count(s: Seq<(Seq<char>, nat)>, x: (Seq<char>, nat)) -> Seq<(Seq<char>, nat)>
    decreases s.len(),
{
    if s.len() == 0 {
        seq![x]
    } else if s.last().1 >= x.1 {
        s.push(x)
    } else {
        insert_by_tag_count(s.drop_last(), x).push(s.last())
    }
}

pub open spec fn sort_tag_counts(s: Seq<(Seq<char>, nat)>) -> Seq<(Seq<char>, nat)>
    decreases s.len(),
{
    if s.len() == 0 {
        Seq::empty()
    } else {
        insert_by_tag_count(sort_tag_counts(s.drop_last()), s.last())
    }
}

/// The (at most three) most frequent tags of the templates, broad tags left out.
pub open spec fn top_tags_spec(ts: Seq<TemplateView>) -> Seq<Seq<char>> {
    let tags = all_tags(ts);
    let sorted = sort_tag_counts(without_broad(tag_counts(tags, tags.len())));
    let top = if sorted.len() <= 3 {
        sorted
    } else {
        sorted.take(3)
    };
    top.map_values(|c: (Seq<char>, nat)| c.0)
}

proof fn lemma_insert_by_tag_count_at(s: Seq<(Seq<char>, nat)>, x: (Seq<char>, nat), j: int)
    requires
        0 <= j <= s.len(),
        j == 0 || s[j - 1].1 >= x.1,
        forall|k: int| j <= k < s.len() ==> (#[trigger] s[k]).1 < x.1,
    ensures
        insert_by_tag_count(s, x) == s.insert(j, x),
    decreases s.len(),
{
    if s.len() == 0 {
        assert(s.insert(j, x) =~= seq![x]);
    } else if j == s.len() {
        assert(s.insert(j, x) =~= s.push(x));
    } else {
        lemma_insert_by_tag_count_at(s.drop_last(), x, j);
        assert(s.insert(j, x) =~= s.drop_last().insert(j, x).push(s.last()));
    }
}

pub open spec fn count_views(cs: Seq<(String, usize)>) -> Seq<(Seq<char>, nat)> {
    cs.map_values(|c: (String, usize)| (c.0@, c.1 as nat))
}

/// The three most frequent specific tags of a group of templates.
pub fn collect_top_tags(templates: &[Template]) -> (r: Vec<String>)
    ensures
        r.deep_view() == top_tags_spec(template_views(templates@)),
{
    let ghost tv = template_views(templates@);
    let mut tags: Vec<String> = Vec::new();
    let mut i: usize = 0;
    while i < templates.len()
        invariant
            i <= templates@.len(),
            tv == template_views(templates@),
            tags.deep_view() == all_tags(tv.take(i as int)),
        decreases templates@.len() - i,
    {
        let mut j: usize = 0;
        let ghost before = tags.deep_view();
        while j < templates[i].info.tags.len()
            invariant
                j <= templates@[i as int].info.tags@.len(),
                i < templates@.len(),
                tags.deep_view() == before + templates@[i as int].info.tags.deep_view().take(j as int),
            decreases templates@[i as int].info.tags@.len() - j,
        {
            let ghost b2 = tags.deep_view();
            let x = templates[i].info.tags[j].clone();
            let ghost xv = x@;
            tags.push(x);
            proof {
                let td = templates@[i as int].info.tags.deep_view();
                assert(td[j as int] == xv);
                assert(tags.deep_view() =~= b2.push(xv));
                assert(td.take(j + 1) =~= td.take(j as int).push(xv));
                assert(tags.deep_view() =~= before + td.take(j + 1));
            }
            j += 1;
        }
        proof {
            assert(templates@[i as int].info.tags.deep_view().take(j as int) =~= templates@[i as int].info.tags.deep_view());
            assert(tv.take(i + 1).drop_last() =~= tv.take(i as int));
            assert(tv.take(i + 1).last() == templates@[i as int]@);
        }
        i += 1;
    }
    assert(tv.take(i as int) =~= tv);
    let ghost all = tags.deep_view();
    let mut counts: Vec<(String, usize)> = Vec::new();
    let mut k: usize = 0;
    while k < tags.len()
        invariant
            k <= tags@.len(),
            all == tags.deep_view(),
            count_views(counts@) == tag_counts(all, k as nat),
            forall|m: int| 0 <= m < counts@.len() ==> (#[trigger] counts@[m]).1 <= k,
        decreases tags@.len() - k,
    {
        let t = &tags[k];
        assert(all[k as int] == t@);
        let ghost cv = count_views(counts@);
        let mut p: usize = 0;
        while p < counts.len() && counts[p].0 != *t
            invariant
                p <= counts@.len(),
                cv == count_views(counts@),
                tag_pos(cv, t@, 0) == tag_pos(cv, t@, p as int),
            decreases counts@.len() - p,
        {
            assert(cv[p as int].0 == counts@[p as int].0@);
            p += 1;
        }
        if p < counts.len() {
            assert(cv[p as int].0 == counts@[p as int].0@);
            let (name, n) = counts.remove(p);
            assert(n <= k);
            counts.insert(p, (name, n + 1));
            assert(count_views(counts@) =~= cv.update(p as int, (cv[p as int].0, cv[p as int].1 + 1)));
        } else {
            counts.push((t.clone(), 1));
            assert(count_views(counts@) =~= cv.push((t@, 1)));
        }
        k += 1;
    }
    let ghost cs = count_views(counts@);
    let mut kept: Vec<(String, usize)> = Vec::new();
    let mut q: usize = 0;
    while q < counts.len()
        invariant
            q <= counts@.len(),
            cs == count_views(counts@),
            count_views(kept@) == without_broad(cs.take(q as int)),
        decreases counts@.len() - q,
    {
        let name = &counts[q].0;
        let broad = *name == "ir".to_string() || *name == "abi".to_string() || *name
            == "bootstrap".to_string() || *name == "binary".to_string();
        proof {
            assert(cs.take(q + 1).drop_last() =~= cs.take(q as int));
            assert(cs.take(q + 1).last() == cs[q as int]);
        }
        if !broad {
            let ghost b = count_views(kept@);
            kept.push((name.clone(), counts[q].1));
            assert(count_views(kept@) =~= b.push(cs[q as int]));
        }
        q += 1;
    }
    assert(cs.take(q as int) =~= cs);
    let ghost wb = count_views(kept@);
    let mut sorted: Vec<(String, usize)> = Vec::new();
    let mut x: usize = 0;
    while x < kept.len()
        invariant
            x <= kept@.len(),
            wb == count_views(kept@),
            count_views(sorted@) == sort_tag_counts(wb.take(x as int)),
        decreases kept@.len() - x,
    {
        let item = (kept[x].0.clone(), kept[x].1);
        let c = item.1;
        let mut j = sorted.len();
        while j > 0 && sorted[j - 1].1 < c
            invariant
                j <= sorted@.len(),
                forall|l: int| j <= l < sorted@.len() ==> (#[trigger] sorted@[l]).1 < c,
            decreases j,
        {
            j -= 1;
        }
        proof {
            let sv = count_views(sorted@);
            assert forall|l: int| j <= l < sv.len() implies (#[trigger] sv[l]).1 < c as nat by {
                assert(sv[l].1 == sorted@[l].1 as nat);
            }
            if j > 0 {
                assert(sv[j - 1].1 == sorted@[j - 1].1 as nat);
            }
            lemma_insert_by_tag_count_at(sv, (item.0@, c as nat), j as int);
            assert(wb.take(x + 1).drop_last() =~= wb.take(x as int));
            assert(wb.take(x + 1).last() == (item.0@, c as nat));
        }
        let ghost before = count_views(sorted@);
        let ghost iv = (item.0@, c as nat);
        sorted.insert(j, item);
        assert(count_views(sorted@) =~= before.insert(j as int, iv));
        x += 1;
    }
    assert(wb.take(x as int) =~= wb);
    let mut r: Vec<String> = Vec::new();
    let mut y: usize = 0;
    let ghost sv = count_views(sorted@);
    let lim = if sorted.len() <= 3 {
        sorted.len()
    } else {
        3
    };
    while y < lim
        invariant
            y <= lim,
            lim <= sorted@.len(),
            lim == (if sorted@.len() <= 3 {
                sorted@.len()
            } else {
                3
            }),
            sv == count_views(sorted@),
            r.deep_view() == sv.take(y as int).map_values(|c: (Seq<char>, nat)| c.0),
        decreases lim - y,
    {
        let ghost b = r.deep_view();
        let nm = sorted[y].0.clone();
        let ghost nv = nm@;
        r.push(nm);
        proof {
            assert(sv[y as int].0 == nv);
            assert(r.deep_view() =~= b.push(nv));
            assert(sv.take(y + 1).map_values(|c: (Seq<char>, nat)| c.0) =~= sv.take(y as int).map_values(
                |c: (Seq<char>, nat)| c.0,
            ).push(nv));
        }
        y += 1;
    }
    proof {
        let top = if sv.len() <= 3 {
            sv
        } else {
            sv.take(3)
        };
        assert(sv.take(y as int) =~= top);
    }
    r
}

/// The positions among the first `n` templates whose score is positive.
pub open spec fn positive_from(sc: Seq<usize>, n: nat) -> Seq<usize>
    decreases n,
{
    if n == 0 || n > sc.len() {
        Seq::empty()
    } else {
        let prev = positive_from(sc, (n - 1) as nat);
        if sc[n - 1] > 0 {
            prev.push((n - 1) as usize)
        } else {
            prev
        }
    }
}

/// The templates that match a query, as (score, position): those with a
/// positive score, the highest first, equal scores in template order.
pub open spec fn ranked_spec(ts: Seq<TemplateView>, terms: Seq<Seq<char>>) -> Seq<(usize, usize)> {
    let sc = ts.map_values(|t: TemplateView| score_spec(t, terms));
    let pos = positive_from(sc, sc.len());
    let ord = crate::order::order_desc(pos.map_values(|i: usize| sc[i as int]), pos.len());
    ord.map_values(|k: usize| (sc[pos[k as int] as int], pos[k as int]))
}

/// The position of the last of the first `n` templates with id `id`.
pub open spec fn last_pos(ts: Seq<TemplateView>, id: Seq<char>, n: nat) -> Option<usize>
    decreases n,
{
    if n == 0 || n > ts.len() {
        None
    } else if ts[n - 1].id == id {
        Some((n - 1) as usize)
    } else {
        last_pos(ts, id, (n - 1) as nat)
    }
}

/// The links of the first `n` ranked templates that name a known template.
pub open spec fn known_links(ts: Seq<TemplateView>, ranked: Seq<(usize, usize)>, n: nat) -> Seq<Seq<char>>
    decreases n,
{
    if n == 0 || n > ranked.len() {
        Seq::empty()
    } else {
        let t = ts[ranked[n - 1].1 as int];
        known_links(ts, ranked, (n - 1) as nat) + known_of(ts, t.related, t.related.len())
    }
}

/// The first `n` links that name a known template.
pub open spec fn known_of(ts: Seq<TemplateView>, links: Seq<Seq<char>>, n: nat) -> Seq<Seq<char>>
    decreases n,
{
    if n == 0 || n > links.len() {
        Seq::empty()
    } else {
        let prev = known_of(ts, links, (n - 1) as nat);
        if last_pos(ts, links[n - 1], ts.len()) is Some {
            prev.push(links[n - 1])
        } else {
            prev
        }
    }
}

/// The distinct ids among the first `n` that no ranked template has.
pub open spec fn not_direct(ids: Seq<Seq<char>>, direct: Seq<Seq<char>>, n: nat) -> Seq<Seq<char>>
    decreases n,
{
    if n == 0 || n > ids.len() {
        Seq::empty()
    } else {
        let prev = not_direct(ids, direct, (n - 1) as nat);
        if !direct.contains(ids[n - 1]) {
            prev.push(ids[n - 1])
        } else {
            prev
        }
    }
}

/// A diagnostic map of a query: the matching templates, best first, and the
/// templates one `related` link away from them that did not match, each once,
/// in the order they are first linked (the last template with each id).
pub struct TemplateMap {
    pub ranked: Vec<(usize, usize)>,
    pub related_only: Vec<usize>,
}

/// The ids of the ranked templates.
pub open spec fn direct_ids(ts: Seq<TemplateView>, ranked: Seq<(usize, usize)>) -> Seq<Seq<char>> {
    ranked.map_values(|e: (usize, usize)| ts[e.1 as int].id)
}

/// The related-only templates of a map, by position.
pub open spec fn related_only_spec(ts: Seq<TemplateView>, ranked: Seq<(usize, usize)>) -> Seq<usize> {
    let links = known_links(ts, ranked, ranked.len());
    let ids = crate::callgraph::distinct(links, links.len());
    let extra = not_direct(ids, direct_ids(ts, ranked), ids.len());
    extra.map_values(|id: Seq<char>| last_pos(ts, id, ts.len()).unwrap())
}

fn ranked_exec(templates: &[Template], terms: &[String]) -> (r: Vec<(usize, usize)>)
    ensures
        r@ == ranked_spec(template_views(templates@), terms.deep_view()),
        forall|k: int| 0 <= k < r@.len() ==> (#[trigger] r@[k]).1 < templates@.len(),
{
    let ghost tv = template_views(templates@);
    let ghost sc = tv.map_values(|t: TemplateView| score_spec(t, terms.deep_view()));
    let mut scores: Vec<usize> = Vec::new();
    let mut pos: Vec<usize> = Vec::new();
    let mut keys: Vec<usize> = Vec::new();
    let mut i: usize = 0;
    while i < templates.len()
        invariant
            i <= templates@.len(),
            tv == template_views(templates@),
            sc == tv.map_values(|t: TemplateView| score_spec(t, terms.deep_view())),
            scores@ =~= sc.take(i as int),
            pos@ == positive_from(sc, i as nat),
            keys@ =~= pos@.map_values(|q: usize| sc[q as int]),
            forall|k: int| 0 <= k < pos@.len() ==> (#[trigger] pos@[k]) < i,
        decreases templates@.len() - i,
    {
        assert(tv[i as int] == templates@[i as int]@);
        let s = score_template(&templates[i], terms);
        scores.push(s);
        if s > 0 {
            pos.push(i);
            keys.push(s);
        }
        assert(sc.take(i + 1) =~= sc.take(i as int).push(s));
        i += 1;
    }
    let ord = crate::order::order_by_desc(&keys);
    proof {
        crate::order::lemma_order_desc_perm(keys@, keys@.len() as nat);
    }
    let mut r: Vec<(usize, usize)> = Vec::new();
    let mut k: usize = 0;
    while k < ord.len()
        invariant
            k <= ord@.len(),
            ord@.len() == keys@.len(),
            keys@.len() == pos@.len(),
            scores@ =~= sc,
            sc.len() == templates@.len(),
            forall|q: int| 0 <= q < ord@.len() ==> (#[trigger] ord@[q]) < keys@.len(),
            forall|q: int| 0 <= q < pos@.len() ==> (#[trigger] pos@[q]) < templates@.len(),
            r@ =~= ord@.take(k as int).map_values(|q: usize| (sc[pos@[q as int] as int], pos@[q as int])),
            forall|q: int| 0 <= q < r@.len() ==> (#[trigger] r@[q]).1 < templates@.len(),
        decreases ord@.len() - k,
    {
        let q = ord[k];
        let p = pos[q];
        r.push((scores[p], p));
        assert(ord@.take(k + 1) =~= ord@.take(k as int).push(q));
        k += 1;
    }
    assert(ord@.take(k as int) =~= ord@);
    r
}

fn last_template(templates: &[Template], id: &String) -> (r: Option<usize>)
    ensures
        r == last_pos(template_views(templates@), id@, templates@.len() as nat),
{
    let ghost tv = template_views(templates@);
    let mut i: usize = templates.len();
    while i > 0
        invariant
            i <= templates@.len(),
            tv == template_views(templates@),
            last_pos(tv, id@, templates@.len() as nat) == last_pos(tv, id@, i as nat),
        decreases i,
    {
        assert(tv[i - 1] == templates@[i - 1]@);
        if templates[i - 1].id == *id {
            return Some(i - 1);
        }
        i -= 1;
    }
    None
}

/// The diagnostic map of a query given as lowercase words: the templates
/// that score above zero, best first, and those one related link away.
pub fn map_templates(templates: &[Template], terms: &[String]) -> (r: TemplateMap)
    ensures
        r.ranked@ == ranked_spec(template_views(templates@), terms.deep_view()),
        r.related_only@ == related_only_spec(template_views(templates@), r.ranked@),
{
    let ghost tv = template_views(templates@);
    let ranked = ranked_exec(templates, terms);
    let mut links: Vec<String> = Vec::new();
    let mut direct: Vec<String> = Vec::new();
    let mut k: usize = 0;
    while k < ranked.len()
        invariant
            k <= ranked@.len(),
            tv == template_views(templates@),
            forall|q: int| 0 <= q < ranked@.len() ==> (#[trigger] ranked@[q]).1 < templates@.len(),
            links.deep_view() == known_links(tv, ranked@, k as nat),
            direct.deep_view() =~= direct_ids(tv, ranked@).take(k as int),
        decreases ranked@.len() - k,
    {
        let t = &templates[ranked[k].1];
        assert(tv[ranked@[k as int].1 as int] == t@);
        let ghost d0 = direct.deep_view();
        direct.push(t.id.clone());
        assert(direct.deep_view() =~= d0.push(t@.id));
        assert(direct_ids(tv, ranked@).take(k + 1) =~= direct_ids(tv, ranked@).take(k as int).push(t@.id));
        let ghost base = links.deep_view();
        let mut j: usize = 0;
        while j < t.related.len()
            invariant
                j <= t.related@.len(),
                tv == template_views(templates@),
                links.deep_view() == base + known_of(tv, t@.related, j as nat),
            decreases t.related@.len() - j,
        {
            assert(t@.related[j as int] == t.related@[j as int]@);
            if last_template(templates, &t.related[j]).is_some() {
                let ghost before = links.deep_view();
                links.push(t.related[j].clone());
                assert(links.deep_view() =~= before.push(t@.related[j as int]));
            }
            assert(links.deep_view() =~= base + known_of(tv, t@.related, (j + 1) as nat));
            j += 1;
        }
        k += 1;
    }
    assert(direct.deep_view() =~= direct_ids(tv, ranked@));
    let ids = crate::callgraph::distinct_strings(&links);
    proof {
        let lv = links.deep_view();
        crate::order::lemma_distinct_unique(lv, lv.len());
        lemma_known_links_ok(tv, ranked@, ranked@.len() as nat);
        assert(lv.take(lv.len() as int) =~= lv);
        assert forall|q: int| 0 <= q < ids@.len() implies last_pos(tv, #[trigger] ids.deep_view()[q], tv.len()) is Some by {
            assert(ids.deep_view().contains(ids.deep_view()[q]));
            let w = choose|w: int| 0 <= w < lv.len() && lv[w] == ids.deep_view()[q];
        }
    }
    let mut related: Vec<usize> = Vec::new();
    let ghost extra_full = not_direct(ids.deep_view(), direct.deep_view(), ids@.len() as nat);
    let mut i: usize = 0;
    while i < ids.len()
        invariant
            i <= ids@.len(),
            tv == template_views(templates@),
            ids.deep_view() == crate::callgraph::distinct(links.deep_view(), links@.len() as nat),
            links.deep_view() == known_links(tv, ranked@, ranked@.len() as nat),
            forall|q: int| 0 <= q < ids@.len() ==> last_pos(tv, #[trigger] ids.deep_view()[q], tv.len()) is Some,
            related@ =~= not_direct(ids.deep_view(), direct.deep_view(), i as nat).map_values(
                |id: Seq<char>| last_pos(tv, id, tv.len()).unwrap(),
            ),
        decreases ids@.len() - i,
    {
        assert(ids.deep_view()[i as int] == ids@[i as int]@);
        if !crate::callgraph::contains_string(&direct, &ids[i]) {
            match last_template(templates, &ids[i]) {
                Some(p) => {
                    related.push(p);
                },
                None => {},
            }
        }
        i += 1;
    }
    TemplateMap { ranked, related_only: related }
}

proof fn lemma_known_of_ok(ts: Seq<TemplateView>, links: Seq<Seq<char>>, n: nat)
    ensures
        forall|q: int| 0 <= q < known_of(ts, links, n).len() ==> last_pos(
            ts,
            #[trigger] known_of(ts, links, n)[q],
            ts.len(),
        ) is Some,
    decreases n,
{
    if n > 0 && n <= links.len() {
        lemma_known_of_ok(ts, links, (n - 1) as nat);
        let prev = known_of(ts, links, (n - 1) as nat);
        if last_pos(ts, links[n - 1], ts.len()) is Some {
            assert forall|q: int| 0 <= q < prev.push(links[n - 1]).len() implies last_pos(
                ts,
                #[trigger] prev.push(links[n - 1])[q],
                ts.len(),
            ) is Some by {
                if q < prev.len() {
                    assert(prev.push(links[n - 1])[q] == prev[q]);
                }
            }
        }
    }
}

proof fn lemma_known_links_ok(ts: Seq<TemplateView>, ranked: Seq<(usize, usize)>, n: nat)
    ensures
        forall|q: int| 0 <= q < known_links(ts, ranked, n).len() ==> last_pos(
            ts,
            #[trigger] known_links(ts, ranked, n)[q],
            ts.len(),
        ) is Some,
    decreases n,
{
    if n > 0 && n <= ranked.len() {
        lemma_known_links_ok(ts, ranked, (n - 1) as nat);
        let t = ts[ranked[n - 1].1 as int];
        lemma_known_of_ok(ts, t.related, t.related.len());
        let a = known_links(ts, ranked, (n - 1) as nat);
        let b = known_of(ts, t.related, t.related.len());
        assert forall|q: int| 0 <= q < (a + b).len() implies last_pos(ts, #[trigger] (a + b)[q], ts.len()) is Some by {
            if q < a.len() {
                assert((a + b)[q] == a[q]);
            } else {
                assert((a + b)[q] == b[q - a.len()]);
            }
        }
    }
}

} // verus!
