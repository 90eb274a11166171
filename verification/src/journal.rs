//! The development journal: which entries a query selects, the last of them
//! that are shown, and the tally of bugs, fixes and milestones.
use vstd::prelude::*;
use crate::schema::{copy_opt_string, copy_strings};
use crate::text::{contains, contains_str, lowercase, to_lowercase};

verus! {

/// One journal line: when, what kind (`note`, `bug`, `fix`, `milestone`),
/// the message, its tags, and the IR file and function it concerns.
#[derive(Debug, Clone)]
pub struct JournalEntry {
    pub timestamp: u64,
    pub action: String,
    pub message: String,
    pub tags: Vec<String>,
    pub ir_file: Option<String>,
    pub function: Option<String>,
}

pub struct JournalEntryView {
    pub timestamp: u64,
    pub action: Seq<char>,
    pub message: Seq<char>,
    pub tags: Seq<Seq<char>>,
    pub ir_file: Option<Seq<char>>,
    pub function: Option<Seq<char>>,
}

impl View for JournalEntry {
    type V = JournalEntryView;

    open spec fn view(&self) -> JournalEntryView {
        JournalEntryView {
            timestamp: self.timestamp,
            action: self.action@,
            message: self.message@,
            tags: self.tags.deep_view(),
            ir_file: match &self.ir_file {
                Some(s) => Some(s@),
                None => None,
            },
            function: match &self.function {
                Some(s) => Some(s@),
                None => None,
            },
        }
    }
}

pub open spec fn journal_views(es: Seq<JournalEntry>) -> Seq<JournalEntryView> {
    es.map_values(|e: JournalEntry| e@)
}

impl JournalEntry {
    pub fn copy(&self) -> (r: JournalEntry)
        ensures
            r@ == self@,
    {
        JournalEntry {
            timestamp: self.timestamp,
            action: self.action.clone(),
            message: self.message.clone(),
            tags: copy_strings(&self.tags),
            ir_file: copy_opt_string(&self.ir_file),
            function: copy_opt_string(&self.function),
        }
    }
}

/// The entry holds the (lowercase) query in its message, its action, one of
/// its tags or its function, each compared in lowercase.
pub open spec fn entry_matches(e: JournalEntryView, q: Seq<char>) -> bool {
    ||| contains(lowercase(e.message), q)
    ||| contains(lowercase(e.action), q)
    ||| exists|i: int| 0 <= i < e.tags.len() && contains(lowercase(#[trigger] e.tags[i]), q)
    ||| contains(
        lowercase(
            match e.function {
                Some(f) => f,
                None => Seq::empty(),
            },
        ),
        q,
    )
}

/// The first `n` entries that match `q`, in order.
pub open spec fn matching_from(es: Seq<JournalEntryView>, q: Seq<char>, n: nat) -> Seq<JournalEntryView>
    decreases n,
{
    if n == 0 || n > es.len() {
        Seq::empty()
    } else {
        let prev = matching_from(es, q, (n - 1) as nat);
        if entry_matches(es[n - 1], q) {
            prev.push(es[n - 1])
        } else {
            prev
        }
    }
}

/// The entries a query selects: all of them without one.
pub open spec fn journal_matching(es: Seq<JournalEntryView>, query: Option<Seq<char>>) -> Seq<JournalEntryView> {
    match query {
        Some(q) => matching_from(es, lowercase(q), es.len()),
        None => es,
    }
}

/// The last `n` items (all of them when there are fewer).
pub open spec fn last_n_of<A>(s: Seq<A>, n: nat) -> Seq<A> {
    if s.len() > n {
        s.skip(s.len() - n)
    } else {
        s
    }
}

fn entry_matches_exec(e: &JournalEntry, q: &str) -> (b: bool)
    ensures
        b == entry_matches(e@, q@),
{
    if contains_str(to_lowercase(e.message.as_str()).as_str(), q) {
        return true;
    }
    if contains_str(to_lowercase(e.action.as_str()).as_str(), q) {
        return true;
    }
    let ghost tv = e.tags.deep_view();
    let mut i: usize = 0;
    while i < e.tags.len()
        invariant
            i <= e.tags@.len(),
            tv == e.tags.deep_view(),
            forall|j: int| 0 <= j < i ==> !contains(lowercase(#[trigger] tv[j]), q@),
        decreases e.tags@.len() - i,
    {
        assert(tv[i as int] == e.tags@[i as int]@);
        let t = to_lowercase(e.tags[i].as_str());
        if contains_str(t.as_str(), q) {
            assert(t@ == lowercase(tv[i as int]));
            assert(e@.tags[i as int] == tv[i as int]);
            return true;
        }
        i += 1;
    }
    let f = match &e.function {
        Some(f) => to_lowercase(f.as_str()),
        None => {
            let r = to_lowercase("");
            proof {
                reveal_strlit("");
                assert(""@ =~= Seq::<char>::empty());
            }
            r
        },
    };
    contains_str(f.as_str(), q)
}

/// The entries shown: those the query selects (all without one), the last
/// `last_n` of them, in order.
pub fn journal_shown(entries: &[JournalEntry], query: Option<&str>, last_n: usize) -> (r: Vec<JournalEntry>)
    ensures
        journal_views(r@) == last_n_of(
            journal_matching(
                journal_views(entries@),
                match query {
                    Some(q) => Some(q@),
                    None => None,
                },
            ),
            last_n as nat,
        ),
{
    let ghost ev = journal_views(entries@);
    let mut sel: Vec<JournalEntry> = Vec::new();
    match query {
        Some(q) => {
            let ql = to_lowercase(q);
            let mut i: usize = 0;
            while i < entries.len()
                invariant
                    i <= entries@.len(),
                    ev == journal_views(entries@),
                    ql@ == lowercase(q@),
                    journal_views(sel@) == matching_from(ev, ql@, i as nat),
                decreases entries@.len() - i,
            {
                assert(ev[i as int] == entries@[i as int]@);
                if entry_matches_exec(&entries[i], ql.as_str()) {
                    let ghost before = journal_views(sel@);
                    sel.push(entries[i].copy());
                    assert(journal_views(sel@) =~= before.push(ev[i as int]));
                }
                i += 1;
            }
        },
        None => {
            let mut i: usize = 0;
            while i < entries.len()
                invariant
                    i <= entries@.len(),
                    ev == journal_views(entries@),
                    journal_views(sel@) == ev.take(i as int),
                decreases entries@.len() - i,
            {
                let ghost before = journal_views(sel@);
                sel.push(entries[i].copy());
                assert(journal_views(sel@) =~= before.push(ev[i as int]));
                assert(ev.take(i + 1) =~= ev.take(i as int).push(ev[i as int]));
                i += 1;
            }
            assert(ev.take(i as int) =~= ev);
        },
    }
    let ghost sv = journal_views(sel@);
    let start: usize = if sel.len() > last_n {
        sel.len() - last_n
    } else {
        0
    };
    let mut r: Vec<JournalEntry> = Vec::new();
    let mut k: usize = start;
    while k < sel.len()
        invariant
            start <= k <= sel@.len(),
            sv == journal_views(sel@),
            journal_views(r@) == sv.subrange(start as int, k as int),
        decreases sel@.len() - k,
    {
        let ghost before = journal_views(r@);
        r.push(sel[k].copy());
        assert(journal_views(r@) =~= before.push(sv[k as int]));
        assert(sv.subrange(start as int, k + 1) =~= sv.subrange(start as int, k as int).push(sv[k as int]));
        k += 1;
    }
    assert(sv.subrange(start as int, sv.len() as int) =~= last_n_of(sv, last_n as nat));
    r
}

/// How many of the entries have action `a`.
pub open spec fn action_count(es: Seq<JournalEntryView>, a: Seq<char>, n: nat) -> nat
    decreases n,
{
    if n == 0 || n > es.len() {
        0
    } else {
        action_count(es, a, (n - 1) as nat) + if es[n - 1].action == a {
            1nat
        } else {
            0nat
        }
    }
}

/// The numbers of bugs, fixes and milestones among the entries.
pub fn journal_tally(entries: &[JournalEntry]) -> (r: (usize, usize, usize))
    ensures
        r.0 as nat == action_count(journal_views(entries@), "bug"@, entries@.len() as nat),
        r.1 as nat == action_count(journal_views(entries@), "fix"@, entries@.len() as nat),
        r.2 as nat == action_count(journal_views(entries@), "milestone"@, entries@.len() as nat),
{
    let ghost ev = journal_views(entries@);
    let bug = "bug".to_string();
    let fix = "fix".to_string();
    let milestone = "milestone".to_string();
    let mut b: usize = 0;
    let mut f: usize = 0;
    let mut m: usize = 0;
    let mut i: usize = 0;
    while i < entries.len()
        invariant
            i <= entries@.len(),
            ev == journal_views(entries@),
            bug@ == "bug"@,
            fix@ == "fix"@,
            milestone@ == "milestone"@,
            b as nat == action_count(ev, "bug"@, i as nat),
            f as nat == action_count(ev, "fix"@, i as nat),
            m as nat == action_count(ev, "milestone"@, i as nat),
            b <= i && f <= i && m <= i,
        decreases entries@.len() - i,
    {
        assert(ev[i as int] == entries@[i as int]@);
        if entries[i].action == bug {
            b += 1;
        }
        if entries[i].action == fix {
            f += 1;
        }
        if entries[i].action == milestone {
            m += 1;
        }
        i += 1;
    }
    (b, f, m)
}

} // verus!
