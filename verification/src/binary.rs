//! Compiled binaries: what an ELF or PE file holds (sections, entry point,
//! symbols), the readable strings of its `.rodata`, and where a text occurs.
//! The format readers are goblin's; the report is proved to follow from what
//! they return, and does not panic as far as they return.
use vstd::prelude::*;
use crate::text::push_all;

verus! {

// ---------------------------------------------------------------------------
// What goblin reads from a binary
// ---------------------------------------------------------------------------

/// The kind of object a file holds.
pub enum ObjectKind {
    Elf,
    Pe,
    /// A kind this tool does not inspect (Mach-O, archive, COFF, unknown).
    Other,
    /// The file could not be parsed; goblin's message.
    Invalid(String),
}

pub enum ObjectKindView {
    Elf,
    Pe,
    Other,
    Invalid(Seq<char>),
}

impl View for ObjectKind {
    type V = ObjectKindView;

    open spec fn view(&self) -> ObjectKindView {
        match self {
            ObjectKind::Elf => ObjectKindView::Elf,
            ObjectKind::Pe => ObjectKindView::Pe,
            ObjectKind::Other => ObjectKindView::Other,
            ObjectKind::Invalid(m) => ObjectKindView::Invalid(m@),
        }
    }
}

/// An ELF section header: its name (when the string table has it), file
/// offset, size and flags.
pub struct ElfSection {
    pub name: Option<String>,
    pub offset: u64,
    pub size: u64,
    pub flags: u64,
}

pub struct ElfSectionView {
    pub name: Option<Seq<char>>,
    pub offset: u64,
    pub size: u64,
    pub flags: u64,
}

impl View for ElfSection {
    type V = ElfSectionView;

    open spec fn view(&self) -> ElfSectionView {
        ElfSectionView {
            name: match &self.name {
                Some(n) => Some(n@),
                None => None,
            },
            offset: self.offset,
            size: self.size,
            flags: self.flags,
        }
    }
}

/// What an ELF file holds that the report reads.
pub struct ElfSummary {
    pub is_64: bool,
    pub entry: u64,
    pub sections: Vec<ElfSection>,
    /// The `st_info` byte of each symbol.
    pub symbol_infos: Vec<u8>,
}

pub struct ElfSummaryView {
    pub is_64: bool,
    pub entry: u64,
    pub sections: Seq<ElfSectionView>,
    pub symbol_infos: Seq<u8>,
}

impl View for ElfSummary {
    type V = ElfSummaryView;

    open spec fn view(&self) -> ElfSummaryView {
        ElfSummaryView {
            is_64: self.is_64,
            entry: self.entry,
            sections: self.sections@.map_values(|s: ElfSection| s@),
            symbol_infos: self.symbol_infos@,
        }
    }
}

/// A PE section: its raw 8-byte name, virtual address and virtual size.
pub struct PeSection {
    pub name: Vec<u8>,
    pub virtual_address: u32,
    pub virtual_size: u32,
}

/// What a PE file holds that the report reads.
pub struct PeSummary {
    pub entry: u64,
    pub sections: Vec<PeSection>,
}

pub struct PeSummaryView {
    pub entry: u64,
    pub sections: Seq<(Seq<u8>, u32, u32)>,
}

impl View for PeSummary {
    type V = PeSummaryView;

    open spec fn view(&self) -> PeSummaryView {
        PeSummaryView {
            entry: self.entry,
            sections: self.sections@.map_values(|s: PeSection| (s.name@, s.virtual_address, s.virtual_size)),
        }
    }
}

/// The kind that `goblin::Object::parse` finds in some bytes.
pub uninterp spec fn object_kind_of(data: Seq<u8>) -> ObjectKindView;

/// What `goblin::elf::Elf::parse` reads from some bytes (`None` when it fails).
pub uninterp spec fn elf_summary_of(data: Seq<u8>) -> Option<ElfSummaryView>;

/// What `goblin::pe::PE::parse` reads from some bytes (`None` when it fails).
pub uninterp spec fn pe_summary_of(data: Seq<u8>) -> Option<PeSummaryView>;

/// The characters of `String::from_utf8_lossy` of some bytes.
pub uninterp spec fn utf8_lossy(b: Seq<u8>) -> Seq<char>;

/// `goblin::Object::parse`, told apart by kind only: what it returns depends on
/// the bytes alone. Its error message is carried as goblin writes it.
/// goblin's source does not promise that parsing returns on every byte string
/// (malformed input gives an error, and its README cites fuzzing, not a
/// guarantee); the contract says what the call gives when it returns, not that
/// it returns.
#[verifier::external_body]
fn object_kind(data: &[u8]) -> (r: ObjectKind)
    ensures
        r@ == object_kind_of(data@),
{
    match goblin::Object::parse(data) {
        Ok(goblin::Object::Elf(_)) => ObjectKind::Elf,
        Ok(goblin::Object::PE(_)) => ObjectKind::Pe,
        Ok(_) => ObjectKind::Other,
        Err(e) => ObjectKind::Invalid(e.to_string()),
    }
}

/// `goblin::elf::Elf::parse`, its fields copied one for one: the section
/// headers with their names from the section string table, and the info byte
/// of each symbol.
/// goblin's source does not promise that parsing returns on every byte string
/// (malformed input gives an error, and its README cites fuzzing, not a
/// guarantee); the contract says what the call gives when it returns, not that
/// it returns.
#[verifier::external_body]
fn parse_elf(data: &[u8]) -> (r: Option<ElfSummary>)
    ensures
        match r {
            Some(s) => elf_summary_of(data@) == Some(s@),
            None => elf_summary_of(data@) is None,
        },
{
    let e = goblin::elf::Elf::parse(data).ok()?;
    let sections = e.section_headers.iter().map(|s| ElfSection {
        name: e.shdr_strtab.get_at(s.sh_name).map(|n| n.to_string()),
        offset: s.sh_offset,
        size: s.sh_size,
        flags: s.sh_flags,
    }).collect();
    let symbol_infos = e.syms.iter().map(|s| s.st_info).collect();
    Some(ElfSummary { is_64: e.is_64, entry: e.entry, sections, symbol_infos })
}

/// `goblin::pe::PE::parse`, its fields copied one for one.
/// goblin's source does not promise that parsing returns on every byte string
/// (malformed input gives an error, and its README cites fuzzing, not a
/// guarantee); the contract says what the call gives when it returns, not that
/// it returns.
#[verifier::external_body]
fn parse_pe(data: &[u8]) -> (r: Option<PeSummary>)
    ensures
        match r {
            Some(s) => pe_summary_of(data@) == Some(s@),
            None => pe_summary_of(data@) is None,
        },
{
    let p = goblin::pe::PE::parse(data).ok()?;
    let sections = p.sections.iter().map(|s| PeSection {
        name: s.name.to_vec(),
        virtual_address: s.virtual_address,
        virtual_size: s.virtual_size,
    }).collect();
    Some(PeSummary { entry: p.entry as u64, sections })
}

/// `String::from_utf8_lossy`.
#[verifier::external_body]
fn lossy_text(b: &[u8]) -> (r: String)
    ensures
        r@ == utf8_lossy(b@),
{
    String::from_utf8_lossy(b).to_string()
}

// ---------------------------------------------------------------------------
// The report's contents
// ---------------------------------------------------------------------------

/// A section as the report lists it.
pub struct SectionRow {
    pub name: String,
    pub offset: u64,
    pub size: u64,
    pub flags: u64,
}

pub struct SectionRowView {
    pub name: Seq<char>,
    pub offset: u64,
    pub size: u64,
    pub flags: u64,
}

impl View for SectionRow {
    type V = SectionRowView;

    open spec fn view(&self) -> SectionRowView {
        SectionRowView { name: self.name@, offset: self.offset, size: self.size, flags: self.flags }
    }
}

pub open spec fn row_views(rs: Seq<SectionRow>) -> Seq<SectionRowView> {
    rs.map_values(|r: SectionRow| r@)
}

/// What the report of a binary says.
pub enum BinaryReport {
    Elf { is_64: bool, entry: u64, sections: Vec<SectionRow>, symbols: usize, function_symbols: usize },
    Pe { entry: u64, sections: Vec<SectionRow> },
    Unsupported,
    Invalid(String),
}

pub enum BinaryReportView {
    Elf { is_64: bool, entry: u64, sections: Seq<SectionRowView>, symbols: nat, function_symbols: nat },
    Pe { entry: u64, sections: Seq<SectionRowView> },
    Unsupported,
    Invalid(Seq<char>),
}

impl View for BinaryReport {
    type V = BinaryReportView;

    open spec fn view(&self) -> BinaryReportView {
        match self {
            BinaryReport::Elf { is_64, entry, sections, symbols, function_symbols } => BinaryReportView::Elf {
                is_64: *is_64,
                entry: *entry,
                sections: row_views(sections@),
                symbols: *symbols as nat,
                function_symbols: *function_symbols as nat,
            },
            BinaryReport::Pe { entry, sections } => BinaryReportView::Pe {
                entry: *entry,
                sections: row_views(sections@),
            },
            BinaryReport::Unsupported => BinaryReportView::Unsupported,
            BinaryReport::Invalid(m) => BinaryReportView::Invalid(m@),
        }
    }
}

/// The symbol type that marks a function (`STT_FUNC`).
pub const STT_FUNC: u8 = 2;

/// The type of a symbol: the low four bits of its info byte (goblin's `st_type`).
pub open spec fn symbol_type(info: u8) -> u8 {
    info & 0xf
}

/// How many of the first `n` symbols are functions.
pub open spec fn function_count(infos: Seq<u8>, n: nat) -> nat
    decreases n,
{
    if n == 0 || n > infos.len() {
        0
    } else {
        function_count(infos, (n - 1) as nat) + if symbol_type(infos[n - 1]) == STT_FUNC {
            1nat
        } else {
            0nat
        }
    }
}

pub fn count_function_symbols(infos: &Vec<u8>) -> (n: usize)
    ensures
        n == function_count(infos@, infos@.len()),
{
    let mut n: usize = 0;
    let mut i: usize = 0;
    while i < infos.len()
        invariant
            i <= infos@.len(),
            n == function_count(infos@, i as nat),
            n <= i,
        decreases infos@.len() - i,
    {
        if infos[i] & 0xf == STT_FUNC {
            n += 1;
        }
        i += 1;
    }
    n
}

/// An ELF section's row: its name, or `?` when the string table lacks it.
pub open spec fn elf_row(s: ElfSectionView) -> SectionRowView {
    SectionRowView {
        name: match s.name {
            Some(n) => n,
            None => "?"@,
        },
        offset: s.offset,
        size: s.size,
        flags: s.flags,
    }
}

/// `s` without its NUL characters.
pub open spec fn without_nul(s: Seq<char>) -> Seq<char>
    decreases s.len(),
{
    if s.len() == 0 {
        Seq::empty()
    } else if s.last() == '\0' {
        without_nul(s.drop_last())
    } else {
        without_nul(s.drop_last()).push(s.last())
    }
}

fn without_nul_exec(s: &str) -> (r: String)
    ensures
        r@ == without_nul(s@),
{
    let v = crate::text::chars_of(s);
    let mut r = String::new();
    let mut i: usize = 0;
    while i < v.len()
        invariant
            i <= v@.len(),
            v@ == s@,
            r@ == without_nul(s@.take(i as int)),
        decreases v@.len() - i,
    {
        assert(s@.take(i + 1).drop_last() =~= s@.take(i as int));
        if v[i] != '\0' {
            r.push(v[i]);
        }
        i += 1;
    }
    assert(s@.take(i as int) =~= s@);
    r
}

/// A PE section's row: its name decoded lossily without NULs, its virtual
/// address and size.
pub open spec fn pe_row(s: (Seq<u8>, u32, u32)) -> SectionRowView {
    SectionRowView { name: without_nul(utf8_lossy(s.0)), offset: s.1 as u64, size: s.2 as u64, flags: 0 }
}

/// What the report of a binary says: by the kind goblin finds, the ELF or PE
/// summary, rows named as above and the function symbols counted.
pub open spec fn binary_report_spec(data: Seq<u8>) -> BinaryReportView {
    match object_kind_of(data) {
        ObjectKindView::Elf => match elf_summary_of(data) {
            Some(e) => BinaryReportView::Elf {
                is_64: e.is_64,
                entry: e.entry,
                sections: e.sections.map_values(|s: ElfSectionView| elf_row(s)),
                symbols: e.symbol_infos.len(),
                function_symbols: function_count(e.symbol_infos, e.symbol_infos.len()),
            },
            None => BinaryReportView::Invalid("malformed ELF"@),
        },
        ObjectKindView::Pe => match pe_summary_of(data) {
            Some(p) => BinaryReportView::Pe {
                entry: p.entry,
                sections: p.sections.map_values(|s: (Seq<u8>, u32, u32)| pe_row(s)),
            },
            None => BinaryReportView::Invalid("malformed PE"@),
        },
        ObjectKindView::Other => BinaryReportView::Unsupported,
        ObjectKindView::Invalid(m) => BinaryReportView::Invalid(m),
    }
}

fn elf_rows(e: &ElfSummary) -> (r: Vec<SectionRow>)
    ensures
        row_views(r@) == e@.sections.map_values(|s: ElfSectionView| elf_row(s)),
{
    let mut r: Vec<SectionRow> = Vec::new();
    let mut i: usize = 0;
    while i < e.sections.len()
        invariant
            i <= e.sections@.len(),
            row_views(r@) == e@.sections.take(i as int).map_values(|s: ElfSectionView| elf_row(s)),
        decreases e.sections@.len() - i,
    {
        let s = &e.sections[i];
        let name = match &s.name {
            Some(n) => n.clone(),
            None => "?".to_string(),
        };
        proof {
            reveal_strlit("?");
        }
        let ghost before = row_views(r@);
        let row = SectionRow { name, offset: s.offset, size: s.size, flags: s.flags };
        assert(row@ == elf_row(e@.sections[i as int]));
        r.push(row);
        assert(row_views(r@) =~= before.push(row@));
        assert(e@.sections.take(i + 1).map_values(|s: ElfSectionView| elf_row(s)) =~= e@.sections.take(
            i as int,
        ).map_values(|s: ElfSectionView| elf_row(s)).push(elf_row(e@.sections[i as int])));
        i += 1;
    }
    assert(e@.sections.take(i as int) =~= e@.sections);
    r
}

fn pe_rows(p: &PeSummary) -> (r: Vec<SectionRow>)
    ensures
        row_views(r@) == p@.sections.map_values(|s: (Seq<u8>, u32, u32)| pe_row(s)),
{
    let mut r: Vec<SectionRow> = Vec::new();
    let mut i: usize = 0;
    while i < p.sections.len()
        invariant
            i <= p.sections@.len(),
            row_views(r@) == p@.sections.take(i as int).map_values(|s: (Seq<u8>, u32, u32)| pe_row(s)),
        decreases p.sections@.len() - i,
    {
        let s = &p.sections[i];
        let raw = lossy_text(s.name.as_slice());
        let name = without_nul_exec(raw.as_str());
        let ghost before = row_views(r@);
        let row = SectionRow { name, offset: s.virtual_address as u64, size: s.virtual_size as u64, flags: 0 };
        assert(row@ == pe_row(p@.sections[i as int]));
        r.push(row);
        assert(row_views(r@) =~= before.push(row@));
        assert(p@.sections.take(i + 1).map_values(|s: (Seq<u8>, u32, u32)| pe_row(s)) =~= p@.sections.take(
            i as int,
        ).map_values(|s: (Seq<u8>, u32, u32)| pe_row(s)).push(pe_row(p@.sections[i as int])));
        i += 1;
    }
    assert(p@.sections.take(i as int) =~= p@.sections);
    r
}

/// Reads a binary with goblin: its format, entry point and sections, and for
/// ELF the number of symbols and of function symbols. That it returns rests on
/// goblin's parsers returning, which their source does not promise for every
/// byte string.
pub fn describe_binary(data: &[u8]) -> (r: BinaryReport)
    ensures
        r@ == binary_report_spec(data@),
{
    proof {
        reveal_strlit("malformed ELF");
        reveal_strlit("malformed PE");
    }
    match object_kind(data) {
        ObjectKind::Elf => match parse_elf(data) {
            Some(e) => {
                let sections = elf_rows(&e);
                let function_symbols = count_function_symbols(&e.symbol_infos);
                BinaryReport::Elf {
                    is_64: e.is_64,
                    entry: e.entry,
                    sections,
                    symbols: e.symbol_infos.len(),
                    function_symbols,
                }
            },
            None => BinaryReport::Invalid("malformed ELF".to_string()),
        },
        ObjectKind::Pe => match parse_pe(data) {
            Some(p) => {
                let sections = pe_rows(&p);
                BinaryReport::Pe { entry: p.entry, sections }
            },
            None => BinaryReport::Invalid("malformed PE".to_string()),
        },
        ObjectKind::Other => BinaryReport::Unsupported,
        ObjectKind::Invalid(m) => BinaryReport::Invalid(m),
    }
}

// ---------------------------------------------------------------------------
// .rodata strings and text search
// ---------------------------------------------------------------------------

/// The range of the last section named `.rodata` among the first `n`.
pub open spec fn rodata_from(rows: Seq<SectionRowView>, n: nat) -> Option<(usize, usize)>
    decreases n,
{
    if n == 0 || n > rows.len() {
        None
    } else if rows[n - 1].name == ".rodata"@ {
        Some((rows[n - 1].offset as usize, rows[n - 1].size as usize))
    } else {
        rodata_from(rows, (n - 1) as nat)
    }
}

/// The file offset and size of the (last) `.rodata` section.
pub fn rodata_range(rows: &Vec<SectionRow>) -> (r: Option<(usize, usize)>)
    ensures
        r == rodata_from(row_views(rows@), rows@.len()),
{
    let ghost rv = row_views(rows@);
    let target = ".rodata".to_string();
    let mut r: Option<(usize, usize)> = None;
    let mut i: usize = 0;
    while i < rows.len()
        invariant
            i <= rows@.len(),
            rv == row_views(rows@),
            target@ == ".rodata"@,
            r == rodata_from(rv, i as nat),
        decreases rows@.len() - i,
    {
        assert(rv[i as int] == rows@[i as int]@);
        if rows[i].name == target {
            r = Some((rows[i].offset as usize, rows[i].size as usize));
        }
        i += 1;
    }
    r
}

/// A byte that is printable ASCII or a space.
pub open spec fn readable(b: u8) -> bool {
    0x20 <= b && b <= 0x7E
}

/// The state of the string scan after some bytes: the strings found, the one
/// being read and where it started.
pub open spec fn string_scan(data: Seq<u8>, min_len: nat, n: nat) -> (Seq<(usize, Seq<char>)>, Seq<char>, usize)
    decreases n,
{
    if n == 0 || n > data.len() {
        (Seq::empty(), Seq::empty(), 0)
    } else {
        let (found, cur, start) = string_scan(data, min_len, (n - 1) as nat);
        let b = data[n - 1];
        if readable(b) {
            (found, cur.push(b as char), if cur.len() == 0 { (n - 1) as usize } else { start })
        } else if cur.len() >= min_len {
            (found.push((start, cur)), Seq::empty(), start)
        } else {
            (found, Seq::empty(), start)
        }
    }
}

/// The runs of at least `min_len` readable bytes, with their offsets.
pub open spec fn strings_spec(data: Seq<u8>, min_len: nat) -> Seq<(usize, Seq<char>)> {
    let (found, cur, start) = string_scan(data, min_len, data.len());
    if cur.len() >= min_len {
        found.push((start, cur))
    } else {
        found
    }
}

/// The readable strings of at least `min_len` characters in `data`, with the
/// offset each starts at.
pub fn extract_strings(data: &[u8], min_len: usize) -> (r: Vec<(usize, String)>)
    ensures
        r.deep_view() == strings_spec(data@, min_len as nat),
{
    let mut results: Vec<(usize, String)> = Vec::new();
    let mut current = String::new();
    let mut cur_len: usize = 0;
    let mut start: usize = 0;
    let mut i: usize = 0;
    while i < data.len()
        invariant
            i <= data@.len(),
            cur_len == current@.len(),
            cur_len <= i,
            (results.deep_view(), current@, start) == string_scan(data@, min_len as nat, i as nat),
        decreases data@.len() - i,
    {
        let b = data[i];
        let ghost prev = string_scan(data@, min_len as nat, i as nat);
        if 0x20 <= b && b <= 0x7E {
            if cur_len == 0 {
                start = i;
            }
            current.push(b as char);
            cur_len += 1;
        } else {
            if cur_len >= min_len {
                let ghost before = results.deep_view();
                results.push((start, current.clone()));
                assert(results.deep_view() =~= before.push((start, prev.1)));
            }
            current = String::new();
            cur_len = 0;
        }
        i += 1;
    }
    if cur_len >= min_len {
        let ghost before = results.deep_view();
        let ghost cv = current@;
        results.push((start, current));
        assert(results.deep_view() =~= before.push((start, cv)));
    }
    results
}

/// The first `n` characters of `s`, and `...` after them when `s` is longer.
pub open spec fn preview_spec(s: Seq<char>, n: nat) -> Seq<char> {
    if s.len() > n {
        s.take(n as int) + "..."@
    } else {
        s
    }
}

/// How a found string is shown: at most 60 characters, then `...`.
pub fn preview(s: &str) -> (r: String)
    ensures
        r@ == preview_spec(s@, 60),
{
    let v = crate::text::chars_of(s);
    if v.len() > 60 {
        let mut r = crate::text::string_of(v.as_slice(), 0, 60);
        push_all(&mut r, "...");
        assert(v@.subrange(0, 60) =~= s@.take(60));
        r
    } else {
        s.to_string()
    }
}

/// `needle` occurs in `data` at `i`.
pub open spec fn occurs_at(data: Seq<u8>, needle: Seq<u8>, i: int) -> bool {
    0 <= i && i + needle.len() <= data.len() && data.subrange(i, i + needle.len()) == needle
}

/// The offsets among the first `n` at which `needle` occurs, in order.
pub open spec fn occurrences(data: Seq<u8>, needle: Seq<u8>, n: nat) -> Seq<usize>
    decreases n,
{
    if n == 0 {
        Seq::empty()
    } else if occurs_at(data, needle, n - 1) {
        occurrences(data, needle, (n - 1) as nat).push((n - 1) as usize)
    } else {
        occurrences(data, needle, (n - 1) as nat)
    }
}

fn occurs_at_exec(data: &[u8], needle: &[u8], i: usize) -> (b: bool)
    requires
        i + needle@.len() <= data@.len(),
    ensures
        b == occurs_at(data@, needle@, i as int),
{
    let n = data.len();
    let mut k: usize = 0;
    while k < needle.len()
        invariant
            k <= needle@.len(),
            n == data@.len(),
            i + needle@.len() <= n,
            forall|j: int| 0 <= j < k ==> data@[i + j] == needle@[j],
        decreases needle@.len() - k,
    {
        if data[i + k] != needle[k] {
            assert(data@.subrange(i as int, i + needle@.len())[k as int] != needle@[k as int]);
            return false;
        }
        k += 1;
    }
    assert(data@.subrange(i as int, i + needle@.len()) =~= needle@);
    true
}

/// Every offset at which `needle` occurs in `data` (the windows of its length).
pub fn find_all(data: &[u8], needle: &[u8]) -> (r: Vec<usize>)
    requires
        needle@.len() > 0,
    ensures
        r@ == occurrences(data@, needle@, data@.len()),
{
    let mut r: Vec<usize> = Vec::new();
    let mut i: usize = 0;
    while i < data.len()
        invariant
            i <= data@.len(),
            r@ == occurrences(data@, needle@, i as nat),
        decreases data@.len() - i,
    {
        if needle.len() <= data.len() - i && occurs_at_exec(data, needle, i) {
            r.push(i);
        }
        i += 1;
    }
    r
}

/// The bytes shown around an occurrence at `i`: four before it (fewer at the
/// start) to four after it (fewer at the end).
pub fn context_window(i: usize, needle_len: usize, data_len: usize) -> (r: (usize, usize))
    requires
        i + needle_len + 4 <= usize::MAX,
    ensures
        r.0 == (if i >= 4 { i - 4 } else { 0 }),
        r.1 == (if i + needle_len + 4 <= data_len { i + needle_len + 4 } else { data_len as int }),
{
    let start = i.saturating_sub(4);
    let end = if i + needle_len + 4 <= data_len { i + needle_len + 4 } else { data_len };
    (start, end)
}

} // verus!
