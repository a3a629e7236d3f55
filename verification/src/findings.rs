//! Findings: what a detection module reports, and where.
use vstd::prelude::*;
use crate::paint::{
    paint_outcome, paint_blue, paint_magenta, paint_green, paint_yellow, paint_red,
};
use crate::text::{decimal, str_eq, usize_to_decimal};
use itertools::Itertools;

verus! {

/// How serious a finding is, from least to most.
#[derive(Debug, PartialEq, Eq, Clone, Copy, Hash, Structural)]
pub enum Severity {
    Informal,
    Gas,
    Low,
    Medium,
    High,
}

impl Severity {
    /// The rank of a severity, `Informal` = 0 up to `High` = 4.
    pub open spec fn rank(self) -> u16 {
        match self {
            Severity::Informal => 0,
            Severity::Gas => 1,
            Severity::Low => 2,
            Severity::Medium => 3,
            Severity::High => 4,
        }
    }

    /// The name under which a severity is displayed.
    pub open spec fn display_name(self) -> Seq<char> {
        match self {
            Severity::High => "high"@,
            Severity::Medium => "medium"@,
            Severity::Low => "low"@,
            Severity::Gas => "gas"@,
            Severity::Informal => "info"@,
        }
    }

    /// The digit of the terminal colour of a severity: blue, magenta, green,
    /// yellow and red from `Informal` to `High`.
    pub open spec fn colour_code(self) -> char {
        match self {
            Severity::Informal => '4',
            Severity::Gas => '5',
            Severity::Low => '2',
            Severity::Medium => '3',
            Severity::High => '1',
        }
    }

    /// The name under which a severity is displayed (`high`, `medium`,
    /// `low`, `gas`, `info`).
    pub fn to_string(&self) -> (r: String)
        ensures
            r@ == self.display_name(),
    {
        let s = match self {
            Severity::High => "high",
            Severity::Medium => "medium",
            Severity::Low => "low",
            Severity::Gas => "gas",
            Severity::Informal => "info",
        };
        s.to_owned()
    }

    /// Colours `text` with the colour of this severity.
    pub fn format(&self, text: String) -> (r: String)
        ensures
            paint_outcome(self.colour_code(), text@, r@),
    {
        match self {
            Severity::Informal => paint_blue(text),
            Severity::Gas => paint_magenta(text),
            Severity::Low => paint_green(text),
            Severity::Medium => paint_yellow(text),
            Severity::High => paint_red(text),
        }
    }
}

impl Default for Severity {
    fn default() -> (r: Self)
        ensures
            r == Severity::Gas,
    {
        Severity::Gas
    }
}

impl From<Severity> for u16 {
    fn from(val: Severity) -> (r: Self) {
        match val {
            Severity::Informal => 0,
            Severity::Gas => 1,
            Severity::Low => 2,
            Severity::Medium => 3,
            Severity::High => 4,
        }
    }
}

impl vstd::std_specs::convert::FromSpecImpl<Severity> for u16 {
    open spec fn obeys_from_spec() -> bool {
        true
    }

    open spec fn from_spec(val: Severity) -> u16 {
        val.rank()
    }
}

/// Ranking severities keeps their order and tells them apart.
pub proof fn lemma_severity_rank_injective(a: Severity, b: Severity)
    ensures
        (a.rank() == b.rank()) == (a == b),
        a.rank() <= 4,
{
}

/// A location in a source file: byte offset, byte length and source index,
/// each possibly unknown.
#[derive(Debug, Clone, Copy, Default, PartialEq, Eq, Hash, Structural)]
pub struct SourceLocation {
    pub start: Option<usize>,
    pub length: Option<usize>,
    pub index: Option<usize>,
}

/// A finding reported by a detection module.
#[derive(Debug, Clone, Default, PartialEq, Eq, Hash)]
pub struct Finding {
    /// name of the module that reported it
    pub name: String,
    pub summary: String,
    pub description: String,
    pub severity: Severity,
    pub src: Option<SourceLocation>,
    /// identifies the kind of finding within its module
    pub code: usize,
    /// additional comments
    pub comment: Option<String>,
    /// gas saved
    pub gas: Option<usize>,
}

/// The value of a finding, with its text as characters.
pub struct FindingView {
    pub name: Seq<char>,
    pub summary: Seq<char>,
    pub description: Seq<char>,
    pub severity: Severity,
    pub src: Option<SourceLocation>,
    pub code: usize,
    pub comment: Option<Seq<char>>,
    pub gas: Option<usize>,
}

/// The characters of an optional string.
pub open spec fn opt_chars(s: Option<String>) -> Option<Seq<char>> {
    match s {
        Some(t) => Some(t@),
        None => None,
    }
}

impl View for Finding {
    type V = FindingView;

    open spec fn view(&self) -> FindingView {
        FindingView {
            name: self.name@,
            summary: self.summary@,
            description: self.description@,
            severity: self.severity,
            src: self.src,
            code: self.code,
            comment: opt_chars(self.comment),
            gas: self.gas,
        }
    }
}

/// A copy of an optional string.
pub fn copy_opt_string(s: &Option<String>) -> (r: Option<String>)
    ensures
        opt_chars(r) == opt_chars(*s),
{
    match s {
        Some(t) => Some(t.clone()),
        None => None,
    }
}

/// Whether two optional strings hold the same characters.
pub fn opt_string_eq(a: &Option<String>, b: &Option<String>) -> (r: bool)
    ensures
        r == (opt_chars(*a) == opt_chars(*b)),
{
    match (a, b) {
        (Some(x), Some(y)) => str_eq(x.as_str(), y.as_str()),
        (None, None) => true,
        _ => false,
    }
}

impl Finding {
    /// A copy of this finding.
    pub fn duplicate(&self) -> (r: Finding)
        ensures
            r@ == self@,
    {
        Finding {
            name: self.name.clone(),
            summary: self.summary.clone(),
            description: self.description.clone(),
            severity: self.severity,
            src: self.src,
            code: self.code,
            comment: copy_opt_string(&self.comment),
            gas: self.gas,
        }
    }

    /// Whether two findings are the same finding.
    pub fn same_as(&self, other: &Finding) -> (r: bool)
        ensures
            r == (self@ == other@),
    {
        str_eq(self.name.as_str(), other.name.as_str()) && str_eq(
            self.summary.as_str(),
            other.summary.as_str(),
        ) && str_eq(self.description.as_str(), other.description.as_str()) && self.severity
            == other.severity && self.src == other.src && self.code == other.code
            && opt_string_eq(&self.comment, &other.comment) && self.gas == other.gas
    }

    /// The module name and description of this finding, coloured by its
    /// severity.
    pub fn format(&self) -> (r: String)
        ensures
            paint_outcome(self.severity.colour_code(), finding_label(self@), r@),
    {
        let mut text = self.name.clone();
        text.append(": ");
        text.append(self.description.as_str());
        proof {
            reveal_strlit(": ");
            assert(text@ =~= finding_label(self@));
        }
        self.severity.format(text)
    }
}

/// `name: description`.
pub open spec fn finding_label(f: FindingView) -> Seq<char> {
    f.name + seq![':', ' '] + f.description
}

/// Text and severity that a detection module attaches to each of its
/// finding codes.
#[derive(Debug, Clone)]
pub struct FindingKey {
    pub summary: String,
    pub description: String,
    pub severity: Severity,
}

impl FindingKey {
    /// The key with this summary, description and severity.
    pub fn new(summary: &str, description: &str, severity: Severity) -> (r: FindingKey)
        ensures
            r.summary@ == summary@,
            r.description@ == description@,
            r.severity == severity,
    {
        FindingKey { summary: summary.to_owned(), description: description.to_owned(), severity }
    }
}

/// The keys of a module's findings, by code.
pub type FindingMap = std::collections::BTreeMap<usize, FindingKey>;

/// `k` has this summary, description and severity.
pub open spec fn key_is(k: FindingKey, summary: Seq<char>, description: Seq<char>, severity: Severity) -> bool {
    k.summary@ == summary && k.description@ == description && k.severity == severity
}

/// Where a finding is: file, line and column, and the text around it.
#[derive(Debug, Clone, PartialEq, Eq, Hash)]
pub struct Meta {
    /// Path of the file relative to the project path
    pub file: String,
    /// Line number of the finding
    pub line: Option<usize>,
    /// Horizontal position of the finding
    pub width: Option<usize>,
    /// Content around the finding
    pub content: String,
}

/// The value of a `Meta`.
pub struct MetaView {
    pub file: Seq<char>,
    pub line: Option<usize>,
    pub width: Option<usize>,
    pub content: Seq<char>,
}

impl View for Meta {
    type V = MetaView;

    open spec fn view(&self) -> MetaView {
        MetaView {
            file: self.file@,
            line: self.line,
            width: self.width,
            content: self.content@,
        }
    }
}

/// A finding together with where it is.
#[derive(Debug, Clone, PartialEq, Eq, Hash)]
pub struct MetaFinding {
    pub finding: Finding,
    pub meta: Meta,
}

/// The value of a `MetaFinding`.
pub struct MetaFindingView {
    pub finding: FindingView,
    pub meta: MetaView,
}

impl View for MetaFinding {
    type V = MetaFindingView;

    open spec fn view(&self) -> MetaFindingView {
        MetaFindingView { finding: self.finding@, meta: self.meta@ }
    }
}

/// `l<line>` for a known line, nothing otherwise.
pub open spec fn line_label(line: Option<usize>) -> Seq<char> {
    match line {
        Some(l) => seq!['l'] + decimal(l as nat),
        None => seq![],
    }
}

/// `<file> <line label>:<width> <finding text>`, with an unknown width shown
/// as 0.
pub open spec fn meta_finding_label(m: MetaView, finding_text: Seq<char>) -> Seq<char> {
    m.file + seq![' '] + line_label(m.line) + seq![':'] + decimal(
        match m.width {
            Some(w) => w as nat,
            None => 0,
        },
    ) + seq![' '] + finding_text
}

impl MetaFinding {
    /// A copy of this finding and its place.
    pub fn duplicate(&self) -> (r: MetaFinding)
        ensures
            r@ == self@,
    {
        MetaFinding {
            finding: self.finding.duplicate(),
            meta: Meta {
                file: self.meta.file.clone(),
                line: self.meta.line,
                width: self.meta.width,
                content: self.meta.content.clone(),
            },
        }
    }

    /// Whether two located findings are the same.
    pub fn same_as(&self, other: &MetaFinding) -> (r: bool)
        ensures
            r == (self@ == other@),
    {
        self.finding.same_as(&other.finding) && str_eq(
            self.meta.file.as_str(),
            other.meta.file.as_str(),
        ) && self.meta.line == other.meta.line && self.meta.width == other.meta.width && str_eq(
            self.meta.content.as_str(),
            other.meta.content.as_str(),
        )
    }

    /// File, line, column and the formatted finding, coloured by the
    /// finding's severity.
    pub fn format(&self) -> (r: String)
        ensures
            exists|inner: Seq<char>|
                paint_outcome(self.finding.severity.colour_code(), finding_label(self.finding@), inner)
                    && paint_outcome(
                    self.finding.severity.colour_code(),
                    meta_finding_label(self.meta@, inner),
                    r@,
                ),
    {
        let mut text = self.meta.file.clone();
        text.append(" ");
        match self.meta.line {
            Some(l) => {
                text.append("l");
                let digits = usize_to_decimal(l);
                text.append(digits.as_str());
            },
            None => {},
        }
        text.append(":");
        let w = match self.meta.width {
            Some(w) => w,
            None => 0,
        };
        let wd = usize_to_decimal(w);
        text.append(wd.as_str());
        text.append(" ");
        let inner = self.finding.format();
        text.append(inner.as_str());
        proof {
            reveal_strlit(" ");
            reveal_strlit("l");
            reveal_strlit(":");
            assert(text@ =~= meta_finding_label(self.meta@, inner@));
        }
        self.finding.severity.format(text)
    }
}

/// Whether the visitor is inside some kind of block.
#[derive(Debug, Default, Clone, Copy, PartialEq, Eq, Structural)]
pub struct Inside {
    pub function: bool,
    pub unchecked: bool,
    pub for_loop: bool,
    pub while_loop: bool,
    pub constructor: bool,
}

/// The findings of one detection module.
pub struct ModuleFindings {
    pub name: String,
    pub findings: Vec<MetaFinding>,
}

/// The value of a module's findings: its name and its findings in order.
pub struct ModuleFindingsView {
    pub name: Seq<char>,
    pub findings: Seq<MetaFindingView>,
}

impl View for ModuleFindings {
    type V = ModuleFindingsView;

    open spec fn view(&self) -> ModuleFindingsView {
        ModuleFindingsView {
            name: self.name@,
            findings: self.findings@.map_values(|m: MetaFinding| m@),
        }
    }
}

/// The findings of every module, one entry per module name.
pub struct AllFindings {
    pub modules: Vec<ModuleFindings>,
}

impl View for AllFindings {
    type V = Seq<ModuleFindingsView>;

    open spec fn view(&self) -> Seq<ModuleFindingsView> {
        self.modules@.map_values(|m: ModuleFindings| m@)
    }
}

/// No module name occurs twice, and no module holds the same finding twice.
pub open spec fn findings_well_formed(s: Seq<ModuleFindingsView>) -> bool {
    &&& forall|i: int, j: int| 0 <= i < j < s.len() ==> #[trigger] s[i].name != #[trigger] s[j].name
    &&& forall|i: int| 0 <= i < s.len() ==> no_duplicates(#[trigger] s[i].findings)
}

/// No element occurs twice.
pub open spec fn no_duplicates<T>(s: Seq<T>) -> bool {
    forall|i: int, j: int| 0 <= i < j < s.len() ==> #[trigger] s[i] != #[trigger] s[j]
}

/// The index of the first module at or after `i` named `name`, or the
/// number of modules when there is none.
pub open spec fn module_index_from(s: Seq<ModuleFindingsView>, name: Seq<char>, i: int) -> int
    decreases s.len() - i,
{
    if i < 0 || i >= s.len() {
        s.len() as int
    } else if s[i].name == name {
        i
    } else {
        module_index_from(s, name, i + 1)
    }
}

/// The index of the module named `name`, or the number of modules when there
/// is none.
pub open spec fn module_index(s: Seq<ModuleFindingsView>, name: Seq<char>) -> int {
    module_index_from(s, name, 0)
}

/// The findings after adding `f` to the set of the module named like the
/// finding: a new module is appended when there is none, and nothing changes
/// when that module already holds `f`.
pub open spec fn add_finding(s: Seq<ModuleFindingsView>, f: MetaFindingView) -> Seq<
    ModuleFindingsView,
> {
    let i = module_index(s, f.finding.name);
    if i < s.len() {
        if s[i].findings.contains(f) {
            s
        } else {
            s.update(i, ModuleFindingsView { name: s[i].name, findings: s[i].findings.push(f) })
        }
    } else {
        s.push(ModuleFindingsView { name: f.finding.name, findings: seq![f] })
    }
}

proof fn lemma_module_index_from(s: Seq<ModuleFindingsView>, name: Seq<char>, i: int)
    requires
        0 <= i <= s.len(),
    ensures
        i <= module_index_from(s, name, i) <= s.len(),
        module_index_from(s, name, i) < s.len() ==> s[module_index_from(s, name, i)].name == name,
        forall|k: int| i <= k < module_index_from(s, name, i) ==> #[trigger] s[k].name != name,
    decreases s.len() - i,
{
    if i < s.len() && s[i].name != name {
        lemma_module_index_from(s, name, i + 1);
    }
}

/// `module_index` finds the first module with the name, or none.
pub proof fn lemma_module_index(s: Seq<ModuleFindingsView>, name: Seq<char>)
    ensures
        0 <= module_index(s, name) <= s.len(),
        module_index(s, name) < s.len() ==> s[module_index(s, name)].name == name,
        forall|k: int| 0 <= k < module_index(s, name) ==> #[trigger] s[k].name != name,
{
    lemma_module_index_from(s, name, 0);
}

/// `f` is among the findings of the module named like it.
pub open spec fn holds_finding(s: Seq<ModuleFindingsView>, f: MetaFindingView) -> bool {
    module_index(s, f.finding.name) < s.len() && s[module_index(s, f.finding.name)].findings.contains(f)
}

proof fn lemma_module_index_same_names(s: Seq<ModuleFindingsView>, t: Seq<ModuleFindingsView>, name: Seq<char>)
    requires
        s.len() == t.len(),
        forall|k: int| 0 <= k < s.len() ==> #[trigger] s[k].name == t[k].name,
    ensures
        module_index(s, name) == module_index(t, name),
{
    lemma_module_index(s, name);
    lemma_module_index(t, name);
    let a = module_index(s, name);
    let b = module_index(t, name);
    if a < b {
        assert(t[a].name == s[a].name);
    } else if b < a {
        assert(s[b].name == t[b].name);
    }
}

/// Adding a finding to the findings of its module: afterwards the finding is
/// held, every finding held before is still held, and adding a finding that
/// is already held changes nothing.
pub proof fn lemma_add_finding_set(s: Seq<ModuleFindingsView>, f: MetaFindingView, g: MetaFindingView)
    ensures
        holds_finding(add_finding(s, f), f),
        holds_finding(s, g) ==> holds_finding(add_finding(s, f), g),
        holds_finding(s, f) ==> add_finding(s, f) == s,
{
    lemma_module_index(s, f.finding.name);
    lemma_module_index(s, g.finding.name);
    let i = module_index(s, f.finding.name);
    let t = add_finding(s, f);
    if i < s.len() {
        if !s[i].findings.contains(f) {
            lemma_module_index_same_names(s, t, f.finding.name);
            lemma_module_index_same_names(s, t, g.finding.name);
            assert(t[i].findings[t[i].findings.len() - 1] == f);
            if holds_finding(s, g) {
                let j = module_index(s, g.finding.name);
                let w = choose|w: int| 0 <= w < s[j].findings.len() && s[j].findings[w] == g;
                assert(t[j].findings[w] == g);
            }
        }
    } else {
        lemma_module_index(t, f.finding.name);
        lemma_module_index(t, g.finding.name);
        assert(t[s.len() as int].findings[0] == f);
        let idx = module_index(t, f.finding.name);
        if idx < s.len() {
            assert(t[idx] == s[idx]);
        }
        if idx > s.len() {
            assert(t[s.len() as int].name == f.finding.name);
        }
        assert(module_index(t, f.finding.name) == s.len());
        if holds_finding(s, g) {
            let j = module_index(s, g.finding.name);
            assert(t[j] == s[j]);
            assert(module_index(t, g.finding.name) == j);
        }
    }
}

/// The findings after adding each of `mfs` in turn.
pub open spec fn add_findings(s: Seq<ModuleFindingsView>, mfs: Seq<MetaFindingView>) -> Seq<
    ModuleFindingsView,
>
    decreases mfs.len(),
{
    if mfs.len() == 0 {
        s
    } else {
        add_finding(add_findings(s, mfs.drop_last()), mfs.last())
    }
}

proof fn lemma_add_findings_holds(s: Seq<ModuleFindingsView>, mfs: Seq<MetaFindingView>, g: MetaFindingView)
    ensures
        forall|k: int| 0 <= k < mfs.len() ==> holds_finding(add_findings(s, mfs), #[trigger] mfs[k]),
        holds_finding(s, g) ==> holds_finding(add_findings(s, mfs), g),
    decreases mfs.len(),
{
    if mfs.len() > 0 {
        let prev = mfs.drop_last();
        let t = add_findings(s, prev);
        lemma_add_findings_holds(s, prev, g);
        lemma_add_finding_set(t, mfs.last(), g);
        assert forall|k: int| 0 <= k < mfs.len() implies holds_finding(
            add_findings(s, mfs),
            #[trigger] mfs[k],
        ) by {
            if k < mfs.len() - 1 {
                lemma_add_findings_holds(s, prev, mfs[k]);
                assert(prev[k] == mfs[k]);
                lemma_add_finding_set(t, mfs.last(), mfs[k]);
            }
        }
    }
}

proof fn lemma_add_findings_noop(t: Seq<ModuleFindingsView>, mfs: Seq<MetaFindingView>)
    requires
        forall|k: int| 0 <= k < mfs.len() ==> holds_finding(t, #[trigger] mfs[k]),
    ensures
        add_findings(t, mfs) == t,
    decreases mfs.len(),
{
    if mfs.len() > 0 {
        let prev = mfs.drop_last();
        assert forall|k: int| 0 <= k < prev.len() implies holds_finding(t, #[trigger] prev[k]) by {
            assert(prev[k] == mfs[k]);
        }
        lemma_add_findings_noop(t, prev);
        assert(holds_finding(t, mfs[mfs.len() - 1]));
        lemma_add_finding_set(t, mfs.last(), mfs.last());
    }
}

/// Findings form a set per module: after adding a list of findings every
/// one of them is held, and adding the same list again changes nothing.
pub proof fn lemma_add_findings_idempotent(s: Seq<ModuleFindingsView>, mfs: Seq<MetaFindingView>)
    ensures
        forall|k: int| 0 <= k < mfs.len() ==> holds_finding(add_findings(s, mfs), #[trigger] mfs[k]),
        add_findings(add_findings(s, mfs), mfs) == add_findings(s, mfs),
{
    lemma_add_findings_holds(s, mfs, mfs[0]);
    lemma_add_findings_noop(add_findings(s, mfs), mfs);
}

impl AllFindings {
    /// No findings.
    pub fn new() -> (r: AllFindings)
        ensures
            r@ == Seq::<ModuleFindingsView>::empty(),
    {
        AllFindings { modules: Vec::new() }
    }

    /// Adds a located finding to the findings of the module it names.
    pub fn insert(&mut self, mf: MetaFinding)
        requires
            findings_well_formed(old(self)@),
        ensures
            final(self)@ == add_finding(old(self)@, mf@),
            findings_well_formed(final(self)@),
    {
        let ghost s = self@;
        proof {
            lemma_module_index(s, mf@.finding.name);
        }
        let mut i: usize = 0;
        while i < self.modules.len()
            invariant
                self@ == s,
                findings_well_formed(s),
                i <= s.len(),
                forall|k: int| 0 <= k < i ==> #[trigger] s[k].name != mf@.finding.name,
            ensures
                i <= s.len(),
                i < s.len() ==> s[i as int].name == mf@.finding.name,
                forall|k: int| 0 <= k < i ==> #[trigger] s[k].name != mf@.finding.name,
            decreases self.modules@.len() - i,
        {
            if str_eq(self.modules[i].name.as_str(), mf.finding.name.as_str()) {
                break;
            }
            i += 1;
        }
        proof {
            lemma_module_index(s, mf@.finding.name);
        }
        if i < self.modules.len() {
            assert(i == module_index(s, mf@.finding.name));
            let mut j: usize = 0;
            let mut found = false;
            while j < self.modules[i].findings.len()
                invariant
                    self@ == s,
                    i < s.len(),
                    j <= s[i as int].findings.len(),
                    found ==> s[i as int].findings.contains(mf@),
                    !found ==> forall|k: int|
                        0 <= k < j ==> #[trigger] s[i as int].findings[k] != mf@,
                decreases s[i as int].findings.len() - j,
            {
                if self.modules[i].findings[j].same_as(&mf) {
                    found = true;
                    assert(s[i as int].findings[j as int] == mf@);
                }
                j += 1;
            }
            if found {
                assert(s[i as int].findings.contains(mf@));
            } else {
                assert(!s[i as int].findings.contains(mf@));
                let ghost before = self.modules@;
                let mut module = self.modules.remove(i);
                assert(module@ == s[i as int]);
                module.findings.push(mf);
                assert(module.findings@.map_values(|m: MetaFinding| m@) =~= s[i as int].findings.push(
                    mf@,
                ));
                let ghost new_view = module@;
                self.modules.insert(i, module);
                assert(self.modules@ =~= before.update(i as int, self.modules@[i as int]));
                assert(self@ =~= s.update(i as int, new_view));
                assert(self@ =~= add_finding(s, mf@));
            }
        } else {
            let mut fs: Vec<MetaFinding> = Vec::new();
            let name = mf.finding.name.clone();
            fs.push(mf);
            assert(fs@.map_values(|m: MetaFinding| m@) =~= seq![mf@]);
            self.modules.push(ModuleFindings { name, findings: fs });
            assert(self@ =~= add_finding(s, mf@));
        }
    }
}


/// The findings of a run together with a source map.
pub struct AllFindingsAndSourceMap {
    pub all_findings: AllFindings,
    pub source_map: Vec<usize>,
}

impl Default for AllFindingsAndSourceMap {
    /// No findings and an empty source map.
    fn default() -> (r: Self)
        ensures
            r.all_findings@.len() == 0,
            r.source_map@.len() == 0,
    {
        AllFindingsAndSourceMap { all_findings: AllFindings::new(), source_map: Vec::new() }
    }
}

/// The findings of `s` whose severity is one of `verbosity`, in order.
pub open spec fn keep_by_severity(s: Seq<MetaFindingView>, verbosity: Seq<Severity>) -> Seq<
    MetaFindingView,
>
    decreases s.len(),
{
    if s.len() == 0 {
        seq![]
    } else if verbosity.contains(s.last().finding.severity) {
        keep_by_severity(s.drop_last(), verbosity).push(s.last())
    } else {
        keep_by_severity(s.drop_last(), verbosity)
    }
}

/// Whether `severity` is one of `verbosity`.
pub fn severity_in(verbosity: &[Severity], severity: Severity) -> (r: bool)
    ensures
        r == verbosity@.contains(severity),
{
    let mut i: usize = 0;
    while i < verbosity.len()
        invariant
            i <= verbosity@.len(),
            forall|k: int| 0 <= k < i ==> verbosity@[k] != severity,
        decreases verbosity@.len() - i,
    {
        if verbosity[i] == severity {
            assert(verbosity@[i as int] == severity);
            return true;
        }
        i += 1;
    }
    false
}

/// Keeps, for every module, only the findings whose severity is one of
/// `verbosity`; every module stays, in the same order.
pub fn filter_findings(findings: AllFindings, verbosity: &[Severity]) -> (r: AllFindings)
    ensures
        r@.len() == findings@.len(),
        forall|i: int|
            0 <= i < r@.len() ==> (#[trigger] r@[i]).name == findings@[i].name && r@[i].findings
                == keep_by_severity(findings@[i].findings, verbosity@),
{
    let mut out: Vec<ModuleFindings> = Vec::new();
    let mut i: usize = 0;
    while i < findings.modules.len()
        invariant
            i <= findings@.len(),
            out@.len() == i,
            forall|k: int|
                0 <= k < i ==> (#[trigger] out@[k])@.name == findings@[k].name && out@[k]@.findings
                    == keep_by_severity(findings@[k].findings, verbosity@),
        decreases findings@.len() - i,
    {
        let module = &findings.modules[i];
        let mut kept: Vec<MetaFinding> = Vec::new();
        let mut j: usize = 0;
        while j < module.findings.len()
            invariant
                module@ == findings@[i as int],
                j <= module@.findings.len(),
                kept@.map_values(|m: MetaFinding| m@) == keep_by_severity(
                    module@.findings.subrange(0, j as int),
                    verbosity@,
                ),
            decreases module@.findings.len() - j,
        {
            let ghost prefix = module@.findings.subrange(0, j as int);
            assert(module@.findings.subrange(0, j + 1).drop_last() =~= prefix);
            if severity_in(verbosity, module.findings[j].finding.severity) {
                let copy = module.findings[j].duplicate();
                kept.push(copy);
                assert(kept@.map_values(|m: MetaFinding| m@) =~= keep_by_severity(
                    prefix,
                    verbosity@,
                ).push(module@.findings[j as int]));
            }
            j += 1;
        }
        assert(module@.findings.subrange(0, j as int) =~= module@.findings);
        out.push(ModuleFindings { name: module.name.clone(), findings: kept });
        i += 1;
    }
    let r = AllFindings { modules: out };
    r
}

/// Keeping findings by severity twice keeps what keeping once does.
pub proof fn lemma_keep_by_severity_idempotent(s: Seq<MetaFindingView>, verbosity: Seq<Severity>)
    ensures
        keep_by_severity(keep_by_severity(s, verbosity), verbosity) == keep_by_severity(s, verbosity),
    decreases s.len(),
{
    if s.len() > 0 {
        lemma_keep_by_severity_idempotent(s.drop_last(), verbosity);
        let k = keep_by_severity(s.drop_last(), verbosity);
        if verbosity.contains(s.last().finding.severity) {
            let kk = k.push(s.last());
            assert(kk.drop_last() =~= k);
            assert(kk.last() == s.last());
        }
    }
}

/// Keeping every severity that occurs keeps all findings, in order.
pub proof fn lemma_keep_by_severity_all(s: Seq<MetaFindingView>, verbosity: Seq<Severity>)
    requires
        forall|k: int| 0 <= k < s.len() ==> verbosity.contains(#[trigger] s[k].finding.severity),
    ensures
        keep_by_severity(s, verbosity) == s,
    decreases s.len(),
{
    if s.len() > 0 {
        let init = s.drop_last();
        assert forall|k: int| 0 <= k < init.len() implies verbosity.contains(#[trigger] init[k].finding.severity) by {
            assert(init[k] == s[k]);
        }
        lemma_keep_by_severity_all(init, verbosity);
        assert(verbosity.contains(s[s.len() - 1].finding.severity));
        assert(init.push(s.last()) =~= s);
    }
}

/// What is kept by severity is exactly the findings, in order, whose
/// severity is listed: each kept finding has a listed severity, and a
/// finding with a listed severity is kept.
pub proof fn lemma_keep_by_severity_members(s: Seq<MetaFindingView>, verbosity: Seq<Severity>, f: MetaFindingView)
    ensures
        keep_by_severity(s, verbosity).contains(f) <==> (s.contains(f) && verbosity.contains(
            f.finding.severity,
        )),
    decreases s.len(),
{
    if s.len() > 0 {
        lemma_keep_by_severity_members(s.drop_last(), verbosity, f);
        let k = keep_by_severity(s.drop_last(), verbosity);
        let last = s.last();
        if s.contains(f) && !s.drop_last().contains(f) {
            let w = choose|w: int| 0 <= w < s.len() && s[w] == f;
            if w < s.len() - 1 {
                assert(s.drop_last()[w] == f);
            }
        }
        if s.drop_last().contains(f) {
            let w = choose|w: int| 0 <= w < s.drop_last().len() && s.drop_last()[w] == f;
            assert(s[w] == f);
        }
        if verbosity.contains(last.finding.severity) {
            let kk = k.push(last);
            if kk.contains(f) && !k.contains(f) {
                let w = choose|w: int| 0 <= w < kk.len() && kk[w] == f;
                if w < k.len() {
                    assert(k[w] == f);
                }
            }
            if k.contains(f) {
                let w = choose|w: int| 0 <= w < k.len() && k[w] == f;
                assert(kk[w] == f);
            }
            if f == last {
                assert(kk[k.len() as int] == f);
                assert(s[s.len() - 1] == f);
            }
        } else {
            if f == last && s.contains(f) {
                assert(!verbosity.contains(f.finding.severity));
            }
        }
    }
}

/// `p` lists each index below `n` exactly once.
pub open spec fn is_permutation(p: Seq<int>, n: int) -> bool {
    &&& p.len() == n
    &&& forall|i: int| 0 <= i < n ==> 0 <= #[trigger] p[i] < n
    &&& forall|i: int, j: int| 0 <= i < j < n ==> #[trigger] p[i] != #[trigger] p[j]
}

/// `r` holds the modules of `v` ordered by their number of findings, fewest
/// first, with modules of equal count in the order they came in.
pub open spec fn stable_sort_by_count(v: Seq<ModuleFindingsView>, r: Seq<ModuleFindingsView>) -> bool {
    exists|p: Seq<int>|
        {
            &&& is_permutation(p, v.len() as int)
            &&& r.len() == v.len()
            &&& forall|i: int| 0 <= i < r.len() ==> r[i] == v[#[trigger] p[i]]
            &&& forall|i: int, j: int|
                0 <= i < j < r.len() ==> #[trigger] r[i].findings.len() <= #[trigger] r[j].findings.len()
            &&& forall|i: int, j: int|
                0 <= i < j < r.len() && r[i].findings.len() == r[j].findings.len() ==> #[trigger] p[i]
                    < #[trigger] p[j]
        }
}

/// The same relation over the modules themselves.
pub open spec fn stable_sort_by_count_exec(v: Seq<ModuleFindings>, r: Seq<ModuleFindings>) -> bool {
    exists|p: Seq<int>|
        {
            &&& is_permutation(p, v.len() as int)
            &&& r.len() == v.len()
            &&& forall|i: int| 0 <= i < r.len() ==> r[i] == v[#[trigger] p[i]]
            &&& forall|i: int, j: int|
                0 <= i < j < r.len() ==> #[trigger] r[i].findings.len() <= #[trigger] r[j].findings.len()
            &&& forall|i: int, j: int|
                0 <= i < j < r.len() && r[i].findings.len() == r[j].findings.len() ==> #[trigger] p[i]
                    < #[trigger] p[j]
        }
}

/// Orders two modules by their number of findings.
pub fn compare_finding_counts(a: &ModuleFindings, b: &ModuleFindings) -> (r: std::cmp::Ordering)
    ensures
        (r == std::cmp::Ordering::Less) == (a.findings@.len() < b.findings@.len()),
        (r == std::cmp::Ordering::Equal) == (a.findings@.len() == b.findings@.len()),
        (r == std::cmp::Ordering::Greater) == (a.findings@.len() > b.findings@.len()),
{
    let x = a.findings.len();
    let y = b.findings.len();
    if x < y {
        std::cmp::Ordering::Less
    } else if x == y {
        std::cmp::Ordering::Equal
    } else {
        std::cmp::Ordering::Greater
    }
}

/// `itertools::Itertools::sorted_by` with the finding-count comparison,
/// collected into a vector. It collects the elements and sorts them with
/// std's `slice::sort_by`, which std documents as a stable sort in ascending
/// order of the comparison; the contract claims exactly that.
#[verifier::external_body]
fn sorted_by_finding_count(modules: Vec<ModuleFindings>) -> (r: Vec<ModuleFindings>)
    ensures
        stable_sort_by_count_exec(modules@, r@),
{
    modules.into_iter().sorted_by(|a, b| compare_finding_counts(a, b)).collect()
}

/// A copy of a module's findings.
pub fn copy_module_findings(m: &ModuleFindings) -> (r: ModuleFindings)
    ensures
        r@ == m@,
{
    let mut fs: Vec<MetaFinding> = Vec::new();
    let mut j: usize = 0;
    while j < m.findings.len()
        invariant
            j <= m.findings@.len(),
            fs@.len() == j,
            forall|k: int| 0 <= k < j ==> (#[trigger] fs@[k])@ == m.findings@[k]@,
        decreases m.findings@.len() - j,
    {
        fs.push(m.findings[j].duplicate());
        j += 1;
    }
    let r = ModuleFindings { name: m.name.clone(), findings: fs };
    assert(r@.findings =~= m@.findings);
    r
}

/// The modules ordered by their number of findings, fewest first.
pub fn sort_findings_by_len(findings: &AllFindings) -> (r: AllFindings)
    ensures
        stable_sort_by_count(findings@, r@),
{
    let mut copy: Vec<ModuleFindings> = Vec::new();
    let mut i: usize = 0;
    while i < findings.modules.len()
        invariant
            i <= findings@.len(),
            copy@.len() == i,
            forall|k: int| 0 <= k < i ==> (#[trigger] copy@[k])@ == findings@[k],
        decreases findings@.len() - i,
    {
        copy.push(copy_module_findings(&findings.modules[i]));
        i += 1;
    }
    let ghost c = copy@;
    let sorted = sorted_by_finding_count(copy);
    let r = AllFindings { modules: sorted };
    proof {
        let p = choose|p: Seq<int>|
            {
                &&& is_permutation(p, c.len() as int)
                &&& sorted@.len() == c.len()
                &&& forall|i: int| 0 <= i < sorted@.len() ==> sorted@[i] == c[#[trigger] p[i]]
                &&& forall|i: int, j: int|
                    0 <= i < j < sorted@.len() ==> #[trigger] sorted@[i].findings.len()
                        <= #[trigger] sorted@[j].findings.len()
                &&& forall|i: int, j: int|
                    0 <= i < j < sorted@.len() && sorted@[i].findings.len()
                        == sorted@[j].findings.len() ==> #[trigger] p[i] < #[trigger] p[j]
            };
        assert forall|i: int| 0 <= i < r@.len() implies r@[i] == findings@[#[trigger] p[i]] by {
            assert(sorted@[i] == c[p[i]]);
        }
        assert forall|i: int, j: int| 0 <= i < j < r@.len() implies #[trigger] r@[i].findings.len()
            <= #[trigger] r@[j].findings.len() by {
            assert(sorted@[i].findings.len() <= sorted@[j].findings.len());
        }
        assert forall|i: int, j: int|
            0 <= i < j < r@.len() && r@[i].findings.len() == r@[j].findings.len() implies #[trigger] p[i]
            < #[trigger] p[j] by {
            assert(sorted@[i].findings.len() == r@[i].findings.len());
        }
    }
    r
}

} // verus!
