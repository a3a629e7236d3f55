//! Walking the sources: what each detection module found, located file by
//! file and gathered per module.
use vstd::prelude::*;
use vstd::utf8::*;
use std::collections::BTreeMap;
use crate::findings::{
    AllFindings, Finding, FindingKey, FindingView, Meta, MetaFinding, MetaFindingView, MetaView,
    ModuleFindingsView, SourceLocation, add_findings, findings_well_formed,
};
use crate::ast::PushedFinding;
use crate::source::{arrow_content_bytes, get_finding_content_arrow, get_position, position_of};
use crate::text::str_eq;

verus! {

/// What a detection module has gathered while walking the sources.
pub struct ModuleState {
    /// name of the module
    pub name: String,
    /// findings pushed during the walk, in order
    pub findings: Vec<Finding>,
    /// absolute path of the file being visited
    pub current_file: String,
}

/// The finding built for `code` from its key: named after the module, with
/// the key's summary, description and severity.
pub open spec fn keyed_finding(
    name: Seq<char>,
    key: FindingKey,
    code: usize,
    src: Option<SourceLocation>,
    comment: Option<Seq<char>>,
) -> FindingView {
    FindingView {
        name,
        summary: key.summary@,
        description: key.description@,
        severity: key.severity,
        src,
        code,
        comment,
        gas: Some(0),
    }
}

impl ModuleState {
    /// A module with no findings yet.
    pub fn new(name: String) -> (r: ModuleState)
        ensures
            r.name@ == name@,
            r.findings@.len() == 0,
            r.current_file@.len() == 0,
    {
        ModuleState { name, findings: Vec::new(), current_file: String::new() }
    }

    /// Pushes the finding of `code`, built from the key that `findings_map`
    /// gives that code.
    pub fn push_finding(
        &mut self,
        findings_map: &BTreeMap<usize, FindingKey>,
        code: usize,
        src: Option<SourceLocation>,
        comment: Option<String>,
    )
        requires
            findings_map@.contains_key(code),
        ensures
            final(self).name == old(self).name,
            final(self).current_file == old(self).current_file,
            final(self).findings@.len() == old(self).findings@.len() + 1,
            final(self).findings@.drop_last() == old(self).findings@,
            final(self).findings@.last()@ == keyed_finding(
                old(self).name@,
                findings_map@[code],
                code,
                src,
                match comment {
                    Some(c) => Some(c@),
                    None => None,
                },
            ),
    {
        broadcast use vstd::laws_cmp::group_laws_cmp;
        broadcast use vstd::std_specs::btree::group_btree_axioms;

        let key = findings_map.get(&code);
        match key {
            Some(k) => {
                let ghost before = self.findings@;
                let finding = Finding {
                    name: self.name.clone(),
                    code,
                    summary: k.summary.clone(),
                    severity: k.severity,
                    description: k.description.clone(),
                    src,
                    comment,
                    gas: Some(0),
                };
                self.findings.push(finding);
                proof {
                    assert(self.findings@.drop_last() =~= before);
                }
            },
            None => {
                proof {
                    assert(false);
                }
            },
        }
    }
}

impl ModuleState {
    /// Pushes the findings asked for, in order, each built from the key of
    /// its code.
    pub fn push_findings(&mut self, findings_map: &BTreeMap<usize, FindingKey>, pushed: &[PushedFinding])
        requires
            forall|k: int| 0 <= k < pushed@.len() ==> findings_map@.contains_key(#[trigger] pushed@[k].code),
        ensures
            final(self).name == old(self).name,
            final(self).current_file == old(self).current_file,
            final(self).findings@.len() == old(self).findings@.len() + pushed@.len(),
            forall|k: int|
                0 <= k < old(self).findings@.len() ==> #[trigger] final(self).findings@[k] == old(
                    self,
                ).findings@[k],
            forall|k: int|
                0 <= k < pushed@.len() ==> (#[trigger] final(self).findings@[old(self).findings@.len()
                    + k])@ == keyed_finding(
                    old(self).name@,
                    findings_map@[pushed@[k].code],
                    pushed@[k].code,
                    pushed@[k].src,
                    None,
                ),
    {
        let ghost start = self.findings@;
        let mut i: usize = 0;
        while i < pushed.len()
            invariant
                i <= pushed@.len(),
                self.name == old(self).name,
                self.current_file == old(self).current_file,
                start == old(self).findings@,
                self.findings@.len() == start.len() + i,
                forall|k: int| 0 <= k < pushed@.len() ==> findings_map@.contains_key(#[trigger] pushed@[k].code),
                forall|k: int| 0 <= k < start.len() ==> #[trigger] self.findings@[k] == start[k],
                forall|k: int|
                    0 <= k < i ==> (#[trigger] self.findings@[start.len() + k])@ == keyed_finding(
                        old(self).name@,
                        findings_map@[pushed@[k].code],
                        pushed@[k].code,
                        pushed@[k].src,
                        None,
                    ),
            decreases pushed@.len() - i,
        {
            let p = pushed[i];
            let ghost before = self.findings@;
            self.push_finding(findings_map, p.code, p.src, None);
            proof {
                assert(self.findings@.drop_last() == before);
                assert forall|k: int| 0 <= k < before.len() implies self.findings@[k] == before[k] by {
                    assert(self.findings@.drop_last()[k] == self.findings@[k]);
                }
                assert forall|k: int| 0 <= k < start.len() implies #[trigger] self.findings@[k] == start[k] by {
                    assert(self.findings@[k] == before[k]);
                }
                assert forall|k: int| 0 <= k < i + 1 implies (#[trigger] self.findings@[start.len() + k])@
                    == keyed_finding(
                    old(self).name@,
                    findings_map@[pushed@[k].code],
                    pushed@[k].code,
                    pushed@[k].src,
                    None,
                ) by {
                    if k < i {
                        assert(self.findings@[start.len() + k] == before[start.len() + k]);
                    } else {
                        assert(self.findings@[start.len() + k] == self.findings@.last());
                    }
                }
            }
            i = i + 1;
        }
    }
}

/// One file of the source map: its absolute path, its content and the byte
/// offsets at which its lines end.
pub struct SourceEntry {
    pub path: String,
    pub content: String,
    pub lines_to_bytes: Vec<usize>,
}

/// The files of a project, looked up by absolute path.
pub struct SourceMap {
    pub entries: Vec<SourceEntry>,
}

/// The index of the first entry for `path` at or after `i`, or the number
/// of entries when there is none.
pub open spec fn source_index_from(entries: Seq<SourceEntry>, path: Seq<char>, i: int) -> int
    decreases entries.len() - i,
{
    if i < 0 || i >= entries.len() {
        entries.len() as int
    } else if entries[i].path@ == path {
        i
    } else {
        source_index_from(entries, path, i + 1)
    }
}

/// The index of the entry for `path`, or the number of entries.
pub open spec fn source_index(entries: Seq<SourceEntry>, path: Seq<char>) -> int {
    source_index_from(entries, path, 0)
}

proof fn lemma_source_index_from(entries: Seq<SourceEntry>, path: Seq<char>, i: int)
    requires
        0 <= i <= entries.len(),
    ensures
        i <= source_index_from(entries, path, i) <= entries.len(),
        source_index_from(entries, path, i) < entries.len() ==> entries[source_index_from(
            entries,
            path,
            i,
        )].path@ == path,
        forall|k: int|
            i <= k < source_index_from(entries, path, i) ==> (#[trigger] entries[k]).path@ != path,
    decreases entries.len() - i,
{
    if i < entries.len() && entries[i].path@ != path {
        lemma_source_index_from(entries, path, i + 1);
    }
}

impl SourceMap {
    /// The index of the entry for `path`, if there is one.
    pub fn find(&self, path: &str) -> (r: Option<usize>)
        ensures
            match r {
                Some(i) => i == source_index(self.entries@, path@) && i < self.entries@.len(),
                None => source_index(self.entries@, path@) == self.entries@.len(),
            },
    {
        proof {
            lemma_source_index_from(self.entries@, path@, 0);
        }
        let mut i: usize = 0;
        while i < self.entries.len()
            invariant
                i <= self.entries@.len(),
                forall|k: int| 0 <= k < i ==> (#[trigger] self.entries@[k]).path@ != path@,
                source_index(self.entries@, path@) >= i,
                source_index(self.entries@, path@) < self.entries@.len() ==> self.entries@[source_index(
                    self.entries@,
                    path@,
                )].path@ == path@,
                forall|k: int|
                    0 <= k < source_index(self.entries@, path@) ==> (
                    #[trigger] self.entries@[k]).path@ != path@,
            decreases self.entries@.len() - i,
        {
            if str_eq(self.entries[i].path.as_str(), path) {
                return Some(i);
            }
            i = i + 1;
        }
        None
    }
}

/// The length of a location, zero when unknown.
pub open spec fn length_or_zero(src: SourceLocation) -> usize {
    match src.length {
        Some(l) => l,
        None => 0,
    }
}

/// The position and excerpt of a finding in the file at `path`: the line,
/// column and surrounding lines where the file is in the source map, and a
/// note saying what is missing otherwise.
pub open spec fn finding_meta(
    f: FindingView,
    file: Seq<char>,
    path: Seq<char>,
    entries: Seq<SourceEntry>,
) -> MetaView {
    let pc: ((usize, usize), Seq<char>) = match f.src {
        Some(src) => match src.start {
            Some(start) => {
                let i = source_index(entries, path);
                if i < entries.len() {
                    (
                        position_of(start as int, entries[i].lines_to_bytes@),
                        decode_utf8(
                            arrow_content_bytes(
                                encode_utf8(entries[i].content@),
                                start as int,
                                length_or_zero(src) as int,
                            ),
                        ),
                    )
                } else {
                    ((0usize, 0usize), "Path not indexed in source map"@)
                }
            },
            None => ((0usize, 0usize), "No source map for this file"@),
        },
        None => ((0usize, 0usize), "Error fetching content"@),
    };
    MetaView { file, line: Some(pc.0.0), width: Some(pc.0.1), content: pc.1 }
}

/// The excerpt of a finding fits the machine's offsets: where it is taken,
/// its start plus length stays two below the largest offset.
pub open spec fn within_limits(f: FindingView, path: Seq<char>, entries: Seq<SourceEntry>) -> bool {
    match f.src {
        Some(src) => match src.start {
            Some(start) => source_index(entries, path) < entries.len() ==> start + length_or_zero(src)
                < usize::MAX - 1,
            None => true,
        },
        None => true,
    }
}

/// The findings of one file, each with where it is in that file.
pub open spec fn located_findings(
    fs: Seq<Finding>,
    file: Seq<char>,
    path: Seq<char>,
    entries: Seq<SourceEntry>,
) -> Seq<MetaFindingView> {
    fs.map_values(
        |f: Finding| MetaFindingView { finding: f@, meta: finding_meta(f@, file, path, entries) },
    )
}

/// Locates a finding in the file at `abs_path` and attaches the file name.
pub fn locate_finding(
    finding: &Finding,
    file: &String,
    abs_path: &String,
    source_map: &SourceMap,
) -> (r: MetaFinding)
    requires
        within_limits(finding@, abs_path@, source_map.entries@),
    ensures
        r@ == (MetaFindingView {
            finding: finding@,
            meta: finding_meta(finding@, file@, abs_path@, source_map.entries@),
        }),
{
    let (line, width, content) = match finding.src {
        Some(src) => match src.start {
            Some(start) => match source_map.find(abs_path.as_str()) {
                Some(i) => {
                    let entry = &source_map.entries[i];
                    let length = match src.length {
                        Some(l) => l,
                        None => 0,
                    };
                    let pos = get_position(start, entry.lines_to_bytes.as_slice());
                    let content = get_finding_content_arrow(entry.content.clone(), start, length);
                    (pos.0, pos.1, content)
                },
                None => (0, 0, "Path not indexed in source map".to_owned()),
            },
            None => (0, 0, "No source map for this file".to_owned()),
        },
        None => (0, 0, "Error fetching content".to_owned()),
    };
    MetaFinding {
        finding: finding.duplicate(),
        meta: Meta { file: file.clone(), line: Some(line), width: Some(width), content },
    }
}

/// Gathers the findings a module pushed while visiting one file (those from
/// index `last_id` on), each located in the file at `abs_path` and named
/// after `file`, into the module's set of findings; returns the index from
/// which the next file's findings start.
pub fn record_source_findings(
    state: &ModuleState,
    last_id: usize,
    file: &String,
    abs_path: &String,
    source_map: &SourceMap,
    findings: &mut AllFindings,
) -> (next_id: usize)
    requires
        last_id <= state.findings@.len(),
        findings_well_formed(old(findings)@),
        forall|k: int|
            last_id <= k < state.findings@.len() ==> (#[trigger] state.findings@[k]).name@
                == state.name@,
        forall|k: int|
            last_id <= k < state.findings@.len() ==> within_limits(
                (#[trigger] state.findings@[k])@,
                abs_path@,
                source_map.entries@,
            ),
    ensures
        next_id == state.findings@.len(),
        findings_well_formed(final(findings)@),
        final(findings)@ == add_findings(
            old(findings)@,
            located_findings(
                state.findings@.subrange(last_id as int, state.findings@.len() as int),
                file@,
                abs_path@,
                source_map.entries@,
            ),
        ),
{
    let ghost start_view = findings@;
    let n = state.findings.len();
    let mut k: usize = last_id;
    while k < n
        invariant
            n == state.findings@.len(),
            last_id <= k <= n,
            findings_well_formed(findings@),
            forall|j: int|
                last_id <= j < n ==> within_limits(
                    (#[trigger] state.findings@[j])@,
                    abs_path@,
                    source_map.entries@,
                ),
            findings@ == add_findings(
                start_view,
                located_findings(
                    state.findings@.subrange(last_id as int, k as int),
                    file@,
                    abs_path@,
                    source_map.entries@,
                ),
            ),
        decreases n - k,
    {
        let mf = locate_finding(&state.findings[k], file, abs_path, source_map);
        let ghost before = findings@;
        findings.insert(mf);
        proof {
            let prev = located_findings(
                state.findings@.subrange(last_id as int, k as int),
                file@,
                abs_path@,
                source_map.entries@,
            );
            let next = located_findings(
                state.findings@.subrange(last_id as int, k + 1),
                file@,
                abs_path@,
                source_map.entries@,
            );
            assert(next.drop_last() =~= prev);
            assert(next.last() == mf@);
        }
        k = k + 1;
    }
    n
}

/// The indices of the sources visited: a source whose id was already seen
/// is skipped, so each id is visited once, at its first occurrence.
pub open spec fn first_occurrences(ids: Seq<usize>) -> Seq<usize>
    decreases ids.len(),
{
    if ids.len() == 0 {
        seq![]
    } else {
        let prev = first_occurrences(ids.drop_last());
        if ids.drop_last().contains(ids.last()) {
            prev
        } else {
            prev.push((ids.len() - 1) as usize)
        }
    }
}

/// Each source is visited once: the visited indices increase, their ids
/// differ, each is the first occurrence of its id, and every id is visited.
pub proof fn lemma_first_occurrences(ids: Seq<usize>)
    requires
        ids.len() <= usize::MAX,
    ensures
        forall|k: int|
            0 <= k < first_occurrences(ids).len() ==> #[trigger] first_occurrences(ids)[k] < ids.len(),
        forall|i: int, j: int|
            0 <= i < j < first_occurrences(ids).len() ==> #[trigger] first_occurrences(ids)[i]
                < #[trigger] first_occurrences(ids)[j],
        forall|i: int, j: int|
            0 <= i < j < first_occurrences(ids).len() ==> ids[#[trigger] first_occurrences(ids)[i] as int]
                != ids[#[trigger] first_occurrences(ids)[j] as int],
        forall|k: int|
            0 <= k < first_occurrences(ids).len() ==> !ids.subrange(
                0,
                #[trigger] first_occurrences(ids)[k] as int,
            ).contains(ids[first_occurrences(ids)[k] as int]),
        forall|x: usize|
            ids.contains(x) ==> exists|k: int|
                0 <= k < first_occurrences(ids).len() && ids[#[trigger] first_occurrences(ids)[k] as int]
                    == x,
    decreases ids.len(),
{
    if ids.len() > 0 {
        let init = ids.drop_last();
        lemma_first_occurrences(init);
        let prev = first_occurrences(init);
        let fo = first_occurrences(ids);
        let last = ids.last();
        let n = ids.len() - 1;
        assert forall|k: int| 0 <= k < prev.len() implies ids[#[trigger] prev[k] as int] == init[prev[k] as int]
            && ids.subrange(0, prev[k] as int) == init.subrange(0, prev[k] as int) by {
            assert(ids.subrange(0, prev[k] as int) =~= init.subrange(0, prev[k] as int));
        }
        if init.contains(last) {
            assert(fo == prev);
            assert forall|x: usize| ids.contains(x) implies exists|k: int|
                0 <= k < fo.len() && ids[#[trigger] fo[k] as int] == x by {
                let w = choose|w: int| 0 <= w < ids.len() && ids[w] == x;
                if w < n {
                    assert(init[w] == x);
                    assert(init.contains(x));
                } else {
                    assert(init.contains(x));
                }
                let k = choose|k: int| 0 <= k < prev.len() && init[#[trigger] prev[k] as int] == x;
                assert(ids[fo[k] as int] == x);
            }
        } else {
            assert(fo == prev.push(n as usize));
            assert(ids.subrange(0, n) =~= init);
            assert forall|i: int, j: int| 0 <= i < j < fo.len() implies ids[#[trigger] fo[i] as int]
                != ids[#[trigger] fo[j] as int] by {
                if j == fo.len() - 1 {
                    assert(fo[i] == prev[i]);
                    assert(prev[i] < init.len());
                    assert(fo[j] == n);
                    assert(init[prev[i] as int] == ids[fo[i] as int]);
                    assert(init.contains(ids[fo[i] as int]));
                } else {
                    assert(fo[i] == prev[i] && fo[j] == prev[j]);
                }
            }
            assert forall|i: int, j: int| 0 <= i < j < fo.len() implies #[trigger] fo[i] < #[trigger] fo[j] by {
                if j == fo.len() - 1 {
                    assert(fo[i] == prev[i]);
                    assert(prev[i] < init.len());
                    assert(fo[j] == n);
                } else {
                    assert(fo[i] == prev[i] && fo[j] == prev[j]);
                }
            }
            assert forall|k: int| 0 <= k < fo.len() implies #[trigger] fo[k] < ids.len() && !ids.subrange(
                0,
                fo[k] as int,
            ).contains(ids[fo[k] as int]) by {
                if k < prev.len() {
                    assert(fo[k] == prev[k]);
                }
            }
            assert forall|x: usize| ids.contains(x) implies exists|k: int|
                0 <= k < fo.len() && ids[#[trigger] fo[k] as int] == x by {
                let w = choose|w: int| 0 <= w < ids.len() && ids[w] == x;
                if w < n {
                    assert(init[w] == x);
                    assert(init.contains(x));
                    let k = choose|k: int| 0 <= k < prev.len() && init[#[trigger] prev[k] as int] == x;
                    assert(fo[k] == prev[k]);
                    assert(ids[fo[k] as int] == x);
                } else {
                    assert(ids[fo[prev.len() as int] as int] == x);
                }
            }
        }
    }
}

/// Picks the sources to visit out of the source ids of the artifacts, in
/// order: each id once, at its first occurrence.
pub fn select_unique_sources(source_ids: &[usize]) -> (r: Vec<usize>)
    ensures
        r@ == first_occurrences(source_ids@),
{
    let mut seen: Vec<usize> = Vec::new();
    let mut r: Vec<usize> = Vec::new();
    let mut i: usize = 0;
    while i < source_ids.len()
        invariant
            i <= source_ids@.len(),
            seen@ == source_ids@.subrange(0, i as int),
            r@ == first_occurrences(source_ids@.subrange(0, i as int)),
        decreases source_ids@.len() - i,
    {
        let id = source_ids[i];
        let mut found = false;
        let mut j: usize = 0;
        while j < seen.len()
            invariant
                j <= seen@.len(),
                found == seen@.subrange(0, j as int).contains(id),
            decreases seen@.len() - j,
        {
            if seen[j] == id {
                found = true;
            }
            proof {
                let a = seen@.subrange(0, j as int);
                let b = seen@.subrange(0, j + 1);
                assert(b =~= a.push(seen@[j as int]));
                if seen@[j as int] == id {
                    assert(b[j as int] == id);
                } else {
                    if b.contains(id) {
                        let w = choose|w: int| 0 <= w < b.len() && b[w] == id;
                        assert(a[w] == id);
                    }
                    if a.contains(id) {
                        let w = choose|w: int| 0 <= w < a.len() && a[w] == id;
                        assert(b[w] == id);
                    }
                }
            }
            j = j + 1;
        }
        proof {
            assert(seen@.subrange(0, seen@.len() as int) =~= seen@);
            let s = source_ids@.subrange(0, i + 1);
            assert(s.drop_last() =~= source_ids@.subrange(0, i as int));
            assert(s.last() == id);
        }
        if !found {
            r.push(i);
        }
        seen.push(id);
        proof {
            assert(seen@ =~= source_ids@.subrange(0, i + 1));
        }
        i = i + 1;
    }
    proof {
        assert(source_ids@.subrange(0, source_ids@.len() as int) =~= source_ids@);
    }
    r
}

} // verus!
