//! The `require` gas module: revert strings where custom errors are
//! cheaper, checks repeated with the same reason, and `assert`.
use vstd::prelude::*;
use vstd::utf8::*;
use std::collections::BTreeMap;
use crate::ast::{Identifier, PushedFinding, TypeDescriptions};
use crate::findings::{FindingKey, Severity, SourceLocation, key_is};
use crate::text::{bytes_start_with, opt_is, opt_str_eq, str_eq, str_starts_with};

verus! {

/// Code of a revert string.
pub const REVERT_STRING: usize = 0;

/// Code of a check repeated with the same reason.
pub const DUPLICATED_CHECK: usize = 1;

/// Code of an `assert`.
pub const ASSERT: usize = 2;

/// The keys of the module's findings.
pub fn finding_keys() -> (r: BTreeMap<usize, FindingKey>)
    ensures
        r@.dom() == set![REVERT_STRING, DUPLICATED_CHECK, ASSERT],
        key_is(
            r@[REVERT_STRING],
            "Use custom errors instead of revert strings"@,
            "Solidity 0.8.4 added the custom errors functionality, which can be use instead of revert strings, resulting in big gas savings on errors. Replace all revert statements with custom error ones"@,
            Severity::Gas,
        ),
        key_is(
            r@[DUPLICATED_CHECK],
            "Duplicated require()/revert() Checks Should Be Refactored To A Modifier Or an internal function"@,
            "Less code means a less costly deployment"@,
            Severity::Gas,
        ),
        key_is(
            r@[ASSERT],
            "Use `require` instead of `assert`"@,
            "assert wastes all the transaction gas. Use require instead"@,
            Severity::Gas,
        ),
{
    broadcast use vstd::laws_cmp::group_laws_cmp;

    let mut keys: BTreeMap<usize, FindingKey> = BTreeMap::new();
    keys.insert(
        REVERT_STRING,
        FindingKey::new(
            "Use custom errors instead of revert strings",
            "Solidity 0.8.4 added the custom errors functionality, which can be use instead of revert strings, resulting in big gas savings on errors. Replace all revert statements with custom error ones",
            Severity::Gas,
        ),
    );
    keys.insert(
        DUPLICATED_CHECK,
        FindingKey::new(
            "Duplicated require()/revert() Checks Should Be Refactored To A Modifier Or an internal function",
            "Less code means a less costly deployment",
            Severity::Gas,
        ),
    );
    keys.insert(
        ASSERT,
        FindingKey::new(
            "Use `require` instead of `assert`",
            "assert wastes all the transaction gas. Use require instead",
            Severity::Gas,
        ),
    );
    proof {
        assert(keys@.dom() =~= set![REVERT_STRING, DUPLICATED_CHECK, ASSERT]);
    }
    keys
}

/// A reason given to `require` or `revert`, and every place it was given.
pub struct RevertReason {
    pub id: String,
    pub sources: Vec<SourceLocation>,
}

/// The reasons gathered over one source unit, each once, in the order they
/// were first seen.
pub struct RequireModule {
    pub revert_reasons: Vec<RevertReason>,
}

/// The value of the gathered reasons: each id with its places.
pub open spec fn reasons_view(rs: Seq<RevertReason>) -> Seq<(Seq<char>, Seq<SourceLocation>)> {
    rs.map_values(|r: RevertReason| (r.id@, r.sources@))
}

/// The index of the reason `id`, or the number of reasons.
pub open spec fn reason_index(rs: Seq<(Seq<char>, Seq<SourceLocation>)>, id: Seq<char>) -> int
    decreases rs.len(),
{
    if rs.len() == 0 {
        0
    } else if reason_index(rs.drop_last(), id) < rs.len() - 1 {
        reason_index(rs.drop_last(), id)
    } else if rs.last().0 == id {
        rs.len() - 1
    } else {
        rs.len() as int
    }
}

proof fn lemma_reason_index(rs: Seq<(Seq<char>, Seq<SourceLocation>)>, id: Seq<char>)
    ensures
        0 <= reason_index(rs, id) <= rs.len(),
        reason_index(rs, id) < rs.len() ==> rs[reason_index(rs, id)].0 == id,
        forall|k: int| 0 <= k < reason_index(rs, id) ==> (#[trigger] rs[k]).0 != id,
    decreases rs.len(),
{
    if rs.len() > 0 {
        lemma_reason_index(rs.drop_last(), id);
        let init = rs.drop_last();
        assert forall|k: int| 0 <= k < reason_index(rs, id) implies (#[trigger] rs[k]).0 != id by {
            if k < init.len() {
                assert(rs[k] == init[k]);
            }
        }
        if reason_index(init, id) < init.len() {
            assert(rs[reason_index(init, id)] == init[reason_index(init, id)]);
        }
    }
}

/// The reasons after one more place where `id` was given.
pub open spec fn record_reason(rs: Seq<(Seq<char>, Seq<SourceLocation>)>, id: Seq<char>, src: SourceLocation) -> Seq<
    (Seq<char>, Seq<SourceLocation>),
> {
    let i = reason_index(rs, id);
    if i < rs.len() {
        rs.update(i, (id, rs[i].1.push(src)))
    } else {
        rs.push((id, seq![src]))
    }
}

/// The type `bool`.
pub open spec fn is_bool_type(t: TypeDescriptions) -> bool {
    opt_is(t.type_identifier, "t_bool"@) && opt_is(t.type_string, "bool"@)
}

/// The reason a call of `require` or `revert` gives: for `require` with a
/// boolean condition, its second argument; for `revert`, its first.
pub open spec fn reason_of(id: Identifier) -> Option<TypeDescriptions> {
    let args = id.argument_types@;
    if id.name@ == "require"@ {
        if is_bool_type(args[0]) && args.len() > 1 {
            Some(args[1])
        } else {
            None
        }
    } else if id.name@ == "revert"@ && args.len() > 0 {
        Some(args[0])
    } else {
        None
    }
}

/// The findings of a name: a revert string given to `require` or `revert`,
/// or an `assert`.
pub open spec fn identifier_findings(id: Identifier) -> Seq<PushedFinding> {
    if id.name@ == "require"@ || id.name@ == "revert"@ {
        match reason_of(id) {
            Some(t) => match t.type_identifier {
                Some(tid) => if bytes_start_with(encode_utf8(tid@), encode_utf8("t_stringliteral_"@)) {
                    seq![PushedFinding { src: Some(id.src), code: REVERT_STRING }]
                } else {
                    seq![]
                },
                None => seq![],
            },
            None => seq![],
        }
    } else if id.name@ == "assert"@ {
        seq![PushedFinding { src: Some(id.src), code: ASSERT }]
    } else {
        seq![]
    }
}

/// The reasons after seeing a name: the place of its reason recorded when
/// it is `require` or `revert` with a reason of known type.
pub open spec fn identifier_reasons(rs: Seq<(Seq<char>, Seq<SourceLocation>)>, id: Identifier) -> Seq<
    (Seq<char>, Seq<SourceLocation>),
> {
    if id.name@ == "require"@ || id.name@ == "revert"@ {
        match reason_of(id) {
            Some(t) => match t.type_identifier {
                Some(tid) => record_reason(rs, tid@, id.src),
                None => rs,
            },
            None => rs,
        }
    } else {
        rs
    }
}

/// For each reason given more than once, in order, a finding at each of its
/// places.
pub open spec fn duplicate_findings(rs: Seq<(Seq<char>, Seq<SourceLocation>)>) -> Seq<PushedFinding>
    decreases rs.len(),
{
    if rs.len() == 0 {
        seq![]
    } else {
        let prev = duplicate_findings(rs.drop_last());
        let srcs = rs.last().1;
        if srcs.len() > 1 {
            prev + srcs.map_values(|s: SourceLocation| PushedFinding { src: Some(s), code: DUPLICATED_CHECK })
        } else {
            prev
        }
    }
}

/// Every place of a reason given at two places or more is reported as a
/// duplicated check: for each recorded reason with `n > 1` places, each of
/// its places has a finding.
pub proof fn lemma_duplicates_reported(rs: Seq<(Seq<char>, Seq<SourceLocation>)>, k: int, p: int)
    requires
        0 <= k < rs.len(),
        rs[k].1.len() > 1,
        0 <= p < rs[k].1.len(),
    ensures
        duplicate_findings(rs).contains(
            PushedFinding { src: Some(rs[k].1[p]), code: DUPLICATED_CHECK },
        ),
    decreases rs.len(),
{
    let init = rs.drop_last();
    let prev = duplicate_findings(init);
    let all = duplicate_findings(rs);
    let f = PushedFinding { src: Some(rs[k].1[p]), code: DUPLICATED_CHECK };
    if k < rs.len() - 1 {
        assert(init[k] == rs[k]);
        lemma_duplicates_reported(init, k, p);
        let w = choose|w: int| 0 <= w < prev.len() && prev[w] == f;
        assert(all[w] == prev[w]);
    } else {
        let srcs = rs.last().1;
        let more = srcs.map_values(|s: SourceLocation| PushedFinding { src: Some(s), code: DUPLICATED_CHECK });
        assert(all == prev + more);
        assert(all[prev.len() + p] == more[p]);
    }
}

/// Every duplicated-check finding is at a place of a reason given at two
/// places or more.
pub proof fn lemma_duplicates_only(rs: Seq<(Seq<char>, Seq<SourceLocation>)>, w: int)
    requires
        0 <= w < duplicate_findings(rs).len(),
    ensures
        exists|k: int, p: int|
            0 <= k < rs.len() && rs[k].1.len() > 1 && 0 <= p < rs[k].1.len()
                && #[trigger] duplicate_findings(rs)[w] == (PushedFinding {
                src: Some(rs[k].1[p]),
                code: DUPLICATED_CHECK,
            }),
    decreases rs.len(),
{
    let init = rs.drop_last();
    let prev = duplicate_findings(init);
    let all = duplicate_findings(rs);
    if w < prev.len() {
        if rs.last().1.len() > 1 {
            assert(all[w] == prev[w]);
        }
        lemma_duplicates_only(init, w);
        let (k, p) = choose|k: int, p: int|
            0 <= k < init.len() && init[k].1.len() > 1 && 0 <= p < init[k].1.len()
                && #[trigger] duplicate_findings(init)[w] == (PushedFinding {
                src: Some(init[k].1[p]),
                code: DUPLICATED_CHECK,
            });
        assert(init[k] == rs[k]);
        assert(all[w] == prev[w]);
    } else {
        let k = rs.len() - 1;
        let p = w - prev.len();
        assert(rs[k] == rs.last());
        assert(all[w] == (PushedFinding { src: Some(rs[k].1[p]), code: DUPLICATED_CHECK }));
    }
}

/// A string literal type, as the compiler names it.
pub open spec fn is_string_literal_type(t: TypeDescriptions) -> bool {
    t.type_identifier is Some && bytes_start_with(
        encode_utf8(t.type_identifier->0@),
        encode_utf8("t_stringliteral_"@),
    )
}

/// An `assert` is always reported; a `require` whose condition is a `bool`
/// and whose reason is a string literal, and a `revert` whose reason is a
/// string literal, are reported as revert strings; every finding is at the
/// name; any other name is never reported.
pub proof fn lemma_require_rules(id: Identifier)
    requires
        id.name@ == "require"@ ==> id.argument_types@.len() >= 1,
    ensures
        id.name@ == "assert"@ ==> identifier_findings(id) == seq![
            PushedFinding { src: Some(id.src), code: ASSERT },
        ],
        id.name@ == "require"@ && id.argument_types@.len() > 1 && opt_is(
            id.argument_types@[0].type_identifier,
            "t_bool"@,
        ) && opt_is(id.argument_types@[0].type_string, "bool"@) && is_string_literal_type(
            id.argument_types@[1],
        ) ==> identifier_findings(id) == seq![PushedFinding { src: Some(id.src), code: REVERT_STRING }],
        id.name@ == "revert"@ && id.argument_types@.len() > 0 && is_string_literal_type(
            id.argument_types@[0],
        ) ==> identifier_findings(id) == seq![PushedFinding { src: Some(id.src), code: REVERT_STRING }],
        id.name@ != "assert"@ && id.name@ != "require"@ && id.name@ != "revert"@ ==> identifier_findings(id).len() == 0,
        forall|k: int|
            0 <= k < identifier_findings(id).len() ==> (#[trigger] identifier_findings(id)[k]).src == Some(id.src),
{
    reveal_strlit("assert");
    reveal_strlit("require");
    reveal_strlit("revert");
    assert("assert"@ != "require"@) by {
        assert("assert"@.len() != "require"@.len());
    }
    assert("revert"@ != "require"@) by {
        assert("revert"@.len() != "require"@.len());
    }
    assert("assert"@ != "revert"@) by {
        assert("assert"@[0] != "revert"@[0]);
    }
    if id.name@ == "require"@ && id.argument_types@.len() > 1 && opt_is(
        id.argument_types@[0].type_identifier,
        "t_bool"@,
    ) && opt_is(id.argument_types@[0].type_string, "bool"@) {
        assert(is_bool_type(id.argument_types@[0]));
    }
}

impl RequireModule {
    /// No reasons gathered.
    pub fn new() -> (r: RequireModule)
        ensures
            reasons_view(r.revert_reasons@) == Seq::<(Seq<char>, Seq<SourceLocation>)>::empty(),
    {
        let r = RequireModule { revert_reasons: Vec::new() };
        assert(reasons_view(r.revert_reasons@) =~= Seq::<(Seq<char>, Seq<SourceLocation>)>::empty());
        r
    }

    /// Records one more place where the reason `id` was given.
    fn record(&mut self, id: &String, src: SourceLocation)
        ensures
            reasons_view(final(self).revert_reasons@) == record_reason(
                reasons_view(old(self).revert_reasons@),
                id@,
                src,
            ),
    {
        let ghost rs = reasons_view(self.revert_reasons@);
        proof {
            lemma_reason_index(rs, id@);
        }
        let mut i: usize = 0;
        while i < self.revert_reasons.len()
            invariant
                i <= self.revert_reasons@.len(),
                rs == reasons_view(self.revert_reasons@),
                rs == reasons_view(old(self).revert_reasons@),
                0 <= reason_index(rs, id@) <= rs.len(),
                reason_index(rs, id@) < rs.len() ==> rs[reason_index(rs, id@)].0 == id@,
                forall|k: int| 0 <= k < reason_index(rs, id@) ==> (#[trigger] rs[k]).0 != id@,
                forall|k: int| 0 <= k < i ==> (#[trigger] rs[k]).0 != id@,
            decreases self.revert_reasons@.len() - i,
        {
            if str_eq(self.revert_reasons[i].id.as_str(), id.as_str()) {
                assert(rs[i as int].0 == id@);
                assert(reason_index(rs, id@) == i);
                let mut reason = self.revert_reasons.remove(i);
                reason.sources.push(src);
                self.revert_reasons.insert(i, reason);
                assert(reasons_view(self.revert_reasons@) =~= rs.update(
                    i as int,
                    (id@, rs[i as int].1.push(src)),
                ));
                return;
            }
            i = i + 1;
        }
        assert(reason_index(rs, id@) == rs.len());
        let mut sources: Vec<SourceLocation> = Vec::new();
        sources.push(src);
        self.revert_reasons.push(RevertReason { id: id.clone(), sources });
        assert(reasons_view(self.revert_reasons@) =~= rs.push((id@, seq![src])));
    }

    /// Checks a name: records the reason of a `require` or `revert` and
    /// reports a revert string, or reports an `assert`.
    pub fn check_identifier(&mut self, identifier: &Identifier) -> (r: Vec<PushedFinding>)
        requires
            identifier.name@ == "require"@ ==> identifier.argument_types@.len() >= 1,
        ensures
            r@ == identifier_findings(*identifier),
            reasons_view(final(self).revert_reasons@) == identifier_reasons(
                reasons_view(old(self).revert_reasons@),
                *identifier,
            ),
    {
        proof {
            reveal_strlit("require");
            reveal_strlit("revert");
            reveal_strlit("assert");
            assert("require"@.len() == 7);
            assert("revert"@.len() == 6);
            assert("assert"@.len() == 6);
            assert("require"@[2] == 'q');
        }
        let mut r: Vec<PushedFinding> = Vec::new();
        let name = identifier.name.as_str();
        let is_require = str_eq(name, "require");
        let is_revert = str_eq(name, "revert");
        if is_require || is_revert {
            let args = &identifier.argument_types;
            let reason: Option<&TypeDescriptions> = if is_require {
                let condition = &args[0];
                if opt_str_eq(&condition.type_identifier, "t_bool") && opt_str_eq(
                    &condition.type_string,
                    "bool",
                ) && args.len() > 1 {
                    Some(&args[1])
                } else {
                    None
                }
            } else if args.len() > 0 {
                Some(&args[0])
            } else {
                None
            };
            match reason {
                Some(t) => match &t.type_identifier {
                    Some(id) => {
                        self.record(id, identifier.src);
                        if str_starts_with(id.as_str(), "t_stringliteral_") {
                            r.push(PushedFinding { src: Some(identifier.src), code: REVERT_STRING });
                        }
                    },
                    None => {},
                },
                None => {},
            }
        } else if str_eq(name, "assert") {
            r.push(PushedFinding { src: Some(identifier.src), code: ASSERT });
        }
        proof {
            assert(r@ =~= identifier_findings(*identifier));
        }
        r
    }

    /// At the end of a source unit: a finding at every place of each reason
    /// given more than once; then the reasons are cleared.
    pub fn finish_source_unit(&mut self) -> (r: Vec<PushedFinding>)
        ensures
            r@ == duplicate_findings(reasons_view(old(self).revert_reasons@)),
            final(self).revert_reasons@.len() == 0,
    {
        let ghost rs = reasons_view(self.revert_reasons@);
        let mut r: Vec<PushedFinding> = Vec::new();
        let mut i: usize = 0;
        while i < self.revert_reasons.len()
            invariant
                i <= self.revert_reasons@.len(),
                rs == reasons_view(self.revert_reasons@),
                r@ == duplicate_findings(rs.subrange(0, i as int)),
            decreases self.revert_reasons@.len() - i,
        {
            proof {
                assert(rs.subrange(0, i + 1).drop_last() =~= rs.subrange(0, i as int));
            }
            let sources = &self.revert_reasons[i].sources;
            if sources.len() > 1 {
                let ghost before = r@;
                let mut j: usize = 0;
                while j < sources.len()
                    invariant
                        j <= sources@.len(),
                        r@ == before + sources@.subrange(0, j as int).map_values(
                            |s: SourceLocation| PushedFinding { src: Some(s), code: DUPLICATED_CHECK },
                        ),
                    decreases sources@.len() - j,
                {
                    r.push(PushedFinding { src: Some(sources[j]), code: DUPLICATED_CHECK });
                    proof {
                        assert(sources@.subrange(0, j + 1).map_values(
                            |s: SourceLocation| PushedFinding { src: Some(s), code: DUPLICATED_CHECK },
                        ) =~= sources@.subrange(0, j as int).map_values(
                            |s: SourceLocation| PushedFinding { src: Some(s), code: DUPLICATED_CHECK },
                        ).push(PushedFinding { src: Some(sources@[j as int]), code: DUPLICATED_CHECK }));
                    }
                    j = j + 1;
                }
                proof {
                    assert(sources@.subrange(0, sources@.len() as int) =~= sources@);
                }
            }
            i = i + 1;
        }
        proof {
            assert(rs.subrange(0, rs.len() as int) =~= rs);
        }
        self.revert_reasons = Vec::new();
        r
    }
}

} // verus!
