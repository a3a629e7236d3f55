//! Solidity versions: the version a pragma asks for, read through `semver`,
//! and the requirement a source file states, read through `ethers-solc`.
use vstd::prelude::*;
use crate::text::str_eq;
use ethers_solc::error::SolcError;
use semver::Op;

verus! {

/// A semantic version: `major.minor.patch`, with pre-release and build
/// identifiers (empty when there are none).
#[derive(Debug, Clone, PartialEq, Eq)]
pub struct Version {
    pub major: u64,
    pub minor: u64,
    pub patch: u64,
    pub pre: String,
    pub build: String,
}

/// The value of a `Version`.
pub struct VersionView {
    pub major: u64,
    pub minor: u64,
    pub patch: u64,
    pub pre: Seq<char>,
    pub build: Seq<char>,
}

impl View for Version {
    type V = VersionView;

    open spec fn view(&self) -> VersionView {
        VersionView {
            major: self.major,
            minor: self.minor,
            patch: self.patch,
            pre: self.pre@,
            build: self.build@,
        }
    }
}

impl Version {
    /// `major.minor.patch`, with no pre-release or build identifiers.
    pub fn new(major: u64, minor: u64, patch: u64) -> (r: Version)
        ensures
            r.major == major,
            r.minor == minor,
            r.patch == patch,
            r.pre@ == Seq::<char>::empty(),
            r.build@ == Seq::<char>::empty(),
    {
        Version { major, minor, patch, pre: String::new(), build: String::new() }
    }
}

/// The text of a version pragma could not be read as a version.
#[derive(Debug, Clone, PartialEq, Eq)]
pub struct VersionParseError {
    /// the text that was read
    pub text: String,
}

/// What `semver::Version::parse` gives for a text: the version, or nothing
/// when the text is no semantic version.
pub uninterp spec fn semver_parse(text: Seq<char>) -> Option<VersionView>;

/// Calls `semver::Version::parse`. The contract claims only that the result
/// is a function of the text: the version it reads, fields taken one for
/// one (pre-release and build identifiers as written), or `None` exactly
/// when `semver` refuses the text.
#[verifier::external_body]
fn parse_semver(text: &str) -> (r: Option<Version>)
    ensures
        match r {
            Some(v) => semver_parse(text@) == Some(v@),
            None => semver_parse(text@) is None,
        },
{
    match semver::Version::parse(text) {
        Ok(v) => Some(
            Version {
                major: v.major,
                minor: v.minor,
                patch: v.patch,
                pre: v.pre.as_str().to_owned(),
                build: v.build.as_str().to_owned(),
            },
        ),
        Err(_) => None,
    }
}

/// Whether a pragma's literals start with `solidity`.
pub open spec fn is_solidity_pragma(literals: Seq<String>) -> bool {
    literals[0]@ == "solidity"@
}

/// Whether the operator after `solidity` admits later versions (`^` or `>=`).
pub open spec fn admits_later(literals: Seq<String>) -> bool {
    literals[1]@ == "^"@ || literals[1]@ == ">="@
}

/// The literals are as long as reading the version needs: the operator after
/// `solidity`, then the two parts of the version after `^` or `>=`, or the
/// one part after any other first token.
pub open spec fn pragma_literals_complete(literals: Seq<String>) -> bool {
    &&& literals.len() >= 1
    &&& is_solidity_pragma(literals) ==> literals.len() >= 2
    &&& is_solidity_pragma(literals) && admits_later(literals) ==> literals.len() >= 4
    &&& is_solidity_pragma(literals) && !admits_later(literals) ==> literals.len() >= 3
}

/// The version text of a `solidity` pragma: after `^` or `>=`, the two next
/// literals joined; otherwise the token after `solidity` joined with the
/// next literal. Nothing for another pragma.
pub open spec fn pragma_version(literals: Seq<String>) -> Option<Seq<char>> {
    if !is_solidity_pragma(literals) {
        None
    } else if admits_later(literals) {
        Some(literals[2]@ + literals[3]@)
    } else {
        Some(literals[1]@ + literals[2]@)
    }
}

/// The version text of a `solidity` pragma: after `^` or `>=`, the two
/// literals that follow joined; after any other first token, that token
/// joined with the next literal; no text for a pragma that is not about
/// `solidity`.
pub proof fn lemma_pragma_version_rules(literals: Seq<String>)
    requires
        literals.len() >= 1,
    ensures
        literals[0]@ != "solidity"@ ==> pragma_version(literals) is None,
        literals.len() >= 4 && literals[0]@ == "solidity"@ && (literals[1]@ == "^"@ || literals[1]@ == ">="@)
            ==> pragma_version(literals) == Some(literals[2]@ + literals[3]@),
        literals.len() >= 3 && literals[0]@ == "solidity"@ && literals[1]@ != "^"@ && literals[1]@ != ">="@
            ==> pragma_version(literals) == Some(literals[1]@ + literals[2]@),
{
}

/// Whether a pragma leaves the version open above (`solidity ^...` or
/// `solidity >=...`).
pub fn is_unspecific_version(literals: Vec<String>) -> (r: bool)
    requires
        literals@.len() >= 1,
        is_solidity_pragma(literals@) ==> literals@.len() >= 2,
    ensures
        r == (is_solidity_pragma(literals@) && admits_later(literals@)),
{
    if str_eq(literals[0].as_str(), "solidity") {
        let maybe_upper = literals[1].as_str();
        str_eq(maybe_upper, "^") || str_eq(maybe_upper, ">=")
    } else {
        false
    }
}

/// The version text of a pragma's literals, if it is a `solidity` pragma.
pub fn pragma_version_text(literals: &Vec<String>) -> (r: Option<String>)
    requires
        pragma_literals_complete(literals@),
    ensures
        match r {
            Some(t) => pragma_version(literals@) == Some(t@),
            None => pragma_version(literals@) is None,
        },
{
    if str_eq(literals[0].as_str(), "solidity") {
        let maybe_upper = literals[1].as_str();
        if str_eq(maybe_upper, "^") || str_eq(maybe_upper, ">=") {
            let mut text = literals[2].clone();
            text.append(literals[3].as_str());
            Some(text)
        } else {
            let mut text = literals[1].clone();
            text.append(literals[2].as_str());
            Some(text)
        }
    } else {
        None
    }
}

/// The smallest version a `solidity` pragma admits, read by `semver`; an
/// error holding the text when `semver` cannot read it; nothing for another
/// pragma.
pub fn smallest_version_from_literals(literals: Vec<String>) -> (r: Option<
    Result<Version, VersionParseError>,
>)
    requires
        pragma_literals_complete(literals@),
    ensures
        match r {
            None => pragma_version(literals@) is None,
            Some(Ok(v)) => pragma_version(literals@) is Some && semver_parse(
                pragma_version(literals@)->0,
            ) == Some(v@),
            Some(Err(e)) => pragma_version(literals@) == Some(e.text@) && semver_parse(e.text@) is None,
        },
{
    match pragma_version_text(&literals) {
        Some(text) => match parse_semver(text.as_str()) {
            Some(v) => Some(Ok(v)),
            None => Some(Err(VersionParseError { text })),
        },
        None => None,
    }
}

/// Whether two versions have the same major, minor and patch numbers.
pub fn equi_ver(ver1: &Version, ver2: &Version) -> (r: bool)
    ensures
        r == (ver1.major == ver2.major && ver1.minor == ver2.minor && ver1.patch == ver2.patch),
{
    ver1.major == ver2.major && ver1.minor == ver2.minor && ver1.patch == ver2.patch
}

#[verifier::external_type_specification]
#[verifier::external_body]
pub struct ExVersionReq(semver::VersionReq);

#[verifier::external_type_specification]
#[verifier::external_body]
pub struct ExSolcError(SolcError);

/// The operator of one comparator of a version requirement; `Other` for an
/// operator that `semver` may add later.
#[derive(Debug, Clone, Copy, PartialEq, Eq)]
pub enum ComparatorOp {
    Exact,
    Greater,
    GreaterEq,
    Less,
    LessEq,
    Tilde,
    Caret,
    Wildcard,
    Other,
}

/// One comparator of a version requirement, such as `>=0.5.0`.
#[derive(Debug, Clone)]
pub struct Comparator {
    pub op: ComparatorOp,
    pub major: u64,
    pub minor: Option<u64>,
    pub patch: Option<u64>,
    /// the pre-release identifiers, empty when there are none
    pub pre: String,
}

/// The value of a `Comparator`.
pub struct ComparatorView {
    pub op: ComparatorOp,
    pub major: u64,
    pub minor: Option<u64>,
    pub patch: Option<u64>,
    pub pre: Seq<char>,
}

impl View for Comparator {
    type V = ComparatorView;

    open spec fn view(&self) -> ComparatorView {
        ComparatorView {
            op: self.op,
            major: self.major,
            minor: self.minor,
            patch: self.patch,
            pre: self.pre@,
        }
    }
}

/// The values of a list of comparators.
pub open spec fn comparators_view(cs: Seq<Comparator>) -> Seq<ComparatorView> {
    cs.map_values(|c: Comparator| c@)
}

/// The comparators that `ethers_solc::Solc::version_req` reads from the
/// version text of a pragma, or nothing when it refuses the text.
pub uninterp spec fn solc_version_req(version: Seq<char>) -> Option<Seq<ComparatorView>>;

/// The comparators a `semver::VersionReq` holds (its `comparators` field),
/// in order, as plain values.
pub uninterp spec fn req_comparators(req: semver::VersionReq) -> Seq<ComparatorView>;

/// The version text that `ethers_solc::utils::find_version_pragma` finds in
/// a source: the `version` group of the first match of
/// `pragma\s+solidity\s+(?P<version>.+?);`, or nothing without a match.
pub uninterp spec fn solc_pragma_version(source: Seq<char>) -> Option<Seq<char>>;

/// Calls `ethers_solc::utils::find_version_pragma` and copies the text it
/// matched. The contract claims only that the text found, or that none is,
/// is a function of the source (`solc_pragma_version`).
#[verifier::external_body]
fn solc_find_version_pragma(source: &str) -> (r: Option<String>)
    ensures
        match r {
            Some(v) => solc_pragma_version(source@) == Some(v@),
            None => solc_pragma_version(source@) is None,
        },
{
    match ethers_solc::utils::find_version_pragma(source) {
        Some(m) => Some(m.as_str().to_owned()),
        None => None,
    }
}

/// The version texts that `ethers_solc::Solc::version_req` reads without
/// panicking: not empty, starting with an ASCII character (it slices the
/// first byte), and not a lone `x` or `X` (which it reads as a requirement
/// with no comparator, then sets the operator of the first one).
pub open spec fn solc_accepts(version: Seq<char>) -> bool {
    &&& version.len() > 0
    &&& (version[0] as u32) < 128
    &&& version != seq!['x']
    &&& version != seq!['X']
}

/// Calls `ethers_solc::Solc::version_req`: spaces become commas, the text is
/// read by `semver::VersionReq::parse`, and a text that starts with no
/// operator gets an exact first comparator. The contract claims that the
/// comparators handed back, fields taken one for one, are a function of the
/// text (`solc_version_req`), as is whether it fails, and that they are the
/// comparators of the requirement handed back beside them
/// (`req_comparators`).
#[verifier::external_body]
fn solc_version_req_of(version: &str) -> (r: Result<(semver::VersionReq, Vec<Comparator>), SolcError>)
    requires
        solc_accepts(version@),
    ensures
        match r {
            Ok((req, cs)) => solc_version_req(version@) == Some(comparators_view(cs@))
                && req_comparators(req) == comparators_view(cs@),
            Err(_) => solc_version_req(version@) is None,
        },
{
    match ethers_solc::Solc::version_req(version) {
        Ok(req) => {
            let cs = req.comparators.iter().map(|c| Comparator { op: match c.op {
                Op::Exact => ComparatorOp::Exact, Op::Greater => ComparatorOp::Greater,
                Op::GreaterEq => ComparatorOp::GreaterEq, Op::Less => ComparatorOp::Less,
                Op::LessEq => ComparatorOp::LessEq, Op::Tilde => ComparatorOp::Tilde,
                Op::Caret => ComparatorOp::Caret, Op::Wildcard => ComparatorOp::Wildcard,
                _ => ComparatorOp::Other }, major: c.major, minor: c.minor, patch: c.patch,
                pre: c.pre.as_str().to_owned() }).collect();
            Ok((req, cs))
        },
        Err(e) => Err(e),
    }
}

/// Why no version requirement was read from a source.
#[derive(Debug)]
pub enum VersionSourceError {
    /// the source holds no `pragma solidity ...;`
    PragmaNotFound,
    /// the version text is one that `ethers-solc` cannot read without
    /// failing outright (empty, starting with a non-ASCII character, or a
    /// lone `x` or `X`)
    Unsupported(String),
    /// `ethers-solc` refused the version text
    Solc(SolcError),
}

/// A version requirement: the `semver` value, and its comparators as plain
/// values.
#[derive(Debug)]
pub struct VersionRequirement {
    pub req: semver::VersionReq,
    pub comparators: Vec<Comparator>,
}

/// Whether the version text of a source, if it has one, is one that
/// `ethers-solc` reads without failing outright.
pub open spec fn readable_pragma(source: Seq<char>) -> bool {
    match solc_pragma_version(source) {
        Some(v) => solc_accepts(v),
        None => true,
    }
}

/// What reading the requirement of a source gives: `PragmaNotFound` without
/// a pragma, `Unsupported` with the version text when it cannot be read
/// without failing, else the comparators `ethers-solc` reads from the
/// version text, or its error.
pub open spec fn requirement_outcome(
    source: Seq<char>,
    r: Result<VersionRequirement, VersionSourceError>,
) -> bool {
    match r {
        Ok(req) => solc_pragma_version(source) is Some && solc_accepts(solc_pragma_version(source)->0)
            && solc_version_req(solc_pragma_version(source)->0) == Some(
            comparators_view(req.comparators@),
        ) && req_comparators(req.req) == comparators_view(req.comparators@),
        Err(VersionSourceError::PragmaNotFound) => solc_pragma_version(source) is None,
        Err(VersionSourceError::Unsupported(t)) => solc_pragma_version(source) == Some(t@)
            && !solc_accepts(t@),
        Err(VersionSourceError::Solc(_)) => solc_pragma_version(source) is Some && solc_accepts(
            solc_pragma_version(source)->0,
        ) && solc_version_req(solc_pragma_version(source)->0) is None,
    }
}

/// Whether `ethers-solc` reads `text` without failing outright.
fn accepted_by_solc(text: &str) -> (r: bool)
    ensures
        r == solc_accepts(text@),
{
    let n = text.unicode_len();
    if n == 0 {
        return false;
    }
    let first = text.get_char(0);
    if (first as u32) >= 128 {
        return false;
    }
    if n == 1 && (first == 'x' || first == 'X') {
        assert(text@ =~= seq![first]);
        return false;
    }
    assert(n != 1 ==> text@.len() != seq!['x'].len());
    true
}

/// The version requirement of a Solidity source, read the way
/// `ethers_solc::Solc::source_version_req` reads it: the version text of the
/// first `pragma solidity ...;`, then `ethers_solc::Solc::version_req` on it.
pub fn version_from_source(source: String) -> (r: Result<VersionRequirement, VersionSourceError>)
    requires
        readable_pragma(source@),
    ensures
        requirement_outcome(source@, r),
        !(r matches Err(VersionSourceError::Unsupported(_))),
{
    match solc_find_version_pragma(source.as_str()) {
        None => Err(VersionSourceError::PragmaNotFound),
        Some(text) => match solc_version_req_of(text.as_str()) {
            Ok((req, comparators)) => Ok(VersionRequirement { req, comparators }),
            Err(e) => Err(VersionSourceError::Solc(e)),
        },
    }
}

/// The version requirement of any Solidity source: as `version_from_source`,
/// but a version text that `ethers-solc` cannot read without failing
/// outright is refused as `Unsupported`.
pub fn version_requirement(source: String) -> (r: Result<VersionRequirement, VersionSourceError>)
    ensures
        requirement_outcome(source@, r),
{
    match solc_find_version_pragma(source.as_str()) {
        None => Err(VersionSourceError::PragmaNotFound),
        Some(text) => {
            if accepted_by_solc(text.as_str()) {
                version_from_source(source)
            } else {
                Err(VersionSourceError::Unsupported(text))
            }
        },
    }
}

} // verus!
