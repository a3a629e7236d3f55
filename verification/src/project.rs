//! Project files and the choices made when gathering and compiling them:
//! which paths are Solidity sources, which directories are walked, what a
//! compile targets, how remappings read, and where compiler errors point.
use vstd::prelude::*;
use vstd::utf8::*;
use crate::source::{arrow_content_bytes, get_finding_content_arrow};
use crate::text::{bytes_end_with, str_eq, str_ends_with};

verus! {

/// A file of a throwaway project: a contract or a library, each with its
/// name and its source.
pub enum ProjectFile {
    Contract(String, String),
    Library(String, String),
}

impl ProjectFile {
    /// The name of the file.
    pub open spec fn name_of(self) -> Seq<char> {
        match self {
            ProjectFile::Contract(n, _) => n@,
            ProjectFile::Library(n, _) => n@,
        }
    }

    /// The source of the file.
    pub open spec fn content_of(self) -> Seq<char> {
        match self {
            ProjectFile::Contract(_, c) => c@,
            ProjectFile::Library(_, c) => c@,
        }
    }

    /// The name of the file.
    pub fn name(&self) -> (r: &String)
        ensures
            r@ == self.name_of(),
    {
        match self {
            ProjectFile::Contract(n, _) => n,
            ProjectFile::Library(n, _) => n,
        }
    }

    /// The source of the file.
    pub fn content(&self) -> (r: &String)
        ensures
            r@ == self.content_of(),
    {
        match self {
            ProjectFile::Contract(_, c) => c,
            ProjectFile::Library(_, c) => c,
        }
    }
}

/// The path under which compiler errors name a project file:
/// `src/<name>.sol`.
pub open spec fn project_source_path(name: Seq<char>) -> Seq<char> {
    "src/"@ + name + ".sol"@
}

/// `src/<name>.sol`.
pub fn source_path_of(name: &str) -> (r: String)
    ensures
        r@ == project_source_path(name@),
{
    let mut path = "src/".to_owned();
    path.append(name);
    path.append(".sol");
    path
}

/// The index of the first file at or after `i` whose source path is `path`,
/// or the number of files.
pub open spec fn project_file_index_from(files: Seq<ProjectFile>, path: Seq<char>, i: int) -> int
    decreases files.len() - i,
{
    if i < 0 || i >= files.len() {
        files.len() as int
    } else if project_source_path(files[i].name_of()) == path {
        i
    } else {
        project_file_index_from(files, path, i + 1)
    }
}

proof fn lemma_project_file_index_from(files: Seq<ProjectFile>, path: Seq<char>, i: int)
    requires
        0 <= i <= files.len(),
    ensures
        i <= project_file_index_from(files, path, i) <= files.len(),
        project_file_index_from(files, path, i) < files.len() ==> project_source_path(
            files[project_file_index_from(files, path, i)].name_of(),
        ) == path,
        forall|k: int|
            i <= k < project_file_index_from(files, path, i) ==> project_source_path(
                (#[trigger] files[k]).name_of(),
            ) != path,
    decreases files.len() - i,
{
    if i < files.len() && project_source_path(files[i].name_of()) != path {
        lemma_project_file_index_from(files, path, i + 1);
    }
}

/// The first project file that a compiler error's path names, if any.
pub fn find_project_file(files: &[ProjectFile], file_path: &str) -> (r: Option<usize>)
    ensures
        match r {
            Some(i) => i == project_file_index_from(files@, file_path@, 0) && i < files@.len(),
            None => project_file_index_from(files@, file_path@, 0) == files@.len(),
        },
{
    proof {
        lemma_project_file_index_from(files@, file_path@, 0);
    }
    let mut i: usize = 0;
    while i < files.len()
        invariant
            i <= files@.len(),
            i <= project_file_index_from(files@, file_path@, 0),
            project_file_index_from(files@, file_path@, 0) < files@.len() ==> project_source_path(
                files@[project_file_index_from(files@, file_path@, 0)].name_of(),
            ) == file_path@,
            forall|k: int|
                0 <= k < project_file_index_from(files@, file_path@, 0) ==> project_source_path(
                    (#[trigger] files@[k]).name_of(),
                ) != file_path@,
        decreases files@.len() - i,
    {
        let path = source_path_of(files[i].name().as_str());
        if str_eq(path.as_str(), file_path) {
            return Some(i);
        }
        i = i + 1;
    }
    None
}

/// The excerpt shown for a compiler error at bytes `start..end` of a
/// source: nothing where the compiler gives no position (`-1`), else the
/// lines around the range with the range marked.
pub open spec fn compiler_error_excerpt(content: Seq<char>, start: i32, end: i32) -> Seq<char> {
    if start == -1 || end == -1 {
        seq![]
    } else {
        decode_utf8(arrow_content_bytes(encode_utf8(content), start as int, end - start))
    }
}

/// Shows where a compiler error lies in a project file.
pub fn error_excerpt(content: String, start: i32, end: i32) -> (r: String)
    requires
        start == -1 || end == -1 || (0 <= start <= end),
    ensures
        r@ == compiler_error_excerpt(content@, start, end),
{
    if start == -1 || end == -1 {
        String::new()
    } else {
        let s: usize = start as usize;
        let length: usize = (end - start) as usize;
        get_finding_content_arrow(content, s, length)
    }
}

/// The index of the last `.` in `s`, or `-1` when there is none.
pub open spec fn last_dot(s: Seq<char>) -> int
    decreases s.len(),
{
    if s.len() == 0 {
        -1
    } else if s.last() == '.' {
        s.len() - 1
    } else {
        last_dot(s.drop_last())
    }
}

/// The extension of a file name, as `std::path::Path::extension` documents
/// it: nothing when the name holds no `.`, or only a leading one; otherwise
/// what follows the last `.`.
pub open spec fn name_extension(name: Seq<char>) -> Option<Seq<char>> {
    let d = last_dot(name);
    if d <= 0 {
        None
    } else {
        Some(name.subrange(d + 1, name.len() as int))
    }
}

proof fn lemma_last_dot(s: Seq<char>, i: int)
    requires
        0 <= i <= s.len(),
        forall|k: int| i <= k < s.len() ==> s[k] != '.',
    ensures
        last_dot(s) == last_dot(s.subrange(0, i)),
    decreases s.len() - i,
{
    if i < s.len() {
        assert(s.drop_last().len() == s.len() - 1);
        lemma_last_dot(s.drop_last(), i);
        assert(s.drop_last().subrange(0, i) =~= s.subrange(0, i));
    } else {
        assert(s.subrange(0, i) =~= s);
    }
}

/// The extension of a file name.
pub fn file_extension(name: &str) -> (r: Option<String>)
    ensures
        match r {
            Some(e) => name_extension(name@) == Some(e@),
            None => name_extension(name@) is None,
        },
{
    let n = name.unicode_len();
    let mut i: usize = n;
    while i > 0 && name.get_char(i - 1) != '.'
        invariant
            n == name@.len(),
            i <= n,
            forall|k: int| i <= k < n ==> name@[k] != '.',
        decreases i,
    {
        i = i - 1;
    }
    proof {
        lemma_last_dot(name@, i as int);
        if i > 0 {
            let sub = name@.subrange(0, i as int);
            assert(sub.last() == '.');
        } else {
            assert(name@.subrange(0, 0) =~= Seq::<char>::empty());
        }
    }
    if i <= 1 {
        None
    } else {
        Some(name.substring_char(i, n).to_owned())
    }
}

/// What `std::path::Path::file_name` gives for a path: its last component
/// when that is a normal name.
pub uninterp spec fn path_file_name(path: Seq<char>) -> Option<Seq<char>>;

/// Calls `std::path::Path::file_name`. The contract claims only that the
/// result is a function of the path; which component it picks is not
/// described.
#[verifier::external_body]
fn file_name_of(path: &str) -> (r: Option<String>)
    ensures
        match r {
            Some(n) => path_file_name(path@) == Some(n@),
            None => path_file_name(path@) is None,
        },
{
    match std::path::Path::new(path).file_name() {
        Some(n) => Some(n.to_string_lossy().into_owned()),
        None => None,
    }
}

/// The extension of a path: that of its file name.
pub open spec fn path_extension(path: Seq<char>) -> Option<Seq<char>> {
    match path_file_name(path) {
        Some(n) => name_extension(n),
        None => None,
    }
}

/// The extension of a path.
pub fn extension_of(path: &str) -> (r: Option<String>)
    ensures
        match r {
            Some(e) => path_extension(path@) == Some(e@),
            None => path_extension(path@) is None,
        },
{
    match file_name_of(path) {
        Some(n) => file_extension(n.as_str()),
        None => None,
    }
}

/// A file counts as a Solidity source when it is a file with the extension
/// `sol` that is neither a test (`.t.sol`) nor a script (`.s.sol`).
pub open spec fn sol_source(path: Seq<char>, is_file: bool) -> bool {
    &&& is_file
    &&& path_extension(path) == Some("sol"@)
    &&& !bytes_end_with(encode_utf8(path), encode_utf8(".t.sol"@))
    &&& !bytes_end_with(encode_utf8(path), encode_utf8(".s.sol"@))
}

/// Whether the path, a file when `is_file` holds, is a Solidity source to
/// analyze.
pub fn is_sol_file(path: &str, is_file: bool) -> (r: bool)
    ensures
        r == sol_source(path@, is_file),
{
    if !is_file {
        return false;
    }
    match extension_of(path) {
        Some(ext) => {
            if str_eq(ext.as_str(), "sol") {
                !(str_ends_with(path, ".t.sol") || str_ends_with(path, ".s.sol"))
            } else {
                false
            }
        },
        None => false,
    }
}

/// Directories that are never entered: dependencies, build outputs and
/// caches.
pub open spec fn is_excluded_dir_name(name: Seq<char>) -> bool {
    name == "lib"@ || name == "node_modules"@ || name == "out"@ || name == "cache"@ || name
        == "target"@ || name == "artifacts"@
}

/// The directory at `dir` is walked unless its own name is an excluded one.
pub open spec fn walks_subdirectories(dir: Seq<char>) -> bool {
    match path_file_name(dir) {
        Some(n) => !is_excluded_dir_name(n),
        None => true,
    }
}

/// Whether the walk enters the directory at `dir`.
pub fn descends_into_subdirectories(dir: &str) -> (r: bool)
    ensures
        r == walks_subdirectories(dir@),
{
    match file_name_of(dir) {
        Some(n) => {
            let s = n.as_str();
            !(str_eq(s, "lib") || str_eq(s, "node_modules") || str_eq(s, "out") || str_eq(s, "cache")
                || str_eq(s, "target") || str_eq(s, "artifacts"))
        },
        None => true,
    }
}

/// What the walk does with an entry of a directory.
#[derive(Debug, Clone, Copy, PartialEq, Eq, Structural)]
pub enum EntryAction {
    /// walk the subdirectory
    Descend,
    /// gather the Solidity source
    Collect,
    /// leave it
    Skip,
}

/// The action for an entry at `path` of a directory.
pub open spec fn entry_action(path: Seq<char>, is_dir: bool, is_file: bool) -> EntryAction {
    if is_dir {
        if walks_subdirectories(path) {
            EntryAction::Descend
        } else {
            EntryAction::Skip
        }
    } else if sol_source(path, is_file) {
        EntryAction::Collect
    } else {
        EntryAction::Skip
    }
}

/// Decides what the walk for Solidity sources does with a directory entry:
/// a subdirectory is walked unless its own name is excluded, Solidity
/// sources are gathered, the rest is left.
pub fn classify_dir_entry(path: &str, is_dir: bool, is_file: bool) -> (r: EntryAction)
    ensures
        r == entry_action(path@, is_dir, is_file),
{
    if is_dir {
        if descends_into_subdirectories(path) {
            EntryAction::Descend
        } else {
            EntryAction::Skip
        }
    } else if is_sol_file(path, is_file) {
        EntryAction::Collect
    } else {
        EntryAction::Skip
    }
}

/// What a compile works on.
#[derive(Debug, Clone, Copy, PartialEq, Eq, Structural)]
pub enum CompileTarget {
    /// the locations given beforehand
    Locations,
    /// every Solidity source under the root directory
    Directory,
    /// the one Solidity file at the root path
    SingleFile,
}

/// Why nothing was compiled.
#[derive(Debug, Clone, Copy, PartialEq, Eq, Structural)]
pub enum CompileError {
    /// the root is neither a directory nor a `.sol` file
    NothingValidToCompile,
}

/// The target of a compile: given locations first, else a directory root,
/// else a root that is a `.sol` file.
pub open spec fn compile_target_of(has_locations: bool, is_dir: bool, root: Seq<char>) -> Result<
    CompileTarget,
    CompileError,
> {
    if has_locations {
        Ok(CompileTarget::Locations)
    } else if is_dir {
        Ok(CompileTarget::Directory)
    } else if path_extension(root) == Some("sol"@) {
        Ok(CompileTarget::SingleFile)
    } else {
        Err(CompileError::NothingValidToCompile)
    }
}

/// Decides what a compile works on.
pub fn compile_target(has_locations: bool, is_dir: bool, root: &str) -> (r: Result<
    CompileTarget,
    CompileError,
>)
    ensures
        r == compile_target_of(has_locations, is_dir, root@),
{
    if has_locations {
        Ok(CompileTarget::Locations)
    } else if is_dir {
        Ok(CompileTarget::Directory)
    } else {
        match extension_of(root) {
            Some(ext) => {
                if str_eq(ext.as_str(), "sol") {
                    Ok(CompileTarget::SingleFile)
                } else {
                    Err(CompileError::NothingValidToCompile)
                }
            },
            None => Err(CompileError::NothingValidToCompile),
        }
    }
}

/// The index of the first `=` in `s`, or `-1` when there is none.
pub open spec fn first_equals(s: Seq<char>) -> int
    decreases s.len(),
{
    if s.len() == 0 {
        -1
    } else if s[0] == '=' {
        0
    } else {
        let rest = first_equals(s.drop_first());
        if rest < 0 {
            -1
        } else {
            rest + 1
        }
    }
}

proof fn lemma_first_equals(s: Seq<char>, i: int)
    requires
        0 <= i <= s.len(),
        forall|k: int| 0 <= k < i ==> s[k] != '=',
    ensures
        i < s.len() && s[i] == '=' ==> first_equals(s) == i,
        i == s.len() ==> first_equals(s) == -1,
    decreases i,
{
    if i > 0 {
        lemma_first_equals(s.drop_first(), i - 1);
    }
}

/// A line of `remappings.txt` split at its first `=` into the remapping's
/// name and path; nothing for a line without `=`.
pub open spec fn remapping_parts(line: Seq<char>) -> Option<(Seq<char>, Seq<char>)> {
    let e = first_equals(line);
    if e < 0 {
        None
    } else {
        Some((line.subrange(0, e), line.subrange(e + 1, line.len() as int)))
    }
}

/// Splits a line of `remappings.txt` into name and path.
pub fn split_remapping(line: &str) -> (r: Option<(String, String)>)
    ensures
        match r {
            Some((name, path)) => remapping_parts(line@) == Some((name@, path@)),
            None => remapping_parts(line@) is None,
        },
{
    let n = line.unicode_len();
    let mut i: usize = 0;
    while i < n && line.get_char(i) != '='
        invariant
            n == line@.len(),
            i <= n,
            forall|k: int| 0 <= k < i ==> line@[k] != '=',
        decreases n - i,
    {
        i = i + 1;
    }
    proof {
        lemma_first_equals(line@, i as int);
    }
    if i == n {
        None
    } else {
        let name = line.substring_char(0, i).to_owned();
        let path = line.substring_char(i + 1, n).to_owned();
        Some((name, path))
    }
}


/// What `std::path::Path::starts_with` gives: whether `base` is a prefix of
/// `path`, compared component by component.
pub uninterp spec fn path_starts_with(path: Seq<char>, base: Seq<char>) -> bool;

/// Calls `std::path::Path::starts_with`. The contract claims only that the
/// answer is a function of the two paths; how components are compared is
/// not described.
#[verifier::external_body]
fn starts_with_path(path: &str, base: &str) -> (r: bool)
    ensures
        r == path_starts_with(path@, base@),
{
    std::path::Path::new(path).starts_with(base)
}

/// An artifact is kept when its source lies under one of the locations.
pub open spec fn within_locations(abs_path: Seq<char>, locations: Seq<String>) -> bool {
    exists|k: int| 0 <= k < locations.len() && path_starts_with(abs_path, #[trigger] locations[k]@)
}

/// Whether the source of an artifact lies under one of the locations
/// analyzed; artifacts of other sources are left out.
pub fn is_within_locations(abs_path: &str, locations: &[String]) -> (r: bool)
    ensures
        r == within_locations(abs_path@, locations@),
{
    let mut i: usize = 0;
    while i < locations.len()
        invariant
            i <= locations@.len(),
            forall|k: int| 0 <= k < i ==> !path_starts_with(abs_path@, #[trigger] locations@[k]@),
        decreases locations@.len() - i,
    {
        if starts_with_path(abs_path, locations[i].as_str()) {
            return true;
        }
        i = i + 1;
    }
    false
}

/// A directory named `lib`, `node_modules`, `out`, `cache`, `target` or
/// `artifacts` is never entered and any other directory is; a file is
/// gathered exactly when its extension is `sol` and it is no test
/// (`.t.sol`) or script (`.s.sol`); anything else is left.
pub proof fn lemma_walk_rules(path: Seq<char>, is_dir: bool, is_file: bool)
    ensures
        is_dir && (path_file_name(path) matches Some(n) && (n == "lib"@ || n == "node_modules"@ || n
            == "out"@ || n == "cache"@ || n == "target"@ || n == "artifacts"@)) ==> entry_action(
            path,
            is_dir,
            is_file,
        ) == EntryAction::Skip,
        is_dir && (path_file_name(path) matches Some(n) && n != "lib"@ && n != "node_modules"@ && n
            != "out"@ && n != "cache"@ && n != "target"@ && n != "artifacts"@) ==> entry_action(
            path,
            is_dir,
            is_file,
        ) == EntryAction::Descend,
        !is_dir && is_file && path_extension(path) == Some("sol"@) && !bytes_end_with(
            encode_utf8(path),
            encode_utf8(".t.sol"@),
        ) && !bytes_end_with(encode_utf8(path), encode_utf8(".s.sol"@)) ==> entry_action(
            path,
            is_dir,
            is_file,
        ) == EntryAction::Collect,
        !is_dir && !is_file ==> entry_action(path, is_dir, is_file) == EntryAction::Skip,
        !is_dir && path_extension(path) != Some("sol"@) ==> entry_action(path, is_dir, is_file)
            == EntryAction::Skip,
{
}

proof fn lemma_first_equals_bounds(s: Seq<char>)
    ensures
        -1 <= first_equals(s) < s.len(),
        first_equals(s) >= 0 ==> s[first_equals(s)] == '=',
        forall|k: int| 0 <= k < s.len() && (first_equals(s) < 0 || k < first_equals(s)) ==> #[trigger] s[k]
            != '=',
    decreases s.len(),
{
    if s.len() > 0 && s[0] != '=' {
        lemma_first_equals_bounds(s.drop_first());
        assert forall|k: int| 0 <= k < s.len() && (first_equals(s) < 0 || k < first_equals(s)) implies #[trigger] s[k]
            != '=' by {
            if k > 0 {
                assert(s[k] == s.drop_first()[k - 1]);
            }
        }
    }
}

/// A remapping line splits at its first `=`: the name is what comes before
/// it (holding no `=`), the path what comes after; a line without `=` is no
/// remapping.
pub proof fn lemma_remapping_split(line: Seq<char>)
    ensures
        (forall|k: int| 0 <= k < line.len() ==> #[trigger] line[k] != '=') ==> remapping_parts(line) is None,
        forall|e: int|
            0 <= e < line.len() && #[trigger] line[e] == '=' && (forall|k: int| 0 <= k < e ==> #[trigger] line[k] != '=')
                ==> remapping_parts(line) == Some((line.subrange(0, e), line.subrange(e + 1, line.len() as int))),
{
    lemma_first_equals_bounds(line);
    let f = first_equals(line);
    if f >= 0 {
        assert(line[f] == '=');
    }
}

} // verus!
