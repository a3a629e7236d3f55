//! The settings of a compile: where the project lies, how it is laid out,
//! which compiler and optimizer it uses and what is compiled.
use vstd::prelude::*;
use crate::version::Version;

verus! {

/// The optimizer settings of the compiler.
#[derive(Debug, Clone, Copy, PartialEq, Eq, Structural)]
pub struct OptimizerSettings {
    pub enabled: Option<bool>,
    pub runs: Option<usize>,
}

impl Default for OptimizerSettings {
    /// Optimizer off, tuned for 200 runs.
    fn default() -> (r: Self)
        ensures
            r == (OptimizerSettings { enabled: Some(false), runs: Some(200) }),
    {
        OptimizerSettings { enabled: Some(false), runs: Some(200) }
    }
}

/// An output the compiler may be asked for besides the defaults.
#[derive(Debug, Clone, Copy, PartialEq, Eq, Structural)]
pub enum OutputSelection {
    Abi,
    DevDoc,
    UserDoc,
    Metadata,
    Ir,
    IrOptimized,
    StorageLayout,
    /// every EVM output
    Evm,
    /// every eWASM output
    Ewasm,
}

/// An import remapping: a prefix, the path it stands for, and the context
/// it applies in.
pub struct Remapping {
    pub context: Option<String>,
    pub name: String,
    pub path: String,
}

/// How a project is compiled.
pub struct Solidity {
    pub root: String,
    pub allow_paths: Vec<String>,
    pub include_paths: Vec<String>,
    pub extra_output: Vec<OutputSelection>,
    pub extra_output_files: Vec<OutputSelection>,
    pub src: String,
    pub test: String,
    pub script: String,
    pub out: String,
    pub cache: String,
    pub libs: Vec<String>,
    pub remappings: Vec<Remapping>,
    pub auto_detect_remappings: bool,
    pub libraries: Vec<String>,
    pub use_cache: bool,
    pub build_info_path: Option<String>,
    pub force: bool,
    pub ephemeral: bool,
    /// path of the compiler binary; none to detect it from the sources
    pub solc: Option<String>,
    pub optimizer: OptimizerSettings,
    /// print nothing while compiling
    pub silent: bool,
    pub version: Option<Version>,
    pub locations: Option<Vec<String>>,
}

/// The settings a compile starts from: everything empty, the cache used,
/// remappings not detected, the compiler detected from the sources, the
/// optimizer off for 200 runs.
pub open spec fn default_settings(s: Solidity) -> bool {
    &&& s.root@.len() == 0
    &&& s.allow_paths@.len() == 0
    &&& s.include_paths@.len() == 0
    &&& s.extra_output@.len() == 0
    &&& s.extra_output_files@.len() == 0
    &&& s.src@.len() == 0
    &&& s.test@.len() == 0
    &&& s.script@.len() == 0
    &&& s.out@.len() == 0
    &&& s.cache@.len() == 0
    &&& s.libs@.len() == 0
    &&& s.remappings@.len() == 0
    &&& !s.auto_detect_remappings
    &&& s.libraries@.len() == 0
    &&& s.use_cache
    &&& s.build_info_path is None
    &&& !s.force
    &&& !s.ephemeral
    &&& s.solc is None
    &&& s.optimizer == (OptimizerSettings { enabled: Some(false), runs: Some(200) })
    &&& !s.silent
    &&& s.version is None
    &&& s.locations is None
}

impl Default for Solidity {
    fn default() -> (r: Self)
        ensures
            default_settings(r),
    {
        Solidity {
            root: String::new(),
            libs: Vec::new(),
            allow_paths: Vec::new(),
            build_info_path: None,
            include_paths: Vec::new(),
            extra_output: Vec::new(),
            extra_output_files: Vec::new(),
            src: String::new(),
            test: String::new(),
            script: String::new(),
            libraries: Vec::new(),
            out: String::new(),
            cache: String::new(),
            use_cache: true,
            auto_detect_remappings: false,
            remappings: Vec::new(),
            force: false,
            ephemeral: false,
            solc: None,
            optimizer: OptimizerSettings::default(),
            silent: false,
            version: None,
            locations: None,
        }
    }
}

/// `base` joined with the relative path `part`, as a path buffer joins
/// them: a separator between the two unless `base` is empty or already
/// ends with one.
pub open spec fn join_path(base: Seq<char>, part: Seq<char>) -> Seq<char> {
    if base.len() == 0 {
        part
    } else if base.last() == '/' {
        base + part
    } else {
        base + seq!['/'] + part
    }
}

/// Joins the relative path `part` to `base`.
pub fn join(base: &str, part: &str) -> (r: String)
    ensures
        r@ == join_path(base@, part@),
{
    let n = base.unicode_len();
    let mut r = base.to_owned();
    if n > 0 && base.get_char(n - 1) != '/' {
        r.append("/");
        proof {
            reveal_strlit("/");
        }
    }
    r.append(part);
    proof {
        if n > 0 {
            assert(base@.last() == base@[n - 1]);
        }
    }
    r
}

/// The name of the file that caches what was compiled.
pub open spec fn cache_file_name() -> Seq<char> {
    "solidity-files-cache.json"@
}

/// The layout of a project under `root`: sources in `src`, tests in `test`,
/// scripts in `script`, artifacts in `out`, and the cache file in `cache`.
pub open spec fn laid_out_under(s: Solidity, root: Seq<char>) -> bool {
    &&& s.root@ == root
    &&& s.src@ == join_path(root, "src"@)
    &&& s.test@ == join_path(root, "test"@)
    &&& s.script@ == join_path(root, "script"@)
    &&& s.out@ == join_path(root, "out"@)
    &&& s.cache@ == join_path(join_path(root, "cache"@), cache_file_name())
}

/// Everything but the root and the folders under it is the same.
pub open spec fn same_but_layout(a: Solidity, b: Solidity) -> bool {
    a == Solidity { root: a.root, src: a.src, test: a.test, script: a.script, out: a.out, cache: a.cache, ..b }
}

impl Solidity {
    /// The same settings with these remappings.
    pub fn with_remappings(self, remappings: Vec<Remapping>) -> (r: Self)
        ensures
            r == (Solidity { remappings, ..self }),
    {
        Solidity { remappings, ..self }
    }

    /// The same settings for the project whose root, already made absolute,
    /// is `root`: sources, tests, scripts, artifacts and cache under it.
    pub fn with_path_root(self, root: String) -> (r: Self)
        ensures
            laid_out_under(r, root@),
            same_but_layout(r, self),
    {
        let src = join(root.as_str(), "src");
        let test = join(root.as_str(), "test");
        let script = join(root.as_str(), "script");
        let out = join(root.as_str(), "out");
        let cache_dir = join(root.as_str(), "cache");
        let cache = join(cache_dir.as_str(), "solidity-files-cache.json");
        Solidity { root, src, test, script, out, cache, ..self }
    }

    /// Whether the compiler version is detected from the sources, no
    /// compiler being set.
    pub fn is_auto_detect(&self) -> (r: bool)
        ensures
            r == self.solc is None,
    {
        self.solc.is_none()
    }

    /// The same settings, printing nothing.
    pub fn silent(self) -> (r: Self)
        ensures
            r == (Solidity { silent: true, ..self }),
    {
        Solidity { silent: true, ..self }
    }

    /// The same settings with this cache file.
    pub fn with_cache(self, cache: String) -> (r: Self)
        ensures
            r == (Solidity { cache, ..self }),
    {
        Solidity { cache, ..self }
    }

    /// The same settings, writing nothing to disk or not.
    pub fn ephemeral(self, ephemeral: bool) -> (r: Self)
        ensures
            r == (Solidity { ephemeral, ..self }),
    {
        Solidity { ephemeral, ..self }
    }

    /// The same settings, cleaning the cache first.
    pub fn force(self) -> (r: Self)
        ensures
            r == (Solidity { force: true, ..self }),
    {
        Solidity { force: true, ..self }
    }

    /// The same settings, detecting remappings or not.
    pub fn auto_remappings(self, remappings: bool) -> (r: Self)
        ensures
            r == (Solidity { auto_detect_remappings: remappings, ..self }),
    {
        Solidity { auto_detect_remappings: remappings, ..self }
    }

    /// The same settings with this optimizer.
    pub fn with_optimizer(self, optimizer: OptimizerSettings) -> (r: Self)
        ensures
            r == (Solidity { optimizer, ..self }),
    {
        Solidity { optimizer, ..self }
    }

    /// The same settings, compiling only these files.
    pub fn with_locations(self, locations: Vec<String>) -> (r: Self)
        ensures
            r == (Solidity { locations: Some(locations), ..self }),
    {
        Solidity { locations: Some(locations), ..self }
    }

    /// The same settings, using the cache or not.
    pub fn use_cache(self, use_cache: bool) -> (r: Self)
        ensures
            r == (Solidity { use_cache, ..self }),
    {
        Solidity { use_cache, ..self }
    }

    /// The extra outputs asked of the compiler: those set, with the
    /// metadata added at the end when it is not among them.
    pub fn output_selection(&self) -> (r: Vec<OutputSelection>)
        ensures
            r@ == (if self.extra_output@.contains(OutputSelection::Metadata) {
                self.extra_output@
            } else {
                self.extra_output@.push(OutputSelection::Metadata)
            }),
    {
        let mut r: Vec<OutputSelection> = Vec::new();
        let mut has_metadata = false;
        let mut i: usize = 0;
        while i < self.extra_output.len()
            invariant
                i <= self.extra_output@.len(),
                r@ == self.extra_output@.subrange(0, i as int),
                has_metadata == self.extra_output@.subrange(0, i as int).contains(OutputSelection::Metadata),
            decreases self.extra_output@.len() - i,
        {
            let o = self.extra_output[i];
            proof {
                let s = self.extra_output@.subrange(0, i + 1);
                assert(s =~= self.extra_output@.subrange(0, i as int).push(o));
                if s.contains(OutputSelection::Metadata) && o != OutputSelection::Metadata {
                    let w = choose|w: int| 0 <= w < s.len() && s[w] == OutputSelection::Metadata;
                    assert(self.extra_output@.subrange(0, i as int)[w] == OutputSelection::Metadata);
                }
                if o == OutputSelection::Metadata {
                    assert(s[i as int] == OutputSelection::Metadata);
                }
                if self.extra_output@.subrange(0, i as int).contains(OutputSelection::Metadata) {
                    let w = choose|w: int| 0 <= w < i && self.extra_output@.subrange(0, i as int)[w]
                        == OutputSelection::Metadata;
                    assert(s[w] == OutputSelection::Metadata);
                }
            }
            if o == OutputSelection::Metadata {
                has_metadata = true;
            }
            r.push(o);
            i = i + 1;
        }
        proof {
            assert(self.extra_output@.subrange(0, self.extra_output@.len() as int) =~= self.extra_output@);
        }
        if !has_metadata {
            r.push(OutputSelection::Metadata);
        }
        r
    }
}

} // verus!
