//! Configuration of HIP kernel builds: the builder that collects sources,
//! include paths, target architectures and flags, and the decisions a
//! build makes from it and from the environment (compiler flags, target
//! architectures, link and rerun directives, where to look for the ROCm
//! tools and how to read the architecture they report).
//!
//! The environment, the file system and the tools are read by the caller,
//! who hands the values over; the compiler is run by the caller from the
//! plan computed here.

use vstd::prelude::*;
use vstd::string::*;
use crate::text::{
    views, trim, trim_str, starts_with, str_starts_with, split, split_trimmed_nonempty,
    nonempty_trimmed, parse_usize, parse_usize_str, decimal, decimal_string, lemma_split_step,
    all_digits, digits_value, is_digit,
    lemma_split_prefix,
};

verus! {

broadcast use vstd::string::group_string_axioms;

/// The views of a sequence of string slices.
pub open spec fn str_views(v: Seq<&str>) -> Seq<Seq<char>> {
    v.map_values(|x: &str| x@)
}

/// The view of an optional string slice.
pub open spec fn opt_view(o: Option<&str>) -> Option<Seq<char>> {
    match o {
        Some(s) => Some(s@),
        None => None,
    }
}

/// The library search path used when neither `HIP_PATH` nor `ROCM_PATH`
/// is set.
pub open spec fn default_rocm_lib() -> Seq<char> {
    "/opt/rocm/lib"@
}

/// `HIP_PATH/lib`, then `ROCM_PATH/lib`, for those that are set; the
/// default ROCm library directory when neither is.
pub open spec fn search_paths_for(hip_path: Option<Seq<char>>, rocm_path: Option<Seq<char>>) -> Seq<
    Seq<char>,
> {
    let a = match hip_path {
        Some(h) => seq![h + "/lib"@],
        None => Seq::empty(),
    };
    let b = match rocm_path {
        Some(r) => seq![r + "/lib"@],
        None => Seq::empty(),
    };
    if a.len() + b.len() == 0 {
        seq![default_rocm_lib()]
    } else {
        a + b
    }
}

/// HIP builder configuration.
#[derive(Debug, Clone)]
pub struct HipBuilder {
    pub include_paths: Vec<String>,
    pub source_files: Vec<String>,
    pub watch_paths: Vec<String>,
    pub watch_globs: Vec<String>,
    pub library_name: String,
    pub hip_arch: Vec<String>,
    pub hip_opt_level: Option<String>,
    pub custom_flags: Vec<String>,
    pub link_libraries: Vec<String>,
    pub link_search_paths: Vec<String>,
}

/// `s` followed by the string `"/lib"`.
fn with_lib_suffix(s: &str) -> (r: String)
    ensures
        r@ == s@ + "/lib"@,
{
    String::from_str(s).concat("/lib")
}

/// `v` with `s` appended.
fn push_str(v: &mut Vec<String>, s: &str)
    ensures
        views(final(v)@) == views(old(v)@).push(s@),
{
    let ghost before = views(v@);
    v.push(String::from_str(s));
    assert(views(v@) =~= before.push(s@));
}

/// `after` is `before` with `path` added as a source file and watched:
/// what [`HipBuilder::file`] makes.
pub open spec fn adds_file(before: HipBuilder, path: Seq<char>, after: HipBuilder) -> bool {
    &&& views(after.source_files@) == views(before.source_files@).push(path)
    &&& views(after.watch_paths@) == views(before.watch_paths@).push(path)
    &&& after == (HipBuilder { source_files: after.source_files, watch_paths: after.watch_paths, ..before })
}

/// `after` is `before` with `paths` added, in order, as source files and
/// watched: what [`HipBuilder::files`] makes.
pub open spec fn adds_files(before: HipBuilder, paths: Seq<Seq<char>>, after: HipBuilder) -> bool {
    &&& views(after.source_files@) == views(before.source_files@) + paths
    &&& views(after.watch_paths@) == views(before.watch_paths@) + paths
    &&& after == (HipBuilder { source_files: after.source_files, watch_paths: after.watch_paths, ..before })
}

/// Each builder of `chain` is the one before it with the next of `paths`
/// added by [`HipBuilder::file`].
pub open spec fn file_chain(paths: Seq<Seq<char>>, chain: Seq<HipBuilder>) -> bool {
    &&& chain.len() == paths.len() + 1
    &&& forall|j: int| 0 <= j < paths.len() ==> #[trigger] adds_file(chain[j], paths[j], chain[j + 1])
}

proof fn lemma_file_chain_prefix(paths: Seq<Seq<char>>, chain: Seq<HipBuilder>, k: int)
    requires
        file_chain(paths, chain),
        0 <= k <= paths.len(),
    ensures
        adds_files(chain[0], paths.take(k), chain[k]),
    decreases k,
{
    if k > 0 {
        lemma_file_chain_prefix(paths, chain, k - 1);
        assert(adds_file(chain[k - 1], paths[k - 1], chain[k]));
        assert(paths.take(k) =~= paths.take(k - 1).push(paths[k - 1]));
    } else {
        assert(paths.take(0) =~= Seq::<Seq<char>>::empty());
        assert(views(chain[0].source_files@) + paths.take(0) =~= views(chain[0].source_files@));
        assert(views(chain[0].watch_paths@) + paths.take(0) =~= views(chain[0].watch_paths@));
    }
}

/// Adding several files at once is adding them one at a time: the builder
/// [`HipBuilder::files`] makes has the source files and watched paths of
/// the last builder of a chain of [`HipBuilder::file`] calls over the same
/// paths in the same order, and agrees with it on every other field. With
/// no paths, both leave the builder as it was.
pub proof fn law_files_is_chain_of_file(paths: Seq<Seq<char>>, chain: Seq<HipBuilder>, r: HipBuilder)
    requires
        file_chain(paths, chain),
        adds_files(chain[0], paths, r),
    ensures
        views(r.source_files@) == views(chain.last().source_files@),
        views(r.watch_paths@) == views(chain.last().watch_paths@),
        r == (HipBuilder { source_files: r.source_files, watch_paths: r.watch_paths, ..chain.last() }),
{
    lemma_file_chain_prefix(paths, chain, paths.len() as int);
    assert(paths.take(paths.len() as int) =~= paths);
}

impl HipBuilder {
    /// A builder with nothing to build yet: no sources, no includes, the
    /// default flag `--std=c++17`, linking against `amdhip64`, and library
    /// search paths from the values of `HIP_PATH` and `ROCM_PATH` (`None`
    /// for a variable that is not set), which the caller reads.
    pub fn new(hip_path: Option<&str>, rocm_path: Option<&str>) -> (b: HipBuilder)
        ensures
            b.include_paths@.len() == 0,
            b.source_files@.len() == 0,
            views(b.watch_paths@) == seq!["build.rs"@],
            b.watch_globs@.len() == 0,
            b.library_name@.len() == 0,
            b.hip_arch@.len() == 0,
            b.hip_opt_level is None,
            views(b.custom_flags@) == seq!["--std=c++17"@],
            views(b.link_libraries@) == seq!["amdhip64"@],
            views(b.link_search_paths@) == search_paths_for(opt_view(hip_path), opt_view(rocm_path)),
    {
        let mut link_search_paths: Vec<String> = Vec::new();
        let ghost mut expect: Seq<Seq<char>> = Seq::empty();
        if let Some(h) = hip_path {
            link_search_paths.push(with_lib_suffix(h));
            proof {
                expect = seq![h@ + "/lib"@];
            }
        }
        if let Some(r) = rocm_path {
            link_search_paths.push(with_lib_suffix(r));
            proof {
                expect = expect + seq![r@ + "/lib"@];
            }
        }
        assert(views(link_search_paths@) =~= expect);
        if link_search_paths.len() == 0 {
            link_search_paths.push(String::from_str("/opt/rocm/lib"));
            assert(views(link_search_paths@) =~= seq![default_rocm_lib()]);
        }
        proof {
            let hv = opt_view(hip_path);
            let rv = opt_view(rocm_path);
            let a = match hv {
                Some(h) => seq![h + "/lib"@],
                None => Seq::<Seq<char>>::empty(),
            };
            let b = match rv {
                Some(r) => seq![r + "/lib"@],
                None => Seq::<Seq<char>>::empty(),
            };
            assert(expect =~= a + b);
        }
        let mut watch_paths: Vec<String> = Vec::new();
        push_str(&mut watch_paths, "build.rs");
        let mut custom_flags: Vec<String> = Vec::new();
        push_str(&mut custom_flags, "--std=c++17");
        let mut link_libraries: Vec<String> = Vec::new();
        push_str(&mut link_libraries, "amdhip64");
        HipBuilder {
            include_paths: Vec::new(),
            source_files: Vec::new(),
            watch_paths,
            watch_globs: Vec::new(),
            library_name: String::new(),
            hip_arch: Vec::new(),
            hip_opt_level: None,
            custom_flags,
            link_libraries,
            link_search_paths,
        }
    }

    /// Sets the library name.
    pub fn library_name(self, name: &str) -> (r: HipBuilder)
        ensures
            r.library_name@ == name@,
            r == (HipBuilder { library_name: r.library_name, ..self }),
    {
        let mut b = self;
        b.library_name = String::from_str(name);
        b
    }

    /// Adds an include path, which is also watched for changes.
    pub fn include_path(self, path: &str) -> (r: HipBuilder)
        ensures
            views(r.include_paths@) == views(self.include_paths@).push(path@),
            views(r.watch_paths@) == views(self.watch_paths@).push(path@),
            r == (HipBuilder { include_paths: r.include_paths, watch_paths: r.watch_paths, ..self }),
    {
        let mut b = self;
        push_str(&mut b.include_paths, path);
        push_str(&mut b.watch_paths, path);
        b
    }

    /// Adds the include path another crate exports, given as the value of
    /// its environment variable, when that variable is set.
    pub fn include_from_dep(self, dep_value: Option<&str>) -> (r: HipBuilder)
        ensures
            views(r.include_paths@) == match dep_value {
                Some(p) => views(self.include_paths@).push(p@),
                None => views(self.include_paths@),
            },
            r == (HipBuilder { include_paths: r.include_paths, ..self }),
    {
        let mut b = self;
        if let Some(p) = dep_value {
            push_str(&mut b.include_paths, p);
        }
        b
    }

    /// Adds a source file, which is also watched for changes.
    pub fn file(self, path: &str) -> (r: HipBuilder)
        ensures
            adds_file(self, path@, r),
    {
        let mut b = self;
        push_str(&mut b.source_files, path);
        push_str(&mut b.watch_paths, path);
        b
    }

    /// Adds several source files, in order, each also watched for changes.
    pub fn files(self, paths: &[&str]) -> (r: HipBuilder)
        ensures
            adds_files(self, str_views(paths@), r),
    {
        let mut b = self;
        let ghost src0 = views(b.source_files@);
        let ghost watch0 = views(b.watch_paths@);
        let ghost orig = b;
        let mut i: usize = 0;
        while i < paths.len()
            invariant
                0 <= i <= paths@.len(),
                views(b.source_files@) == src0 + str_views(paths@.take(i as int)),
                views(b.watch_paths@) == watch0 + str_views(paths@.take(i as int)),
                b == (HipBuilder { source_files: b.source_files, watch_paths: b.watch_paths, ..orig }),
            decreases paths@.len() - i,
        {
            let p = paths[i];
            push_str(&mut b.source_files, p);
            push_str(&mut b.watch_paths, p);
            proof {
                assert(str_views(paths@.take(i + 1)) =~= str_views(paths@.take(i as int)).push(p@));
            }
            i = i + 1;
        }
        proof {
            assert(paths@.take(paths@.len() as int) =~= paths@);
        }
        b
    }

    /// Adds the files a glob pattern matched whose extension is `hip`,
    /// `cpp` or `cu`; the pattern is watched. `matches` are the matched
    /// paths that name files, in the order the glob yielded them.
    pub fn files_from_glob(self, pattern: &str, matches: Vec<String>) -> (r: HipBuilder)
        ensures
            views(r.watch_globs@) == views(self.watch_globs@).push(pattern@),
            views(r.source_files@) == views(self.source_files@) + hip_sources(views(matches@)),
            r == (HipBuilder { watch_globs: r.watch_globs, source_files: r.source_files, ..self }),
    {
        let mut b = self;
        push_str(&mut b.watch_globs, pattern);
        let ghost src0 = views(b.source_files@);
        let ghost orig = b;
        let mut i: usize = 0;
        while i < matches.len()
            invariant
                0 <= i <= matches@.len(),
                views(b.source_files@) == src0 + hip_sources(views(matches@).take(i as int)),
                b == (HipBuilder { source_files: b.source_files, ..orig }),
            decreases matches@.len() - i,
        {
            let p = matches[i].as_str();
            proof {
                assert(views(matches@).take(i + 1).drop_last() =~= views(matches@).take(i as int));
            }
            if is_hip_source(p) {
                push_str(&mut b.source_files, p);
            }
            i = i + 1;
        }
        proof {
            assert(views(matches@).take(matches@.len() as int) =~= views(matches@));
        }
        b
    }

    /// Watches a path for changes.
    pub fn watch(self, path: &str) -> (r: HipBuilder)
        ensures
            views(r.watch_paths@) == views(self.watch_paths@).push(path@),
            r == (HipBuilder { watch_paths: r.watch_paths, ..self }),
    {
        let mut b = self;
        push_str(&mut b.watch_paths, path);
        b
    }

    /// Watches the paths a glob pattern matches.
    pub fn watch_glob(self, pattern: &str) -> (r: HipBuilder)
        ensures
            views(r.watch_globs@) == views(self.watch_globs@).push(pattern@),
            r == (HipBuilder { watch_globs: r.watch_globs, ..self }),
    {
        let mut b = self;
        push_str(&mut b.watch_globs, pattern);
        b
    }

    /// Sets the target architecture (e.g. `gfx1100`), replacing any set before.
    pub fn hip_arch(self, arch: &str) -> (r: HipBuilder)
        ensures
            views(r.hip_arch@) == seq![arch@],
            r == (HipBuilder { hip_arch: r.hip_arch, ..self }),
    {
        let mut b = self;
        let mut v: Vec<String> = Vec::new();
        push_str(&mut v, arch);
        b.hip_arch = v;
        b
    }

    /// Sets several target architectures, replacing any set before.
    pub fn hip_archs(self, archs: Vec<&str>) -> (r: HipBuilder)
        ensures
            views(r.hip_arch@) == str_views(archs@),
            r == (HipBuilder { hip_arch: r.hip_arch, ..self }),
    {
        let mut b = self;
        let mut v: Vec<String> = Vec::new();
        let mut i: usize = 0;
        while i < archs.len()
            invariant
                0 <= i <= archs@.len(),
                views(v@) == str_views(archs@.take(i as int)),
            decreases archs@.len() - i,
        {
            push_str(&mut v, archs[i]);
            proof {
                assert(str_views(archs@.take(i + 1)) =~= str_views(archs@.take(i as int)).push(archs@[i as int]@));
            }
            i = i + 1;
        }
        proof {
            assert(archs@.take(archs@.len() as int) =~= archs@);
        }
        b.hip_arch = v;
        b
    }

    /// Sets the optimization level (0-3).
    pub fn hip_opt_level(self, level: u8) -> (r: HipBuilder)
        ensures
            r.hip_opt_level matches Some(l) && l@ == decimal(level as nat),
            r == (HipBuilder { hip_opt_level: r.hip_opt_level, ..self }),
    {
        let mut b = self;
        b.hip_opt_level = Some(decimal_string(level as usize));
        b
    }

    /// Adds a compiler flag.
    pub fn flag(self, flag: &str) -> (r: HipBuilder)
        ensures
            views(r.custom_flags@) == views(self.custom_flags@).push(flag@),
            r == (HipBuilder { custom_flags: r.custom_flags, ..self }),
    {
        let mut b = self;
        push_str(&mut b.custom_flags, flag);
        b
    }

    /// Adds a library to link.
    pub fn link_lib(self, lib: &str) -> (r: HipBuilder)
        ensures
            views(r.link_libraries@) == views(self.link_libraries@).push(lib@),
            r == (HipBuilder { link_libraries: r.link_libraries, ..self }),
    {
        let mut b = self;
        push_str(&mut b.link_libraries, lib);
        b
    }

    /// Adds a library search path.
    pub fn link_search(self, path: &str) -> (r: HipBuilder)
        ensures
            views(r.link_search_paths@) == views(self.link_search_paths@).push(path@),
            r == (HipBuilder { link_search_paths: r.link_search_paths, ..self }),
    {
        let mut b = self;
        push_str(&mut b.link_search_paths, path);
        b
    }
}

/// The file name of a path: what follows its last `/`.
pub open spec fn file_name(path: Seq<char>) -> Seq<char>
    decreases path.len(),
{
    if path.len() == 0 {
        path
    } else if path.last() == '/' {
        Seq::empty()
    } else {
        file_name(path.drop_last()).push(path.last())
    }
}

/// The extension of a file name as `Path::extension` gives it: what
/// follows the last `.`, unless there is no `.` or the only one starts
/// the name.
pub open spec fn extension(name: Seq<char>) -> Option<Seq<char>> {
    let d = last_dot(name);
    if d <= 0 {
        None
    } else {
        Some(name.subrange(d + 1, name.len() as int))
    }
}

/// The index of the last `.` in `name`, or -1.
pub open spec fn last_dot(name: Seq<char>) -> int
    decreases name.len(),
{
    if name.len() == 0 {
        -1
    } else if name.last() == '.' {
        name.len() - 1
    } else {
        last_dot(name.drop_last())
    }
}

proof fn lemma_file_name(s: Seq<char>, j: int)
    requires
        0 <= j <= s.len(),
        j == 0 || s[j - 1] == '/',
        forall|k: int| j <= k < s.len() ==> #[trigger] s[k] != '/',
    ensures
        file_name(s) == s.subrange(j, s.len() as int),
    decreases s.len(),
{
    if s.len() > 0 {
        if j == s.len() {
        } else {
            lemma_file_name(s.drop_last(), j);
            assert(s.drop_last().subrange(j, s.len() - 1).push(s.last()) =~= s.subrange(
                j,
                s.len() as int,
            ));
        }
    } else {
        assert(s.subrange(j, s.len() as int) =~= s);
    }
}

proof fn lemma_last_dot(name: Seq<char>, k: int)
    requires
        0 <= k <= name.len(),
        forall|i: int| k <= i < name.len() ==> #[trigger] name[i] != '.',
        k == 0 || name[k - 1] == '.',
    ensures
        last_dot(name) == k - 1,
    decreases name.len(),
{
    if name.len() > 0 && k < name.len() {
        lemma_last_dot(name.drop_last(), k);
    }
}

/// Whether `a` and `b` hold the same characters.
pub fn str_equals(a: &str, b: &str) -> (r: bool)
    ensures
        r == (a@ == b@),
{
    if a.unicode_len() != b.unicode_len() {
        return false;
    }
    let r = str_starts_with(a, b);
    proof {
        if a@ == b@ {
            assert(a@.subrange(0, a@.len() as int) =~= a@);
        }
        if r {
            assert(a@ =~= b@);
        }
    }
    r
}

/// Whether the extension of `path` is `hip`, `cpp` or `cu`.
pub fn is_hip_source(path: &str) -> (b: bool)
    ensures
        b == is_hip_source_path(path@),
{
    let n = path.unicode_len();
    let mut j: usize = n;
    while j > 0 && path.get_char(j - 1) != '/'
        invariant
            0 <= j <= n,
            n == path@.len(),
            forall|k: int| j <= k < n ==> #[trigger] path@[k] != '/',
        decreases j,
    {
        j = j - 1;
    }
    proof {
        lemma_file_name(path@, j as int);
    }
    let ghost name = path@.subrange(j as int, n as int);
    let mut k: usize = n;
    while k > j && path.get_char(k - 1) != '.'
        invariant
            j <= k <= n,
            n == path@.len(),
            name == path@.subrange(j as int, n as int),
            forall|i: int| k <= i < n ==> #[trigger] path@[i] != '.',
        decreases k,
    {
        k = k - 1;
    }
    proof {
        assert forall|i: int| k - j <= i < name.len() implies #[trigger] name[i] != '.' by {
            assert(name[i] == path@[j + i]);
        }
        lemma_last_dot(name, (k - j) as int);
    }
    if k - j <= 1 {
        return false;
    }
    let ext = path.substring_char(k, n);
    proof {
        assert(ext@ =~= name.subrange(k - j, name.len() as int));
    }
    str_equals(ext, "hip") || str_equals(ext, "cpp") || str_equals(ext, "cu")
}

/// A path counts as a HIP source when its extension is `hip`, `cpp` or `cu`.
pub open spec fn is_hip_source_path(path: Seq<char>) -> bool {
    match extension(file_name(path)) {
        Some(e) => e == "hip"@ || e == "cpp"@ || e == "cu"@,
        None => false,
    }
}

/// The paths that count as HIP sources, in order.
pub open spec fn hip_sources(paths: Seq<Seq<char>>) -> Seq<Seq<char>>
    decreases paths.len(),
{
    if paths.len() == 0 {
        Seq::empty()
    } else if is_hip_source_path(paths.last()) {
        hip_sources(paths.drop_last()).push(paths.last())
    } else {
        hip_sources(paths.drop_last())
    }
}

} // verus!

verus! {

/// The view of an optional string.
pub open spec fn opt_string_view(o: Option<String>) -> Option<Seq<char>> {
    match o {
        Some(s) => Some(s@),
        None => None,
    }
}

/// Why a build cannot start.
#[derive(Debug, Clone, Copy, PartialEq, Eq, Structural)]
pub enum BuildError {
    /// No library name was set.
    MissingLibraryName,
    /// No source file was added.
    NoSourceFiles,
}

/// The environment values a build reads.
#[derive(Debug, Clone, Default)]
pub struct BuildEnv {
    /// `HIP_PATH`.
    pub hip_path: Option<String>,
    /// `ROCM_PATH`.
    pub rocm_path: Option<String>,
    /// `HIP_ARCH`.
    pub hip_arch: Option<String>,
    /// `HIP_OPT_LEVEL`.
    pub hip_opt_level: Option<String>,
    /// `HIP_DEBUG`.
    pub hip_debug: Option<String>,
}

/// Everything the compiler is run with.
#[derive(Debug, Clone)]
pub struct CompilePlan {
    /// The compiler to run.
    pub compiler: String,
    /// Include directories, in order.
    pub include_dirs: Vec<String>,
    /// Compiler flags, in order.
    pub flags: Vec<String>,
    /// Whether the `HIP_DEBUG` macro is defined (as `1`).
    pub define_hip_debug: bool,
    /// Whether debug information is generated.
    pub debug_info: bool,
    /// Source files, in order.
    pub files: Vec<String>,
    /// Name of the library built.
    pub library_name: String,
}

/// `HIP_DEBUG=1` asks for a debug build.
pub open spec fn debug_requested(v: Option<Seq<char>>) -> bool {
    v == Some("1"@)
}

/// The environment variables a build is rerun for.
pub open spec fn rerun_env_lines() -> Seq<Seq<char>> {
    seq![
        "cargo:rerun-if-env-changed=HIP_ARCH"@,
        "cargo:rerun-if-env-changed=HIP_OPT_LEVEL"@,
        "cargo:rerun-if-env-changed=HIP_DEBUG"@,
        "cargo:rerun-if-env-changed=HIP_THREADS"@,
        "cargo:rerun-if-env-changed=HIP_PATH"@,
        "cargo:rerun-if-env-changed=ROCM_PATH"@,
    ]
}

/// The directive that reruns a build when `path` changes.
pub open spec fn rerun_if_changed_line(path: Seq<char>) -> Seq<char> {
    "cargo:rerun-if-changed="@ + path
}

/// The include directory of the ROCm installation: `HIP_PATH/include`, or
/// `ROCM_PATH/include` when only that is set.
pub open spec fn rocm_include_dirs(hip_path: Option<Seq<char>>, rocm_path: Option<Seq<char>>) -> Seq<
    Seq<char>,
> {
    match hip_path {
        Some(h) => seq![h + "/include"@],
        None => match rocm_path {
            Some(r) => seq![r + "/include"@],
            None => Seq::empty(),
        },
    }
}

/// The ROCm include directory comes from `HIP_PATH` whenever it is set,
/// whatever `ROCM_PATH` is; from `ROCM_PATH` only when `HIP_PATH` is unset;
/// and there is none when neither is set.
pub proof fn law_include_dir_prefers_hip_path(hip_path: Option<Seq<char>>, rocm_path: Option<Seq<char>>)
    ensures
        hip_path is Some ==> rocm_include_dirs(hip_path, rocm_path) == seq![hip_path->0 + "/include"@],
        hip_path is None && rocm_path is Some ==> rocm_include_dirs(hip_path, rocm_path) == seq![
            rocm_path->0 + "/include"@,
        ],
        hip_path is None && rocm_path is None ==> rocm_include_dirs(hip_path, rocm_path).len() == 0,
        rocm_include_dirs(hip_path, rocm_path) == rocm_include_dirs(hip_path, None) || hip_path is None,
{
}

/// The flags a debug build adds first.
pub open spec fn debug_flags(debug: bool) -> Seq<Seq<char>> {
    if debug {
        seq!["-g"@, "-O0"@]
    } else {
        Seq::empty()
    }
}

/// One `--offload-arch=` flag per target architecture.
pub open spec fn offload_flags(archs: Seq<Seq<char>>) -> Seq<Seq<char>> {
    archs.map_values(|a: Seq<char>| "--offload-arch="@ + a)
}

/// The optimization level: the builder's, else `0` for a debug build,
/// else `HIP_OPT_LEVEL`, else `3`.
pub open spec fn opt_level_for(own: Option<Seq<char>>, env: Option<Seq<char>>, debug: bool) -> Seq<char> {
    match own {
        Some(l) => l,
        None => if debug {
            "0"@
        } else {
            match env {
                Some(e) => e,
                None => "3"@,
            }
        },
    }
}

/// The link directives for the given search paths and libraries.
pub open spec fn link_lines(search: Seq<Seq<char>>, libs: Seq<Seq<char>>) -> Seq<Seq<char>> {
    search.map_values(|p: Seq<char>| "cargo:rustc-link-search=native="@ + p) + libs.map_values(
        |l: Seq<char>| "cargo:rustc-link-lib="@ + l,
    )
}

/// `s` followed by `t`.
fn concat_str(s: &str, t: &str) -> (r: String)
    ensures
        r@ == s@ + t@,
{
    String::from_str(s).concat(t)
}

/// Appends `prefix + x` for each `x` of `items`.
fn push_prefixed(out: &mut Vec<String>, prefix: &str, items: &Vec<String>)
    ensures
        views(final(out)@) == views(old(out)@) + views(items@).map_values(|x: Seq<char>| prefix@ + x),
{
    let ghost start = views(out@);
    let mut i: usize = 0;
    while i < items.len()
        invariant
            0 <= i <= items@.len(),
            views(out@) == start + views(items@).take(i as int).map_values(|x: Seq<char>| prefix@ + x),
        decreases items@.len() - i,
    {
        let line = concat_str(prefix, items[i].as_str());
        let ghost before = views(out@);
        out.push(line);
        proof {
            assert(views(out@) =~= before.push(line@));
            assert(views(items@).take(i + 1).map_values(|x: Seq<char>| prefix@ + x) =~= views(
                items@,
            ).take(i as int).map_values(|x: Seq<char>| prefix@ + x).push(prefix@ + items@[i as int]@));
        }
        i = i + 1;
    }
    proof {
        assert(views(items@).take(items@.len() as int) =~= views(items@));
    }
}

/// A copy of a vector of strings.
fn clone_strings(v: &Vec<String>) -> (r: Vec<String>)
    ensures
        views(r@) == views(v@),
{
    let mut r: Vec<String> = Vec::new();
    let mut i: usize = 0;
    while i < v.len()
        invariant
            0 <= i <= v@.len(),
            views(r@) == views(v@).take(i as int),
        decreases v@.len() - i,
    {
        let ghost before = views(r@);
        r.push(v[i].clone());
        proof {
            assert(views(r@) =~= before.push(v@[i as int]@));
            assert(views(v@).take(i + 1) =~= views(v@).take(i as int).push(v@[i as int]@));
        }
        i = i + 1;
    }
    proof {
        assert(views(v@).take(v@.len() as int) =~= views(v@));
    }
    r
}

/// Whether `HIP_DEBUG` asks for a debug build (its value is `1`).
pub fn hip_debug_enabled(value: Option<&str>) -> (b: bool)
    ensures
        b == debug_requested(opt_view(value)),
{
    match value {
        Some(v) => {
            let r = crate::builder::str_equals(v, "1");
            proof {
                reveal_strlit("1");
            }
            r
        },
        None => false,
    }
}

impl HipBuilder {
    /// Checks that the build has a library name and at least one source.
    pub fn validate(&self) -> (r: Result<(), BuildError>)
        ensures
            self.library_name@.len() == 0 ==> r == Err::<(), BuildError>(BuildError::MissingLibraryName),
            self.library_name@.len() > 0 && self.source_files@.len() == 0 ==> r == Err::<(), BuildError>(
                BuildError::NoSourceFiles,
            ),
            self.library_name@.len() > 0 && self.source_files@.len() > 0 ==> r is Ok,
    {
        if self.library_name.as_str().unicode_len() == 0 {
            return Err(BuildError::MissingLibraryName);
        }
        if self.source_files.len() == 0 {
            return Err(BuildError::NoSourceFiles);
        }
        Ok(())
    }

    /// The rerun directives: for the environment variables a build reads,
    /// then for each watched path.
    pub fn rerun_directives(&self) -> (lines: Vec<String>)
        ensures
            views(lines@) == rerun_env_lines() + views(self.watch_paths@).map_values(
                |p: Seq<char>| rerun_if_changed_line(p),
            ),
    {
        let mut lines: Vec<String> = Vec::new();
        push_str(&mut lines, "cargo:rerun-if-env-changed=HIP_ARCH");
        push_str(&mut lines, "cargo:rerun-if-env-changed=HIP_OPT_LEVEL");
        push_str(&mut lines, "cargo:rerun-if-env-changed=HIP_DEBUG");
        push_str(&mut lines, "cargo:rerun-if-env-changed=HIP_THREADS");
        push_str(&mut lines, "cargo:rerun-if-env-changed=HIP_PATH");
        push_str(&mut lines, "cargo:rerun-if-env-changed=ROCM_PATH");
        assert(views(lines@) =~= rerun_env_lines());
        push_prefixed(&mut lines, "cargo:rerun-if-changed=", &self.watch_paths);
        assert(views(self.watch_paths@).map_values(|x: Seq<char>| "cargo:rerun-if-changed="@ + x)
            =~= views(self.watch_paths@).map_values(|p: Seq<char>| rerun_if_changed_line(p)));
        lines
    }

    /// The target architectures: the builder's when it has any; otherwise
    /// the comma-separated, trimmed, non-empty entries of `HIP_ARCH` when
    /// it is set; otherwise `None`, and the architecture is to be detected.
    pub fn resolve_hip_archs(&self, env_hip_arch: Option<&str>) -> (r: Option<Vec<String>>)
        ensures
            self.hip_arch@.len() > 0 ==> (r matches Some(v) && views(v@) == views(self.hip_arch@)),
            self.hip_arch@.len() == 0 ==> match env_hip_arch {
                Some(e) => r matches Some(v) && views(v@) == nonempty_trimmed(split(e@, ',')),
                None => r is None,
            },
    {
        if self.hip_arch.len() > 0 {
            return Some(clone_strings(&self.hip_arch));
        }
        match env_hip_arch {
            Some(e) => Some(split_trimmed_nonempty(e, ',')),
            None => None,
        }
    }

    /// The optimization level the build uses.
    pub fn opt_level(&self, env_opt_level: Option<&str>, debug: bool) -> (l: String)
        ensures
            l@ == opt_level_for(opt_string_view(self.hip_opt_level), opt_view(env_opt_level), debug),
    {
        match &self.hip_opt_level {
            Some(l) => l.clone(),
            None => if debug {
                String::from_str("0")
            } else {
                match env_opt_level {
                    Some(e) => String::from_str(e),
                    None => String::from_str("3"),
                }
            },
        }
    }

    /// What the compiler is run with, for the target architectures
    /// `archs`, the compiler `hipcc` and the parallel-jobs flag `jobs_flag`:
    /// the builder's include paths and then the ROCm include directory;
    /// the debug flags when `HIP_DEBUG=1`, the custom flags, one
    /// `--offload-arch=` per architecture, the jobs flag and `-O<level>`;
    /// debug information exactly at level `0`; the sources and the name.
    pub fn compile_plan(&self, env: &BuildEnv, archs: &Vec<String>, hipcc: &str, jobs_flag: &str) -> (plan: CompilePlan)
        ensures
            plan.compiler@ == hipcc@,
            views(plan.include_dirs@) == views(self.include_paths@) + rocm_include_dirs(
                opt_string_view(env.hip_path),
                opt_string_view(env.rocm_path),
            ),
            ({
                let debug = debug_requested(opt_string_view(env.hip_debug));
                let level = opt_level_for(
                    opt_string_view(self.hip_opt_level),
                    opt_string_view(env.hip_opt_level),
                    debug,
                );
                &&& views(plan.flags@) == debug_flags(debug) + views(self.custom_flags@) + offload_flags(
                    views(archs@),
                ) + seq![jobs_flag@, "-O"@ + level]
                &&& plan.define_hip_debug == debug
                &&& plan.debug_info == (level == "0"@)
            }),
            views(plan.files@) == views(self.source_files@),
            plan.library_name@ == self.library_name@,
    {
        let debug = match &env.hip_debug {
            Some(v) => hip_debug_enabled(Some(v.as_str())),
            None => hip_debug_enabled(None),
        };
        let mut include_dirs = clone_strings(&self.include_paths);
        let ghost inc0 = views(include_dirs@);
        match &env.hip_path {
            Some(h) => {
                let d = concat_str(h.as_str(), "/include");
                include_dirs.push(d);
                assert(views(include_dirs@) =~= inc0.push(d@));
            },
            None => match &env.rocm_path {
                Some(r) => {
                    let d = concat_str(r.as_str(), "/include");
                    include_dirs.push(d);
                    assert(views(include_dirs@) =~= inc0.push(d@));
                },
                None => {
                    assert(views(include_dirs@) =~= inc0 + Seq::<Seq<char>>::empty());
                },
            },
        }
        let mut flags: Vec<String> = Vec::new();
        if debug {
            push_str(&mut flags, "-g");
            push_str(&mut flags, "-O0");
        }
        assert(views(flags@) =~= debug_flags(debug));
        let ghost f0 = views(flags@);
        let mut i: usize = 0;
        while i < self.custom_flags.len()
            invariant
                0 <= i <= self.custom_flags@.len(),
                views(flags@) == f0 + views(self.custom_flags@).take(i as int),
            decreases self.custom_flags@.len() - i,
        {
            let ghost before = views(flags@);
            flags.push(self.custom_flags[i].clone());
            proof {
                assert(views(flags@) =~= before.push(self.custom_flags@[i as int]@));
                assert(views(self.custom_flags@).take(i + 1) =~= views(self.custom_flags@).take(
                    i as int,
                ).push(self.custom_flags@[i as int]@));
            }
            i = i + 1;
        }
        assert(views(self.custom_flags@).take(self.custom_flags@.len() as int) =~= views(
            self.custom_flags@,
        ));
        push_prefixed(&mut flags, "--offload-arch=", archs);
        assert(views(archs@).map_values(|x: Seq<char>| "--offload-arch="@ + x) =~= offload_flags(
            views(archs@),
        ));
        let ghost f1 = views(flags@);
        push_str(&mut flags, jobs_flag);
        let env_level = match &env.hip_opt_level {
            Some(l) => Some(l.as_str()),
            None => None,
        };
        let level = self.opt_level(env_level, debug);
        let opt_flag = concat_str("-O", level.as_str());
        let ghost f2 = views(flags@);
        flags.push(opt_flag);
        assert(views(flags@) =~= f2.push(opt_flag@));
        let debug_info = crate::builder::str_equals(level.as_str(), "0");
        proof {
            assert(opt_view(env_level) == opt_string_view(env.hip_opt_level));
        }
        CompilePlan {
            compiler: String::from_str(hipcc),
            include_dirs,
            flags,
            define_hip_debug: debug,
            debug_info,
            files: clone_strings(&self.source_files),
            library_name: self.library_name.clone(),
        }
    }

    /// The link directives: a native search path per search directory,
    /// then one per library.
    pub fn link_directives(&self) -> (lines: Vec<String>)
        ensures
            views(lines@) == link_lines(views(self.link_search_paths@), views(self.link_libraries@)),
    {
        let mut lines: Vec<String> = Vec::new();
        push_prefixed(&mut lines, "cargo:rustc-link-search=native=", &self.link_search_paths);
        push_prefixed(&mut lines, "cargo:rustc-link-lib=", &self.link_libraries);
        assert(views(lines@) =~= link_lines(views(self.link_search_paths@), views(self.link_libraries@)));
        lines
    }
}

} // verus!

verus! {

/// The number of parallel compiler jobs: `HIP_THREADS` when it parses as
/// a number, otherwise the available parallelism, otherwise 1.
pub open spec fn jobs_for(available: Option<usize>, env_threads: Option<Seq<char>>) -> nat {
    match env_threads {
        Some(t) if parse_usize(t) is Some => parse_usize(t)->0 as nat,
        _ => match available {
            Some(n) => n as nat,
            None => 1,
        },
    }
}

/// The job count follows `HIP_THREADS` when it is a non-negative decimal
/// number that fits a `usize` (optionally after one `+`), and the available
/// parallelism otherwise (1 when that is unknown): in particular when
/// `HIP_THREADS` is unset, empty, or holds a character that is not a digit
/// past its first.
pub proof fn law_jobs_follow_threads_or_parallelism(available: Option<usize>, env_threads: Option<Seq<char>>)
    ensures
        env_threads is None ==> jobs_for(available, env_threads) == match available {
            Some(n) => n as nat,
            None => 1nat,
        },
        env_threads is Some ==> ({
            let t = env_threads->0;
            t.len() > 0 && all_digits(t) && digits_value(t) <= usize::MAX ==> jobs_for(available, env_threads)
                == digits_value(t)
        }),
        env_threads is Some ==> ({
            let t = env_threads->0;
            t.len() > 1 && t[0] == '+' && all_digits(t.drop_first()) && digits_value(t.drop_first())
                <= usize::MAX ==> jobs_for(available, env_threads) == digits_value(t.drop_first())
        }),
        env_threads is Some ==> ({
            let t = env_threads->0;
            t.len() == 0 || (exists|k: int| 1 <= k < t.len() && !is_digit(#[trigger] t[k])) || (!is_digit(t[0])
                && t[0] != '+') ==> jobs_for(available, env_threads) == match available {
                Some(n) => n as nat,
                None => 1nat,
            }
        }),
{
    if let Some(t) = env_threads {
        if t.len() > 0 && t[0] == '+' {
            if exists|k: int| 1 <= k < t.len() && !is_digit(#[trigger] t[k]) {
                let k = choose|k: int| 1 <= k < t.len() && !is_digit(#[trigger] t[k]);
                assert(t.drop_first()[k - 1] == t[k]);
            }
        }
        if t.len() > 0 && is_digit(t[0]) {
            assert(t[0] != '+');
        }
    }
}

/// The parallel-jobs flag `-j<N>` for the compiler.
pub fn hipcc_parallel_jobs(available: Option<usize>, env_threads: Option<&str>) -> (flag: String)
    ensures
        flag@ == "-j"@ + decimal(jobs_for(available, opt_view(env_threads))),
{
    let parsed = match env_threads {
        Some(t) => parse_usize_str(t),
        None => None,
    };
    let threads: usize = match parsed {
        Some(n) => n,
        None => match available {
            Some(n) => n,
            None => 1,
        },
    };
    concat_str("-j", decimal_string(threads).as_str())
}

/// The directive that reruns a build when `path` changes.
pub fn rerun_if_changed(path: &str) -> (line: String)
    ensures
        line@ == rerun_if_changed_line(path@),
{
    concat_str("cargo:rerun-if-changed=", path)
}

/// `root/bin/<tool>` for a set root.
pub open spec fn tool_under(root: Option<Seq<char>>, tool: Seq<char>) -> Seq<Seq<char>> {
    match root {
        Some(r) => seq![r + "/bin/"@ + tool],
        None => Seq::empty(),
    }
}

/// The standard ROCm locations of a tool.
pub open spec fn standard_tool_paths(tool: Seq<char>) -> Seq<Seq<char>> {
    seq!["/opt/rocm/bin/"@ + tool, "/usr/local/rocm/bin/"@ + tool]
}

/// Where a tool is looked for after `PATH`, in order: under `HIP_PATH`,
/// under `ROCM_PATH`, then the standard locations (`roots_first`), or the
/// standard locations first and then the two roots.
pub open spec fn tool_candidates(hip_path: Option<Seq<char>>, rocm_path: Option<Seq<char>>, tool: Seq<char>, roots_first: bool) -> Seq<Seq<char>> {
    if roots_first {
        tool_under(hip_path, tool) + tool_under(rocm_path, tool) + standard_tool_paths(tool)
    } else {
        standard_tool_paths(tool) + tool_under(hip_path, tool) + tool_under(rocm_path, tool)
    }
}

fn push_tool_under(out: &mut Vec<String>, root: Option<&str>, tool: &str)
    ensures
        views(final(out)@) == views(old(out)@) + tool_under(opt_view(root), tool@),
{
    let ghost before = views(out@);
    match root {
        Some(r) => {
            let p = concat_str(concat_str(r, "/bin/").as_str(), tool);
            out.push(p);
            assert(views(out@) =~= before + tool_under(opt_view(root), tool@));
        },
        None => {
            assert(views(out@) =~= before + tool_under(opt_view(root), tool@));
        },
    }
}

fn push_standard_paths(out: &mut Vec<String>, tool: &str)
    ensures
        views(final(out)@) == views(old(out)@) + standard_tool_paths(tool@),
{
    let ghost before = views(out@);
    out.push(concat_str("/opt/rocm/bin/", tool));
    out.push(concat_str("/usr/local/rocm/bin/", tool));
    assert(views(out@) =~= before + standard_tool_paths(tool@));
}

/// The candidate locations of `tool`, in the order they are tried.
pub fn tool_search_paths(hip_path: Option<&str>, rocm_path: Option<&str>, tool: &str, roots_first: bool) -> (paths: Vec<String>)
    ensures
        views(paths@) == tool_candidates(opt_view(hip_path), opt_view(rocm_path), tool@, roots_first),
{
    let mut paths: Vec<String> = Vec::new();
    assert(views(paths@) =~= Seq::<Seq<char>>::empty());
    if roots_first {
        push_tool_under(&mut paths, hip_path, tool);
        push_tool_under(&mut paths, rocm_path, tool);
        push_standard_paths(&mut paths, tool);
    } else {
        push_standard_paths(&mut paths, tool);
        push_tool_under(&mut paths, hip_path, tool);
        push_tool_under(&mut paths, rocm_path, tool);
    }
    proof {
        let h = tool_under(opt_view(hip_path), tool@);
        let r = tool_under(opt_view(rocm_path), tool@);
        let st = standard_tool_paths(tool@);
        assert(Seq::<Seq<char>>::empty() + h + r + st =~= h + r + st);
        assert(Seq::<Seq<char>>::empty() + st + h + r =~= st + h + r);
    }
    paths
}

/// The first candidate that exists, if any.
pub open spec fn first_existing(candidates: Seq<Seq<char>>, exists: Seq<bool>) -> Option<Seq<char>>
    decreases candidates.len(),
{
    if candidates.len() == 0 || exists.len() == 0 {
        None
    } else if exists[0] {
        Some(candidates[0])
    } else {
        first_existing(candidates.drop_first(), exists.drop_first())
    }
}

/// What probing each candidate on a disk that holds the files `on_disk`
/// reports.
pub open spec fn probe(candidates: Seq<Seq<char>>, on_disk: Set<Seq<char>>) -> Seq<bool> {
    candidates.map_values(|c: Seq<char>| on_disk.contains(c))
}

/// The first existing candidate is the candidate at the least position,
/// among those both sequences cover, whose probe says it exists; there is
/// none exactly when no covered probe says so.
pub proof fn law_first_existing_is_first(candidates: Seq<Seq<char>>, exists: Seq<bool>)
    ensures
        first_existing(candidates, exists) matches Some(p) ==> exists|i: int|
            0 <= i < candidates.len() && i < exists.len() && #[trigger] exists[i] && candidates[i] == p
                && forall|j: int| 0 <= j < i ==> !exists[j],
        first_existing(candidates, exists) is None ==> forall|i: int|
            0 <= i < candidates.len() && i < exists.len() ==> !#[trigger] exists[i],
    decreases candidates.len(),
{
    if candidates.len() > 0 && exists.len() > 0 {
        let cs = candidates.drop_first();
        let ex = exists.drop_first();
        law_first_existing_is_first(cs, ex);
        if exists[0] {
            assert(exists[0] && candidates[0] == candidates[0]);
        } else {
            assert(first_existing(candidates, exists) == first_existing(cs, ex));
            if let Some(p) = first_existing(cs, ex) {
                let i = choose|i: int|
                    0 <= i < cs.len() && i < ex.len() && #[trigger] ex[i] && cs[i] == p
                        && forall|j: int| 0 <= j < i ==> !ex[j];
                assert(exists[i + 1] && candidates[i + 1] == p);
                assert forall|j: int| 0 <= j < i + 1 implies !exists[j] by {
                    if j > 0 {
                        assert(exists[j] == ex[j - 1]);
                    }
                }
            } else {
                assert forall|i: int| 0 <= i < candidates.len() && i < exists.len() implies !#[trigger] exists[i] by {
                    if i > 0 {
                        assert(exists[i] == ex[i - 1]);
                    }
                }
            }
        }
    }
}

/// Whether a tool is found: it runs from `PATH`, or one of its candidate
/// locations exists.
pub open spec fn tool_found(on_path: bool, candidates: Seq<Seq<char>>, on_disk: Set<Seq<char>>) -> bool {
    on_path || first_existing(candidates, probe(candidates, on_disk)) is Some
}

/// The first existing candidate is found exactly when some candidate exists.
pub proof fn lemma_first_existing_some(candidates: Seq<Seq<char>>, on_disk: Set<Seq<char>>)
    ensures
        first_existing(candidates, probe(candidates, on_disk)) is Some <==> exists|i: int|
            0 <= i < candidates.len() && on_disk.contains(#[trigger] candidates[i]),
    decreases candidates.len(),
{
    if candidates.len() > 0 {
        let rest = candidates.drop_first();
        assert(probe(candidates, on_disk).drop_first() =~= probe(rest, on_disk));
        lemma_first_existing_some(rest, on_disk);
        if exists|i: int| 0 <= i < candidates.len() && on_disk.contains(#[trigger] candidates[i]) {
            let i = choose|i: int| 0 <= i < candidates.len() && on_disk.contains(#[trigger] candidates[i]);
            if i > 0 {
                assert(rest[i - 1] == candidates[i]);
            }
        }
        if exists|i: int| 0 <= i < rest.len() && on_disk.contains(#[trigger] rest[i]) {
            let i = choose|i: int| 0 <= i < rest.len() && on_disk.contains(#[trigger] rest[i]);
            assert(candidates[i + 1] == rest[i]);
        }
    }
}

/// Whether a tool is found does not depend on the order its locations are
/// tried in: with the same programs on `PATH` and the same files on disk,
/// trying `HIP_PATH` and `ROCM_PATH` first finds the tool exactly when
/// trying the standard locations first does.
pub proof fn law_tool_found_in_either_order(
    on_path: bool,
    hip_path: Option<Seq<char>>,
    rocm_path: Option<Seq<char>>,
    tool: Seq<char>,
    on_disk: Set<Seq<char>>,
)
    ensures
        tool_found(on_path, tool_candidates(hip_path, rocm_path, tool, true), on_disk) == tool_found(
            on_path,
            tool_candidates(hip_path, rocm_path, tool, false),
            on_disk,
        ),
{
    let h = tool_under(hip_path, tool);
    let r = tool_under(rocm_path, tool);
    let st = standard_tool_paths(tool);
    let a = tool_candidates(hip_path, rocm_path, tool, true);
    let b = tool_candidates(hip_path, rocm_path, tool, false);
    assert(a == h + r + st);
    assert(b == st + h + r);
    lemma_first_existing_some(a, on_disk);
    lemma_first_existing_some(b, on_disk);
    if exists|i: int| 0 <= i < a.len() && on_disk.contains(#[trigger] a[i]) {
        let i = choose|i: int| 0 <= i < a.len() && on_disk.contains(#[trigger] a[i]);
        if i < h.len() + r.len() {
            assert(b[i + st.len()] == a[i]);
        } else {
            assert(b[i - h.len() - r.len()] == a[i]);
        }
    }
    if exists|i: int| 0 <= i < b.len() && on_disk.contains(#[trigger] b[i]) {
        let i = choose|i: int| 0 <= i < b.len() && on_disk.contains(#[trigger] b[i]);
        if i < st.len() {
            assert(a[i + h.len() + r.len()] == b[i]);
        } else {
            assert(a[i - st.len()] == b[i]);
        }
    }
}

/// Where a tool is found: `tool` itself when it runs from `PATH`
/// (`on_path`), otherwise the first candidate location that exists
/// (`exists[i]` tells whether `candidates[i]` does).
pub fn locate_tool(on_path: bool, tool: &str, candidates: &Vec<String>, exists: &Vec<bool>) -> (r: Option<String>)
    ensures
        on_path ==> opt_string_view(r) == Some(tool@),
        !on_path ==> opt_string_view(r) == first_existing(views(candidates@), exists@),
{
    if on_path {
        return Some(String::from_str(tool));
    }
    let mut i: usize = 0;
    proof {
        assert(views(candidates@).skip(0) =~= views(candidates@));
        assert(exists@.skip(0) =~= exists@);
    }
    while i < candidates.len() && i < exists.len()
        invariant
            !on_path,
            0 <= i <= candidates@.len(),
            i <= exists@.len(),
            first_existing(views(candidates@), exists@) == first_existing(
                views(candidates@).skip(i as int),
                exists@.skip(i as int),
            ),
        decreases candidates@.len() - i,
    {
        proof {
            assert(views(candidates@).skip(i as int).drop_first() =~= views(candidates@).skip(i + 1));
            assert(exists@.skip(i as int).drop_first() =~= exists@.skip(i + 1));
        }
        if exists[i] {
            proof {
                assert(views(candidates@).skip(i as int)[0] == candidates@[i as int]@);
            }
            return Some(candidates[i].clone());
        }
        i = i + 1;
    }
    None
}

/// The architecture `hipconfig --amdgpu-target` reported: its trimmed
/// output when that begins with `gfx`.
pub open spec fn hipconfig_arch_of(out: Seq<char>) -> Option<Seq<char>> {
    if starts_with(trim(out), "gfx"@) {
        Some(trim(out))
    } else {
        None
    }
}

/// The architecture named on a `rocminfo` line: a trimmed line that
/// begins with `Name:` and whose rest, trimmed, begins with `gfx`.
pub open spec fn name_line_arch(line: Seq<char>) -> Option<Seq<char>> {
    let t = trim(line);
    if starts_with(t, "Name:"@) {
        let name = trim(t.subrange("Name:"@.len() as int, t.len() as int));
        if starts_with(name, "gfx"@) {
            Some(name)
        } else {
            None
        }
    } else {
        None
    }
}

/// The architecture of the first line that names one.
pub open spec fn first_arch(lines: Seq<Seq<char>>) -> Option<Seq<char>>
    decreases lines.len(),
{
    if lines.len() == 0 {
        None
    } else if name_line_arch(lines[0]) is Some {
        name_line_arch(lines[0])
    } else {
        first_arch(lines.drop_first())
    }
}

/// The architecture `rocminfo` reported: the first of its lines that
/// names a `gfx` architecture.
pub open spec fn rocminfo_arch_of(out: Seq<char>) -> Option<Seq<char>> {
    first_arch(split(out, '\n'))
}

/// Reads the architecture from the output of `hipconfig --amdgpu-target`.
pub fn hipconfig_arch(out: &str) -> (r: Option<String>)
    ensures
        opt_string_view(r) == hipconfig_arch_of(out@),
{
    let t = trim_str(out);
    if str_starts_with(t, "gfx") {
        Some(String::from_str(t))
    } else {
        None
    }
}

/// Reads the architecture from one line of `rocminfo` output.
pub fn line_arch(line: &str) -> (r: Option<String>)
    ensures
        opt_string_view(r) == name_line_arch(line@),
{
    let t = trim_str(line);
    if !str_starts_with(t, "Name:") {
        return None;
    }
    proof {
        reveal_strlit("Name:");
    }
    let rest = t.substring_char(5, t.unicode_len());
    let name = trim_str(rest);
    if str_starts_with(name, "gfx") {
        Some(String::from_str(name))
    } else {
        None
    }
}

proof fn lemma_first_arch(lines: Seq<Seq<char>>, m: int)
    requires
        0 <= m <= lines.len(),
        forall|k: int| 0 <= k < m ==> name_line_arch(#[trigger] lines[k]) is None,
    ensures
        first_arch(lines) == first_arch(lines.subrange(m, lines.len() as int)),
    decreases m,
{
    if m > 0 {
        lemma_first_arch(lines.drop_first(), m - 1);
        assert(lines.drop_first().subrange(m - 1, lines.len() - 1) =~= lines.subrange(m, lines.len() as int));
    } else {
        assert(lines.subrange(0, lines.len() as int) =~= lines);
    }
}

/// Reads the architecture from the output of `rocminfo`.
pub fn rocminfo_arch(out: &str) -> (r: Option<String>)
    ensures
        opt_string_view(r) == rocminfo_arch_of(out@),
{
    let n = out.unicode_len();
    let mut start: usize = 0;
    let mut i: usize = 0;
    let ghost mut done: Seq<Seq<char>> = Seq::empty();
    proof {
        assert(out@.take(0) =~= Seq::<char>::empty());
        assert(out@.subrange(0, 0) =~= Seq::<char>::empty());
    }
    while i < n
        invariant
            n == out@.len(),
            0 <= start <= i <= n,
            split(out@.take(i as int), '\n') == done.push(out@.subrange(start as int, i as int)),
            forall|k: int| 0 <= k < done.len() ==> name_line_arch(#[trigger] done[k]) is None,
        decreases n - i,
    {
        let c = out.get_char(i);
        proof {
            lemma_split_step(out@, '\n', i as int, done, start as int);
        }
        if c == '\n' {
            let piece = out.substring_char(start, i);
            let found = line_arch(piece);
            if found.is_some() {
                proof {
                    let all = split(out@, '\n');
                    let pre = done.push(piece@);
                    lemma_split_prefix(out@, '\n', i + 1);
                    assert forall|k: int| 0 <= k < done.len() implies name_line_arch(#[trigger] all[k]) is None by {
                        assert(all[k] == pre.push(out@.subrange(i + 1, i + 1))[k]);
                    }
                    assert(all[done.len() as int] == pre.push(out@.subrange(i + 1, i + 1))[done.len() as int]);
                    lemma_first_arch(all, done.len() as int);
                }
                return found;
            }
            proof {
                assert forall|k: int| 0 <= k < done.len() + 1 implies name_line_arch(#[trigger] done.push(piece@)[k]) is None by {
                    if k < done.len() {
                        assert(done.push(piece@)[k] == done[k]);
                    }
                }
                done = done.push(piece@);
            }
            start = i + 1;
        }
        i = i + 1;
    }
    let piece = out.substring_char(start, n);
    proof {
        assert(out@.take(n as int) =~= out@);
        let all = split(out@, '\n');
        assert(all == done.push(piece@));
        assert forall|k: int| 0 <= k < done.len() implies name_line_arch(#[trigger] all[k]) is None by {
            assert(all[k] == done[k]);
        }
        lemma_first_arch(all, done.len() as int);
        let rest = all.subrange(done.len() as int, all.len() as int);
        assert(rest =~= seq![piece@]);
        assert(rest.drop_first() =~= Seq::<Seq<char>>::empty());
        assert(first_arch(rest.drop_first()) is None);
        assert(rest[0] == piece@);
        assert(first_arch(rest) == name_line_arch(piece@));
    }
    line_arch(piece)
}

/// The architecture of the GPU: what `hipconfig --amdgpu-target` reports
/// when it ran and reports a `gfx` target, otherwise what `rocminfo`
/// reports. `None` when neither ran or names one.
pub fn detect_hip_arch(hipconfig_out: Option<&str>, rocminfo_out: Option<&str>) -> (r: Option<String>)
    ensures
        opt_string_view(r) == match hipconfig_out {
            Some(h) if hipconfig_arch_of(h@) is Some => hipconfig_arch_of(h@),
            _ => match rocminfo_out {
                Some(o) => rocminfo_arch_of(o@),
                None => None,
            },
        },
{
    if let Some(h) = hipconfig_out {
        let a = hipconfig_arch(h);
        if a.is_some() {
            return a;
        }
    }
    match rocminfo_out {
        Some(o) => rocminfo_arch(o),
        None => None,
    }
}

} // verus!
