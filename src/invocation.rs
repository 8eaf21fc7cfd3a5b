//! The compiler and tool invocations that the generated wrappers forward to
//! the external toolchain, with their argument lists rewritten.
use vstd::prelude::*;

use crate::linker::{filter_linker_arg, filtered_arg, str_views, target_model, TargetInfo, TargetModel};
use crate::text::{ends_with, is_prefix, is_suffix, starts_with, str_eq};
use crate::version::{at_least_minor, Version};

verus! {

/// A response-file token: the host driver's `@<path>` ending in `linker-arguments`.
pub open spec fn is_response_file_arg(arg: Seq<char>) -> bool {
    is_prefix("@"@, arg) && is_suffix("linker-arguments"@, arg)
}

/// Whether `arg` names a linker response file.
pub fn is_response_file(arg: &str) -> (r: bool)
    ensures
        r == is_response_file_arg(arg@),
{
    starts_with(arg, "@") && ends_with(arg, "linker-arguments")
}

/// `Some(j + k)` for `Some(j)`.
pub open spec fn shifted(o: Option<int>, k: int) -> Option<int> {
    match o {
        Some(j) => Some(j + k),
        None => None,
    }
}

/// The index just after the first occurrence of `key` in `args`, if `key`
/// occurs and is not the last element.
pub open spec fn after_first(args: Seq<Seq<char>>, key: Seq<char>) -> Option<int>
    decreases args.len(),
{
    if args.len() == 0 {
        None
    } else if args[0] == key {
        if args.len() >= 2 {
            Some(1)
        } else {
            None
        }
    } else {
        shifted(after_first(args.skip(1), key), 1)
    }
}

/// The value given to the first `-target` flag of a compiler command line.
pub open spec fn named_target(args: Seq<Seq<char>>) -> Option<Seq<char>> {
    match after_first(args, "-target"@) {
        Some(j) => Some(args[j]),
        None => None,
    }
}

/// The command line asks for undefined symbols to be looked up dynamically:
/// its first `-undefined` flag is followed by `dynamic_lookup`.
pub open spec fn requests_dynamic_lookup(args: Seq<Seq<char>>) -> bool {
    match after_first(args, "-undefined"@) {
        Some(j) => args[j] == "dynamic_lookup"@,
        None => false,
    }
}

proof fn lemma_after_first_bounds(args: Seq<Seq<char>>, key: Seq<char>)
    ensures
        after_first(args, key) matches Some(j) ==> 1 <= j < args.len(),
    decreases args.len(),
{
    if args.len() > 0 && args[0] != key {
        lemma_after_first_bounds(args.skip(1), key);
    }
}

/// The index after the first occurrence of `key` in `args`.
pub fn index_after_first(args: &Vec<String>, key: &str) -> (r: Option<usize>)
    ensures
        r matches Some(j) ==> after_first(str_views(args@), key@) == Some(j as int),
        r is None ==> after_first(str_views(args@), key@) is None,
{
    let ghost v = str_views(args@);
    let n = args.len();
    let mut i: usize = 0;
    assert(v.skip(0) =~= v);
    while i < n
        invariant
            n == args@.len(),
            v == str_views(args@),
            i <= n,
            after_first(v, key@) == shifted(after_first(v.skip(i as int), key@), i as int),
        decreases n - i,
    {
        if str_eq(args[i].as_str(), key) {
            if i + 1 < n {
                return Some(i + 1);
            }
            return None;
        }
        assert(v.skip(i as int).skip(1) =~= v.skip(i + 1));
        i = i + 1;
    }
    None
}

/// The target named by `-target` on a compiler command line.
pub fn find_target(args: &Vec<String>) -> (r: Option<&String>)
    ensures
        match r {
            Some(s) => named_target(str_views(args@)) == Some(s@),
            None => named_target(str_views(args@)) is None,
        },
{
    proof {
        lemma_after_first_bounds(str_views(args@), "-target"@);
    }
    match index_after_first(args, "-target") {
        Some(j) => Some(&args[j]),
        None => None,
    }
}

/// Whether the arguments request dynamic lookup of undefined symbols.
pub fn has_undefined_dynamic_lookup(args: &Vec<String>) -> (r: bool)
    ensures
        r == requests_dynamic_lookup(str_views(args@)),
{
    proof {
        lemma_after_first_bounds(str_views(args@), "-undefined"@);
    }
    match index_after_first(args, "-undefined") {
        Some(j) => str_eq(args[j].as_str(), "dynamic_lookup"),
        None => false,
    }
}

/// Whether `s` is one of `args`.
pub fn contains_arg(args: &Vec<String>, s: &str) -> (r: bool)
    ensures
        r == str_views(args@).contains(s@),
{
    let n = args.len();
    let mut i: usize = 0;
    while i < n
        invariant
            n == args@.len(),
            i <= n,
            forall|j: int| 0 <= j < i ==> args@[j]@ != s@,
        decreases n - i,
    {
        if str_eq(args[i].as_str(), s) {
            assert(str_views(args@)[i as int] == s@);
            return true;
        }
        i = i + 1;
    }
    assert(!str_views(args@).contains(s@)) by {
        if str_views(args@).contains(s@) {
            let k = choose|k: int| 0 <= k < str_views(args@).len() && str_views(args@)[k] == s@;
            assert(args@[k]@ == s@);
        }
    }
    false
}

/// On Apple targets with a recent toolchain, `-liconv` also needs `-lcharset`
/// unless it is already there.
pub open spec fn wants_libcharset(args: Seq<Seq<char>>, zig: Version) -> bool {
    at_least_minor(zig, 0, 12) && args.contains("-liconv"@) && !args.contains("-lcharset"@)
}

/// Whether `-lcharset` must be added to the arguments.
pub fn should_add_libcharset(args: &Vec<String>, zig_version: &Version) -> (r: bool)
    ensures
        r == wants_libcharset(str_views(args@), *zig_version),
{
    zig_version.at_least_minor(0, 12) && contains_arg(args, "-liconv") && !contains_arg(
        args,
        "-lcharset",
    )
}

/// The linker argument list after every argument has been rewritten: a
/// response-file token stays as it is, the two-token exported-symbol-list flag
/// is dropped together with the argument after it, and any other argument is
/// replaced by what `filtered_arg` gives.
pub open spec fn rewritten_args(args: Seq<Seq<char>>, rustc: Version, zig: Version, t: TargetModel) -> Seq<
    Seq<char>,
>
    decreases args.len(),
{
    if args.len() == 0 {
        seq![]
    } else if args[0] == "-Wl,-exported_symbols_list"@ {
        if args.len() >= 2 {
            rewritten_args(args.skip(2), rustc, zig, t)
        } else {
            seq![]
        }
    } else if is_response_file_arg(args[0]) {
        seq![args[0]] + rewritten_args(args.skip(1), rustc, zig, t)
    } else {
        filtered_arg(args[0], rustc, zig, t) + rewritten_args(args.skip(1), rustc, zig, t)
    }
}

proof fn lemma_views_concat(a: Seq<String>, b: Seq<String>)
    ensures
        str_views(a + b) == str_views(a) + str_views(b),
{
    assert(str_views(a + b) =~= str_views(a) + str_views(b));
}

/// Rewrites a whole linker argument list, by `rewritten_args`.
pub fn rewrite_linker_args(
    args: &Vec<String>,
    rustc_ver: &Version,
    zig_version: &Version,
    target_info: &TargetInfo,
) -> (r: Vec<String>)
    ensures
        str_views(r@) == rewritten_args(str_views(args@), *rustc_ver, *zig_version, target_info@),
{
    let ghost v = str_views(args@);
    let ghost rw = |s: Seq<Seq<char>>| rewritten_args(s, *rustc_ver, *zig_version, target_info@);
    let n = args.len();
    let mut out: Vec<String> = Vec::new();
    let mut i: usize = 0;
    assert(v.skip(0) =~= v);
    assert(str_views(out@) + rw(v) =~= rw(v));
    while i < n
        invariant
            n == args@.len(),
            v == str_views(args@),
            i <= n,
            rw == (|s: Seq<Seq<char>>| rewritten_args(s, *rustc_ver, *zig_version, target_info@)),
            str_views(out@) + rw(v.skip(i as int)) == rw(v),
        decreases n - i,
    {
        let arg = args[i].as_str();
        let ghost rest = v.skip(i as int);
        assert(rest[0] == arg@);
        if str_eq(arg, "-Wl,-exported_symbols_list") {
            if i + 1 < n {
                assert(rest.skip(2) =~= v.skip(i + 2));
                i = i + 2;
            } else {
                assert(v.skip(n as int) =~= Seq::<Seq<char>>::empty());
                assert(rw(v.skip(n as int)) =~= Seq::<Seq<char>>::empty());
                i = n;
            }
        } else {
            let mut piece = if is_response_file(arg) {
                let mut p: Vec<String> = Vec::new();
                p.push(args[i].clone());
                assert(str_views(p@) =~= seq![arg@]);
                p
            } else {
                filter_linker_arg(arg, rustc_ver, zig_version, target_info)
            };
            proof {
                lemma_views_concat(out@, piece@);
                assert(rest.skip(1) =~= v.skip(i + 1));
            }
            out.append(&mut piece);
            i = i + 1;
            assert(str_views(out@) + rw(v.skip(i as int)) =~= rw(v));
        }
    }
    assert(v.skip(n as int) =~= Seq::<Seq<char>>::empty());
    assert(str_views(out@) + Seq::<Seq<char>>::empty() =~= str_views(out@));
    out
}

} // verus!

verus! {

/// `base` joined with the relative component `comp`, as a path.
pub open spec fn path_join(base: Seq<char>, comp: Seq<char>) -> Seq<char> {
    if base.len() == 0 {
        comp
    } else if is_suffix("/"@, base) {
        base + comp
    } else {
        base + "/"@ + comp
    }
}

/// Joins a relative path component onto `base`.
pub fn join_path(base: &str, comp: &str) -> (r: String)
    ensures
        r@ == path_join(base@, comp@),
{
    if base.unicode_len() == 0 {
        return String::from_str(comp);
    }
    let mut r = String::from_str(base);
    if !ends_with(base, "/") {
        r.append("/");
    }
    r.append(comp);
    r
}

fn concat(a: &str, b: &str) -> (r: String)
    ensures
        r@ == a@ + b@,
{
    let mut r = String::from_str(a);
    r.append(b);
    r
}

/// The system include, library and framework search flags for an Apple SDK
/// rooted at `sdk`, followed by the directory of stub libraries.
pub open spec fn macos_args(zig: Version, sdk: Option<Seq<char>>, deps_dir: Seq<char>) -> Seq<
    Seq<char>,
> {
    let sdk_args = match sdk {
        Some(s) => {
            let sysroot = if at_least_minor(zig, 0, 12) {
                seq!["--sysroot="@ + s]
            } else {
                seq![]
            };
            let p = if !at_least_minor(zig, 0, 14) {
                s
            } else {
                "/"@
            };
            let usr = path_join(p, "usr"@);
            sysroot + seq![
                "-isystem"@,
                path_join(usr, "include"@),
                "-L"@ + path_join(usr, "lib"@),
                "-F"@ + path_join(path_join(path_join(p, "System"@), "Library"@), "Frameworks"@),
                "-DTARGET_OS_IPHONE=0"@,
            ]
        },
        None => seq![],
    };
    sdk_args + seq!["-L"@, deps_dir]
}

/// What the external compiler needs besides the argument list: the host
/// compiler's and the toolchain's versions, the Apple SDK root if one is
/// configured (never empty), and the directory of stub libraries.
pub struct CompilerEnv {
    pub rustc_version: Version,
    pub zig_version: Version,
    pub sdk_root: Option<String>,
    pub deps_dir: String,
}

/// The SDK root of `env`, as characters.
pub open spec fn sdk_view(env: CompilerEnv) -> Option<Seq<char>> {
    match env.sdk_root {
        Some(s) => Some(s@),
        None => None,
    }
}

/// Appends the Apple-platform search flags to `args`.
pub fn add_macos_specific_args(args: &mut Vec<String>, env: &CompilerEnv)
    ensures
        str_views(final(args)@) == str_views(old(args)@) + macos_args(
            env.zig_version,
            sdk_view(*env),
            env.deps_dir@,
        ),
{
    let ghost start = str_views(args@);
    let zig = &env.zig_version;
    match &env.sdk_root {
        Some(sdk) => {
            if zig.at_least_minor(0, 12) {
                args.push(concat("--sysroot=", sdk.as_str()));
            }
            let prefix = if !zig.at_least_minor(0, 14) {
                sdk.as_str()
            } else {
                "/"
            };
            let usr = join_path(prefix, "usr");
            args.push(String::from_str("-isystem"));
            args.push(join_path(usr.as_str(), "include"));
            let lib = join_path(usr.as_str(), "lib");
            args.push(concat("-L", lib.as_str()));
            let system = join_path(prefix, "System");
            let library = join_path(system.as_str(), "Library");
            let frameworks = join_path(library.as_str(), "Frameworks");
            args.push(concat("-F", frameworks.as_str()));
            args.push(String::from_str("-DTARGET_OS_IPHONE=0"));
        },
        None => {},
    }
    args.push(String::from_str("-L"));
    args.push(String::from_str(env.deps_dir.as_str()));
    assert(str_views(args@) =~= start + macos_args(env.zig_version, sdk_view(*env), env.deps_dir@));
}

/// The full argument list handed to the external compiler: the rewritten
/// arguments, then the flags that the target and the request call for.
pub open spec fn compiler_args(args: Seq<Seq<char>>, env: CompilerEnv) -> Seq<Seq<char>> {
    let t = target_model(named_target(args));
    rewritten_args(args, env.rustc_version, env.zig_version, t) + (if t.is_mips32 {
        seq!["-Wl,-z,notext"@]
    } else {
        seq![]
    }) + (if requests_dynamic_lookup(args) {
        seq!["-Wl,-undefined=dynamic_lookup"@]
    } else {
        seq![]
    }) + (if t.is_macos {
        (if wants_libcharset(args, env.zig_version) {
            seq!["-lcharset"@]
        } else {
            seq![]
        }) + macos_args(env.zig_version, sdk_view(env), env.deps_dir@)
    } else {
        seq![]
    })
}

/// Builds the argument list for one external compiler invocation.
pub fn compiler_arguments(cmd_args: &Vec<String>, env: &CompilerEnv) -> (r: Vec<String>)
    ensures
        str_views(r@) == compiler_args(str_views(cmd_args@), *env),
{
    let target = find_target(cmd_args);
    let info = TargetInfo::new(target);
    let mut out = rewrite_linker_args(cmd_args, &env.rustc_version, &env.zig_version, &info);
    let ghost v = str_views(cmd_args@);
    let ghost a0 = str_views(out@);
    if info.is_mips32 {
        out.push(String::from_str("-Wl,-z,notext"));
    }
    let ghost a1 = str_views(out@);
    if has_undefined_dynamic_lookup(cmd_args) {
        out.push(String::from_str("-Wl,-undefined=dynamic_lookup"));
    }
    let ghost a2 = str_views(out@);
    if info.is_macos {
        if should_add_libcharset(cmd_args, &env.zig_version) {
            out.push(String::from_str("-lcharset"));
        }
        add_macos_specific_args(&mut out, env);
    }
    proof {
        assert(a1 =~= a0 + (if info.is_mips32 { seq!["-Wl,-z,notext"@] } else { seq![] }));
        assert(a2 =~= a1 + (if requests_dynamic_lookup(v) {
            seq!["-Wl,-undefined=dynamic_lookup"@]
        } else {
            seq![]
        }));
        assert(str_views(out@) =~= compiler_args(v, *env));
    }
    out
}

/// One command of the external toolchain: its subcommand and its arguments.
#[derive(Debug)]
pub struct ZigInvocation {
    pub subcommand: String,
    pub args: Vec<String>,
}

/// A tool that the generated wrappers emulate, with the arguments it was
/// invoked with.
#[derive(Debug)]
pub enum Zig {
    /// The C compiler.
    Cc { args: Vec<String> },
    /// The C++ compiler.
    Cxx { args: Vec<String> },
    /// The archiver.
    Ar { args: Vec<String> },
    /// The archive symbol-index tool.
    Ranlib { args: Vec<String> },
    /// The import-library tool.
    Lib { args: Vec<String> },
}

impl Zig {
    /// The toolchain subcommand that emulates this tool.
    pub open spec fn subcommand_spec(&self) -> Seq<char> {
        match self {
            Zig::Cc { .. } => "cc"@,
            Zig::Cxx { .. } => "c++"@,
            Zig::Ar { .. } => "ar"@,
            Zig::Ranlib { .. } => "ranlib"@,
            Zig::Lib { .. } => "lib"@,
        }
    }

    /// The arguments this tool was invoked with.
    pub open spec fn args_spec(&self) -> Seq<String> {
        match self {
            Zig::Cc { args } => args@,
            Zig::Cxx { args } => args@,
            Zig::Ar { args } => args@,
            Zig::Ranlib { args } => args@,
            Zig::Lib { args } => args@,
        }
    }

    /// Whether the arguments go through the linker-argument rewrite (every
    /// tool but the archiver).
    pub open spec fn filters_spec(&self) -> bool {
        !(self is Ar)
    }

    /// Whether the arguments go through the linker-argument rewrite.
    pub fn filters_arguments(&self) -> (r: bool)
        ensures
            r == self.filters_spec(),
    {
        match self {
            Zig::Ar { .. } => false,
            _ => true,
        }
    }

    /// The invocation of the external toolchain that carries out this tool:
    /// the archiver's arguments pass unchanged; the others are rewritten by
    /// `compiler_arguments`, which needs `env`.
    pub fn execute(&self, env: Option<&CompilerEnv>) -> (r: ZigInvocation)
        requires
            self.filters_spec() ==> env is Some,
        ensures
            r.subcommand@ == self.subcommand_spec(),
            !self.filters_spec() ==> r.args@ == self.args_spec(),
            self.filters_spec() ==> str_views(r.args@) == compiler_args(
                str_views(self.args_spec()),
                *env.unwrap(),
            ),
    {
        match self {
            Zig::Cc { args } => ZigInvocation {
                subcommand: String::from_str("cc"),
                args: compiler_arguments(args, env.unwrap()),
            },
            Zig::Cxx { args } => ZigInvocation {
                subcommand: String::from_str("c++"),
                args: compiler_arguments(args, env.unwrap()),
            },
            Zig::Ar { args } => ZigInvocation {
                subcommand: String::from_str("ar"),
                args: args.clone(),
            },
            Zig::Ranlib { args } => ZigInvocation {
                subcommand: String::from_str("ranlib"),
                args: compiler_arguments(args, env.unwrap()),
            },
            Zig::Lib { args } => ZigInvocation {
                subcommand: String::from_str("lib"),
                args: compiler_arguments(args, env.unwrap()),
            },
        }
    }
}

} // verus!

verus! {

/// The response-file tokens of a command line that the rewrite keeps (a
/// token right after the two-token exported-symbol-list flag is dropped with
/// it, so its file is left alone).
pub open spec fn kept_response_files(args: Seq<Seq<char>>) -> Seq<Seq<char>>
    decreases args.len(),
{
    if args.len() == 0 {
        seq![]
    } else if args[0] == "-Wl,-exported_symbols_list"@ {
        if args.len() >= 2 {
            kept_response_files(args.skip(2))
        } else {
            seq![]
        }
    } else if is_response_file_arg(args[0]) {
        seq![args[0]] + kept_response_files(args.skip(1))
    } else {
        kept_response_files(args.skip(1))
    }
}

/// The response files that a compiler command line hands to the linker and
/// whose contents must be rewritten.
pub fn response_files(args: &Vec<String>) -> (r: Vec<String>)
    ensures
        str_views(r@) == kept_response_files(str_views(args@)),
{
    let ghost v = str_views(args@);
    let n = args.len();
    let mut out: Vec<String> = Vec::new();
    let mut i: usize = 0;
    assert(v.skip(0) =~= v);
    assert(str_views(out@) + kept_response_files(v) =~= kept_response_files(v));
    while i < n
        invariant
            n == args@.len(),
            v == str_views(args@),
            i <= n,
            str_views(out@) + kept_response_files(v.skip(i as int)) == kept_response_files(v),
        decreases n - i,
    {
        let arg = args[i].as_str();
        let ghost rest = v.skip(i as int);
        assert(rest[0] == arg@);
        if str_eq(arg, "-Wl,-exported_symbols_list") {
            if i + 1 < n {
                assert(rest.skip(2) =~= v.skip(i + 2));
                i = i + 2;
            } else {
                assert(v.skip(n as int) =~= Seq::<Seq<char>>::empty());
                i = n;
            }
        } else {
            assert(rest.skip(1) =~= v.skip(i + 1));
            if is_response_file(arg) {
                let ghost before = str_views(out@);
                out.push(args[i].clone());
                assert(str_views(out@) =~= before + seq![arg@]);
            }
            i = i + 1;
            assert(str_views(out@) + kept_response_files(v.skip(i as int)) =~= kept_response_files(v));
        }
    }
    assert(v.skip(n as int) =~= Seq::<Seq<char>>::empty());
    assert(str_views(out@) + Seq::<Seq<char>>::empty() =~= str_views(out@));
    out
}

} // verus!
