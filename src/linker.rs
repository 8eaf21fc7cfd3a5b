//! Rewriting of the linker arguments that the host compiler driver emits, so
//! that the external toolchain accepts them.
use vstd::prelude::*;

use crate::text::{
    contains, ends_with, has_infix, is_prefix, is_suffix, replace_all, replaced, starts_with,
    str_eq,
};
use crate::version::{at_least_minor, Version};

verus! {

/// The character sequences of a list of strings.
pub open spec fn str_views(v: Seq<String>) -> Seq<Seq<char>> {
    v.map_values(|s: String| s@)
}

/// The target contains `p`.
pub open spec fn target_has(t: Option<Seq<char>>, p: Seq<char>) -> bool {
    t matches Some(s) && has_infix(s, p)
}

/// The target starts with `p`.
pub open spec fn target_starts(t: Option<Seq<char>>, p: Seq<char>) -> bool {
    t matches Some(s) && is_prefix(p, s)
}

/// What the filter needs to know of the external-toolchain target that a
/// compiler invocation names with `-target`.
#[derive(Debug)]
pub struct TargetInfo {
    pub target: Option<String>,
    pub is_musl: bool,
    pub is_windows_gnu: bool,
    pub is_windows_msvc: bool,
    pub is_arm: bool,
    pub is_i386: bool,
    pub is_x86: bool,
    pub is_s390x: bool,
    pub is_riscv64: bool,
    pub is_mips32: bool,
    pub is_macos: bool,
    pub is_ohos: bool,
}

/// The abstract content of a `TargetInfo`.
pub ghost struct TargetModel {
    pub target: Option<Seq<char>>,
    pub is_musl: bool,
    pub is_windows_gnu: bool,
    pub is_windows_msvc: bool,
    pub is_arm: bool,
    pub is_i386: bool,
    pub is_x86: bool,
    pub is_s390x: bool,
    pub is_riscv64: bool,
    pub is_mips32: bool,
    pub is_macos: bool,
    pub is_ohos: bool,
}

/// The classification of the target `t`.
pub open spec fn target_model(t: Option<Seq<char>>) -> TargetModel {
    TargetModel {
        target: t,
        is_musl: target_has(t, "musl"@),
        is_windows_gnu: target_has(t, "windows-gnu"@),
        is_windows_msvc: target_has(t, "windows-msvc"@),
        is_arm: target_starts(t, "arm"@),
        is_i386: target_starts(t, "i386"@),
        is_x86: target_starts(t, "x86-"@),
        is_s390x: target_starts(t, "s390x"@),
        is_riscv64: target_starts(t, "riscv64"@),
        is_mips32: target_starts(t, "mips"@) && !target_starts(t, "mips64"@),
        is_macos: target_has(t, "macos"@),
        is_ohos: target_has(t, "ohos"@),
    }
}

impl View for TargetInfo {
    type V = TargetModel;

    open spec fn view(&self) -> TargetModel {
        TargetModel {
            target: match self.target {
                Some(s) => Some(s@),
                None => None,
            },
            is_musl: self.is_musl,
            is_windows_gnu: self.is_windows_gnu,
            is_windows_msvc: self.is_windows_msvc,
            is_arm: self.is_arm,
            is_i386: self.is_i386,
            is_x86: self.is_x86,
            is_s390x: self.is_s390x,
            is_riscv64: self.is_riscv64,
            is_mips32: self.is_mips32,
            is_macos: self.is_macos,
            is_ohos: self.is_ohos,
        }
    }
}

fn opt_contains(t: Option<&String>, p: &str) -> (r: bool)
    ensures
        r == (t matches Some(s) && has_infix(s@, p@)),
{
    match t {
        Some(s) => contains(s.as_str(), p),
        None => false,
    }
}

fn opt_starts_with(t: Option<&String>, p: &str) -> (r: bool)
    ensures
        r == (t matches Some(s) && is_prefix(p@, s@)),
{
    match t {
        Some(s) => starts_with(s.as_str(), p),
        None => false,
    }
}

impl TargetInfo {
    /// Classifies the target named on a compiler command line, if any.
    pub fn new(target: Option<&String>) -> (r: Self)
        ensures
            r@ == target_model(
                match target {
                    Some(s) => Some(s@),
                    None => None,
                },
            ),
    {
        let owned = match target {
            Some(s) => Some(s.clone()),
            None => None,
        };
        TargetInfo {
            target: owned,
            is_musl: opt_contains(target, "musl"),
            is_windows_gnu: opt_contains(target, "windows-gnu"),
            is_windows_msvc: opt_contains(target, "windows-msvc"),
            is_arm: opt_starts_with(target, "arm"),
            is_i386: opt_starts_with(target, "i386"),
            is_x86: opt_starts_with(target, "x86-"),
            is_s390x: opt_starts_with(target, "s390x"),
            is_riscv64: opt_starts_with(target, "riscv64"),
            is_mips32: opt_starts_with(target, "mips") && !opt_starts_with(target, "mips64"),
            is_macos: opt_contains(target, "macos"),
            is_ohos: opt_contains(target, "ohos"),
        }
    }
}

/// Targets for which the wrappers already set a baseline CPU, so that an
/// incoming `-march=` is dropped: 32-bit ARM, 32-bit x86 (named `i386` or,
/// by newer toolchains, `x86`) and s390x.
pub open spec fn has_baseline_cpu(t: TargetModel) -> bool {
    t.is_arm || t.is_i386 || t.is_x86 || t.is_s390x
}

/// Arguments that the Windows GNU-environment rules drop.
pub open spec fn windows_gnu_dropped(arg: Seq<char>) -> bool {
    ||| arg == "-lwindows"@
    ||| arg == "-l:libpthread.a"@
    ||| arg == "-lgcc"@
    ||| arg == "-Wl,--disable-auto-image-base"@
    ||| arg == "-Wl,--dynamicbase"@
    ||| arg == "-Wl,--large-address-aware"@
    ||| (is_prefix("-Wl,"@, arg) && (is_suffix("/list.def"@, arg) || is_suffix("\\list.def"@, arg)))
    ||| arg == "-lmsvcrt"@
}

/// Arguments that the musl and OpenHarmony rules drop.
pub open spec fn musl_dropped(arg: Seq<char>, rustc: Version) -> bool {
    ||| (is_suffix(".o"@, arg) && has_infix(arg, "self-contained"@) && has_infix(arg, "crt"@))
    ||| arg == "-Wl,-melf_i386"@
    ||| (rustc.major == 1 && rustc.minor < 59 && is_suffix(".rlib"@, arg) && has_infix(
        arg,
        "liblibc-"@,
    ))
    ||| arg == "-lc"@
}

/// The 64-bit ARM `-march=armv8-a...` flag in the external toolchain's CPU syntax.
pub open spec fn march_armv8(arg: Seq<char>, target: Option<Seq<char>>) -> Seq<Seq<char>> {
    let base = if target_starts(target, "aarch64-macos"@) {
        replaced(arg, "armv8-a"@, "apple_m1"@)
    } else if target_starts(target, "aarch64-linux"@) {
        replaced(replaced(arg, "armv8-a"@, "generic+v8a"@), "simd"@, "neon"@)
    } else {
        arg
    };
    if arg == "-march=armv8-a+crypto"@ {
        seq![base, "-Xassembler"@, "-march=armv8-a+crypto"@]
    } else {
        seq![base]
    }
}

/// The arguments that replace one linker argument, by the rules in priority order.
pub open spec fn filtered_arg(arg: Seq<char>, rustc: Version, zig: Version, t: TargetModel) -> Seq<
    Seq<char>,
> {
    if arg == "-lgcc_s"@ {
        seq!["-lunwind"@]
    } else if is_prefix("--target="@, arg) {
        seq![]
    } else if (t.is_arm || t.is_windows_gnu) && is_suffix(".rlib"@, arg) && has_infix(
        arg,
        "libcompiler_builtins-"@,
    ) {
        seq![]
    } else if t.is_windows_gnu && arg == "-lgcc_eh"@ {
        seq!["-lc++"@]
    } else if t.is_windows_gnu && arg == "-Wl,-Bdynamic"@ && at_least_minor(zig, 0, 11) {
        seq!["-Wl,-search_paths_first"@]
    } else if t.is_windows_gnu && windows_gnu_dropped(arg) {
        seq![]
    } else if !t.is_windows_gnu && (arg == "-Wl,--no-undefined-version"@ || arg
        == "-Wl,-znostart-stop-gc"@) {
        seq![]
    } else if (t.is_musl || t.is_ohos) && musl_dropped(arg, rustc) {
        seq![]
    } else if is_prefix("-march="@, arg) && has_baseline_cpu(t) {
        seq![]
    } else if is_prefix("-march="@, arg) && t.is_riscv64 {
        seq!["-march=generic_rv64"@]
    } else if is_prefix("-march=armv8-a"@, arg) {
        march_armv8(arg, t.target)
    } else if t.is_macos && (is_prefix("-Wl,-exported_symbols_list,"@, arg) || arg
        == "-Wl,-dylib"@) {
        seq![]
    } else {
        seq![arg]
    }
}

fn one(s: &str) -> (r: Vec<String>)
    ensures
        str_views(r@) == seq![s@],
{
    let v = vec![String::from_str(s)];
    assert(str_views(v@) =~= seq![s@]);
    v
}

fn none() -> (r: Vec<String>)
    ensures
        str_views(r@) == Seq::<Seq<char>>::empty(),
{
    let v: Vec<String> = Vec::new();
    assert(str_views(v@) =~= Seq::<Seq<char>>::empty());
    v
}

fn is_windows_gnu_dropped(arg: &str) -> (r: bool)
    ensures
        r == windows_gnu_dropped(arg@),
{
    str_eq(arg, "-lwindows") || str_eq(arg, "-l:libpthread.a") || str_eq(arg, "-lgcc")
        || str_eq(arg, "-Wl,--disable-auto-image-base") || str_eq(arg, "-Wl,--dynamicbase")
        || str_eq(arg, "-Wl,--large-address-aware") || (starts_with(arg, "-Wl,") && (ends_with(
        arg,
        "/list.def",
    ) || ends_with(arg, "\\list.def"))) || str_eq(arg, "-lmsvcrt")
}

fn is_musl_dropped(arg: &str, rustc: &Version) -> (r: bool)
    ensures
        r == musl_dropped(arg@, *rustc),
{
    (ends_with(arg, ".o") && contains(arg, "self-contained") && contains(arg, "crt")) || str_eq(
        arg,
        "-Wl,-melf_i386",
    ) || (rustc.major == 1 && rustc.minor < 59 && ends_with(arg, ".rlib") && contains(
        arg,
        "liblibc-",
    )) || str_eq(arg, "-lc")
}

fn rewrite_march_armv8(arg: &str, target: &Option<String>) -> (r: Vec<String>)
    requires
        is_prefix("-march=armv8-a"@, arg@),
    ensures
        str_views(r@) == march_armv8(
            arg@,
            match target {
                Some(s) => Some(s@),
                None => None,
            },
        ),
{
    proof {
        reveal_strlit("armv8-a");
        reveal_strlit("simd");
    }
    let on_macos = match target {
        Some(t) => starts_with(t.as_str(), "aarch64-macos"),
        None => false,
    };
    let on_linux = match target {
        Some(t) => starts_with(t.as_str(), "aarch64-linux"),
        None => false,
    };
    let base = if on_macos {
        replace_all(arg, "armv8-a", "apple_m1")
    } else if on_linux {
        let first = replace_all(arg, "armv8-a", "generic+v8a");
        replace_all(first.as_str(), "simd", "neon")
    } else {
        String::from_str(arg)
    };
    let mut out: Vec<String> = Vec::new();
    out.push(base);
    if str_eq(arg, "-march=armv8-a+crypto") {
        out.push(String::from_str("-Xassembler"));
        out.push(String::from_str("-march=armv8-a+crypto"));
    }
    assert(str_views(out@) =~= march_armv8(
        arg@,
        match target {
            Some(s) => Some(s@),
            None => None,
        },
    ));
    out
}

/// Rewrites one linker argument into the arguments that replace it (none,
/// one, or several), by the rules of `filtered_arg`.
pub fn filter_linker_arg(
    arg: &str,
    rustc_ver: &Version,
    zig_version: &Version,
    target_info: &TargetInfo,
) -> (r: Vec<String>)
    ensures
        str_views(r@) == filtered_arg(arg@, *rustc_ver, *zig_version, target_info@),
{
    let t = target_info;
    if str_eq(arg, "-lgcc_s") {
        return one("-lunwind");
    } else if starts_with(arg, "--target=") {
        return none();
    }
    if (t.is_arm || t.is_windows_gnu) && ends_with(arg, ".rlib") && contains(
        arg,
        "libcompiler_builtins-",
    ) {
        return none();
    }
    if t.is_windows_gnu {
        if str_eq(arg, "-lgcc_eh") {
            return one("-lc++");
        } else if str_eq(arg, "-Wl,-Bdynamic") && zig_version.at_least_minor(0, 11) {
            return one("-Wl,-search_paths_first");
        } else if is_windows_gnu_dropped(arg) {
            return none();
        }
    } else if str_eq(arg, "-Wl,--no-undefined-version") || str_eq(arg, "-Wl,-znostart-stop-gc") {
        return none();
    }
    if (t.is_musl || t.is_ohos) && is_musl_dropped(arg, rustc_ver) {
        return none();
    }
    if starts_with(arg, "-march=") {
        if t.is_arm || t.is_i386 || t.is_x86 || t.is_s390x {
            return none();
        } else if t.is_riscv64 {
            return one("-march=generic_rv64");
        } else if starts_with(arg, "-march=armv8-a") {
            return rewrite_march_armv8(arg, &t.target);
        }
    } else {
        proof {
            reveal_strlit("-march=");
            reveal_strlit("-march=armv8-a");
            if is_prefix("-march=armv8-a"@, arg@) {
                assert(arg@.subrange(0, 7) =~= "-march=armv8-a"@.subrange(0, 7));
                assert("-march=armv8-a"@.subrange(0, 7) =~= "-march="@);
            }
        }
    }
    if t.is_macos {
        if starts_with(arg, "-Wl,-exported_symbols_list,") || str_eq(arg, "-Wl,-dylib") {
            return none();
        }
    }
    one(arg)
}

} // verus!
