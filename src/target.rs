//! Resolution of a build-tool target triple, optionally suffixed with a
//! minimum platform-ABI version, into the external toolchain's target.
use vstd::prelude::*;

use crate::invocation::shifted;
use crate::text::{chars_of, is_prefix, slice_chars, starts_with, str_eq};
use crate::version::{above_release, Version};

verus! {

/// The position of the first `c` in `s`.
pub open spec fn index_of(s: Seq<char>, c: char) -> Option<int>
    decreases s.len(),
{
    if s.len() == 0 {
        None
    } else if s[0] == c {
        Some(0)
    } else {
        shifted(index_of(s.skip(1), c), 1)
    }
}

proof fn lemma_index_of_bounds(s: Seq<char>, c: char)
    ensures
        index_of(s, c) matches Some(j) ==> 0 <= j < s.len() && s[j] == c,
        index_of(s, c) is None ==> forall|k: int| 0 <= k < s.len() ==> s[k] != c,
    decreases s.len(),
{
    if s.len() > 0 && s[0] != c {
        lemma_index_of_bounds(s.skip(1), c);
        if index_of(s.skip(1), c) is None {
            assert forall|k: int| 0 <= k < s.len() implies s[k] != c by {
                if k > 0 {
                    assert(s[k] == s.skip(1)[k - 1]);
                }
            }
        }
    }
}

/// The position of the first `c` in `s`.
pub fn find_char(s: &Vec<char>, c: char) -> (r: Option<usize>)
    ensures
        match r {
            Some(j) => index_of(s@, c) == Some(j as int),
            None => index_of(s@, c) is None,
        },
{
    let n = s.len();
    let mut i: usize = 0;
    assert(s@.skip(0) =~= s@);
    while i < n
        invariant
            n == s@.len(),
            i <= n,
            index_of(s@, c) == shifted(index_of(s@.skip(i as int), c), i as int),
        decreases n - i,
    {
        if s[i] == c {
            return Some(i);
        }
        assert(s@.skip(i as int).skip(1) =~= s@.skip(i + 1));
        i = i + 1;
    }
    None
}

/// A non-empty run of ASCII digits.
pub open spec fn all_digits(s: Seq<char>) -> bool {
    s.len() > 0 && forall|i: int| 0 <= i < s.len() ==> '0' <= #[trigger] s[i] <= '9'
}

/// The two components of a minimum-ABI suffix `N.M` (the text after the
/// first dot of the target), when both are non-empty runs of digits.
pub open spec fn abi_parts(rest: Seq<char>) -> Option<(Seq<char>, Seq<char>)> {
    match index_of(rest, '.') {
        Some(j) => if all_digits(rest.take(j)) && all_digits(rest.skip(j + 1)) {
            Some((rest.take(j), rest.skip(j + 1)))
        } else {
            None
        },
        None => None,
    }
}

/// The cap at which a version number read from digits stops growing; any
/// number this large already exceeds every threshold the rules compare with.
pub const NUMBER_CAP: u64 = 1000000000;

/// The value of a run of decimal digits.
pub open spec fn digits_value(s: Seq<char>) -> nat
    decreases s.len(),
{
    if s.len() == 0 {
        0
    } else {
        digits_value(s.drop_last()) * 10 + (s.last() as nat - '0' as nat) as nat
    }
}

/// The value of a run of digits, capped at `NUMBER_CAP`.
pub open spec fn capped_value(s: Seq<char>) -> u64 {
    if digits_value(s) >= NUMBER_CAP {
        NUMBER_CAP
    } else {
        digits_value(s) as u64
    }
}

/// Reads a run of digits, capping at `NUMBER_CAP`.
pub fn read_number(s: &Vec<char>) -> (r: u64)
    requires
        all_digits(s@),
    ensures
        r == capped_value(s@),
{
    let mut v: u64 = 0;
    let mut i: usize = 0;
    assert(s@.take(0) =~= Seq::<char>::empty());
    while i < s.len()
        invariant
            all_digits(s@),
            i <= s@.len(),
            v == capped_value(s@.take(i as int)),
        decreases s@.len() - i,
    {
        let ghost pre = s@.take(i as int);
        assert(s@.take(i + 1).drop_last() =~= pre);
        assert('0' <= s@[i as int] <= '9');
        let d = (s[i] as u32 - '0' as u32) as u64;
        if v >= NUMBER_CAP {
            v = NUMBER_CAP;
        } else {
            v = v * 10 + d;
            if v > NUMBER_CAP {
                v = NUMBER_CAP;
            }
        }
        i = i + 1;
    }
    assert(s@.take(s@.len() as int) =~= s@);
    v
}

/// The Mips32 architectures, by target-lexicon's names.
pub open spec fn is_mips32_arch(a: Seq<char>) -> bool {
    a == "mips"@ || a == "mipsel"@ || a == "mipsisa32r6"@ || a == "mipsisa32r6el"@
}

/// The environment handed to the external toolchain: soft-float MIPS and
/// 32-bit PowerPC with the generic GNU environment become hard-float EABI,
/// and the LLVM flavour of GNU becomes plain GNU.
pub open spec fn toolchain_env(arch: Seq<char>, env: Seq<char>) -> Seq<char> {
    if (is_mips32_arch(arch) || arch == "powerpc"@) && env == "gnu"@ {
        "gnueabihf"@
    } else if env == "gnullvm"@ {
        "gnu"@
    } else {
        env
    }
}

/// The operating-system families the external toolchain supports.
#[derive(Clone, Copy, Debug, PartialEq, Eq, Structural)]
pub enum OsFamily {
    Linux,
    Apple,
    Windows,
    Emscripten,
    Wasi,
    WasiP1,
    Unknown,
    Other,
}

/// The family of an operating system, by target-lexicon's name for it
/// (Apple names may carry a deployment version).
pub open spec fn os_family(os: Seq<char>) -> OsFamily {
    if os == "linux"@ {
        OsFamily::Linux
    } else if is_prefix("macosx"@, os) || is_prefix("darwin"@, os) {
        OsFamily::Apple
    } else if os == "windows"@ {
        OsFamily::Windows
    } else if os == "emscripten"@ {
        OsFamily::Emscripten
    } else if os == "wasi"@ {
        OsFamily::Wasi
    } else if os == "wasip1"@ {
        OsFamily::WasiP1
    } else if os == "unknown"@ {
        OsFamily::Unknown
    } else {
        OsFamily::Other
    }
}

/// The baseline CPU for Linux targets, so that the external toolchain assumes
/// no more than the host compiler would; empty where none is needed.
pub open spec fn default_cpu(family: OsFamily, arch: Seq<char>, tenv: Seq<char>) -> Seq<char> {
    if family != OsFamily::Linux {
        seq![]
    } else if arch == "arm"@ {
        if tenv == "gnueabi"@ || tenv == "musleabi"@ {
            "generic+v6+strict_align"@
        } else if tenv == "gnueabihf"@ || tenv == "musleabihf"@ {
            "generic+v6+strict_align+vfp2-d32"@
        } else {
            seq![]
        }
    } else if arch == "armv5te"@ {
        "generic+soft_float+strict_align"@
    } else if arch == "armv7"@ {
        "generic+v7a+vfp3-d32+thumb2-neon"@
    } else if arch == "i586"@ {
        "pentium"@
    } else if arch == "i686"@ {
        "pentium4"@
    } else if arch == "riscv64gc"@ {
        "generic_rv64+m+a+f+d+c"@
    } else if arch == "s390x"@ {
        "z10-vector"@
    } else {
        seq![]
    }
}

/// The external toolchain's name for 32-bit x86, which changed in 0.11.
pub open spec fn x86_name(zig: Version) -> Seq<char> {
    if zig.major == 0 && zig.minor >= 11 {
        "x86"@
    } else {
        "i386"@
    }
}

/// The external toolchain's architecture name on Linux.
pub open spec fn linux_arch(arch: Seq<char>, zig: Version) -> Seq<char> {
    if arch == "arm"@ || arch == "armv5te"@ || arch == "armv7"@ {
        "arm"@
    } else if arch == "i586"@ || arch == "i686"@ {
        x86_name(zig)
    } else if arch == "riscv64gc"@ {
        "riscv64"@
    } else {
        arch
    }
}

/// The external toolchain's target string, or `None` where the operating
/// system has no mapping (freestanding WebAssembly aside).
pub open spec fn zig_target(
    arch: Seq<char>,
    os: Seq<char>,
    tenv: Seq<char>,
    suffix: Seq<char>,
    zig: Version,
) -> Option<Seq<char>> {
    match os_family(os) {
        OsFamily::Linux => Some(linux_arch(arch, zig) + "-linux-"@ + tenv + suffix),
        OsFamily::Apple => if above_release(zig, 0, 9, 1) {
            Some(arch + "-macos-none"@ + suffix)
        } else {
            Some(arch + "-macos-gnu"@ + suffix)
        },
        OsFamily::Windows => Some(
            (if arch == "i686"@ {
                x86_name(zig)
            } else {
                arch
            }) + "-windows-"@ + tenv + suffix,
        ),
        OsFamily::Emscripten => Some(arch + "-emscripten"@ + suffix),
        OsFamily::Wasi => Some(arch + "-wasi"@ + suffix),
        OsFamily::WasiP1 => Some(arch + "-wasi.0.1.0"@ + suffix),
        OsFamily::Unknown => if arch == "wasm32"@ || arch == "wasm64"@ {
            Some(arch + "-freestanding"@ + suffix)
        } else {
            None
        },
        OsFamily::Other => None,
    }
}

/// The architecture, operating system and environment that target-lexicon
/// reads from a triple, by its names for them.
pub ghost struct TripleView {
    pub arch: Seq<char>,
    pub os: Seq<char>,
    pub env: Seq<char>,
}

/// The three names of a parsed triple.
pub struct TripleParts {
    pub arch: String,
    pub os: String,
    pub env: String,
}

impl View for TripleParts {
    type V = TripleView;

    open spec fn view(&self) -> TripleView {
        TripleView { arch: self.arch@, os: self.os@, env: self.env@ }
    }
}

/// What `target_lexicon::Triple::from_str` reads from `s`, by the names
/// that its `Display` impls give.
pub uninterp spec fn lexicon_triple(s: Seq<char>) -> Option<TripleView>;

/// Relies on `target_lexicon::Triple::from_str` and the `Display` impls of
/// its architecture, operating system and environment.
#[verifier::external_body]
pub(crate) fn parse_triple(s: &str) -> (r: Option<TripleParts>)
    ensures
        match r {
            Some(t) => lexicon_triple(s@) == Some(t@),
            None => lexicon_triple(s@) is None,
        },
{
    let t: target_lexicon::Triple = s.parse().ok()?;
    Some(
        TripleParts {
            arch: t.architecture.to_string(),
            os: t.operating_system.to_string(),
            env: t.environment.to_string(),
        },
    )
}

/// A resolved target, created once per requested triple.
#[derive(Debug)]
pub struct TargetSpec {
    /// The triple as requested, suffix included.
    pub raw: String,
    /// The triple without its minimum-ABI suffix.
    pub rust_target: String,
    /// The minimum-ABI suffix with its leading dot, or empty.
    pub abi_suffix: String,
    /// The suffix's two numbers (capped at `NUMBER_CAP`), if there is one.
    pub abi_version: Option<(u64, u64)>,
    pub arch: String,
    pub os: String,
    /// The environment as parsed.
    pub env: String,
    /// The environment handed to the external toolchain.
    pub toolchain_env: String,
    /// The external toolchain's target string.
    pub zig_target: String,
    /// The baseline CPU, or empty.
    pub cpu: String,
}

/// The abstract content of a `TargetSpec`.
pub ghost struct TargetModel {
    pub raw: Seq<char>,
    pub rust_target: Seq<char>,
    pub abi_suffix: Seq<char>,
    pub abi_version: Option<(u64, u64)>,
    pub arch: Seq<char>,
    pub os: Seq<char>,
    pub env: Seq<char>,
    pub toolchain_env: Seq<char>,
    pub zig_target: Seq<char>,
    pub cpu: Seq<char>,
}

impl View for TargetSpec {
    type V = TargetModel;

    open spec fn view(&self) -> TargetModel {
        TargetModel {
            raw: self.raw@,
            rust_target: self.rust_target@,
            abi_suffix: self.abi_suffix@,
            abi_version: self.abi_version,
            arch: self.arch@,
            os: self.os@,
            env: self.env@,
            toolchain_env: self.toolchain_env@,
            zig_target: self.zig_target@,
            cpu: self.cpu@,
        }
    }
}

/// Why a target could not be resolved.
#[derive(Clone, Copy, Debug, PartialEq, Eq, Structural)]
pub enum TargetError {
    /// The minimum-ABI suffix is not two dot-separated runs of digits.
    MalformedTarget,
    /// The triple does not parse, or its operating system has no mapping.
    UnsupportedTarget,
}

/// Resolution of the triple part once the suffix has been checked.
pub open spec fn resolve_triple(
    raw: Seq<char>,
    rust_target: Seq<char>,
    suffix: Seq<char>,
    abi_version: Option<(u64, u64)>,
    zig: Version,
) -> Result<TargetModel, TargetError> {
    match lexicon_triple(rust_target) {
        None => Err(TargetError::UnsupportedTarget),
        Some(t) => {
            let tenv = toolchain_env(t.arch, t.env);
            match zig_target(t.arch, t.os, tenv, suffix, zig) {
                None => Err(TargetError::UnsupportedTarget),
                Some(zt) => Ok(
                    TargetModel {
                        raw,
                        rust_target,
                        abi_suffix: suffix,
                        abi_version,
                        arch: t.arch,
                        os: t.os,
                        env: t.env,
                        toolchain_env: tenv,
                        zig_target: zt,
                        cpu: default_cpu(os_family(t.os), t.arch, tenv),
                    },
                ),
            }
        },
    }
}

/// What resolving `target` gives: a target with no dot has no suffix; after
/// the first dot must stand `N.M`, else the target is malformed.
pub open spec fn resolution(target: Seq<char>, zig: Version) -> Result<TargetModel, TargetError> {
    match index_of(target, '.') {
        None => resolve_triple(target, target, seq![], None, zig),
        Some(i) => match abi_parts(target.skip(i + 1)) {
            None => Err(TargetError::MalformedTarget),
            Some((a, b)) => resolve_triple(
                target,
                target.take(i),
                target.skip(i),
                Some((capped_value(a), capped_value(b))),
                zig,
            ),
        },
    }
}

/// The view of a resolution result.
pub open spec fn resolution_view(r: Result<TargetSpec, TargetError>) -> Result<
    TargetModel,
    TargetError,
> {
    match r {
        Ok(t) => Ok(t@),
        Err(e) => Err(e),
    }
}

fn concat(a: &str, b: &str) -> (r: String)
    ensures
        r@ == a@ + b@,
{
    let mut r = String::from_str(a);
    r.append(b);
    r
}

fn check_digits(s: &Vec<char>) -> (r: bool)
    ensures
        r == all_digits(s@),
{
    if s.len() == 0 {
        return false;
    }
    let mut i: usize = 0;
    while i < s.len()
        invariant
            i <= s@.len(),
            forall|k: int| 0 <= k < i ==> '0' <= #[trigger] s@[k] <= '9',
        decreases s@.len() - i,
    {
        if s[i] < '0' || s[i] > '9' {
            return false;
        }
        i = i + 1;
    }
    true
}

fn is_mips32(arch: &str) -> (r: bool)
    ensures
        r == is_mips32_arch(arch@),
{
    str_eq(arch, "mips") || str_eq(arch, "mipsel") || str_eq(arch, "mipsisa32r6") || str_eq(
        arch,
        "mipsisa32r6el",
    )
}

/// The environment handed to the external toolchain.
pub fn remap_env(arch: &str, env: &str) -> (r: String)
    ensures
        r@ == toolchain_env(arch@, env@),
{
    if (is_mips32(arch) || str_eq(arch, "powerpc")) && str_eq(env, "gnu") {
        String::from_str("gnueabihf")
    } else if str_eq(env, "gnullvm") {
        String::from_str("gnu")
    } else {
        String::from_str(env)
    }
}

/// The family of an operating system name.
pub fn classify_os(os: &str) -> (r: OsFamily)
    ensures
        r == os_family(os@),
{
    if str_eq(os, "linux") {
        OsFamily::Linux
    } else if starts_with(os, "macosx") || starts_with(os, "darwin") {
        OsFamily::Apple
    } else if str_eq(os, "windows") {
        OsFamily::Windows
    } else if str_eq(os, "emscripten") {
        OsFamily::Emscripten
    } else if str_eq(os, "wasi") {
        OsFamily::Wasi
    } else if str_eq(os, "wasip1") {
        OsFamily::WasiP1
    } else if str_eq(os, "unknown") {
        OsFamily::Unknown
    } else {
        OsFamily::Other
    }
}

/// The baseline CPU for a target.
pub fn baseline_cpu(family: OsFamily, arch: &str, tenv: &str) -> (r: String)
    ensures
        r@ == default_cpu(family, arch@, tenv@),
{
    let s = if family != OsFamily::Linux {
        ""
    } else if str_eq(arch, "arm") {
        if str_eq(tenv, "gnueabi") || str_eq(tenv, "musleabi") {
            "generic+v6+strict_align"
        } else if str_eq(tenv, "gnueabihf") || str_eq(tenv, "musleabihf") {
            "generic+v6+strict_align+vfp2-d32"
        } else {
            ""
        }
    } else if str_eq(arch, "armv5te") {
        "generic+soft_float+strict_align"
    } else if str_eq(arch, "armv7") {
        "generic+v7a+vfp3-d32+thumb2-neon"
    } else if str_eq(arch, "i586") {
        "pentium"
    } else if str_eq(arch, "i686") {
        "pentium4"
    } else if str_eq(arch, "riscv64gc") {
        "generic_rv64+m+a+f+d+c"
    } else if str_eq(arch, "s390x") {
        "z10-vector"
    } else {
        ""
    };
    proof {
        reveal_strlit("");
    }
    String::from_str(s)
}

fn x86(zig: &Version) -> (r: &'static str)
    ensures
        r@ == x86_name(*zig),
{
    if zig.major == 0 && zig.minor >= 11 {
        "x86"
    } else {
        "i386"
    }
}

/// The external toolchain's target string for a parsed triple.
pub fn toolchain_target(arch: &str, os: &str, tenv: &str, suffix: &str, zig: &Version) -> (r:
    Option<String>)
    ensures
        match r {
            Some(s) => zig_target(arch@, os@, tenv@, suffix@, *zig) == Some(s@),
            None => zig_target(arch@, os@, tenv@, suffix@, *zig) is None,
        },
{
    let (head, tail): (&str, &str) = match classify_os(os) {
        OsFamily::Linux => {
            let a = if str_eq(arch, "arm") || str_eq(arch, "armv5te") || str_eq(arch, "armv7") {
                "arm"
            } else if str_eq(arch, "i586") || str_eq(arch, "i686") {
                x86(zig)
            } else if str_eq(arch, "riscv64gc") {
                "riscv64"
            } else {
                arch
            };
            let mut s = concat(a, "-linux-");
            s.append(tenv);
            s.append(suffix);
            return Some(s);
        },
        OsFamily::Apple => if zig.above_release(0, 9, 1) {
            (arch, "-macos-none")
        } else {
            (arch, "-macos-gnu")
        },
        OsFamily::Windows => {
            let a = if str_eq(arch, "i686") {
                x86(zig)
            } else {
                arch
            };
            let mut s = concat(a, "-windows-");
            s.append(tenv);
            s.append(suffix);
            return Some(s);
        },
        OsFamily::Emscripten => (arch, "-emscripten"),
        OsFamily::Wasi => (arch, "-wasi"),
        OsFamily::WasiP1 => (arch, "-wasi.0.1.0"),
        OsFamily::Unknown => if str_eq(arch, "wasm32") || str_eq(arch, "wasm64") {
            (arch, "-freestanding")
        } else {
            return None;
        },
        OsFamily::Other => {
            return None;
        },
    };
    let mut s = concat(head, tail);
    s.append(suffix);
    Some(s)
}

fn resolve_parts(
    raw: &str,
    rust_target: &str,
    suffix: &str,
    abi_version: Option<(u64, u64)>,
    zig: &Version,
) -> (r: Result<TargetSpec, TargetError>)
    ensures
        resolution_view(r) == resolve_triple(raw@, rust_target@, suffix@, abi_version, *zig),
{
    let parts = match parse_triple(rust_target) {
        Some(p) => p,
        None => {
            return Err(TargetError::UnsupportedTarget);
        },
    };
    let tenv = remap_env(parts.arch.as_str(), parts.env.as_str());
    let zt = match toolchain_target(
        parts.arch.as_str(),
        parts.os.as_str(),
        tenv.as_str(),
        suffix,
        zig,
    ) {
        Some(z) => z,
        None => {
            return Err(TargetError::UnsupportedTarget);
        },
    };
    let family = classify_os(parts.os.as_str());
    let cpu = baseline_cpu(family, parts.arch.as_str(), tenv.as_str());
    Ok(
        TargetSpec {
            raw: String::from_str(raw),
            rust_target: String::from_str(rust_target),
            abi_suffix: String::from_str(suffix),
            abi_version,
            arch: parts.arch,
            os: parts.os,
            env: parts.env,
            toolchain_env: tenv,
            zig_target: zt,
            cpu,
        },
    )
}

/// Resolves a target triple, optionally suffixed with `.N.M`, for the
/// external toolchain of version `zig`.
pub fn resolve_target(target: &str, zig: &Version) -> (r: Result<TargetSpec, TargetError>)
    ensures
        resolution_view(r) == resolution(target@, *zig),
{
    let x = chars_of(target);
    proof {
        lemma_index_of_bounds(target@, '.');
    }
    match find_char(&x, '.') {
        None => {
            proof {
                reveal_strlit("");
            }
            assert(""@ =~= Seq::<char>::empty());
            resolve_parts(target, target, "", None, zig)
        },
        Some(i) => {
            let n = x.len();
            assert(x@ == target@);
            assert(i < n);
            let rest = slice_chars(target, i + 1, n);
            let rx = chars_of(rest.as_str());
            assert(rx@ =~= target@.skip(i + 1));
            proof {
                lemma_index_of_bounds(rx@, '.');
            }
            let ok = match find_char(&rx, '.') {
                Some(j) => {
                    let a = slice_chars(rest.as_str(), 0, j);
                    let b = slice_chars(rest.as_str(), j + 1, rx.len());
                    let ax = chars_of(a.as_str());
                    let bx = chars_of(b.as_str());
                    assert(ax@ =~= rx@.take(j as int));
                    assert(bx@ =~= rx@.skip(j + 1));
                    if check_digits(&ax) && check_digits(&bx) {
                        Some((read_number(&ax), read_number(&bx)))
                    } else {
                        None
                    }
                },
                None => None,
            };
            assert(match abi_parts(target@.skip(i + 1)) {
                Some((a, b)) => ok == Some((capped_value(a), capped_value(b))),
                None => ok is None,
            });
            match ok {
                None => Err(TargetError::MalformedTarget),
                Some(v) => {
                    let head = slice_chars(target, 0, i);
                    let suffix = slice_chars(target, i, x.len());
                    assert(head@ =~= target@.take(i as int));
                    assert(suffix@ =~= target@.skip(i as int));
                    resolve_parts(target, head.as_str(), suffix.as_str(), Some(v), zig)
                },
            }
        },
    }
}

} // verus!

verus! {

proof fn lemma_index_of_concat(a: Seq<char>, b: Seq<char>, c: char)
    requires
        index_of(a, c) is None,
    ensures
        index_of(a + b, c) == shifted(index_of(b, c), a.len() as int),
    decreases a.len(),
{
    if a.len() == 0 {
        assert(a + b =~= b);
        match index_of(b, c) {
            Some(j) => {},
            None => {},
        }
    } else {
        assert((a + b)[0] == a[0]);
        assert((a + b).skip(1) =~= a.skip(1) + b);
        lemma_index_of_concat(a.skip(1), b, c);
    }
}

proof fn lemma_digits_have_no_dot(s: Seq<char>)
    requires
        all_digits(s),
    ensures
        index_of(s, '.') is None,
{
    lemma_index_of_bounds(s, '.');
    if let Some(j) = index_of(s, '.') {
        assert('0' <= s[j] <= '9');
    }
}

/// A triple that resolves on its own still resolves when suffixed with
/// `.N.M`, for any two non-empty runs of digits `N` and `M`; and a target
/// whose text after its first dot has any other shape is malformed.
pub proof fn abi_suffix_law(triple: Seq<char>, n: Seq<char>, m: Seq<char>, target: Seq<char>, zig: Version)
    ensures
        index_of(triple, '.') is None && all_digits(n) && all_digits(m) && resolution(triple, zig) is Ok
            ==> resolution(triple + seq!['.'] + n + seq!['.'] + m, zig) is Ok,
        index_of(target, '.') matches Some(i) && abi_parts(target.skip(i + 1)) is None ==> resolution(
            target,
            zig,
        ) == Err::<TargetModel, TargetError>(TargetError::MalformedTarget),
{
    if index_of(triple, '.') is None && all_digits(n) && all_digits(m) && resolution(triple, zig) is Ok {
        let rest = n + seq!['.'] + m;
        let whole = triple + seq!['.'] + n + seq!['.'] + m;
        assert(whole =~= triple + (seq!['.'] + rest));
        lemma_index_of_concat(triple, seq!['.'] + rest, '.');
        assert(index_of(seq!['.'] + rest, '.') == Some(0int));
        let i = triple.len() as int;
        assert(index_of(whole, '.') == Some(i));
        assert(whole.skip(i + 1) =~= rest);
        lemma_digits_have_no_dot(n);
        assert(rest =~= n + (seq!['.'] + m));
        lemma_index_of_concat(n, seq!['.'] + m, '.');
        assert(index_of(seq!['.'] + m, '.') == Some(0int));
        assert(index_of(rest, '.') == Some(n.len() as int));
        assert(rest.take(n.len() as int) =~= n);
        assert(rest.skip(n.len() as int + 1) =~= m);
        assert(whole.take(i) =~= triple);
    }
}

} // verus!
