//! The wrapper scripts that the build tool runs in place of a C compiler:
//! their baked-in flags, content-addressed file names and content.
use vstd::prelude::*;

use crate::invocation::path_join;
use crate::linker::str_views;
use crate::response_file::{join_strings, joined};
use crate::target::{os_family, OsFamily, TargetSpec};
use crate::text::{is_prefix, replace_all, replaced, slice_chars, starts_with, str_eq};
use crate::version::{at_least_minor, Version};

verus! {

/// The environments that use glibc, by target-lexicon's names.
pub open spec fn is_glibc_env(env: Seq<char>) -> bool {
    env == "gnu"@ || env == "gnuspe"@ || env == "gnux32"@ || env == "gnueabi"@ || env
        == "gnuabi64"@ || env == "gnu_ilp32"@ || env == "gnueabihf"@
}

/// The environments that use musl, by target-lexicon's names.
pub open spec fn is_musl_env(env: Seq<char>) -> bool {
    env == "musl"@ || env == "muslabi64"@ || env == "musleabi"@ || env == "musleabihf"@
}

/// The glibc version a Linux GNU target asks for: its ABI suffix, else 2.17.
pub open spec fn glibc_version(abi: Option<(u64, u64)>) -> (u64, u64) {
    match abi {
        Some(v) => v,
        None => (2, 17),
    }
}

/// Old toolchains with a glibc older than 2.28 need a shim for `fcntl64`.
pub open spec fn wants_fcntl_shim(t: crate::target::TargetModel, zig: Version) -> bool {
    let g = glibc_version(t.abi_version);
    os_family(t.os) == OsFamily::Linux && is_glibc_env(t.env) && (g.0 < 2 || (g.0 == 2 && g.1
        < 28)) && zig.major == 0 && zig.minor < 11
}

/// Recent toolchains' musl disagrees with older host compilers' on symbol
/// versions; a weak-symbol linker script bridges them.
pub open spec fn wants_musl_weak_symbols(t: crate::target::TargetModel, rustc: Version, zig: Version) -> bool {
    os_family(t.os) == OsFamily::Linux && is_musl_env(t.env) && at_least_minor(zig, 0, 11)
        && !at_least_minor(rustc, 1, 72)
}

/// The flags baked into a target's compiler wrappers: keep debug info, no
/// sanitizers, the baseline CPU (a configured CPU, with `-` written `_`,
/// wins over the default), the target, then the shims that the libc calls for.
pub open spec fn baseline_flags(
    t: crate::target::TargetModel,
    cpu_override: Seq<char>,
    rustc: Version,
    zig: Version,
    cache_dir: Seq<char>,
) -> Seq<Seq<char>> {
    let cpu = if cpu_override.len() > 0 {
        seq!["-mcpu="@ + replaced(cpu_override, "-"@, "_"@)]
    } else if t.cpu.len() > 0 {
        seq!["-mcpu="@ + t.cpu]
    } else {
        seq![]
    };
    let extra = if wants_fcntl_shim(t, zig) {
        seq![
            "-Wl,--version-script="@ + path_join(cache_dir, "fcntl.map"@),
            "-include "@ + path_join(cache_dir, "fcntl.h"@),
        ]
    } else if wants_musl_weak_symbols(t, rustc, zig) {
        seq!["-Wl,-T,"@ + path_join(cache_dir, "musl_weak_symbols_map.ld"@)]
    } else {
        seq![]
    };
    seq!["-g"@, "-fno-sanitize=all"@] + cpu + seq!["-target "@ + t.zig_target] + extra
}

/// The flags to bake into a target's wrappers, and the auxiliary files that
/// must exist in the cache directory for them.
#[derive(Debug)]
pub struct WrapperFlags {
    pub args: Vec<String>,
    /// `fcntl.map` and `fcntl.h` are needed.
    pub fcntl_shim: bool,
    /// `musl_weak_symbols_map.ld` is needed.
    pub musl_weak_symbols: bool,
}

fn concat(a: &str, b: &str) -> (r: String)
    ensures
        r@ == a@ + b@,
{
    let mut r = String::from_str(a);
    r.append(b);
    r
}

fn is_glibc(env: &str) -> (r: bool)
    ensures
        r == is_glibc_env(env@),
{
    str_eq(env, "gnu") || str_eq(env, "gnuspe") || str_eq(env, "gnux32") || str_eq(env, "gnueabi")
        || str_eq(env, "gnuabi64") || str_eq(env, "gnu_ilp32") || str_eq(env, "gnueabihf")
}

fn is_musl(env: &str) -> (r: bool)
    ensures
        r == is_musl_env(env@),
{
    str_eq(env, "musl") || str_eq(env, "muslabi64") || str_eq(env, "musleabi") || str_eq(
        env,
        "musleabihf",
    )
}

/// Composes the flags baked into a target's compiler wrappers.
pub fn wrapper_flags(
    spec: &TargetSpec,
    cpu_override: &str,
    rustc: &Version,
    zig: &Version,
    cache_dir: &str,
) -> (r: WrapperFlags)
    ensures
        str_views(r.args@) == baseline_flags(spec@, cpu_override@, *rustc, *zig, cache_dir@),
        r.fcntl_shim == wants_fcntl_shim(spec@, *zig),
        r.musl_weak_symbols == (!wants_fcntl_shim(spec@, *zig) && wants_musl_weak_symbols(
            spec@,
            *rustc,
            *zig,
        )),
{
    proof {
        reveal_strlit("-");
    }
    let mut args: Vec<String> = Vec::new();
    args.push(String::from_str("-g"));
    args.push(String::from_str("-fno-sanitize=all"));
    let ghost a0 = str_views(args@);
    if cpu_override.unicode_len() > 0 {
        let cpu = replace_all(cpu_override, "-", "_");
        args.push(concat("-mcpu=", cpu.as_str()));
    } else if spec.cpu.as_str().unicode_len() > 0 {
        args.push(concat("-mcpu=", spec.cpu.as_str()));
    }
    let ghost a1 = str_views(args@);
    args.push(concat("-target ", spec.zig_target.as_str()));
    let ghost a2 = str_views(args@);
    let linux = crate::target::classify_os(spec.os.as_str()) == OsFamily::Linux;
    let (major, minor): (u64, u64) = match spec.abi_version {
        Some(v) => v,
        None => (2, 17),
    };
    let fcntl = linux && is_glibc(spec.env.as_str()) && (major < 2 || (major == 2 && minor < 28))
        && zig.major == 0 && zig.minor < 11;
    let musl = !fcntl && linux && is_musl(spec.env.as_str()) && zig.at_least_minor(0, 11)
        && !rustc.at_least_minor(1, 72);
    if fcntl {
        let map = crate::invocation::join_path(cache_dir, "fcntl.map");
        args.push(concat("-Wl,--version-script=", map.as_str()));
        let header = crate::invocation::join_path(cache_dir, "fcntl.h");
        args.push(concat("-include ", header.as_str()));
    } else if musl {
        let script = crate::invocation::join_path(cache_dir, "musl_weak_symbols_map.ld");
        args.push(concat("-Wl,-T,", script.as_str()));
    }
    proof {
        assert(a0 =~= seq!["-g"@, "-fno-sanitize=all"@]);
        assert(str_views(args@) =~= baseline_flags(
            spec@,
            cpu_override@,
            *rustc,
            *zig,
            cache_dir@,
        ));
    }
    WrapperFlags { args, fcntl_shim: fcntl, musl_weak_symbols: musl }
}

/// The lower-case hexadecimal digit for `d < 16`.
pub open spec fn hex_char(d: nat) -> char {
    if d < 10 {
        (('0' as nat) + d) as char
    } else {
        (('a' as nat) + d - 10) as char
    }
}

/// `n` in lower-case hexadecimal without leading zeros.
pub open spec fn hex_of(n: nat) -> Seq<char>
    decreases n,
{
    if n < 16 {
        seq![hex_char(n)]
    } else {
        hex_of(n / 16) + seq![hex_char(n % 16)]
    }
}

fn hex_digit(d: u16) -> (r: String)
    requires
        d < 16,
    ensures
        r@ == seq![hex_char(d as nat)],
{
    let table = "0123456789abcdef";
    proof {
        reveal_strlit("0123456789abcdef");
    }
    let r = slice_chars(table, d as usize, d as usize + 1);
    assert(r@ =~= seq![hex_char(d as nat)]);
    r
}

/// Formats `n` in lower-case hexadecimal.
pub fn to_hex(n: u16) -> (r: String)
    ensures
        r@ == hex_of(n as nat),
    decreases n,
{
    if n < 16 {
        hex_digit(n)
    } else {
        let mut s = to_hex(n / 16);
        let d = hex_digit(n % 16);
        s.append(d.as_str());
        s
    }
}

/// What the CRC-16/IBM-SDLC checksum of the `crc` crate gives for `bytes`.
pub uninterp spec fn crc16_ibm_sdlc(bytes: Seq<u8>) -> u16;

/// Relies on `crc::Crc::<u16>::new(&crc::CRC_16_IBM_SDLC).checksum`.
#[verifier::external_body]
fn crc16(bytes: &[u8]) -> (r: u16)
    ensures
        r == crc16_ibm_sdlc(bytes@),
{
    crc::Crc::<u16>::new(&crc::CRC_16_IBM_SDLC).checksum(bytes)
}

/// The checksum of a flag string, over its UTF-8 bytes.
pub open spec fn flags_checksum(flags: Seq<char>) -> u16 {
    crc16_ibm_sdlc(vstd::utf8::encode_utf8(flags))
}

/// Checksums the baked-in flag string.
pub fn checksum(flags: &str) -> (r: u16)
    ensures
        r == flags_checksum(flags@),
{
    crc16(flags.as_bytes())
}

/// The extension of a wrapper script on the host.
pub open spec fn script_ext(windows: bool) -> Seq<char> {
    if windows {
        "bat"@
    } else {
        "sh"@
    }
}

/// The file name of a compiler wrapper: the tool, the target, the flags'
/// checksum and the host's script extension.
pub open spec fn wrapper_file_name(tool: Seq<char>, target: Seq<char>, flags: Seq<char>, windows: bool) -> Seq<
    char,
> {
    "zig"@ + tool + "-"@ + target + "-"@ + hex_of(flags_checksum(flags) as nat) + "."@
        + script_ext(windows)
}

/// The file name of a compiler wrapper for `tool` (`cc` or `cxx`).
pub fn wrapper_name(tool: &str, target: &str, flags: &str, windows: bool) -> (r: String)
    ensures
        r@ == wrapper_file_name(tool@, target@, flags@, windows),
{
    let mut r = concat("zig", tool);
    r.append("-");
    r.append(target);
    r.append("-");
    let h = to_hex(checksum(flags));
    r.append(h.as_str());
    r.append(".");
    r.append(if windows {
        "bat"
    } else {
        "sh"
    });
    r
}

/// The verbatim-path prefix that Windows canonicalization adds.
pub open spec fn verbatim_prefix() -> Seq<char> {
    seq!['\\', '\\', '?', '\\']
}

/// `p` without a leading verbatim prefix.
pub open spec fn canonical_path(p: Seq<char>) -> Seq<char> {
    if is_prefix(verbatim_prefix(), p) {
        p.skip(4)
    } else {
        p
    }
}

/// Drops the `\\?\` prefix from a canonicalized Windows path.
pub fn adjust_canonicalization(p: String) -> (r: String)
    ensures
        r@ == canonical_path(p@),
{
    let prefix = "\\\\?\\";
    proof {
        reveal_strlit("\\\\?\\");
    }
    assert(prefix@ =~= verbatim_prefix());
    if starts_with(p.as_str(), prefix) {
        let n = p.as_str().unicode_len();
        slice_chars(p.as_str(), 4, n)
    } else {
        p
    }
}

/// The content of a wrapper script: it re-invokes `exe` with the sentinel
/// subcommand for `command`, the baked flags, then the invocation's own
/// arguments.
pub open spec fn script_text(exe: Seq<char>, command: Seq<char>, flags: Seq<char>, windows: bool) -> Seq<
    char,
> {
    if windows {
        "\""@ + canonical_path(exe) + "\" zig "@ + command + " -- "@ + flags + " %*\n"@
    } else {
        "#!/bin/sh\n"@ + "exec \""@ + exe + "\" zig "@ + command + " -- "@ + flags + " \"$@\"\n"@
    }
}

/// Writes the text of a wrapper script.
pub fn script_content(exe: &str, command: &str, flags: &str, windows: bool) -> (r: String)
    ensures
        r@ == script_text(exe@, command@, flags@, windows),
{
    if windows {
        let e = adjust_canonicalization(String::from_str(exe));
        let mut r = concat("\"", e.as_str());
        r.append("\" zig ");
        r.append(command);
        r.append(" -- ");
        r.append(flags);
        r.append(" %*\n");
        r
    } else {
        let mut r = concat("#!/bin/sh\n", "exec \"");
        r.append(exe);
        r.append("\" zig ");
        r.append(command);
        r.append(" -- ");
        r.append(flags);
        r.append(" \"$@\"\n");
        r
    }
}

/// The flags of a wrapper as one string, as baked into its script.
pub fn flags_text(args: &Vec<String>) -> (r: String)
    ensures
        r@ == joined(str_views(args@), " "@),
{
    join_strings(args, " ")
}

/// Whether a file holding `existing` must be rewritten to hold `content`
/// (a missing file reads as empty).
pub fn write_needed(existing: &Vec<u8>, content: &Vec<u8>) -> (r: bool)
    ensures
        r == (existing@ != content@),
{
    if existing.len() != content.len() {
        return true;
    }
    let mut i: usize = 0;
    while i < existing.len()
        invariant
            existing@.len() == content@.len(),
            i <= existing@.len(),
            forall|k: int| 0 <= k < i ==> existing@[k] == content@[k],
        decreases existing@.len() - i,
    {
        if existing[i] != content[i] {
            return true;
        }
        i = i + 1;
    }
    assert(existing@ =~= content@);
    false
}

/// A file's bytes after one materialization of `content`, and whether it was written.
pub open spec fn materialized(existing: Seq<u8>, content: Seq<u8>) -> (Seq<u8>, bool) {
    if existing != content {
        (content, true)
    } else {
        (existing, false)
    }
}

/// Materializing the same wrapper twice: identical inputs give identical
/// script bytes, the file ends up holding exactly them, and the second time
/// nothing is written (so its modification time is left alone).
pub proof fn materialize_idempotent(
    existing: Seq<u8>,
    exe: Seq<char>,
    command: Seq<char>,
    flags: Seq<char>,
    windows: bool,
)
    ensures
        ({
            let content = vstd::utf8::encode_utf8(script_text(exe, command, flags, windows));
            let first = materialized(existing, content);
            let second = materialized(first.0, content);
            first.0 == content && second.0 == content && !second.1
        }),
{
}

} // verus!

verus! {

proof fn lemma_hex_char_injective(a: nat, b: nat)
    requires
        a < 16,
        b < 16,
        hex_char(a) == hex_char(b),
    ensures
        a == b,
{
    let ca = hex_char(a) as u32;
    let cb = hex_char(b) as u32;
    assert(ca == (if a < 10 { 48 + a } else { 87 + a }));
    assert(cb == (if b < 10 { 48 + b } else { 87 + b }));
}

proof fn lemma_hex_len(n: nat)
    ensures
        n < 16 ==> hex_of(n).len() == 1,
        n >= 16 ==> hex_of(n).len() >= 2,
    decreases n,
{
    if n >= 16 {
        lemma_hex_len(n / 16);
    }
}

proof fn lemma_hex_injective(x: nat, y: nat)
    requires
        hex_of(x) == hex_of(y),
    ensures
        x == y,
    decreases x,
{
    lemma_hex_len(x);
    lemma_hex_len(y);
    if x < 16 && y < 16 {
        assert(hex_of(x) == seq![hex_char(x)]);
        assert(hex_of(y) == seq![hex_char(y)]);
        assert(seq![hex_char(x)][0] == hex_char(x));
        assert(seq![hex_char(y)][0] == hex_char(y));
        assert(hex_char(x) == hex_char(y));
        lemma_hex_char_injective(x, y);
    } else if x >= 16 && y >= 16 {
        let hx = hex_of(x);
        let hy = hex_of(y);
        assert(hx.last() == hy.last());
        lemma_hex_char_injective(x % 16, y % 16);
        assert(hx.drop_last() =~= hex_of(x / 16));
        assert(hy.drop_last() =~= hex_of(y / 16));
        lemma_hex_injective(x / 16, y / 16);
        assert(x == 16 * (x / 16) + x % 16);
        assert(y == 16 * (y / 16) + y % 16);
    }
}

/// A wrapper's file name is determined by its tool, target and flag string;
/// and flag strings whose checksums differ never share a file name, so a
/// changed flag set never reuses a script written for another.
pub proof fn wrapper_name_law(tool: Seq<char>, target: Seq<char>, a: Seq<char>, b: Seq<char>, windows: bool)
    ensures
        a == b ==> wrapper_file_name(tool, target, a, windows) == wrapper_file_name(
            tool,
            target,
            b,
            windows,
        ),
        flags_checksum(a) != flags_checksum(b) ==> wrapper_file_name(tool, target, a, windows)
            != wrapper_file_name(tool, target, b, windows),
{
    let p = "zig"@ + tool + "-"@ + target + "-"@;
    let ha = hex_of(flags_checksum(a) as nat);
    let hb = hex_of(flags_checksum(b) as nat);
    let tail = "."@ + script_ext(windows);
    let na = wrapper_file_name(tool, target, a, windows);
    let nb = wrapper_file_name(tool, target, b, windows);
    assert(na =~= p + ha + tail);
    assert(nb =~= p + hb + tail);
    if na == nb {
        assert(ha.len() == hb.len());
        assert(ha =~= na.subrange(p.len() as int, (p.len() + ha.len()) as int));
        assert(hb =~= nb.subrange(p.len() as int, (p.len() + hb.len()) as int));
        lemma_hex_injective(flags_checksum(a) as nat, flags_checksum(b) as nat);
    }
}

} // verus!

verus! {

/// The paths of the tools that stand in for a target's C toolchain.
#[derive(Debug)]
pub struct ZigWrapper {
    pub cc: String,
    pub cxx: String,
    pub ar: String,
    pub ranlib: String,
    pub lib: String,
}

/// The extension of an executable on the host.
pub open spec fn exe_ext(windows: bool) -> Seq<char> {
    if windows {
        ".exe"@
    } else {
        seq![]
    }
}

/// Where a target's tools live in the cache directory: the compiler scripts
/// named by target and flag checksum, the others by fixed names.
pub open spec fn wrapper_paths(cache_dir: Seq<char>, target: Seq<char>, flags: Seq<char>, windows: bool) -> (
    Seq<char>,
    Seq<char>,
    Seq<char>,
    Seq<char>,
    Seq<char>,
) {
    (
        path_join(cache_dir, wrapper_file_name("cc"@, target, flags, windows)),
        path_join(cache_dir, wrapper_file_name("cxx"@, target, flags, windows)),
        path_join(cache_dir, "ar"@ + exe_ext(windows)),
        path_join(cache_dir, "zigranlib."@ + script_ext(windows)),
        path_join(cache_dir, "lib"@ + exe_ext(windows)),
    )
}

impl ZigWrapper {
    /// The tool paths for a target whose compiler scripts bake in `flags`.
    pub fn new(cache_dir: &str, target: &str, flags: &str, windows: bool) -> (r: Self)
        ensures
            (r.cc@, r.cxx@, r.ar@, r.ranlib@, r.lib@) == wrapper_paths(cache_dir@, target@, flags@, windows),
    {
        proof {
            reveal_strlit("");
        }
        let exe: &str = if windows {
            ".exe"
        } else {
            ""
        };
        let ext: &str = if windows {
            "bat"
        } else {
            "sh"
        };
        let cc = wrapper_name("cc", target, flags, windows);
        let cxx = wrapper_name("cxx", target, flags, windows);
        let ar = concat("ar", exe);
        let ranlib = concat("zigranlib.", ext);
        let lib = concat("lib", exe);
        ZigWrapper {
            cc: crate::invocation::join_path(cache_dir, cc.as_str()),
            cxx: crate::invocation::join_path(cache_dir, cxx.as_str()),
            ar: crate::invocation::join_path(cache_dir, ar.as_str()),
            ranlib: crate::invocation::join_path(cache_dir, ranlib.as_str()),
            lib: crate::invocation::join_path(cache_dir, lib.as_str()),
        }
    }
}

} // verus!
