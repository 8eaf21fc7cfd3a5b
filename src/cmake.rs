//! The CMake toolchain file that points CMake-driven builds at the wrappers.
use vstd::prelude::*;

use crate::target::{lexicon_triple, parse_triple};
use crate::text::str_eq;

verus! {

/// CMake's system name and processor for an operating system and an
/// architecture, by target-lexicon's names.
pub open spec fn cmake_system(os: Seq<char>, arch: Seq<char>) -> (Seq<char>, Seq<char>) {
    if os == "darwin"@ && arch == "x86_64"@ {
        ("Darwin"@, "x86_64"@)
    } else if os == "darwin"@ && arch == "aarch64"@ {
        ("Darwin"@, "arm64"@)
    } else if os == "linux"@ {
        (
            "Linux"@,
            if arch == "powerpc"@ {
                "ppc"@
            } else if arch == "powerpc64"@ {
                "ppc64"@
            } else if arch == "powerpc64le"@ {
                "ppc64le"@
            } else {
                arch
            },
        )
    } else if os == "windows"@ && arch == "x86_64"@ {
        ("Windows"@, "AMD64"@)
    } else if os == "windows"@ && arch == "i686"@ {
        ("Windows"@, "X86"@)
    } else if os == "windows"@ && arch == "aarch64"@ {
        ("Windows"@, "ARM64"@)
    } else {
        (os, arch)
    }
}

/// The system name and processor that CMake should assume for `target`, or
/// `None` when the triple does not parse.
pub fn cmake_system_of(target: &str) -> (r: Option<(String, String)>)
    ensures
        match r {
            Some((n, p)) => lexicon_triple(target@) matches Some(t) && (n@, p@) == cmake_system(
                t.os,
                t.arch,
            ),
            None => lexicon_triple(target@) is None,
        },
{
    let t = match parse_triple(target) {
        Some(t) => t,
        None => {
            return None;
        },
    };
    let os = t.os.as_str();
    let arch = t.arch.as_str();
    let (name, processor): (&str, &str) = if str_eq(os, "darwin") && str_eq(arch, "x86_64") {
        ("Darwin", "x86_64")
    } else if str_eq(os, "darwin") && str_eq(arch, "aarch64") {
        ("Darwin", "arm64")
    } else if str_eq(os, "linux") {
        (
            "Linux",
            if str_eq(arch, "powerpc") {
                "ppc"
            } else if str_eq(arch, "powerpc64") {
                "ppc64"
            } else if str_eq(arch, "powerpc64le") {
                "ppc64le"
            } else {
                arch
            },
        )
    } else if str_eq(os, "windows") && str_eq(arch, "x86_64") {
        ("Windows", "AMD64")
    } else if str_eq(os, "windows") && str_eq(arch, "i686") {
        ("Windows", "X86")
    } else if str_eq(os, "windows") && str_eq(arch, "aarch64") {
        ("Windows", "ARM64")
    } else {
        (os, arch)
    };
    Some((String::from_str(name), String::from_str(processor)))
}

/// The settings that keep CMake from finding the host's headers, libraries
/// and packages: those are searched for only under the target's root paths,
/// while programs are still taken from the host.
pub open spec fn host_search_off() -> Seq<char> {
    "\nset(CMAKE_FIND_ROOT_PATH_MODE_PROGRAM NEVER)\nset(CMAKE_FIND_ROOT_PATH_MODE_LIBRARY ONLY)\nset(CMAKE_FIND_ROOT_PATH_MODE_INCLUDE ONLY)\nset(CMAKE_FIND_ROOT_PATH_MODE_PACKAGE ONLY)"@
}

/// The text of a toolchain file: system, compilers and symbol-index tool,
/// no linker dependency files, host header, library and package search
/// turned off, and the archiver when one is given.
pub open spec fn toolchain_text(
    name: Seq<char>,
    processor: Seq<char>,
    cc: Seq<char>,
    cxx: Seq<char>,
    ranlib: Seq<char>,
    ar: Option<Seq<char>>,
) -> Seq<char> {
    "\nset(CMAKE_SYSTEM_NAME "@ + name + ")\nset(CMAKE_SYSTEM_PROCESSOR "@ + processor
        + ")\nset(CMAKE_C_COMPILER "@ + cc + ")\nset(CMAKE_CXX_COMPILER "@ + cxx
        + ")\nset(CMAKE_RANLIB "@ + ranlib
        + ")\nset(CMAKE_C_LINKER_DEPFILE_SUPPORTED FALSE)\nset(CMAKE_CXX_LINKER_DEPFILE_SUPPORTED FALSE)"@
        + host_search_off() + match ar {
        Some(a) => "\nset(CMAKE_AR "@ + a + ")\n"@,
        None => seq![],
    }
}

/// Writes the text of a CMake toolchain file.
pub fn cmake_toolchain(
    name: &str,
    processor: &str,
    cc: &str,
    cxx: &str,
    ranlib: &str,
    ar: Option<&str>,
) -> (r: String)
    ensures
        r@ == toolchain_text(
            name@,
            processor@,
            cc@,
            cxx@,
            ranlib@,
            match ar {
                Some(a) => Some(a@),
                None => None,
            },
        ),
{
    let mut r = String::from_str("\nset(CMAKE_SYSTEM_NAME ");
    r.append(name);
    r.append(")\nset(CMAKE_SYSTEM_PROCESSOR ");
    r.append(processor);
    r.append(")\nset(CMAKE_C_COMPILER ");
    r.append(cc);
    r.append(")\nset(CMAKE_CXX_COMPILER ");
    r.append(cxx);
    r.append(")\nset(CMAKE_RANLIB ");
    r.append(ranlib);
    r.append(
        ")\nset(CMAKE_C_LINKER_DEPFILE_SUPPORTED FALSE)\nset(CMAKE_CXX_LINKER_DEPFILE_SUPPORTED FALSE)",
    );
    r.append(
        "\nset(CMAKE_FIND_ROOT_PATH_MODE_PROGRAM NEVER)\nset(CMAKE_FIND_ROOT_PATH_MODE_LIBRARY ONLY)\nset(CMAKE_FIND_ROOT_PATH_MODE_INCLUDE ONLY)\nset(CMAKE_FIND_ROOT_PATH_MODE_PACKAGE ONLY)",
    );
    match ar {
        Some(a) => {
            r.append("\nset(CMAKE_AR ");
            r.append(a);
            r.append(")\n");
        },
        None => {},
    }
    r
}

} // verus!
