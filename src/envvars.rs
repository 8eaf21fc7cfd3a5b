//! The environment variables that point the build tool at a target's wrappers.
use vstd::prelude::*;

use crate::text::{contains, has_infix, replace_all, replaced, str_eq};
use crate::wrapper::ZigWrapper;

verus! {

/// What `str::to_uppercase` yields for `s`.
pub uninterp spec fn upper_of(s: Seq<char>) -> Seq<char>;

/// Relies on `str::to_uppercase`.
#[verifier::external_body]
fn to_upper(s: &str) -> (r: String)
    ensures
        r@ == upper_of(s@),
{
    s.to_uppercase()
}

/// A target's name in variable names: `-` written `_`.
pub open spec fn env_target(target: Seq<char>) -> Seq<char> {
    replaced(target, "-"@, "_"@)
}

/// The variables to set for a target, in order, each only where neither the
/// parent environment nor the child command has it already: the C and C++
/// compilers, the linker (not for WebAssembly), the symbol-index tool, and
/// the archiver when asked for (the import-library tool for MSVC targets).
pub open spec fn target_env_vars(
    target: Seq<char>,
    w: (Seq<char>, Seq<char>, Seq<char>, Seq<char>, Seq<char>),
    enable_zig_ar: bool,
) -> Seq<(Seq<char>, Seq<char>)> {
    let e = env_target(target);
    let (cc, cxx, ar, ranlib, lib) = w;
    seq![("CC_"@ + e, cc), ("CXX_"@ + e, cxx)] + (if has_infix(target, "wasm"@) {
        seq![]
    } else {
        seq![("CARGO_TARGET_"@ + upper_of(e) + "_LINKER"@, cc)]
    }) + seq![("RANLIB_"@ + e, ranlib)] + (if enable_zig_ar {
        seq![("AR_"@ + e, if has_infix(target, "msvc"@) { lib } else { ar })]
    } else {
        seq![]
    })
}

fn cat(a: &str, b: &str) -> (r: String)
    ensures
        r@ == a@ + b@,
{
    let mut r = String::from_str(a);
    r.append(b);
    r
}

/// The views of name/value pairs.
pub open spec fn pair_views(v: Seq<(String, String)>) -> Seq<(Seq<char>, Seq<char>)> {
    v.map_values(|p: (String, String)| (p.0@, p.1@))
}

/// The variables that point the build tool at a target's wrappers.
pub fn target_env(target: &str, wrapper: &ZigWrapper, enable_zig_ar: bool) -> (r: Vec<(String, String)>)
    ensures
        pair_views(r@) == target_env_vars(
            target@,
            (wrapper.cc@, wrapper.cxx@, wrapper.ar@, wrapper.ranlib@, wrapper.lib@),
            enable_zig_ar,
        ),
{
    proof {
        reveal_strlit("-");
    }
    let e = replace_all(target, "-", "_");
    let mut out: Vec<(String, String)> = Vec::new();
    out.push((cat("CC_", e.as_str()), wrapper.cc.clone()));
    out.push((cat("CXX_", e.as_str()), wrapper.cxx.clone()));
    let ghost a0 = pair_views(out@);
    if !contains(target, "wasm") {
        let upper = to_upper(e.as_str());
        let mut name = cat("CARGO_TARGET_", upper.as_str());
        name.append("_LINKER");
        out.push((name, wrapper.cc.clone()));
    }
    let ghost a1 = pair_views(out@);
    out.push((cat("RANLIB_", e.as_str()), wrapper.ranlib.clone()));
    let ghost a2 = pair_views(out@);
    if enable_zig_ar {
        let tool = if contains(target, "msvc") {
            wrapper.lib.clone()
        } else {
            wrapper.ar.clone()
        };
        out.push((cat("AR_", e.as_str()), tool));
    }
    proof {
        assert(a0 =~= seq![("CC_"@ + e@, wrapper.cc@), ("CXX_"@ + e@, wrapper.cxx@)]);
        assert(pair_views(out@) =~= target_env_vars(
            target@,
            (wrapper.cc@, wrapper.cxx@, wrapper.ar@, wrapper.ranlib@, wrapper.lib@),
            enable_zig_ar,
        ));
    }
    out
}

/// The directory name of a build profile: `dev` and `test` build into
/// `debug`, `release` and `bench` into `release`, any other profile into its
/// own name; without a profile, the release flag decides.
pub open spec fn profile_dir(profile: Option<Seq<char>>, release: bool) -> Seq<char> {
    match profile {
        Some(p) => if p == "dev"@ || p == "test"@ {
            "debug"@
        } else if p == "release"@ || p == "bench"@ {
            "release"@
        } else {
            p
        },
        None => if release {
            "release"@
        } else {
            "debug"@
        },
    }
}

/// The output directory name of a build profile.
pub fn profile_dir_name(profile: Option<&str>, release: bool) -> (r: String)
    ensures
        r@ == profile_dir(
            match profile {
                Some(p) => Some(p@),
                None => None,
            },
            release,
        ),
{

    let s = match profile {
        Some(p) => if str_eq(p, "dev") || str_eq(p, "test") {
            "debug"
        } else if str_eq(p, "release") || str_eq(p, "bench") {
            "release"
        } else {
            p
        },
        None => if release {
            "release"
        } else {
            "debug"
        },
    };
    String::from_str(s)
}

} // verus!
