use cargo_zigbuild::bindgen::{
    bindgen_args, collect_zig_cc_options, parse_language_options, BindgenError, IncludeKind,
};
use cargo_zigbuild::cmake::{cmake_system_of, cmake_toolchain};
use cargo_zigbuild::envvars::{profile_dir_name, target_env};
use cargo_zigbuild::flags::TargetFlags;
use cargo_zigbuild::invocation::{
    compiler_arguments, has_undefined_dynamic_lookup, is_response_file, response_files, CompilerEnv,
    Zig,
};
use cargo_zigbuild::linker::{filter_linker_arg, TargetInfo};
use cargo_zigbuild::response_file::{process_linker_response_file, split_lines, ResponseFileError};
use cargo_zigbuild::target::{resolve_target, TargetError};
use cargo_zigbuild::version::{parse_version, validate_zig_version, Version, VersionError};
use cargo_zigbuild::wrapper::{
    adjust_canonicalization, checksum, flags_text, script_content, to_hex, wrapper_flags,
    wrapper_name, write_needed, ZigWrapper,
};

fn v(major: u64, minor: u64) -> Version {
    Version { major, minor, patch: 0, pre_release: false, build_metadata: false }
}

fn info(target: &str) -> TargetInfo {
    let t = target.to_string();
    TargetInfo::new(Some(&t))
}

fn strings(v: &[&str]) -> Vec<String> {
    v.iter().map(|s| s.to_string()).collect()
}

#[test]
fn test_target_flags() {
    let cases = [
        ("-C target-feature=-crt-static", "", "-crt-static"),
        ("-C target-cpu=native", "native", ""),
        ("--deny warnings --codegen target-feature=+crt-static", "", "+crt-static"),
        ("-C target_cpu=skylake-avx512", "skylake-avx512", ""),
        ("-Ctarget_cpu=x86-64-v3", "x86-64-v3", ""),
        (
            "-C target-cpu=native --cfg foo -C target-feature=-avx512bf16,-avx512bitalg",
            "native",
            "-avx512bf16,-avx512bitalg",
        ),
        (
            "--target x86_64-unknown-linux-gnu --codegen=target-cpu=x --codegen=target-cpu=x86-64",
            "x86-64",
            "",
        ),
        ("-Ctarget-feature=+crt-static -Ctarget-feature=+avx", "", "+crt-static,+avx"),
    ];
    for (input, expected_target_cpu, expected_target_feature) in cases.iter() {
        let args = cargo_config2::Flags::from_space_separated(input);
        let encoded_rust_flags = args.encode().unwrap();
        let flags = TargetFlags::parse_from_encoded(&encoded_rust_flags);
        assert_eq!(flags.target_cpu, *expected_target_cpu, "{}", input);
        assert_eq!(flags.target_feature, *expected_target_feature, "{}", input);
    }
}

#[test]
fn gcc_s_becomes_unwind_on_every_target() {
    for t in ["x86_64-linux-gnu", "aarch64-macos-none", "x86_64-windows-gnu", "arm-linux-musleabihf"] {
        assert_eq!(filter_linker_arg("-lgcc_s", &v(1, 80), &v(0, 13), &info(t)), vec!["-lunwind"]);
    }
    assert_eq!(
        filter_linker_arg("-lgcc_s", &v(1, 80), &v(0, 13), &TargetInfo::new(None)),
        vec!["-lunwind"]
    );
}

#[test]
fn musl_drops_libc_but_keeps_libm() {
    let t = info("x86_64-linux-musl");
    assert!(filter_linker_arg("-lc", &v(1, 80), &v(0, 13), &t).is_empty());
    assert_eq!(filter_linker_arg("-lm", &v(1, 80), &v(0, 13), &t), vec!["-lm"]);
    let crt = "/x/self-contained/crt1.o";
    assert!(filter_linker_arg(crt, &v(1, 80), &v(0, 13), &t).is_empty());
    let old_libc = "/x/liblibc-123.rlib";
    assert!(filter_linker_arg(old_libc, &v(1, 58), &v(0, 13), &t).is_empty());
    assert_eq!(filter_linker_arg(old_libc, &v(1, 59), &v(0, 13), &t), vec![old_libc]);
}

#[test]
fn arm_resolves_to_hard_float_and_drops_march() {
    let spec = resolve_target("arm-unknown-linux-gnueabihf", &v(0, 13)).unwrap();
    assert_eq!(spec.arch, "arm");
    assert_eq!(spec.toolchain_env, "gnueabihf");
    assert!(spec.cpu.contains("vfp2"));
    assert_eq!(spec.zig_target, "arm-linux-gnueabihf");
    let t = info(&spec.zig_target);
    assert!(filter_linker_arg("-march=armv6", &v(1, 80), &v(0, 13), &t).is_empty());
}

#[test]
fn march_dropped_wherever_a_baseline_cpu_is_set() {
    let x86 = resolve_target("i686-unknown-linux-gnu", &v(0, 13)).unwrap();
    assert_eq!(x86.zig_target, "x86-linux-gnu");
    assert!(filter_linker_arg("-march=pentium4", &v(1, 80), &v(0, 13), &info(&x86.zig_target)).is_empty());
    assert!(filter_linker_arg("-march=pentium4", &v(1, 80), &v(0, 10), &info("i386-linux-gnu")).is_empty());
    assert!(filter_linker_arg("-march=z10", &v(1, 80), &v(0, 13), &info("s390x-linux-gnu")).is_empty());
    assert_eq!(
        filter_linker_arg("-march=x86-64", &v(1, 80), &v(0, 13), &info("x86_64-linux-gnu")),
        vec!["-march=x86-64"]
    );
}

#[test]
fn windows_gnu_rules() {
    let t = info("x86_64-windows-gnu");
    assert_eq!(filter_linker_arg("-lgcc_eh", &v(1, 80), &v(0, 13), &t), vec!["-lc++"]);
    assert_eq!(
        filter_linker_arg("-Wl,-Bdynamic", &v(1, 80), &v(0, 11), &t),
        vec!["-Wl,-search_paths_first"]
    );
    assert_eq!(filter_linker_arg("-Wl,-Bdynamic", &v(1, 80), &v(0, 10), &t), vec!["-Wl,-Bdynamic"]);
    assert!(filter_linker_arg("-Wl,--dynamicbase", &v(1, 80), &v(0, 13), &t).is_empty());
    assert!(filter_linker_arg("-Wl,C:\\tmp\\list.def", &v(1, 80), &v(0, 13), &t).is_empty());
    assert!(filter_linker_arg("/x/libcompiler_builtins-abc.rlib", &v(1, 80), &v(0, 13), &t).is_empty());
}

#[test]
fn aarch64_march_is_rewritten() {
    let linux = info("aarch64-linux-gnu");
    assert_eq!(
        filter_linker_arg("-march=armv8-a+simd", &v(1, 80), &v(0, 13), &linux),
        vec!["-march=generic+v8a+neon"]
    );
    let mac = info("aarch64-macos-none");
    assert_eq!(
        filter_linker_arg("-march=armv8-a+crypto", &v(1, 80), &v(0, 13), &mac),
        vec!["-march=apple_m1+crypto", "-Xassembler", "-march=armv8-a+crypto"]
    );
    let riscv = info("riscv64-linux-gnu");
    assert_eq!(
        filter_linker_arg("-march=rv64gc", &v(1, 80), &v(0, 13), &riscv),
        vec!["-march=generic_rv64"]
    );
}

#[test]
fn compiler_arguments_rewrite_the_whole_line() {
    let env = CompilerEnv {
        rustc_version: v(1, 80),
        zig_version: v(0, 13),
        sdk_root: None,
        deps_dir: "/cache/deps".to_string(),
    };
    let args = strings(&[
        "-target", "mips-linux-gnueabihf", "-lgcc_s", "-Wl,-exported_symbols_list", "syms.txt",
        "--target=x", "-undefined", "dynamic_lookup", "@/tmp/linker-arguments",
    ]);
    let out = compiler_arguments(&args, &env);
    assert_eq!(
        out,
        strings(&[
            "-target", "mips-linux-gnueabihf", "-lunwind", "-undefined", "dynamic_lookup",
            "@/tmp/linker-arguments", "-Wl,-z,notext", "-Wl,-undefined=dynamic_lookup",
        ])
    );
    assert!(has_undefined_dynamic_lookup(&args));
    assert!(is_response_file("@/tmp/linker-arguments"));
    let skipped = strings(&["-Wl,-exported_symbols_list", "@/a/linker-arguments", "@/b/linker-arguments"]);
    assert_eq!(response_files(&skipped), strings(&["@/b/linker-arguments"]));
    assert!(!is_response_file("/tmp/linker-arguments"));
}

#[test]
fn macos_arguments_point_at_the_sdk() {
    let env = CompilerEnv {
        rustc_version: v(1, 80),
        zig_version: v(0, 12),
        sdk_root: Some("/sdk".to_string()),
        deps_dir: "/cache/deps".to_string(),
    };
    let args = strings(&["-target", "aarch64-macos-none", "-liconv", "-Wl,-dylib"]);
    let out = compiler_arguments(&args, &env);
    assert_eq!(
        out,
        strings(&[
            "-target", "aarch64-macos-none", "-liconv", "-lcharset", "--sysroot=/sdk",
            "-isystem", "/sdk/usr/include", "-L/sdk/usr/lib", "-F/sdk/System/Library/Frameworks",
            "-DTARGET_OS_IPHONE=0", "-L", "/cache/deps",
        ])
    );
}

#[test]
fn archiver_arguments_pass_unchanged() {
    let zig = Zig::Ar { args: strings(&["crs", "-lgcc_s"]) };
    let inv = zig.execute(None);
    assert_eq!(inv.subcommand, "ar");
    assert_eq!(inv.args, strings(&["crs", "-lgcc_s"]));
    assert!(!zig.filters_arguments());
}

#[test]
fn response_files_are_filtered_in_their_encoding() {
    let t = info("x86_64-linux-musl");
    let out = process_linker_response_file(&b"-lc\n-lm\n-lgcc_s".to_vec(), &v(1, 80), &v(0, 13), &t);
    assert_eq!(out, Ok(b"-lm\n-lunwind".to_vec()));
    let msvc = info("x86_64-windows-msvc");
    let mut utf16 = vec![0xff, 0xfe];
    for c in "-lgcc_s".encode_utf16() {
        utf16.extend_from_slice(&c.to_le_bytes());
    }
    let mut expected = vec![0xff, 0xfe];
    for c in "-lunwind".encode_utf16() {
        expected.extend_from_slice(&c.to_le_bytes());
    }
    assert_eq!(process_linker_response_file(&utf16, &v(1, 80), &v(0, 13), &msvc), Ok(expected));
    assert_eq!(
        process_linker_response_file(&b"-lc".to_vec(), &v(1, 80), &v(0, 13), &msvc),
        Err(ResponseFileError::MissingBom)
    );
    assert_eq!(
        process_linker_response_file(&vec![0xff, 0xfe, 0x00, 0xd8], &v(1, 80), &v(0, 13), &msvc),
        Err(ResponseFileError::InvalidUtf16)
    );
    assert_eq!(
        process_linker_response_file(&vec![0xff, 0xff], &v(1, 80), &v(0, 13), &t),
        Err(ResponseFileError::InvalidUtf8)
    );
    assert_eq!(split_lines("a\n\nb"), strings(&["a", "", "b"]));
    let wide = "-L/tmp/\u{1F600}/\u{e9}";
    let mut input = vec![0xff, 0xfe];
    for c in wide.encode_utf16() {
        input.extend_from_slice(&c.to_le_bytes());
    }
    assert_eq!(process_linker_response_file(&input, &v(1, 80), &v(0, 13), &msvc), Ok(input.clone()));
}

#[test]
fn abi_suffix_shapes() {
    let ok = resolve_target("x86_64-unknown-linux-gnu.2.17", &v(0, 13)).unwrap();
    assert_eq!(ok.rust_target, "x86_64-unknown-linux-gnu");
    assert_eq!(ok.abi_suffix, ".2.17");
    assert_eq!(ok.abi_version, Some((2, 17)));
    assert_eq!(ok.zig_target, "x86_64-linux-gnu.2.17");
    for bad in [
        "x86_64-unknown-linux-gnu.2",
        "x86_64-unknown-linux-gnu.2.",
        "x86_64-unknown-linux-gnu..17",
        "x86_64-unknown-linux-gnu.2.x",
        "x86_64-unknown-linux-gnu.2.17.1",
    ] {
        assert_eq!(resolve_target(bad, &v(0, 13)).unwrap_err(), TargetError::MalformedTarget, "{bad}");
    }
    assert_eq!(
        resolve_target("x86_64-unknown-none", &v(0, 13)).unwrap_err(),
        TargetError::UnsupportedTarget
    );
    assert_eq!(
        resolve_target("not a triple", &v(0, 13)).unwrap_err(),
        TargetError::UnsupportedTarget
    );
}

#[test]
fn toolchain_targets_by_os() {
    let t = |s: &str, zig: Version| resolve_target(s, &zig).unwrap().zig_target;
    assert_eq!(t("i686-unknown-linux-gnu", v(0, 11)), "x86-linux-gnu");
    assert_eq!(t("i686-unknown-linux-gnu", v(0, 10)), "i386-linux-gnu");
    assert_eq!(t("mips-unknown-linux-gnu", v(0, 13)), "mips-linux-gnueabihf");
    assert_eq!(t("x86_64-pc-windows-gnullvm", v(0, 13)), "x86_64-windows-gnu");
    assert_eq!(t("aarch64-apple-darwin", v(0, 13)), "aarch64-macos-none");
    assert_eq!(t("wasm32-unknown-unknown", v(0, 13)), "wasm32-freestanding");
    assert_eq!(t("wasm32-wasip1", v(0, 13)), "wasm32-wasi.0.1.0");
    assert_eq!(resolve_target("i686-unknown-linux-gnu", &v(0, 13)).unwrap().cpu, "pentium4");
}

#[test]
fn wrapper_flags_and_names() {
    let spec = resolve_target("x86_64-unknown-linux-musl", &v(0, 11)).unwrap();
    let flags = wrapper_flags(&spec, "x86-64-v3", &v(1, 70), &v(0, 11), "/cache");
    assert_eq!(
        flags.args,
        strings(&[
            "-g",
            "-fno-sanitize=all",
            "-mcpu=x86_64_v3",
            "-target x86_64-linux-musl",
            "-Wl,-T,/cache/musl_weak_symbols_map.ld",
        ])
    );
    assert!(flags.musl_weak_symbols && !flags.fcntl_shim);
    let gnu = resolve_target("x86_64-unknown-linux-gnu.2.17", &v(0, 10)).unwrap();
    let gflags = wrapper_flags(&gnu, "", &v(1, 70), &v(0, 10), "/cache");
    assert!(gflags.fcntl_shim);
    assert_eq!(gflags.args[3], "-Wl,--version-script=/cache/fcntl.map");
    let text = flags_text(&flags.args);
    assert_eq!(text, flags.args.join(" "));
    let a = wrapper_name("cc", "x86_64-unknown-linux-musl", &text, false);
    let b = wrapper_name("cc", "x86_64-unknown-linux-musl", &text, false);
    assert_eq!(a, b);
    let c = wrapper_name("cc", "x86_64-unknown-linux-musl", "-g", false);
    assert_ne!(a, c);
    assert_eq!(checksum("123456789"), 0x906e);
    assert_eq!(wrapper_name("cc", "t", "123456789", false), "zigcc-t-906e.sh");
    assert_eq!(wrapper_name("cxx", "t", "123456789", true), "zigcxx-t-906e.bat");
    let w = ZigWrapper::new("/cache", "t", "123456789", false);
    assert_eq!(w.cc, "/cache/zigcc-t-906e.sh");
    assert_eq!(w.ranlib, "/cache/zigranlib.sh");
    assert_eq!(w.ar, "/cache/ar");
    assert_eq!(ZigWrapper::new("/c/", "t", "123456789", true).lib, "/c/lib.exe");
}

#[test]
fn hex_and_scripts() {
    assert_eq!(to_hex(0), "0");
    assert_eq!(to_hex(0xabc), "abc");
    assert_eq!(to_hex(0xffff), "ffff");
    assert_eq!(
        script_content("/bin/cz", "cc", "-g", false),
        "#!/bin/sh\nexec \"/bin/cz\" zig cc -- -g \"$@\"\n"
    );
    assert_eq!(
        script_content("\\\\?\\C:\\cz.exe", "c++", "-g", true),
        "\"C:\\cz.exe\" zig c++ -- -g %*\n"
    );
    assert_eq!(adjust_canonicalization("\\\\?\\C:\\x".to_string()), "C:\\x");
    assert_eq!(adjust_canonicalization("C:\\x".to_string()), "C:\\x");
    let content = b"#!/bin/sh\n".to_vec();
    assert!(!write_needed(&content, &content));
    assert!(write_needed(&Vec::new(), &content));
}

#[test]
fn versions() {
    assert_eq!(parse_version("\u{3000}\t0.13.0\u{a0}").map(|v| v.minor), Some(13));
    let parsed = parse_version(" 0.12.0-dev.1+abc\n").unwrap();
    assert_eq!((parsed.major, parsed.minor, parsed.patch), (0, 12, 0));
    assert!(parsed.pre_release && parsed.build_metadata);
    assert!(validate_zig_version("0.9.0").is_ok());
    assert_eq!(validate_zig_version("0.8.1"), Err(VersionError::TooOld(Version {
        major: 0,
        minor: 8,
        patch: 1,
        pre_release: false,
        build_metadata: false,
    })));
    assert!(validate_zig_version("0.9.0-dev.1").is_err());
    assert_eq!(validate_zig_version("zig"), Err(VersionError::Unparsable));
}

#[test]
fn it_works() {
    assert_eq!(1, 1);
}

const C_OUTPUT: &str = "clang -cc1 -D__GLIBC_MINOR__=17 -x c\n#include \"...\" search starts here:\n#include <...> search starts here:\n /zig/lib/include\n /zig/libc/include/x86_64-linux-gnu\n /zig/libc/include/generic-glibc\nEnd of search list.\n";
const CPP_OUTPUT: &str = "clang -cc1 -D__GLIBC_MINOR__=17 -x c++\n#include <...> search starts here:\n /zig/lib/libcxx/include\n /zig/lib/libcxxabi/include\n /zig/lib/include\n /zig/libc/include/x86_64-linux-gnu\n /zig/libc/include/generic-glibc\n /zig/extra/include\nEnd of search list.\n";

#[test]
fn bindgen_options_split_cxx_only_directories() {
    let c = parse_language_options(C_OUTPUT).unwrap();
    assert_eq!(c.glibc_minor_ver, Some(17));
    assert_eq!(c.include_paths.len(), 3);
    assert_eq!(c.include_paths[0], (IncludeKind::Normal, "/zig/lib/include".to_string()));
    let out = collect_zig_cc_options(C_OUTPUT, CPP_OUTPUT, "x86_64-unknown-linux-gnu", None).unwrap();
    let mut expected = strings(&[
        "-nostdinc",
        "-D_LIBCPP_DISABLE_VISIBILITY_ANNOTATIONS",
        "-D_LIBCPP_HAS_NO_VENDOR_AVAILABILITY_ANNOTATIONS",
        "-D_LIBCXXABI_DISABLE_VISIBILITY_ANNOTATIONS",
        "-D_LIBCPP_PSTL_CPU_BACKEND_SERIAL",
        "-D_LIBCPP_ABI_VERSION=1",
        "-D_LIBCPP_ABI_NAMESPACE=__1",
        "-D_LIBCPP_HARDENING_MODE=_LIBCPP_HARDENING_MODE_FAST",
        "-D__GLIBC_MINOR__=17",
        "-cxx-isystem", "/zig/lib/libcxx/include",
        "-cxx-isystem", "/zig/lib/libcxxabi/include",
    ]);
    for p in ["/zig/lib/include", "/zig/libc/include/x86_64-linux-gnu", "/zig/libc/include/generic-glibc"] {
        expected.extend(strings(&["-Xclang", "-c-isystem", "-Xclang", p, "-cxx-isystem", p]));
    }
    expected.extend(strings(&["-cxx-isystem", "/zig/extra/include"]));
    assert_eq!(out, expected);
    let framework = "#include <...> search starts here:\n /sdk/Frameworks (framework directory)\n /sdk/include\nEnd of search list.\n";
    let f = parse_language_options(framework).unwrap();
    assert_eq!(f.include_paths[0], (IncludeKind::Framework, "/sdk/Frameworks".to_string()));
    assert_eq!(f.glibc_minor_ver, None);
    assert_eq!(
        parse_language_options("no list here").err(),
        Some(BindgenError::UnparsableOutput)
    );
    assert_eq!(
        parse_language_options("#include <...> search starts here:\n /x (headermap)\nEnd of search list.").err(),
        Some(BindgenError::HeaderMap)
    );
    let other_glibc = C_OUTPUT.replace("=17", "=28");
    assert_eq!(
        collect_zig_cc_options(&other_glibc, CPP_OUTPUT, "x86_64-unknown-linux-gnu", None).err(),
        Some(BindgenError::GlibcMismatch)
    );
    let frameworks_only = "#include <...> search starts here:\n /sdk/Frameworks (framework directory)\nEnd of search list.\n";
    assert_eq!(
        collect_zig_cc_options(frameworks_only, frameworks_only, "aarch64-apple-darwin", None).err(),
        Some(BindgenError::UnexpectedLayout)
    );
    let musl = collect_zig_cc_options(C_OUTPUT, CPP_OUTPUT, "x86_64-unknown-linux-musl", None).unwrap();
    assert_eq!(musl[1], "-D_LIBCPP_HAS_MUSL_LIBC");
    let ohos = collect_zig_cc_options(C_OUTPUT, CPP_OUTPUT, "aarch64-unknown-linux-ohos", Some("/ndk")).unwrap();
    assert!(ohos.contains(&"/ndk/native/sysroot/usr/include".to_string()));
}

#[test]
fn environment_for_a_target() {
    let w = ZigWrapper::new("/c", "x86_64-pc-windows-msvc", "-g", false);
    let vars = target_env("x86_64-pc-windows-msvc", &w, true);
    let names: Vec<&str> = vars.iter().map(|(n, _)| n.as_str()).collect();
    assert_eq!(
        names,
        vec![
            "CC_x86_64_pc_windows_msvc",
            "CXX_x86_64_pc_windows_msvc",
            "CARGO_TARGET_X86_64_PC_WINDOWS_MSVC_LINKER",
            "RANLIB_x86_64_pc_windows_msvc",
            "AR_x86_64_pc_windows_msvc",
        ]
    );
    assert_eq!(vars[4].1, "/c/lib");
    let wasm = target_env("wasm32-unknown-unknown", &w, false);
    assert_eq!(wasm.len(), 3);
    assert_eq!(
        cmake_system_of("aarch64-apple-darwin"),
        Some(("Darwin".to_string(), "arm64".to_string()))
    );
    assert_eq!(
        cmake_system_of("powerpc64le-unknown-linux-gnu"),
        Some(("Linux".to_string(), "ppc64le".to_string()))
    );
    assert_eq!(
        cmake_system_of("i686-pc-windows-msvc"),
        Some(("Windows".to_string(), "X86".to_string()))
    );
    assert_eq!(
        cmake_toolchain("Linux", "x86_64", "/cc", "/cxx", "/ranlib", Some("/ar")),
        "\nset(CMAKE_SYSTEM_NAME Linux)\nset(CMAKE_SYSTEM_PROCESSOR x86_64)\nset(CMAKE_C_COMPILER /cc)\nset(CMAKE_CXX_COMPILER /cxx)\nset(CMAKE_RANLIB /ranlib)\nset(CMAKE_C_LINKER_DEPFILE_SUPPORTED FALSE)\nset(CMAKE_CXX_LINKER_DEPFILE_SUPPORTED FALSE)\nset(CMAKE_FIND_ROOT_PATH_MODE_PROGRAM NEVER)\nset(CMAKE_FIND_ROOT_PATH_MODE_LIBRARY ONLY)\nset(CMAKE_FIND_ROOT_PATH_MODE_INCLUDE ONLY)\nset(CMAKE_FIND_ROOT_PATH_MODE_PACKAGE ONLY)\nset(CMAKE_AR /ar)\n"
    );
    assert_eq!(profile_dir_name(Some("test"), false), "debug");
    assert_eq!(profile_dir_name(Some("bench"), false), "release");
    assert_eq!(profile_dir_name(Some("custom"), false), "custom");
    assert_eq!(profile_dir_name(None, true), "release");
}

#[test]
fn bindgen_variable_value() {
    let opts = strings(&["-nostdinc", "-cxx-isystem", "/a b"]);
    assert_eq!(bindgen_args(None, &opts).as_deref(), Some("-nostdinc -cxx-isystem '/a b'"));
    assert_eq!(bindgen_args(Some("-DX"), &opts).as_deref(), Some("-DX -nostdinc -cxx-isystem '/a b'"));
    assert_eq!(bindgen_args(Some(""), &opts).as_deref(), Some("-nostdinc -cxx-isystem '/a b'"));
    assert_eq!(bindgen_args(Some("it's"), &strings(&["-x"])).as_deref(), Some("\"it's\" -x"));
    assert_eq!(bindgen_args(None, &strings(&["a\0b"])), None);
}
