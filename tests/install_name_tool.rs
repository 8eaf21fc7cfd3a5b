use cargo_zigbuild::macho::{parse_args, process_file_data, process_single_macho, ArgsError, MachOError};
use goblin::mach::{MachO, MultiArch};

fn push_u32(out: &mut Vec<u8>, v: u32) {
    out.extend_from_slice(&v.to_le_bytes());
}

fn padded_cstr(s: &str, head: usize, align: usize) -> (usize, Vec<u8>) {
    let mut bytes = s.as_bytes().to_vec();
    bytes.push(0);
    while bytes.len() % 4 != 0 {
        bytes.push(0);
    }
    let mut size = head + bytes.len();
    while size % align != 0 {
        size += 1;
        bytes.push(0);
    }
    (size, bytes)
}

/// A little-endian 64-bit dylib with an id and one runtime path `/old/rpath`,
/// followed by room for more load commands.
fn dylib_64(cputype: u32) -> Vec<u8> {
    let (id_size, id_name) = padded_cstr("/old/lib/test.dylib", 24, 8);
    let (rp_size, rp_path) = padded_cstr("/old/rpath", 12, 8);
    let mut cmds = Vec::new();
    push_u32(&mut cmds, 0xd);
    push_u32(&mut cmds, id_size as u32);
    push_u32(&mut cmds, 24);
    push_u32(&mut cmds, 2);
    push_u32(&mut cmds, 0x10000);
    push_u32(&mut cmds, 0x10000);
    cmds.extend_from_slice(&id_name);
    push_u32(&mut cmds, 0x8000001c);
    push_u32(&mut cmds, rp_size as u32);
    push_u32(&mut cmds, 12);
    cmds.extend_from_slice(&rp_path);
    let mut out = Vec::new();
    push_u32(&mut out, 0xfeedfacf);
    push_u32(&mut out, cputype);
    push_u32(&mut out, 0);
    push_u32(&mut out, 6);
    push_u32(&mut out, 2);
    push_u32(&mut out, cmds.len() as u32);
    push_u32(&mut out, 0);
    push_u32(&mut out, 0);
    out.extend_from_slice(&cmds);
    out.resize(1024, 0);
    out
}

fn fixture(name: &str) -> Vec<u8> {
    match name {
        "test_aarch64.dylib" => dylib_64(0x0100000c),
        "test_x86_64.dylib" => dylib_64(0x01000007),
        "test_universal2.dylib" => {
            let a = dylib_64(0x01000007);
            let b = dylib_64(0x0100000c);
            let mut out = Vec::new();
            out.extend_from_slice(&0xcafebabeu32.to_be_bytes());
            out.extend_from_slice(&2u32.to_be_bytes());
            for (i, (cpu, slice)) in [(0x01000007u32, &a), (0x0100000cu32, &b)].iter().enumerate() {
                let offset = 4096 * (i as u32 + 1);
                for v in [*cpu, 0, offset, slice.len() as u32, 12] {
                    out.extend_from_slice(&v.to_be_bytes());
                }
            }
            out.resize(4096, 0);
            out.extend_from_slice(&a);
            out.resize(8192, 0);
            out.extend_from_slice(&b);
            out
        },
        _ => panic!("unknown fixture {name}"),
    }
}

fn run(data: Vec<u8>, args: &[&str]) -> Result<Vec<u8>, MachOError> {
    let mut all: Vec<String> = args.iter().map(|s| s.to_string()).collect();
    all.push("input.dylib".to_string());
    let parsed = parse_args(&all).unwrap();
    process_file_data(data, &parsed)
}

fn read_id(data: &[u8]) -> Option<String> {
    let macho = MachO::parse(data, 0).unwrap();
    macho.name.map(|s| s.to_string())
}

fn read_rpaths(data: &[u8]) -> Vec<String> {
    let macho = MachO::parse(data, 0).unwrap();
    macho.rpaths.iter().map(|s| s.to_string()).collect()
}

fn fat_slices(data: &[u8]) -> Vec<(usize, usize)> {
    let multi = MultiArch::new(data).unwrap();
    multi
        .iter_arches()
        .map(|a| {
            let a = a.unwrap();
            (a.offset as usize, a.size as usize)
        })
        .collect()
}

#[test]
fn test_change_id_aarch64() {
    let data = run(fixture("test_aarch64.dylib"), &["-id", "/new/lib/test.dylib"]).unwrap();
    assert_eq!(read_id(&data).as_deref(), Some("/new/lib/test.dylib"));
}

#[test]
fn test_change_rpath_aarch64() {
    let data = run(fixture("test_aarch64.dylib"), &["-rpath", "/old/rpath", "/new/rpath"]).unwrap();
    let rpaths = read_rpaths(&data);
    assert_eq!(rpaths, vec!["/new/rpath"]);
}

#[test]
fn test_delete_rpath_aarch64() {
    let data = run(fixture("test_aarch64.dylib"), &["-delete_rpath", "/old/rpath"]).unwrap();
    let rpaths = read_rpaths(&data);
    assert!(rpaths.is_empty());
}

#[test]
fn test_add_rpath_aarch64() {
    let data = run(fixture("test_aarch64.dylib"), &["-add_rpath", "/added/rpath"]).unwrap();
    let rpaths = read_rpaths(&data);
    assert!(rpaths.contains(&"/old/rpath".to_string()));
    assert!(rpaths.contains(&"/added/rpath".to_string()));
}

#[test]
fn test_change_id_x86_64() {
    let data = run(fixture("test_x86_64.dylib"), &["-id", "/new/lib/test.dylib"]).unwrap();
    assert_eq!(read_id(&data).as_deref(), Some("/new/lib/test.dylib"));
}

#[test]
fn test_change_rpath_x86_64() {
    let data = run(fixture("test_x86_64.dylib"), &["-rpath", "/old/rpath", "/new/rpath"]).unwrap();
    let rpaths = read_rpaths(&data);
    assert_eq!(rpaths, vec!["/new/rpath"]);
}

#[test]
fn test_change_id_universal2() {
    let data = run(fixture("test_universal2.dylib"), &["-id", "/new/lib/test.dylib"]).unwrap();
    for (offset, size) in fat_slices(&data) {
        let slice = &data[offset..offset + size];
        assert_eq!(read_id(slice).as_deref(), Some("/new/lib/test.dylib"));
    }
}

#[test]
fn test_change_rpath_universal2() {
    let data =
        run(fixture("test_universal2.dylib"), &["-rpath", "/old/rpath", "/new/rpath"]).unwrap();
    for (offset, size) in fat_slices(&data) {
        let slice = &data[offset..offset + size];
        assert_eq!(read_rpaths(slice), vec!["/new/rpath"]);
    }
}

#[test]
fn test_delete_rpath_universal2() {
    let data = run(fixture("test_universal2.dylib"), &["-delete_rpath", "/old/rpath"]).unwrap();
    for (offset, size) in fat_slices(&data) {
        let slice = &data[offset..offset + size];
        assert!(read_rpaths(slice).is_empty());
    }
}

#[test]
fn test_add_rpath_universal2() {
    let data = run(fixture("test_universal2.dylib"), &["-add_rpath", "/added/rpath"]).unwrap();
    for (offset, size) in fat_slices(&data) {
        let slice = &data[offset..offset + size];
        let rpaths = read_rpaths(slice);
        assert!(rpaths.contains(&"/old/rpath".to_string()));
        assert!(rpaths.contains(&"/added/rpath".to_string()));
    }
}

#[test]
fn test_multiple_operations_aarch64() {
    let data = run(fixture("test_aarch64.dylib"), &["-id", "/new/id.dylib"]).unwrap();
    let data = run(data, &["-rpath", "/old/rpath", "/replaced/rpath"]).unwrap();
    let data = run(data, &["-add_rpath", "/extra/rpath"]).unwrap();
    assert_eq!(read_id(&data).as_deref(), Some("/new/id.dylib"));
    let rpaths = read_rpaths(&data);
    assert!(rpaths.contains(&"/replaced/rpath".to_string()));
    assert!(rpaths.contains(&"/extra/rpath".to_string()));
    assert!(!rpaths.contains(&"/old/rpath".to_string()));
}

#[test]
fn test_delete_nonexistent_rpath_fails() {
    let result = run(fixture("test_aarch64.dylib"), &["-delete_rpath", "/nonexistent"]);
    assert!(result.is_err());
}

#[test]
fn test_change_nonexistent_rpath_fails() {
    let result = run(fixture("test_aarch64.dylib"), &["-rpath", "/nonexistent", "/new"]);
    assert!(result.is_err());
}

#[test]
fn change_rpath_scenario_gives_one_new_path_or_not_found() {
    let data = run(fixture("test_aarch64.dylib"), &["-rpath", "/old/rpath", "/new/rpath"]).unwrap();
    assert_eq!(read_rpaths(&data), vec!["/new/rpath".to_string()]);
    let missing = run(fixture("test_aarch64.dylib"), &["-rpath", "/missing", "/new/rpath"]);
    assert_eq!(missing, Err(MachOError::LoadCommandNotFound));
}

#[test]
fn edits_keep_file_size() {
    let original = fixture("test_aarch64.dylib");
    let added = run(original.clone(), &["-add_rpath", "/added/rpath"]).unwrap();
    assert_eq!(added.len(), original.len());
    let back = run(added, &["-delete_rpath", "/added/rpath"]).unwrap();
    assert_eq!(back.len(), original.len());
    assert_eq!(read_rpaths(&back), vec!["/old/rpath".to_string()]);
    assert_eq!(MachO::parse(&back, 0).unwrap().header.ncmds, 2);
}

#[test]
fn fat_edit_changes_every_slice_alike() {
    let data = run(fixture("test_universal2.dylib"), &["-id", "/other/id.dylib"]).unwrap();
    let slices = fat_slices(&data);
    assert_eq!(slices.len(), 2);
    for (offset, size) in slices {
        let slice = &data[offset..offset + size];
        assert_eq!(read_id(slice).as_deref(), Some("/other/id.dylib"));
        assert_eq!(read_rpaths(slice), vec!["/old/rpath".to_string()]);
    }
}

#[test]
fn change_dependency_without_match_fails() {
    let result = run(fixture("test_aarch64.dylib"), &["-change", "/usr/lib/libfoo.dylib", "/x"]);
    assert_eq!(result, Err(MachOError::LoadCommandNotFound));
}

#[test]
fn not_a_macho_is_malformed() {
    let result = run(vec![0u8; 64], &["-id", "/x"]);
    assert_eq!(result, Err(MachOError::Malformed));
}

#[test]
fn name_with_nul_is_refused() {
    let result = run(fixture("test_aarch64.dylib"), &["-add_rpath", "/bad\0path"]);
    assert_eq!(result, Err(MachOError::InvalidName));
}

#[test]
fn argument_errors() {
    let args = |v: &[&str]| parse_args(&v.iter().map(|s| s.to_string()).collect::<Vec<_>>());
    assert_eq!(args(&["-id"]).unwrap_err(), ArgsError::MissingArgument("-id".to_string()));
    assert_eq!(
        args(&["-change", "a"]).unwrap_err(),
        ArgsError::MissingArguments("-change".to_string())
    );
    assert_eq!(args(&["-x", "f"]).unwrap_err(), ArgsError::UnknownOption("-x".to_string()));
    assert_eq!(args(&["a", "b"]).unwrap_err(), ArgsError::MultipleInputFiles);
    assert_eq!(args(&["-add_rpath", "/p"]).unwrap_err(), ArgsError::NoInputFile);
    assert_eq!(
        ArgsError::UnknownOption("-x".to_string()).message(),
        "unknown option: -x"
    );
    let ok = args(&["-rpath", "/a", "/b", "-delete_rpath", "/c", "file"]).unwrap();
    assert_eq!(ok.rpaths, vec![("/a".to_string(), "/b".to_string())]);
    assert_eq!(ok.delete_rpaths, vec!["/c".to_string()]);
    assert_eq!(ok.input.as_deref(), Some("file"));
}

#[test]
fn failed_edit_leaves_image_unchanged() {
    let original = fixture("test_aarch64.dylib");
    let mut data = original.clone();
    let args = parse_args(&vec![
        "-id".to_string(),
        "/new/id.dylib".to_string(),
        "-delete_rpath".to_string(),
        "/missing".to_string(),
        "f".to_string(),
    ])
    .unwrap();
    assert_eq!(process_single_macho(&mut data, &args), Err(MachOError::LoadCommandNotFound));
    assert_eq!(data, original);
}

#[test]
fn no_padding_means_no_room() {
    let mut data = fixture("test_aarch64.dylib");
    let used = 32 + u32::from_le_bytes([data[20], data[21], data[22], data[23]]) as usize;
    data.truncate(used);
    let result = run(data.clone(), &["-add_rpath", "/added/rpath"]);
    assert_eq!(result, Err(MachOError::NoRoom));
}
