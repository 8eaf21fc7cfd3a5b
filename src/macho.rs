//! A byte-level editor for the load commands of Mach-O images: the dylib id,
//! the names of dependencies, and runtime search paths.
use vstd::prelude::*;
use vstd::utf8::encode_utf8;

use crate::text::{starts_with, str_eq};

verus! {

pub const MH_MAGIC: u32 = 0xfeedface;
pub const MH_CIGAM: u32 = 0xcefaedfe;
pub const MH_MAGIC_64: u32 = 0xfeedfacf;
pub const MH_CIGAM_64: u32 = 0xcffaedfe;
pub const FAT_MAGIC: u32 = 0xcafebabe;
pub const LC_ID_DYLIB: u32 = 0xd;
pub const LC_LOAD_DYLIB: u32 = 0xc;
pub const LC_LAZY_LOAD_DYLIB: u32 = 0x20;
pub const LC_LOAD_WEAK_DYLIB: u32 = 0x80000018;
pub const LC_RPATH: u32 = 0x8000001c;
pub const LC_REEXPORT_DYLIB: u32 = 0x8000001f;
pub const LC_LOAD_UPWARD_DYLIB: u32 = 0x80000023;
/// Size of an `LC_RPATH` command before its string.
pub const SIZEOF_RPATH_COMMAND: u32 = 12;
/// Size of a dylib command before its string.
pub const SIZEOF_DYLIB_COMMAND: u32 = 24;

/// The pointer width and byte order of an image.
#[derive(Clone, Copy, Debug, PartialEq, Eq, Structural)]
pub struct Ctx {
    pub is_64: bool,
    pub little_endian: bool,
}

/// The four bytes at `off` as an integer in the given byte order.
#[verifier::opaque]
pub open spec fn u32_at(b: Seq<u8>, off: int, le: bool) -> u32 {
    if le {
        (b[off] as int + 256 * b[off + 1] as int + 65536 * b[off + 2] as int + 16777216 * b[off
            + 3] as int) as u32
    } else {
        (b[off + 3] as int + 256 * b[off + 2] as int + 65536 * b[off + 1] as int + 16777216
            * b[off] as int) as u32
    }
}

/// The four bytes of `v` in the given byte order.
pub open spec fn u32_bytes(v: u32, le: bool) -> Seq<u8> {
    let b0 = (v % 256) as u8;
    let b1 = ((v / 256) % 256) as u8;
    let b2 = ((v / 65536) % 256) as u8;
    let b3 = (v / 16777216) as u8;
    if le {
        seq![b0, b1, b2, b3]
    } else {
        seq![b3, b2, b1, b0]
    }
}

/// The context that a magic number (read big-endian) announces.
pub open spec fn ctx_of_magic(magic: u32) -> Option<Ctx> {
    if magic == MH_MAGIC {
        Some(Ctx { is_64: false, little_endian: false })
    } else if magic == MH_CIGAM {
        Some(Ctx { is_64: false, little_endian: true })
    } else if magic == MH_MAGIC_64 {
        Some(Ctx { is_64: true, little_endian: false })
    } else if magic == MH_CIGAM_64 {
        Some(Ctx { is_64: true, little_endian: true })
    } else {
        None
    }
}

/// Size of the Mach-O header.
pub open spec fn header_size(ctx: Ctx) -> int {
    if ctx.is_64 {
        32
    } else {
        28
    }
}

/// Relies on `goblin::mach::peek`: the first four bytes read big-endian,
/// or an error when there are fewer.
#[verifier::external_body]
fn peek_magic(data: &[u8]) -> (r: Option<u32>)
    ensures
        data@.len() >= 4 ==> r == Some(u32_at(data@, 0, false)),
        data@.len() < 4 ==> r is None,
{
    goblin::mach::peek(data, 0).ok()
}

/// Relies on `goblin::mach::parse_magic_and_ctx`: the container width and
/// byte order that the magic number announces.
#[verifier::external_body]
fn magic_ctx(data: &[u8]) -> (r: Option<Ctx>)
    ensures
        data@.len() >= 4 ==> r == ctx_of_magic(u32_at(data@, 0, false)),
        data@.len() < 4 ==> r is None,
{
    let (_, ctx) = goblin::mach::parse_magic_and_ctx(data, 0).ok()?;
    let ctx = ctx?;
    Some(Ctx { is_64: ctx.container.is_big(), little_endian: ctx.le.is_little() })
}

/// Reads four bytes at `off` as an integer.
pub fn read_u32(b: &[u8], off: usize, le: bool) -> (r: u32)
    requires
        off + 4 <= b@.len(),
    ensures
        r == u32_at(b@, off as int, le),
{
    reveal(u32_at);
    let b0 = b[off] as u32;
    let b1 = b[off + 1] as u32;
    let b2 = b[off + 2] as u32;
    let b3 = b[off + 3] as u32;
    if le {
        b0 + 256 * b1 + 65536 * b2 + 16777216 * b3
    } else {
        b3 + 256 * b2 + 65536 * b1 + 16777216 * b0
    }
}

/// Appends the four bytes of `v` to `out`.
pub fn push_u32(out: &mut Vec<u8>, v: u32, le: bool)
    ensures
        final(out)@ == old(out)@ + u32_bytes(v, le),
{
    let b0 = (v % 256) as u8;
    let b1 = ((v / 256) % 256) as u8;
    let b2 = ((v / 65536) % 256) as u8;
    let b3 = (v / 16777216) as u8;
    if le {
        out.push(b0);
        out.push(b1);
        out.push(b2);
        out.push(b3);
    } else {
        out.push(b3);
        out.push(b2);
        out.push(b1);
        out.push(b0);
    }
    assert(out@ =~= old(out)@ + u32_bytes(v, le));
}

/// One load command: where it starts, its type and its size.
#[derive(Clone, Copy, Debug, PartialEq, Eq, Structural)]
pub struct LoadCmd {
    pub offset: usize,
    pub cmd: u32,
    pub cmdsize: u32,
}

/// The `n` load commands laid end to end from `off`, each at least 8 bytes
/// and all within `end`; `None` when they do not fit.
pub open spec fn walk(data: Seq<u8>, le: bool, off: int, n: nat, end: int) -> Option<Seq<LoadCmd>>
    decreases n,
{
    if n == 0 {
        Some(seq![])
    } else if off + 8 > end {
        None
    } else {
        let size = u32_at(data, off + 4, le);
        if size < 8 || off + size > end {
            None
        } else {
            match walk(data, le, off + size, (n - 1) as nat, end) {
                Some(rest) => Some(
                    seq![LoadCmd { offset: off as usize, cmd: u32_at(data, off, le), cmdsize: size }]
                        + rest,
                ),
                None => None,
            }
        }
    }
}

/// A parsed single-architecture image.
#[derive(Debug)]
pub struct Image {
    pub ctx: Ctx,
    pub ncmds: u32,
    pub sizeofcmds: u32,
    pub cmds: Vec<LoadCmd>,
}

/// The abstract content of an `Image`.
pub ghost struct ImageModel {
    pub ctx: Ctx,
    pub ncmds: u32,
    pub sizeofcmds: u32,
    pub cmds: Seq<LoadCmd>,
}

impl View for Image {
    type V = ImageModel;

    open spec fn view(&self) -> ImageModel {
        ImageModel { ctx: self.ctx, ncmds: self.ncmds, sizeofcmds: self.sizeofcmds, cmds: self.cmds@ }
    }
}

/// The header and load-command table of a single-architecture image, or
/// `None` when the image is not one that this editor can read.
pub open spec fn image_of(data: Seq<u8>) -> Option<ImageModel> {
    if data.len() < 4 {
        None
    } else {
        match ctx_of_magic(u32_at(data, 0, false)) {
            None => None,
            Some(ctx) => {
                let hs = header_size(ctx);
                if data.len() < hs {
                    None
                } else {
                    let ncmds = u32_at(data, 16, ctx.little_endian);
                    let sizeofcmds = u32_at(data, 20, ctx.little_endian);
                    if hs + sizeofcmds > data.len() {
                        None
                    } else {
                        match walk(data, ctx.little_endian, hs, ncmds as nat, hs + sizeofcmds) {
                            None => None,
                            Some(cmds) => Some(ImageModel { ctx, ncmds, sizeofcmds, cmds }),
                        }
                    }
                }
            },
        }
    }
}

proof fn lemma_walk_facts(data: Seq<u8>, le: bool, off: int, n: nat, end: int)
    requires
        0 <= off,
        end <= usize::MAX,
    ensures
        walk(data, le, off, n, end) matches Some(cmds) ==> cmds.len() == n && forall|k: int|
            0 <= k < cmds.len() ==> off <= (#[trigger] cmds[k]).offset && cmds[k].cmdsize >= 8
                && cmds[k].offset + cmds[k].cmdsize <= end,
    decreases n,
{
    if n > 0 && off + 8 <= end {
        let size = u32_at(data, off + 4, le);
        if size >= 8 && off + size <= end {
            lemma_walk_facts(data, le, off + size, (n - 1) as nat, end);
            if let Some(cmds) = walk(data, le, off, n, end) {
                let rest = walk(data, le, off + size, (n - 1) as nat, end)->0;
                assert forall|k: int| 0 <= k < cmds.len() implies off <= (#[trigger] cmds[k]).offset
                    && cmds[k].cmdsize >= 8 && cmds[k].offset + cmds[k].cmdsize <= end by {
                    if k > 0 {
                        assert(cmds[k] == rest[k - 1]);
                    }
                }
            }
        }
    }
}

/// The facts about a parsed image that the editing steps rely on.
pub open spec fn image_fits(data: Seq<u8>, img: ImageModel) -> bool {
    &&& header_size(img.ctx) + img.sizeofcmds <= data.len()
    &&& img.cmds.len() == img.ncmds
    &&& forall|k: int|
        0 <= k < img.cmds.len() ==> header_size(img.ctx) <= (#[trigger] img.cmds[k]).offset
            && img.cmds[k].cmdsize >= 8 && img.cmds[k].offset + img.cmds[k].cmdsize
            <= header_size(img.ctx) + img.sizeofcmds
}

/// Why an image could not be edited.
#[derive(Clone, Copy, Debug, PartialEq, Eq, Structural)]
pub enum MachOError {
    /// The bytes are not a Mach-O image that can be read.
    Malformed,
    /// No load command matches the requested edit.
    LoadCommandNotFound,
    /// A new name or path holds a NUL character, or is longer than
    /// `MAX_NAME_LEN` bytes.
    InvalidName,
    /// The padding after the command area cannot hold the new command (the
    /// file keeps its size, so it is not grown), or the header cannot count it.
    NoRoom,
}

/// Reads the header and load-command table.
pub fn parse_image(data: &Vec<u8>) -> (r: Result<Image, MachOError>)
    ensures
        match r {
            Ok(img) => image_of(data@) == Some(img@) && image_fits(data@, img@),
            Err(e) => image_of(data@) is None && e == MachOError::Malformed,
        },
{
    let ctx = match magic_ctx(data.as_slice()) {
        Some(c) => c,
        None => {
            return Err(MachOError::Malformed);
        },
    };
    let hs: usize = if ctx.is_64 {
        32
    } else {
        28
    };
    if data.len() < hs {
        return Err(MachOError::Malformed);
    }
    let le = ctx.little_endian;
    let ncmds = read_u32(data.as_slice(), 16, le);
    let sizeofcmds = read_u32(data.as_slice(), 20, le);
    if sizeofcmds as usize > data.len() - hs {
        return Err(MachOError::Malformed);
    }
    let end = hs + sizeofcmds as usize;
    let mut cmds: Vec<LoadCmd> = Vec::new();
    let mut off = hs;
    let mut i: u32 = 0;
    let ghost whole = walk(data@, le, hs as int, ncmds as nat, end as int);
    assert(image_of(data@) == match whole {
        None => None,
        Some(cmds) => Some(ImageModel { ctx, ncmds, sizeofcmds, cmds }),
    });
    while i < ncmds
        invariant
            image_of(data@) == match whole {
                None => None,
                Some(cmds) => Some(ImageModel { ctx, ncmds, sizeofcmds, cmds }),
            },
            le == ctx.little_endian,
            end <= data@.len(),
            hs <= off <= end,
            i <= ncmds,
            whole == walk(data@, le, hs as int, ncmds as nat, end as int),
            whole == match walk(data@, le, off as int, (ncmds - i) as nat, end as int) {
                Some(rest) => Some(cmds@ + rest),
                None => None::<Seq<LoadCmd>>,
            },
        decreases ncmds - i,
    {
        if end - off < 8 {
            assert(whole is None);
            return Err(MachOError::Malformed);
        }
        let cmd = read_u32(data.as_slice(), off, le);
        let size = read_u32(data.as_slice(), off + 4, le);
        if size < 8 || size as usize > end - off {
            assert(whole is None);
            return Err(MachOError::Malformed);
        }
        let ghost rest_after = walk(data@, le, off + size, (ncmds - i - 1) as nat, end as int);
        cmds.push(LoadCmd { offset: off, cmd, cmdsize: size });
        proof {
            if let Some(r) = rest_after {
                assert(cmds@ + r =~= cmds@.drop_last() + (seq![
                    LoadCmd { offset: off, cmd, cmdsize: size },
                ] + r));
            }
        }
        off = off + size as usize;
        i = i + 1;
    }
    assert(cmds@ + Seq::<LoadCmd>::empty() =~= cmds@);
    proof {
        lemma_walk_facts(data@, le, hs as int, ncmds as nat, end as int);
    }
    Ok(Image { ctx, ncmds, sizeofcmds, cmds })
}

} // verus!

verus! {

/// `n` zero bytes.
pub open spec fn zeros(n: nat) -> Seq<u8> {
    Seq::new(n, |i: int| 0u8)
}

/// `data` with the header's command count and command-area size rewritten.
pub open spec fn with_header(data: Seq<u8>, ncmds: u32, sizeofcmds: u32, le: bool) -> Seq<u8> {
    data.subrange(0, 16) + u32_bytes(ncmds, le) + u32_bytes(sizeofcmds, le) + data.subrange(
        24,
        data.len() as int,
    )
}

/// `data` without the command at `off..off + size`, the command area
/// (ending at `end`) closed up and refilled with zeros at its end, so that
/// nothing after it moves.
pub open spec fn removed(data: Seq<u8>, off: int, size: int, end: int) -> Seq<u8> {
    data.subrange(0, off) + data.subrange(off + size, end) + zeros(size as nat) + data.subrange(
        end,
        data.len() as int,
    )
}

/// `data` with `bytes` inserted at `off` in the command area (ending at
/// `end`), taking up as much of the padding after the area, so that the file
/// keeps its size.
pub open spec fn inserted(data: Seq<u8>, off: int, bytes: Seq<u8>, end: int) -> Seq<u8> {
    data.subrange(0, off) + bytes + data.subrange(off, end) + data.subrange(
        end + bytes.len(),
        data.len() as int,
    )
}

/// The header fields that load-command edits change.
#[derive(Clone, Copy, Debug, PartialEq, Eq, Structural)]
pub struct CmdHeader {
    pub ncmds: u32,
    pub sizeofcmds: u32,
}

fn extend_range(out: &mut Vec<u8>, src: &Vec<u8>, from: usize, to: usize)
    requires
        from <= to <= src@.len(),
    ensures
        final(out)@ == old(out)@ + src@.subrange(from as int, to as int),
{
    let mut i = from;
    while i < to
        invariant
            from <= i <= to,
            to <= src@.len(),
            out@ == old(out)@ + src@.subrange(from as int, i as int),
        decreases to - i,
    {
        out.push(src[i]);
        i = i + 1;
        assert(out@ =~= old(out)@ + src@.subrange(from as int, i as int));
    }
}

fn extend_zeros(out: &mut Vec<u8>, n: usize)
    ensures
        final(out)@ == old(out)@ + zeros(n as nat),
{
    let mut i: usize = 0;
    while i < n
        invariant
            i <= n,
            out@ == old(out)@ + zeros(i as nat),
        decreases n - i,
    {
        out.push(0u8);
        i = i + 1;
        assert(out@ =~= old(out)@ + zeros(i as nat));
    }
}

/// Rewrites the command count and command-area size in the header.
fn write_header(buffer: &mut Vec<u8>, header: CmdHeader, ctx: Ctx)
    requires
        old(buffer)@.len() >= 24,
    ensures
        final(buffer)@ == with_header(old(buffer)@, header.ncmds, header.sizeofcmds, ctx.little_endian),
{
    let mut out: Vec<u8> = Vec::new();
    extend_range(&mut out, buffer, 0, 16);
    push_u32(&mut out, header.ncmds, ctx.little_endian);
    push_u32(&mut out, header.sizeofcmds, ctx.little_endian);
    let n = buffer.len();
    extend_range(&mut out, buffer, 24, n);
    *buffer = out;
}

/// Removes the load command at `cmd_offset` and updates the header; the file
/// keeps its size.
pub fn remove_load_command(
    buffer: &mut Vec<u8>,
    header: &mut CmdHeader,
    ctx: Ctx,
    cmd_offset: usize,
    cmdsize: usize,
)
    requires
        header_size(ctx) <= cmd_offset,
        cmd_offset + cmdsize <= header_size(ctx) + old(header).sizeofcmds <= old(buffer)@.len(),
        old(header).ncmds >= 1,
    ensures
        final(header).ncmds == old(header).ncmds - 1,
        final(header).sizeofcmds == old(header).sizeofcmds - cmdsize,
        final(buffer)@ == with_header(
            removed(
                old(buffer)@,
                cmd_offset as int,
                cmdsize as int,
                header_size(ctx) + old(header).sizeofcmds,
            ),
            final(header).ncmds,
            final(header).sizeofcmds,
            ctx.little_endian,
        ),
        final(buffer)@.len() == old(buffer)@.len(),
{
    let hs: usize = if ctx.is_64 {
        32
    } else {
        28
    };
    let n0 = buffer.len();
    assert(hs + header.sizeofcmds <= n0);
    let end = hs + header.sizeofcmds as usize;
    let mut out: Vec<u8> = Vec::new();
    extend_range(&mut out, buffer, 0, cmd_offset);
    extend_range(&mut out, buffer, cmd_offset + cmdsize, end);
    extend_zeros(&mut out, cmdsize);
    let n = buffer.len();
    extend_range(&mut out, buffer, end, n);
    header.ncmds = header.ncmds - 1;
    header.sizeofcmds = header.sizeofcmds - cmdsize as u32;
    write_header(&mut out, *header, ctx);
    *buffer = out;
}

/// Inserts the bytes of a new load command at `offset` and updates the
/// header, taking the room from the padding after the command area; the
/// file keeps its size.
pub fn insert_load_command(
    buffer: &mut Vec<u8>,
    header: &mut CmdHeader,
    ctx: Ctx,
    offset: usize,
    cmd_data: &Vec<u8>,
)
    requires
        header_size(ctx) <= offset <= header_size(ctx) + old(header).sizeofcmds <= old(buffer)@.len(),
        old(header).ncmds < u32::MAX,
        old(header).sizeofcmds + cmd_data@.len() <= u32::MAX,
        header_size(ctx) + old(header).sizeofcmds + cmd_data@.len() <= old(buffer)@.len(),
    ensures
        final(header).ncmds == old(header).ncmds + 1,
        final(header).sizeofcmds == old(header).sizeofcmds + cmd_data@.len(),
        final(buffer)@ == with_header(
            inserted(old(buffer)@, offset as int, cmd_data@, header_size(ctx) + old(header).sizeofcmds),
            final(header).ncmds,
            final(header).sizeofcmds,
            ctx.little_endian,
        ),
{
    let hs: usize = if ctx.is_64 {
        32
    } else {
        28
    };
    let n = buffer.len();
    assert(hs + header.sizeofcmds <= n);
    let end = hs + header.sizeofcmds as usize;
    let len = cmd_data.len();
    let mut out: Vec<u8> = Vec::new();
    extend_range(&mut out, buffer, 0, offset);
    extend_range(&mut out, cmd_data, 0, len);
    extend_range(&mut out, buffer, offset, end);
    extend_range(&mut out, buffer, end + len, n);
    assert(cmd_data@.subrange(0, len as int) =~= cmd_data@);
    header.ncmds = header.ncmds + 1;
    header.sizeofcmds = header.sizeofcmds + len as u32;
    write_header(&mut out, *header, ctx);
    *buffer = out;
}

/// `x` rounded up to a multiple of `m`.
pub open spec fn round_up(x: int, m: int) -> int {
    if x % m == 0 {
        x
    } else {
        x + (m - x % m)
    }
}

/// The alignment of load commands: the container's pointer width.
pub open spec fn cmd_align(ctx: Ctx) -> int {
    if ctx.is_64 {
        8
    } else {
        4
    }
}

/// The size of a command with a `fixed`-byte head and a string of `len`
/// bytes: the string with its NUL padded to 4 bytes, the whole aligned to the
/// pointer width.
pub open spec fn cmd_size_for(fixed: int, len: int, ctx: Ctx) -> int {
    round_up(fixed + round_up(len + 1, 4), cmd_align(ctx))
}

/// The UTF-8 bytes of `s` hold no NUL.
pub open spec fn nul_free(b: Seq<u8>) -> bool {
    forall|i: int| 0 <= i < b.len() ==> b[i] != 0
}

/// The bytes of an `LC_RPATH` command for `path`.
pub open spec fn rpath_command_bytes(path: Seq<u8>, ctx: Ctx) -> Seq<u8> {
    let size = cmd_size_for(SIZEOF_RPATH_COMMAND as int, path.len() as int, ctx);
    let le = ctx.little_endian;
    u32_bytes(LC_RPATH, le) + u32_bytes(size as u32, le) + u32_bytes(SIZEOF_RPATH_COMMAND, le)
        + path + zeros((size - SIZEOF_RPATH_COMMAND - path.len()) as nat)
}

/// The fields a dylib command keeps when its name changes.
#[derive(Clone, Copy, Debug, PartialEq, Eq, Structural)]
pub struct DylibFields {
    pub cmd: u32,
    pub timestamp: u32,
    pub current_version: u32,
    pub compatibility_version: u32,
}

/// The bytes of a dylib command named `name` that keeps the fields `f`.
pub open spec fn dylib_command_bytes(name: Seq<u8>, f: DylibFields, ctx: Ctx) -> Seq<u8> {
    let size = cmd_size_for(SIZEOF_DYLIB_COMMAND as int, name.len() as int, ctx);
    let le = ctx.little_endian;
    u32_bytes(f.cmd, le) + u32_bytes(size as u32, le) + u32_bytes(SIZEOF_DYLIB_COMMAND, le)
        + u32_bytes(f.timestamp, le) + u32_bytes(f.current_version, le) + u32_bytes(
        f.compatibility_version,
        le,
    ) + name + zeros((size - SIZEOF_DYLIB_COMMAND - name.len()) as nat)
}

/// The largest string a new command may hold.
pub const MAX_NAME_LEN: usize = 65536;

fn has_no_nul(b: &Vec<u8>) -> (r: bool)
    ensures
        r == nul_free(b@),
{
    let mut i: usize = 0;
    while i < b.len()
        invariant
            i <= b@.len(),
            forall|k: int| 0 <= k < i ==> b@[k] != 0,
        decreases b@.len() - i,
    {
        if b[i] == 0 {
            return false;
        }
        i = i + 1;
    }
    true
}

fn command_size(fixed: usize, len: usize, ctx: Ctx) -> (r: usize)
    requires
        fixed <= 64,
        len <= MAX_NAME_LEN,
    ensures
        r == cmd_size_for(fixed as int, len as int, ctx),
        fixed + len < r <= fixed + len + 12,
{
    let s = len + 1;
    let str_size = if s % 4 == 0 {
        s
    } else {
        s + (4 - s % 4)
    };
    let t = fixed + str_size;
    let a: usize = if ctx.is_64 {
        8
    } else {
        4
    };
    if t % a == 0 {
        t
    } else {
        t + (a - t % a)
    }
}

/// Builds an `LC_RPATH` command for `path`.
pub fn build_rpath_command(path: &str, ctx: Ctx) -> (r: Result<Vec<u8>, MachOError>)
    ensures
        match r {
            Ok(b) => nul_free(encode_utf8(path@)) && encode_utf8(path@).len() <= MAX_NAME_LEN && b@
                == rpath_command_bytes(encode_utf8(path@), ctx),
            Err(e) => e == MachOError::InvalidName && !(nul_free(encode_utf8(path@))
                && encode_utf8(path@).len() <= MAX_NAME_LEN),
        },
{
    let name = path.as_bytes_vec();
    if name.len() > MAX_NAME_LEN || !has_no_nul(&name) {
        return Err(MachOError::InvalidName);
    }
    let size = command_size(12, name.len(), ctx);
    let le = ctx.little_endian;
    let mut out: Vec<u8> = Vec::new();
    push_u32(&mut out, LC_RPATH, le);
    push_u32(&mut out, size as u32, le);
    push_u32(&mut out, SIZEOF_RPATH_COMMAND, le);
    let n = name.len();
    extend_range(&mut out, &name, 0, n);
    extend_zeros(&mut out, size - 12 - n);
    assert(name@.subrange(0, n as int) =~= name@);
    Ok(out)
}

/// Builds a dylib command named `name` that keeps the fields `fields`.
pub fn build_dylib_command(name: &str, fields: DylibFields, ctx: Ctx) -> (r: Result<Vec<u8>, MachOError>)
    ensures
        match r {
            Ok(b) => nul_free(encode_utf8(name@)) && encode_utf8(name@).len() <= MAX_NAME_LEN && b@
                == dylib_command_bytes(encode_utf8(name@), fields, ctx),
            Err(e) => e == MachOError::InvalidName && !(nul_free(encode_utf8(name@))
                && encode_utf8(name@).len() <= MAX_NAME_LEN),
        },
{
    let bytes = name.as_bytes_vec();
    if bytes.len() > MAX_NAME_LEN || !has_no_nul(&bytes) {
        return Err(MachOError::InvalidName);
    }
    let size = command_size(24, bytes.len(), ctx);
    let le = ctx.little_endian;
    let mut out: Vec<u8> = Vec::new();
    push_u32(&mut out, fields.cmd, le);
    push_u32(&mut out, size as u32, le);
    push_u32(&mut out, SIZEOF_DYLIB_COMMAND, le);
    push_u32(&mut out, fields.timestamp, le);
    push_u32(&mut out, fields.current_version, le);
    push_u32(&mut out, fields.compatibility_version, le);
    let n = bytes.len();
    extend_range(&mut out, &bytes, 0, n);
    extend_zeros(&mut out, size - 24 - n);
    assert(bytes@.subrange(0, n as int) =~= bytes@);
    Ok(out)
}

} // verus!

verus! {

/// The index of the first NUL in `s`, or its length.
pub open spec fn nul_index(s: Seq<u8>) -> int
    decreases s.len(),
{
    if s.len() == 0 {
        0
    } else if s[0] == 0 {
        0
    } else {
        1 + nul_index(s.skip(1))
    }
}

proof fn lemma_nul_index(s: Seq<u8>)
    ensures
        0 <= nul_index(s) <= s.len(),
        forall|k: int| 0 <= k < nul_index(s) ==> s[k] != 0,
        nul_index(s) < s.len() ==> s[nul_index(s)] == 0,
    decreases s.len(),
{
    if s.len() > 0 && s[0] != 0 {
        lemma_nul_index(s.skip(1));
        assert forall|k: int| 0 <= k < nul_index(s) implies s[k] != 0 by {
            if k > 0 {
                assert(s[k] == s.skip(1)[k - 1]);
            }
        }
    }
}

/// The NUL-terminated string stored from `start` within a command ending at `end`.
pub open spec fn cstr_at(data: Seq<u8>, start: int, end: int) -> Seq<u8> {
    if start <= end {
        let s = data.subrange(start, end);
        s.take(nul_index(s))
    } else {
        seq![]
    }
}

/// A stored name equals the requested one (a name that is not valid UTF-8
/// reads as empty).
pub open spec fn name_matches(stored: Seq<u8>, wanted: Seq<char>) -> bool {
    if vstd::utf8::valid_utf8(stored) {
        stored == encode_utf8(wanted)
    } else {
        wanted.len() == 0
    }
}

/// The load commands that name a dependency.
pub open spec fn is_dylib_load(cmd: u32) -> bool {
    cmd == LC_LOAD_DYLIB || cmd == LC_LOAD_WEAK_DYLIB || cmd == LC_REEXPORT_DYLIB || cmd
        == LC_LAZY_LOAD_DYLIB || cmd == LC_LOAD_UPWARD_DYLIB
}

/// Which load commands an edit looks for.
#[derive(Clone, Copy, Debug, PartialEq, Eq, Structural)]
pub enum Target {
    /// The dylib's own id.
    Id,
    /// A dependency with a given name.
    Dylib,
    /// A runtime search path with a given path.
    Rpath,
}

/// The string stored in a command (dylib name or runtime path), whose offset
/// is the command's third word.
pub open spec fn cmd_string(data: Seq<u8>, c: LoadCmd, le: bool) -> Seq<u8> {
    cstr_at(data, c.offset + u32_at(data, c.offset + 8, le), c.offset + c.cmdsize)
}

/// Whether command `c` is one that an edit of kind `t` for `name` looks for.
pub open spec fn selects(data: Seq<u8>, c: LoadCmd, le: bool, t: Target, name: Seq<char>) -> bool {
    match t {
        Target::Id => c.cmd == LC_ID_DYLIB && c.cmdsize >= SIZEOF_DYLIB_COMMAND,
        Target::Dylib => is_dylib_load(c.cmd) && c.cmdsize >= SIZEOF_DYLIB_COMMAND && name_matches(
            cmd_string(data, c, le),
            name,
        ),
        Target::Rpath => c.cmd == LC_RPATH && c.cmdsize >= SIZEOF_RPATH_COMMAND && name_matches(
            cmd_string(data, c, le),
            name,
        ),
    }
}

/// The first of `cmds`, from index `i` on, that an edit selects.
pub open spec fn first_selected(
    data: Seq<u8>,
    cmds: Seq<LoadCmd>,
    le: bool,
    t: Target,
    name: Seq<char>,
    i: int,
) -> Option<int>
    decreases cmds.len() - i,
{
    if i >= cmds.len() || i < 0 {
        None
    } else if selects(data, cmds[i], le, t, name) {
        Some(i)
    } else {
        first_selected(data, cmds, le, t, name, i + 1)
    }
}

proof fn lemma_first_selected_bounds(
    data: Seq<u8>,
    cmds: Seq<LoadCmd>,
    le: bool,
    t: Target,
    name: Seq<char>,
    i: int,
)
    ensures
        first_selected(data, cmds, le, t, name, i) matches Some(k) ==> i <= k < cmds.len() && selects(
            data,
            cmds[k],
            le,
            t,
            name,
        ),
    decreases cmds.len() - i,
{
    if 0 <= i < cmds.len() && !selects(data, cmds[i], le, t, name) {
        lemma_first_selected_bounds(data, cmds, le, t, name, i + 1);
    }
}

/// The fields kept from a dylib command when it is renamed.
pub open spec fn dylib_fields(data: Seq<u8>, c: LoadCmd, le: bool) -> DylibFields {
    DylibFields {
        cmd: c.cmd,
        timestamp: u32_at(data, c.offset + 12, le),
        current_version: u32_at(data, c.offset + 16, le),
        compatibility_version: u32_at(data, c.offset + 20, le),
    }
}

/// One edit of a single-architecture image.
pub ghost enum EditModel {
    ChangeId(Seq<char>),
    ChangeDylib(Seq<char>, Seq<char>),
    ChangeRpath(Seq<char>, Seq<char>),
    DeleteRpath(Seq<char>),
    AddRpath(Seq<char>),
}

/// The bytes after the command `c` is replaced by `bytes`: removed, then the
/// new one inserted at the same offset; `None` when the padding cannot hold
/// it or the header cannot count it.
pub open spec fn replaced_cmd(data: Seq<u8>, img: ImageModel, c: LoadCmd, bytes: Seq<u8>) -> Option<
    Seq<u8>,
> {
    let hs = header_size(img.ctx);
    let le = img.ctx.little_endian;
    let sz = img.sizeofcmds - c.cmdsize;
    let d1 = with_header(
        removed(data, c.offset as int, c.cmdsize as int, hs + img.sizeofcmds),
        (img.ncmds - 1) as u32,
        sz as u32,
        le,
    );
    if sz + bytes.len() > u32::MAX || hs + sz + bytes.len() > data.len() {
        None
    } else {
        Some(
            with_header(
                inserted(d1, c.offset as int, bytes, hs + sz),
                img.ncmds,
                (sz + bytes.len()) as u32,
                le,
            ),
        )
    }
}

/// The bytes after the command `c` is removed.
pub open spec fn deleted_cmd(data: Seq<u8>, img: ImageModel, c: LoadCmd) -> Seq<u8> {
    with_header(
        removed(
            data,
            c.offset as int,
            c.cmdsize as int,
            header_size(img.ctx) + img.sizeofcmds,
        ),
        (img.ncmds - 1) as u32,
        (img.sizeofcmds - c.cmdsize) as u32,
        img.ctx.little_endian,
    )
}

/// The bytes after `bytes` is appended as a new last command; `None` when the
/// padding cannot hold it or the header cannot count it.
pub open spec fn appended_cmd(data: Seq<u8>, img: ImageModel, bytes: Seq<u8>) -> Option<Seq<u8>> {
    let end = header_size(img.ctx) + img.sizeofcmds;
    if img.ncmds >= u32::MAX || img.sizeofcmds + bytes.len() > u32::MAX || end + bytes.len()
        > data.len() {
        None
    } else {
        Some(
            with_header(
                inserted(data, end, bytes, end),
                (img.ncmds + 1) as u32,
                (img.sizeofcmds + bytes.len()) as u32,
                img.ctx.little_endian,
            ),
        )
    }
}

/// A new name or path can be stored in a command.
pub open spec fn storable(name: Seq<char>) -> bool {
    nul_free(encode_utf8(name)) && encode_utf8(name).len() <= MAX_NAME_LEN
}

/// Replaces the selected command by `bytes`, if one is selected.
pub open spec fn replace_selected(
    data: Seq<u8>,
    img: ImageModel,
    t: Target,
    old_name: Seq<char>,
    new_name: Seq<char>,
) -> Result<Seq<u8>, MachOError> {
    let le = img.ctx.little_endian;
    match first_selected(data, img.cmds, le, t, old_name, 0) {
        None => Err(MachOError::LoadCommandNotFound),
        Some(k) => {
            let c = img.cmds[k];
            if !storable(new_name) {
                Err(MachOError::InvalidName)
            } else {
                let bytes = if t == Target::Rpath {
                    rpath_command_bytes(encode_utf8(new_name), img.ctx)
                } else {
                    dylib_command_bytes(encode_utf8(new_name), dylib_fields(data, c, le), img.ctx)
                };
                match replaced_cmd(data, img, c, bytes) {
                    Some(d) => Ok(d),
                    None => Err(MachOError::NoRoom),
                }
            }
        },
    }
}

/// What one edit does to an image: the image must be readable, the command
/// it targets must exist, and a new command must fit in the padding after the
/// command area.
#[verifier::opaque]
pub open spec fn edited(data: Seq<u8>, op: EditModel) -> Result<Seq<u8>, MachOError> {
    match image_of(data) {
        None => Err(MachOError::Malformed),
        Some(img) => match op {
            EditModel::ChangeId(n) => replace_selected(data, img, Target::Id, seq![], n),
            EditModel::ChangeDylib(o, n) => replace_selected(data, img, Target::Dylib, o, n),
            EditModel::ChangeRpath(o, n) => replace_selected(data, img, Target::Rpath, o, n),
            EditModel::DeleteRpath(p) => match first_selected(
                data,
                img.cmds,
                img.ctx.little_endian,
                Target::Rpath,
                p,
                0,
            ) {
                None => Err(MachOError::LoadCommandNotFound),
                Some(k) => Ok(deleted_cmd(data, img, img.cmds[k])),
            },
            EditModel::AddRpath(p) => if !storable(p) {
                Err(MachOError::InvalidName)
            } else {
                match appended_cmd(data, img, rpath_command_bytes(encode_utf8(p), img.ctx)) {
                    Some(d) => Ok(d),
                    None => Err(MachOError::NoRoom),
                }
            },
        },
    }
}

} // verus!

verus! {

/// One edit of a single-architecture image.
#[derive(Debug)]
pub enum Edit {
    /// Set the dylib id.
    ChangeId(String),
    /// Rename a dependency: old name, new name.
    ChangeDylib(String, String),
    /// Change a runtime search path: old path, new path.
    ChangeRpath(String, String),
    /// Remove a runtime search path.
    DeleteRpath(String),
    /// Add a runtime search path after the last command.
    AddRpath(String),
}

impl View for Edit {
    type V = EditModel;

    open spec fn view(&self) -> EditModel {
        match self {
            Edit::ChangeId(n) => EditModel::ChangeId(n@),
            Edit::ChangeDylib(o, n) => EditModel::ChangeDylib(o@, n@),
            Edit::ChangeRpath(o, n) => EditModel::ChangeRpath(o@, n@),
            Edit::DeleteRpath(p) => EditModel::DeleteRpath(p@),
            Edit::AddRpath(p) => EditModel::AddRpath(p@),
        }
    }
}

fn read_cstr(data: &Vec<u8>, start: usize, end: usize) -> (r: Vec<u8>)
    requires
        start <= end <= data@.len(),
    ensures
        r@ == cstr_at(data@, start as int, end as int),
{
    let ghost s = data@.subrange(start as int, end as int);
    proof {
        lemma_nul_index(s);
    }
    let mut out: Vec<u8> = Vec::new();
    let mut i = start;
    while i < end && data[i] != 0
        invariant
            start <= i <= end,
            end <= data@.len(),
            s == data@.subrange(start as int, end as int),
            0 <= nul_index(s) <= s.len(),
            forall|k: int| 0 <= k < nul_index(s) ==> s[k] != 0,
            nul_index(s) < s.len() ==> s[nul_index(s)] == 0,
            i - start <= nul_index(s),
            out@ == s.take(i - start),
        decreases end - i,
    {
        assert(s[i - start] == data@[i as int]);
        out.push(data[i]);
        i = i + 1;
        assert(out@ =~= s.take(i - start));
    }
    if i < end {
        assert(s[i - start] == 0);
    }
    assert(i - start == nul_index(s));
    out
}

fn matches_name(stored: &Vec<u8>, wanted: &str) -> (r: bool)
    ensures
        r == name_matches(stored@, wanted@),
{
    let w = wanted.as_bytes_vec();
    match crate::response_file::decode_utf8_bytes(stored) {
        Some(_) => crate::wrapper::write_needed(stored, &w) == false,
        None => wanted.unicode_len() == 0,
    }
}

fn stored_string(data: &Vec<u8>, c: LoadCmd, le: bool) -> (r: Vec<u8>)
    requires
        c.cmdsize >= 12,
        c.offset + c.cmdsize <= data@.len(),
    ensures
        r@ == cmd_string(data@, c, le),
{
    let n = data.len();
    assert(c.offset + c.cmdsize <= n);
    let str_off = read_u32(data.as_slice(), c.offset + 8, le);
    let end = c.offset + c.cmdsize as usize;
    if str_off > c.cmdsize {
        let r: Vec<u8> = Vec::new();
        assert(r@ =~= cmd_string(data@, c, le));
        r
    } else {
        read_cstr(data, c.offset + str_off as usize, end)
    }
}

fn is_dylib_load_cmd(cmd: u32) -> (r: bool)
    ensures
        r == is_dylib_load(cmd),
{
    cmd == LC_LOAD_DYLIB || cmd == LC_LOAD_WEAK_DYLIB || cmd == LC_REEXPORT_DYLIB || cmd
        == LC_LAZY_LOAD_DYLIB || cmd == LC_LOAD_UPWARD_DYLIB
}

fn is_selected(data: &Vec<u8>, c: LoadCmd, le: bool, t: Target, name: &str) -> (r: bool)
    requires
        c.offset + c.cmdsize <= data@.len(),
    ensures
        r == selects(data@, c, le, t, name@),
{
    match t {
        Target::Id => c.cmd == LC_ID_DYLIB && c.cmdsize >= SIZEOF_DYLIB_COMMAND,
        Target::Dylib => {
            if !is_dylib_load_cmd(c.cmd) || c.cmdsize < SIZEOF_DYLIB_COMMAND {
                return false;
            }
            let s = stored_string(data, c, le);
            matches_name(&s, name)
        },
        Target::Rpath => {
            if c.cmd != LC_RPATH || c.cmdsize < SIZEOF_RPATH_COMMAND {
                return false;
            }
            let s = stored_string(data, c, le);
            matches_name(&s, name)
        },
    }
}

fn find_selected(data: &Vec<u8>, img: &Image, t: Target, name: &str) -> (r: Option<usize>)
    requires
        image_fits(data@, img@),
    ensures
        match r {
            Some(k) => first_selected(data@, img.cmds@, img.ctx.little_endian, t, name@, 0) == Some(
                k as int,
            ),
            None => first_selected(data@, img.cmds@, img.ctx.little_endian, t, name@, 0) is None,
        },
{
    let le = img.ctx.little_endian;
    let mut i: usize = 0;
    while i < img.cmds.len()
        invariant
            image_fits(data@, img@),
            le == img.ctx.little_endian,
            i <= img.cmds@.len(),
            first_selected(data@, img.cmds@, le, t, name@, 0) == first_selected(
                data@,
                img.cmds@,
                le,
                t,
                name@,
                i as int,
            ),
        decreases img.cmds@.len() - i,
    {
        let c = img.cmds[i];
        assert(img.cmds@[i as int] == c);
        if is_selected(data, c, le, t, name) {
            return Some(i);
        }
        i = i + 1;
    }
    None
}

fn read_dylib_fields(data: &Vec<u8>, c: LoadCmd, le: bool) -> (r: DylibFields)
    requires
        c.cmdsize >= SIZEOF_DYLIB_COMMAND,
        c.offset + c.cmdsize <= data@.len(),
    ensures
        r == dylib_fields(data@, c, le),
{
    let n = data.len();
    assert(c.offset + c.cmdsize <= n);
    DylibFields {
        cmd: c.cmd,
        timestamp: read_u32(data.as_slice(), c.offset + 12, le),
        current_version: read_u32(data.as_slice(), c.offset + 16, le),
        compatibility_version: read_u32(data.as_slice(), c.offset + 20, le),
    }
}

/// The view of an edit result.
pub open spec fn result_view(r: Result<Vec<u8>, MachOError>) -> Result<Seq<u8>, MachOError> {
    match r {
        Ok(d) => Ok(d@),
        Err(e) => Err(e),
    }
}

fn replace_at(data: &Vec<u8>, img: &Image, c: LoadCmd, bytes: &Vec<u8>) -> (r: Result<
    Vec<u8>,
    MachOError,
>)
    requires
        image_fits(data@, img@),
        img.cmds@.contains(c),
    ensures
        result_view(r) == match replaced_cmd(data@, img@, c, bytes@) {
            Some(d) => Ok(d),
            None => Err(MachOError::NoRoom),
        },
{
    let mut header = CmdHeader { ncmds: img.ncmds, sizeofcmds: img.sizeofcmds };
    let sz = img.sizeofcmds - c.cmdsize;
    let hs: usize = if img.ctx.is_64 {
        32
    } else {
        28
    };
    if bytes.len() > (u32::MAX - sz) as usize || bytes.len() > data.len() - (hs + sz as usize) {
        return Err(MachOError::NoRoom);
    }
    let mut out = data.clone();
    assert(out@ == data@);
    remove_load_command(&mut out, &mut header, img.ctx, c.offset, c.cmdsize as usize);
    insert_load_command(&mut out, &mut header, img.ctx, c.offset, bytes);
    Ok(out)
}

/// Applies one edit to a single-architecture image; the image is read
/// afresh for every edit.
pub fn apply_edit(data: &Vec<u8>, op: &Edit) -> (r: Result<Vec<u8>, MachOError>)
    ensures
        result_view(r) == edited(data@, op@),
{
    reveal(edited);
    let img = parse_image(data)?;
    let le = img.ctx.little_endian;
    proof {
        reveal_strlit("");
    }
    let (t, old_name, new_name): (Target, &str, &str) = match op {
        Edit::ChangeId(n) => (Target::Id, "", n.as_str()),
        Edit::ChangeDylib(o, n) => (Target::Dylib, o.as_str(), n.as_str()),
        Edit::ChangeRpath(o, n) => (Target::Rpath, o.as_str(), n.as_str()),
        Edit::DeleteRpath(p) => {
            proof {
                lemma_first_selected_bounds(data@, img.cmds@, le, Target::Rpath, p@, 0);
            }
            return match find_selected(data, &img, Target::Rpath, p.as_str()) {
                None => Err(MachOError::LoadCommandNotFound),
                Some(k) => {
                    let c = img.cmds[k];
                    let mut header = CmdHeader { ncmds: img.ncmds, sizeofcmds: img.sizeofcmds };
                    let mut out = data.clone();
                    remove_load_command(&mut out, &mut header, img.ctx, c.offset, c.cmdsize as usize);
                    Ok(out)
                },
            };
        },
        Edit::AddRpath(p) => {
            let bytes = build_rpath_command(p.as_str(), img.ctx)?;
            let hs: usize = if img.ctx.is_64 {
                32
            } else {
                28
            };
            if img.ncmds >= u32::MAX || bytes.len() > (u32::MAX - img.sizeofcmds) as usize
                || bytes.len() > data.len() - (hs + img.sizeofcmds as usize) {
                return Err(MachOError::NoRoom);
            }
            let mut header = CmdHeader { ncmds: img.ncmds, sizeofcmds: img.sizeofcmds };
            let mut out = data.clone();
            insert_load_command(&mut out, &mut header, img.ctx, hs + img.sizeofcmds as usize, &bytes);
            return Ok(out);
        },
    };
    assert(t == Target::Id ==> old_name@ == Seq::<char>::empty());
    proof {
        lemma_first_selected_bounds(data@, img.cmds@, le, t, old_name@, 0);
    }
    match find_selected(data, &img, t, old_name) {
        None => Err(MachOError::LoadCommandNotFound),
        Some(k) => {
            let c = img.cmds[k];
            assert(img.cmds@[k as int] == c);
            let bytes = if t == Target::Rpath {
                build_rpath_command(new_name, img.ctx)?
            } else {
                let fields = read_dylib_fields(data, c, le);
                build_dylib_command(new_name, fields, img.ctx)?
            };
            replace_at(data, &img, c, &bytes)
        },
    }
}

} // verus!

verus! {

/// The edits applied in turn, stopping at the first that fails.
pub open spec fn apply_all(data: Seq<u8>, ops: Seq<EditModel>) -> Result<Seq<u8>, MachOError>
    decreases ops.len(),
{
    if ops.len() == 0 {
        Ok(data)
    } else {
        match edited(data, ops[0]) {
            Err(e) => Err(e),
            Ok(d) => apply_all(d, ops.skip(1)),
        }
    }
}

/// The views of a list of edits.
pub open spec fn edit_views(ops: Seq<Edit>) -> Seq<EditModel> {
    ops.map_values(|e: Edit| e@)
}

/// Applies the edits in turn to a single-architecture image. The edits are
/// made on a copy that replaces the image only when all of them succeed, so a
/// failed edit leaves the image as it was.
pub fn apply_edits(data: &mut Vec<u8>, ops: &Vec<Edit>) -> (r: Result<(), MachOError>)
    ensures
        match apply_all(old(data)@, edit_views(ops@)) {
            Ok(d) => r is Ok && final(data)@ == d,
            Err(e) => r == Err::<(), MachOError>(e) && final(data)@ == old(data)@,
        },
{
    let ghost whole = apply_all(data@, edit_views(ops@));
    let mut cur = data.clone();
    let mut i: usize = 0;
    assert(edit_views(ops@).skip(0) =~= edit_views(ops@));
    while i < ops.len()
        invariant
            i <= ops@.len(),
            whole == apply_all(data@, edit_views(ops@)),
            whole == apply_all(cur@, edit_views(ops@).skip(i as int)),
        decreases ops@.len() - i,
    {
        let ghost rest = edit_views(ops@).skip(i as int);
        assert(rest[0] == ops@[i as int]@);
        assert(rest.skip(1) =~= edit_views(ops@).skip(i + 1));
        match apply_edit(&cur, &ops[i]) {
            Ok(d) => {
                cur = d;
            },
            Err(e) => {
                return Err(e);
            },
        }
        i = i + 1;
    }
    assert(edit_views(ops@).skip(ops@.len() as int) =~= Seq::<EditModel>::empty());
    *data = cur;
    Ok(())
}

/// The edits requested on the command line of the load-command editor.
#[derive(Debug)]
pub struct Args {
    pub id: Option<String>,
    pub changes: Vec<(String, String)>,
    pub rpaths: Vec<(String, String)>,
    pub add_rpaths: Vec<String>,
    pub delete_rpaths: Vec<String>,
    pub input: Option<String>,
}

/// The edits that `args` requests, in the order they are applied: the id,
/// then dependency renames, runtime-path changes, deletions and additions.
pub open spec fn requested_edits(args: Args) -> Seq<EditModel> {
    (match args.id {
        Some(n) => seq![EditModel::ChangeId(n@)],
        None => seq![],
    }) + args.changes@.map_values(|p: (String, String)| EditModel::ChangeDylib(p.0@, p.1@))
        + args.rpaths@.map_values(|p: (String, String)| EditModel::ChangeRpath(p.0@, p.1@))
        + args.delete_rpaths@.map_values(|p: String| EditModel::DeleteRpath(p@))
        + args.add_rpaths@.map_values(|p: String| EditModel::AddRpath(p@))
}

impl Args {
    /// The edits this command line requests, in the order they are applied.
    pub fn edits(&self) -> (r: Vec<Edit>)
        ensures
            edit_views(r@) == requested_edits(*self),
    {
        let mut out: Vec<Edit> = Vec::new();
        match &self.id {
            Some(n) => out.push(Edit::ChangeId(n.clone())),
            None => {},
        }
        let ghost a0 = edit_views(out@);
        assert(a0 =~= match self.id {
            Some(n) => seq![EditModel::ChangeId(n@)],
            None => seq![],
        });
        let mut i: usize = 0;
        while i < self.changes.len()
            invariant
                i <= self.changes@.len(),
                edit_views(out@) == a0 + self.changes@.take(i as int).map_values(
                    |p: (String, String)| EditModel::ChangeDylib(p.0@, p.1@),
                ),
            decreases self.changes@.len() - i,
        {
            let (o, n) = &self.changes[i];
            let ghost prev = edit_views(out@);
            out.push(Edit::ChangeDylib(o.clone(), n.clone()));
            assert(edit_views(out@) =~= prev.push(EditModel::ChangeDylib(o@, n@)));
            assert(self.changes@.take(i + 1) =~= self.changes@.take(i as int).push(self.changes@[i as int]));
            i = i + 1;
            assert(edit_views(out@) =~= a0 + self.changes@.take(i as int).map_values(
                |p: (String, String)| EditModel::ChangeDylib(p.0@, p.1@),
            ));
        }
        assert(self.changes@.take(i as int) =~= self.changes@);
        let ghost a1 = edit_views(out@);
        let mut i: usize = 0;
        while i < self.rpaths.len()
            invariant
                i <= self.rpaths@.len(),
                edit_views(out@) == a1 + self.rpaths@.take(i as int).map_values(
                    |p: (String, String)| EditModel::ChangeRpath(p.0@, p.1@),
                ),
            decreases self.rpaths@.len() - i,
        {
            let (o, n) = &self.rpaths[i];
            let ghost prev = edit_views(out@);
            out.push(Edit::ChangeRpath(o.clone(), n.clone()));
            assert(edit_views(out@) =~= prev.push(EditModel::ChangeRpath(o@, n@)));
            assert(self.rpaths@.take(i + 1) =~= self.rpaths@.take(i as int).push(self.rpaths@[i as int]));
            i = i + 1;
            assert(edit_views(out@) =~= a1 + self.rpaths@.take(i as int).map_values(
                |p: (String, String)| EditModel::ChangeRpath(p.0@, p.1@),
            ));
        }
        assert(self.rpaths@.take(i as int) =~= self.rpaths@);
        let ghost a2 = edit_views(out@);
        let mut i: usize = 0;
        while i < self.delete_rpaths.len()
            invariant
                i <= self.delete_rpaths@.len(),
                edit_views(out@) == a2 + self.delete_rpaths@.take(i as int).map_values(
                    |p: String| EditModel::DeleteRpath(p@),
                ),
            decreases self.delete_rpaths@.len() - i,
        {
            let ghost prev = edit_views(out@);
            out.push(Edit::DeleteRpath(self.delete_rpaths[i].clone()));
            assert(edit_views(out@) =~= prev.push(EditModel::DeleteRpath(self.delete_rpaths@[i as int]@)));
            assert(self.delete_rpaths@.take(i + 1) =~= self.delete_rpaths@.take(i as int).push(self.delete_rpaths@[i as int]));
            i = i + 1;
            assert(edit_views(out@) =~= a2 + self.delete_rpaths@.take(i as int).map_values(
                |p: String| EditModel::DeleteRpath(p@),
            ));
        }
        assert(self.delete_rpaths@.take(i as int) =~= self.delete_rpaths@);
        let ghost a3 = edit_views(out@);
        let mut i: usize = 0;
        while i < self.add_rpaths.len()
            invariant
                i <= self.add_rpaths@.len(),
                edit_views(out@) == a3 + self.add_rpaths@.take(i as int).map_values(
                    |p: String| EditModel::AddRpath(p@),
                ),
            decreases self.add_rpaths@.len() - i,
        {
            let ghost prev = edit_views(out@);
            out.push(Edit::AddRpath(self.add_rpaths[i].clone()));
            assert(edit_views(out@) =~= prev.push(EditModel::AddRpath(self.add_rpaths@[i as int]@)));
            assert(self.add_rpaths@.take(i + 1) =~= self.add_rpaths@.take(i as int).push(self.add_rpaths@[i as int]));
            i = i + 1;
            assert(edit_views(out@) =~= a3 + self.add_rpaths@.take(i as int).map_values(
                |p: String| EditModel::AddRpath(p@),
            ));
        }
        assert(self.add_rpaths@.take(i as int) =~= self.add_rpaths@);
        out
    }
}

/// Applies the requested edits to a single-architecture image; when one of
/// them fails, the image is left as it was.
pub fn process_single_macho(data: &mut Vec<u8>, args: &Args) -> (r: Result<(), MachOError>)
    ensures
        match apply_all(old(data)@, requested_edits(*args)) {
            Ok(d) => r is Ok && final(data)@ == d,
            Err(e) => r == Err::<(), MachOError>(e) && final(data)@ == old(data)@,
        },
{
    let ops = args.edits();
    apply_edits(data, &ops)
}

} // verus!

verus! {

/// The abstract content of an `Args`.
pub ghost struct ArgsModel {
    pub id: Option<Seq<char>>,
    pub changes: Seq<(Seq<char>, Seq<char>)>,
    pub rpaths: Seq<(Seq<char>, Seq<char>)>,
    pub add_rpaths: Seq<Seq<char>>,
    pub delete_rpaths: Seq<Seq<char>>,
    pub input: Option<Seq<char>>,
}

impl View for Args {
    type V = ArgsModel;

    open spec fn view(&self) -> ArgsModel {
        ArgsModel {
            id: match self.id {
                Some(s) => Some(s@),
                None => None,
            },
            changes: self.changes@.map_values(|p: (String, String)| (p.0@, p.1@)),
            rpaths: self.rpaths@.map_values(|p: (String, String)| (p.0@, p.1@)),
            add_rpaths: self.add_rpaths@.map_values(|p: String| p@),
            delete_rpaths: self.delete_rpaths@.map_values(|p: String| p@),
            input: match self.input {
                Some(s) => Some(s@),
                None => None,
            },
        }
    }
}

/// Why the editor's command line was refused.
#[derive(Debug, PartialEq, Eq)]
pub enum ArgsError {
    /// An option that takes one argument came last.
    MissingArgument(String),
    /// An option that takes two arguments had fewer.
    MissingArguments(String),
    /// An argument starting with `-` that is no option.
    UnknownOption(String),
    /// More than one input file.
    MultipleInputFiles,
    /// No input file.
    NoInputFile,
}

/// The abstract content of an `ArgsError`.
pub ghost enum ArgsErrorModel {
    MissingArgument(Seq<char>),
    MissingArguments(Seq<char>),
    UnknownOption(Seq<char>),
    MultipleInputFiles,
    NoInputFile,
}

impl View for ArgsError {
    type V = ArgsErrorModel;

    open spec fn view(&self) -> ArgsErrorModel {
        match self {
            ArgsError::MissingArgument(s) => ArgsErrorModel::MissingArgument(s@),
            ArgsError::MissingArguments(s) => ArgsErrorModel::MissingArguments(s@),
            ArgsError::UnknownOption(s) => ArgsErrorModel::UnknownOption(s@),
            ArgsError::MultipleInputFiles => ArgsErrorModel::MultipleInputFiles,
            ArgsError::NoInputFile => ArgsErrorModel::NoInputFile,
        }
    }
}

impl ArgsError {
    /// A human-readable message.
    pub fn message(&self) -> (r: String)
        ensures
            r@ == match self@ {
                ArgsErrorModel::MissingArgument(o) => o + " requires an argument"@,
                ArgsErrorModel::MissingArguments(o) => o + " requires two arguments"@,
                ArgsErrorModel::UnknownOption(o) => "unknown option: "@ + o,
                ArgsErrorModel::MultipleInputFiles => "multiple input files not supported"@,
                ArgsErrorModel::NoInputFile => "no input file specified"@,
            },
    {
        match self {
            ArgsError::MissingArgument(o) => {
                let mut r = String::from_str(o.as_str());
                r.append(" requires an argument");
                r
            },
            ArgsError::MissingArguments(o) => {
                let mut r = String::from_str(o.as_str());
                r.append(" requires two arguments");
                r
            },
            ArgsError::UnknownOption(o) => {
                let mut r = String::from_str("unknown option: ");
                r.append(o.as_str());
                r
            },
            ArgsError::MultipleInputFiles => String::from_str("multiple input files not supported"),
            ArgsError::NoInputFile => String::from_str("no input file specified"),
        }
    }
}

/// Parsing of the editor's command line from position `i`, with what has
/// been read so far in `acc`.
pub open spec fn parse_from(args: Seq<Seq<char>>, i: int, acc: ArgsModel) -> Result<
    ArgsModel,
    ArgsErrorModel,
>
    decreases args.len() - i,
{
    if i < 0 || i >= args.len() {
        if acc.input is None {
            Err(ArgsErrorModel::NoInputFile)
        } else {
            Ok(acc)
        }
    } else {
        let a = args[i];
        if a == "-id"@ {
            if i + 1 >= args.len() {
                Err(ArgsErrorModel::MissingArgument(a))
            } else {
                parse_from(args, i + 2, ArgsModel { id: Some(args[i + 1]), ..acc })
            }
        } else if a == "-change"@ {
            if i + 2 >= args.len() {
                Err(ArgsErrorModel::MissingArguments(a))
            } else {
                parse_from(
                    args,
                    i + 3,
                    ArgsModel { changes: acc.changes.push((args[i + 1], args[i + 2])), ..acc },
                )
            }
        } else if a == "-rpath"@ {
            if i + 2 >= args.len() {
                Err(ArgsErrorModel::MissingArguments(a))
            } else {
                parse_from(
                    args,
                    i + 3,
                    ArgsModel { rpaths: acc.rpaths.push((args[i + 1], args[i + 2])), ..acc },
                )
            }
        } else if a == "-add_rpath"@ {
            if i + 1 >= args.len() {
                Err(ArgsErrorModel::MissingArgument(a))
            } else {
                parse_from(args, i + 2, ArgsModel { add_rpaths: acc.add_rpaths.push(args[i + 1]), ..acc })
            }
        } else if a == "-delete_rpath"@ {
            if i + 1 >= args.len() {
                Err(ArgsErrorModel::MissingArgument(a))
            } else {
                parse_from(
                    args,
                    i + 2,
                    ArgsModel { delete_rpaths: acc.delete_rpaths.push(args[i + 1]), ..acc },
                )
            }
        } else if crate::text::is_prefix("-"@, a) {
            Err(ArgsErrorModel::UnknownOption(a))
        } else if acc.input is Some {
            Err(ArgsErrorModel::MultipleInputFiles)
        } else {
            parse_from(args, i + 1, ArgsModel { input: Some(a), ..acc })
        }
    }
}

/// Nothing requested yet.
pub open spec fn no_args() -> ArgsModel {
    ArgsModel {
        id: None,
        changes: seq![],
        rpaths: seq![],
        add_rpaths: seq![],
        delete_rpaths: seq![],
        input: None,
    }
}

/// The view of a parse result.
pub open spec fn parse_view(r: Result<Args, ArgsError>) -> Result<ArgsModel, ArgsErrorModel> {
    match r {
        Ok(a) => Ok(a@),
        Err(e) => Err(e@),
    }
}

/// Parses the editor's command line: `-id name`, `-change old new`,
/// `-rpath old new`, `-add_rpath path`, `-delete_rpath path` and exactly one
/// input file.
pub fn parse_args(args: &Vec<String>) -> (r: Result<Args, ArgsError>)
    ensures
        parse_view(r) == parse_from(crate::linker::str_views(args@), 0, no_args()),
{
    let ghost v = crate::linker::str_views(args@);
    let mut parsed = Args {
        id: None,
        changes: Vec::new(),
        rpaths: Vec::new(),
        add_rpaths: Vec::new(),
        delete_rpaths: Vec::new(),
        input: None,
    };
    assert(parsed@.changes =~= Seq::<(Seq<char>, Seq<char>)>::empty());
    assert(parsed@.rpaths =~= Seq::<(Seq<char>, Seq<char>)>::empty());
    assert(parsed@.add_rpaths =~= Seq::<Seq<char>>::empty());
    assert(parsed@.delete_rpaths =~= Seq::<Seq<char>>::empty());
    assert(parsed@ == no_args());
    let n = args.len();
    let mut i: usize = 0;
    while i < n
        invariant
            n == args@.len(),
            v == crate::linker::str_views(args@),
            i <= n,
            parse_from(v, 0, no_args()) == parse_from(v, i as int, parsed@),
        decreases n - i,
    {
        let a = args[i].as_str();
        assert(v[i as int] == a@);
        if str_eq(a, "-id") {
            if i + 1 >= n {
                return Err(ArgsError::MissingArgument(String::from_str(a)));
            }
            parsed.id = Some(args[i + 1].clone());
            assert(parsed@ =~= ArgsModel { id: Some(v[i + 1]), ..parsed@ });
            i = i + 2;
        } else if str_eq(a, "-change") || str_eq(a, "-rpath") {
            if n - i <= 2 {
                return Err(ArgsError::MissingArguments(String::from_str(a)));
            }
            let pair = (args[i + 1].clone(), args[i + 2].clone());
            let ghost old_p = parsed@;
            if str_eq(a, "-change") {
                parsed.changes.push(pair);
                assert(parsed@.changes =~= old_p.changes.push((v[i + 1], v[i + 2])));
            } else {
                parsed.rpaths.push(pair);
                assert(parsed@.rpaths =~= old_p.rpaths.push((v[i + 1], v[i + 2])));
            }
            i = i + 3;
        } else if str_eq(a, "-add_rpath") || str_eq(a, "-delete_rpath") {
            if i + 1 >= n {
                return Err(ArgsError::MissingArgument(String::from_str(a)));
            }
            let p = args[i + 1].clone();
            let ghost old_p = parsed@;
            if str_eq(a, "-add_rpath") {
                parsed.add_rpaths.push(p);
                assert(parsed@.add_rpaths =~= old_p.add_rpaths.push(v[i + 1]));
            } else {
                parsed.delete_rpaths.push(p);
                assert(parsed@.delete_rpaths =~= old_p.delete_rpaths.push(v[i + 1]));
            }
            i = i + 2;
        } else if starts_with(a, "-") {
            return Err(ArgsError::UnknownOption(String::from_str(a)));
        } else {
            if parsed.input.is_some() {
                return Err(ArgsError::MultipleInputFiles);
            }
            parsed.input = Some(String::from_str(a));
            i = i + 1;
        }
    }
    if parsed.input.is_none() {
        return Err(ArgsError::NoInputFile);
    }
    Ok(parsed)
}

} // verus!

verus! {

/// The `(offset, size)` of each architecture slice that goblin's
/// `MultiArch` reads from a fat file.
pub uninterp spec fn fat_arch_table(data: Seq<u8>) -> Option<Seq<(u32, u32)>>;

/// Relies on `goblin::mach::MultiArch::new` and `iter_arches`: the offset
/// and size of each architecture slice of a fat file.
#[verifier::external_body]
fn fat_arches(data: &[u8]) -> (r: Option<Vec<(u32, u32)>>)
    ensures
        match r {
            Some(v) => fat_arch_table(data@) == Some(v@),
            None => fat_arch_table(data@) is None,
        },
{
    let multi = goblin::mach::MultiArch::new(data).ok()?;
    let arches: Vec<goblin::mach::fat::FatArch> = multi.iter_arches().collect::<Result<_, _>>().ok()?;
    Some(arches.iter().map(|a| (a.offset, a.size)).collect())
}

/// The bytes of slice `a` of `data`.
pub open spec fn region(data: Seq<u8>, a: (u32, u32)) -> Seq<u8> {
    data.subrange(a.0 as int, a.0 + a.1)
}

/// `data` with slice `a` replaced by `s`.
pub open spec fn spliced(data: Seq<u8>, a: (u32, u32), s: Seq<u8>) -> Seq<u8> {
    data.subrange(0, a.0 as int) + s + data.subrange(a.0 + a.1, data.len() as int)
}

/// The slices `arches[0..k]` edited from the last to the first, each
/// extracted, edited as a single image, and spliced back.
pub open spec fn edit_slices(data: Seq<u8>, arches: Seq<(u32, u32)>, k: int, ops: Seq<EditModel>) -> Result<
    Seq<u8>,
    MachOError,
>
    decreases k,
{
    if k <= 0 || k > arches.len() {
        Ok(data)
    } else {
        let a = arches[k - 1];
        if a.0 + a.1 > data.len() {
            Err(MachOError::Malformed)
        } else {
            match apply_all(region(data, a), ops) {
                Err(e) => Err(e),
                Ok(s) => edit_slices(spliced(data, a, s), arches, k - 1, ops),
            }
        }
    }
}

/// What editing a whole file does: a fat file has each of its slices
/// edited, any other file is edited as a single image.
pub open spec fn edited_file(data: Seq<u8>, ops: Seq<EditModel>) -> Result<Seq<u8>, MachOError> {
    if data.len() < 4 {
        Err(MachOError::Malformed)
    } else if u32_at(data, 0, false) == FAT_MAGIC {
        match fat_arch_table(data) {
            None => Err(MachOError::Malformed),
            Some(arches) => edit_slices(data, arches, arches.len() as int, ops),
        }
    } else {
        apply_all(data, ops)
    }
}

fn edit_slice(cur: &Vec<u8>, off: u32, size: u32, ops: &Vec<Edit>) -> (r: Result<Vec<u8>, MachOError>)
    ensures
        result_view(r) == (if off + size > cur@.len() {
            Err(MachOError::Malformed)
        } else {
            match apply_all(region(cur@, (off, size)), edit_views(ops@)) {
                Err(e) => Err(e),
                Ok(s) => Ok(spliced(cur@, (off, size), s)),
            }
        }),
{
    let n = cur.len();
    if off as usize > n || size as usize > n - off as usize {
        return Err(MachOError::Malformed);
    }
    let end = off as usize + size as usize;
    let mut slice = copy_range(cur, off as usize, end);
    match apply_edits(&mut slice, ops) {
        Ok(()) => {},
        Err(e) => {
            return Err(e);
        },
    }
    let mut next: Vec<u8> = Vec::new();
    extend_range(&mut next, cur, 0, off as usize);
    let m = slice.len();
    extend_range(&mut next, &slice, 0, m);
    extend_range(&mut next, cur, end, n);
    assert(slice@.subrange(0, m as int) =~= slice@);
    Ok(next)
}

fn copy_range(src: &Vec<u8>, from: usize, to: usize) -> (r: Vec<u8>)
    requires
        from <= to <= src@.len(),
    ensures
        r@ == src@.subrange(from as int, to as int),
{
    let mut out: Vec<u8> = Vec::new();
    extend_range(&mut out, src, from, to);
    out
}

/// Applies the requested edits to the bytes of a Mach-O file, single or fat.
pub fn process_file_data(data: Vec<u8>, args: &Args) -> (r: Result<Vec<u8>, MachOError>)
    ensures
        result_view(r) == edited_file(data@, requested_edits(*args)),
{
    let ops = args.edits();
    let magic = match peek_magic(data.as_slice()) {
        Some(m) => m,
        None => {
            return Err(MachOError::Malformed);
        },
    };
    if magic != FAT_MAGIC {
        let mut d = data;
        return match process_single_macho(&mut d, args) {
            Ok(()) => Ok(d),
            Err(e) => Err(e),
        };
    }
    let arches = match fat_arches(data.as_slice()) {
        Some(a) => a,
        None => {
            return Err(MachOError::Malformed);
        },
    };
    let ghost opsv = edit_views(ops@);
    let ghost whole = edit_slices(data@, arches@, arches@.len() as int, opsv);
    assert(data@.len() >= 4);
    assert(whole == edited_file(data@, requested_edits(*args)));
    let mut cur = data;
    let mut k = arches.len();
    while k > 0
        invariant
            k <= arches@.len(),
            opsv == edit_views(ops@),
            whole == edit_slices(cur@, arches@, k as int, opsv),
            whole == edited_file(data@, requested_edits(*args)),
        decreases k,
    {
        let (off, size) = arches[k - 1];
        assert(arches@[k - 1] == (off, size));
        let next = match edit_slice(&cur, off, size, &ops) {
            Ok(d) => d,
            Err(e) => {
                assert(whole == Err::<Seq<u8>, MachOError>(e));
                return Err(e);
            },
        };
        cur = next;
        k = k - 1;
    }
    Ok(cur)
}

} // verus!

verus! {

/// The slices lie within `len` bytes, in ascending order, without overlap.
pub open spec fn slices_ordered(arches: Seq<(u32, u32)>, len: int) -> bool {
    &&& forall|i: int| 0 <= i < arches.len() ==> arches[i].0 + arches[i].1 <= len
    &&& forall|i: int, j: int|
        0 <= i < j < arches.len() ==> #[trigger] arches[i].0 + arches[i].1 <= #[trigger] arches[j].0
}

/// Every slice edits successfully and keeps its size.
pub open spec fn slices_edit_in_place(data: Seq<u8>, arches: Seq<(u32, u32)>, ops: Seq<EditModel>) -> bool {
    forall|i: int|
        0 <= i < arches.len() ==> (#[trigger] apply_all(region(data, arches[i]), ops) matches Ok(s)
            && s.len() == arches[i].1)
}

proof fn lemma_edit_slices(orig: Seq<u8>, d: Seq<u8>, arches: Seq<(u32, u32)>, k: int, ops: Seq<EditModel>)
    requires
        slices_ordered(arches, orig.len() as int),
        slices_edit_in_place(orig, arches, ops),
        d.len() == orig.len(),
        0 <= k <= arches.len(),
        forall|j: int| 0 <= j < k ==> region(d, #[trigger] arches[j]) == region(orig, arches[j]),
    ensures
        edit_slices(d, arches, k, ops) matches Ok(out) && out.len() == d.len() && (forall|j: int|
            0 <= j < k ==> Ok::<Seq<u8>, MachOError>(region(out, #[trigger] arches[j])) == apply_all(region(orig, arches[j]), ops))
            && (forall|j: int| k <= j < arches.len() ==> region(out, #[trigger] arches[j]) == region(d, arches[j])),
    decreases k,
{
    if k > 0 {
        let a = arches[k - 1];
        assert(region(d, a) == region(orig, a));
        assert(apply_all(region(orig, arches[k - 1]), ops) matches Ok(s) && s.len() == a.1);
        let s = apply_all(region(orig, a), ops)->Ok_0;
        let d2 = spliced(d, a, s);
        assert(d2.len() == d.len());
        assert forall|j: int| 0 <= j < k - 1 implies region(d2, #[trigger] arches[j]) == region(orig, arches[j]) by {
            let b = arches[j];
            assert(b.0 + b.1 <= a.0);
            assert(region(d2, b) =~= region(d, b));
        }
        assert forall|j: int| k - 1 < j < arches.len() implies region(d2, #[trigger] arches[j]) == region(d, arches[j]) by {
            let b = arches[j];
            assert(a.0 + a.1 <= b.0);
            assert(region(d2, b) =~= region(d, b));
        }
        assert(region(d2, a) =~= s);
        lemma_edit_slices(orig, d2, arches, k - 1, ops);
    }
}

/// Every slice of a fat file edits successfully.
pub open spec fn slices_edit_ok(data: Seq<u8>, arches: Seq<(u32, u32)>, ops: Seq<EditModel>) -> bool {
    forall|i: int| 0 <= i < arches.len() ==> #[trigger] apply_all(region(data, arches[i]), ops) is Ok
}

/// Editing a fat file edits every slice on its own and alike: when the
/// slices are laid out in order without overlap and each one edits
/// successfully, every slice of the result is exactly the edit of the same
/// slice as it was before (so, for a new id, every slice reports it), and
/// the file keeps its size.
pub proof fn fat_edit_law(data: Seq<u8>, arches: Seq<(u32, u32)>, ops: Seq<EditModel>)
    requires
        data.len() <= usize::MAX,
        slices_ordered(arches, data.len() as int),
        slices_edit_ok(data, arches, ops),
    ensures
        edit_slices(data, arches, arches.len() as int, ops) matches Ok(out) && out.len() == data.len()
            && forall|j: int|
            0 <= j < arches.len() ==> Ok::<Seq<u8>, MachOError>(region(out, #[trigger] arches[j])) == apply_all(
                region(data, arches[j]),
                ops,
            ),
{
    assert forall|i: int| 0 <= i < arches.len() implies (#[trigger] apply_all(region(data, arches[i]), ops)
        matches Ok(s) && s.len() == arches[i].1) by {
        assert(apply_all(region(data, arches[i]), ops) is Ok);
        lemma_apply_all_len(region(data, arches[i]), ops);
    }
    lemma_edit_slices(data, data, arches, arches.len() as int, ops);
}

} // verus!

verus! {

proof fn lemma_u32_roundtrip(v: u32, le: bool)
    ensures
        u32_at(u32_bytes(v, le), 0, le) == v,
{
    reveal(u32_at);
    let b0 = v % 256;
    let b1 = (v / 256) % 256;
    let b2 = (v / 65536) % 256;
    let b3 = v / 16777216;
    assert(v == b0 + 256 * b1 + 65536 * b2 + 16777216 * b3) by (bit_vector)
        requires
            b0 == v % 256,
            b1 == (v / 256) % 256,
            b2 == (v / 65536) % 256,
            b3 == v / 16777216,
    ;
    assert(b3 < 256) by (bit_vector)
        requires
            b3 == v / 16777216,
    ;
}

proof fn lemma_header_ncmds(data: Seq<u8>, n: u32, s: u32, le: bool)
    requires
        data.len() >= 24,
    ensures
        with_header(data, n, s, le).len() == data.len(),
        u32_at(with_header(data, n, s, le), 16, le) == n,
        u32_at(with_header(data, n, s, le), 20, le) == s,
{
    let w = with_header(data, n, s, le);
    lemma_u32_roundtrip(n, le);
    lemma_u32_roundtrip(s, le);
    reveal(u32_at);
    assert(w.subrange(16, 20) =~= u32_bytes(n, le));
    assert(w.subrange(20, 24) =~= u32_bytes(s, le));
    assert(w[16] == u32_bytes(n, le)[0] && w[17] == u32_bytes(n, le)[1] && w[18] == u32_bytes(n, le)[2] && w[19] == u32_bytes(n, le)[3]);
    assert(w[20] == u32_bytes(s, le)[0] && w[21] == u32_bytes(s, le)[1] && w[22] == u32_bytes(s, le)[2] && w[23] == u32_bytes(s, le)[3]);
}

} // verus!

verus! {

/// Where the `n` load commands from `off` end, by their sizes.
pub open spec fn walk_end(data: Seq<u8>, le: bool, off: int, n: nat) -> int
    decreases n,
{
    if n == 0 {
        off
    } else {
        walk_end(data, le, off + u32_at(data, off + 4, le), (n - 1) as nat)
    }
}

proof fn lemma_u32_at_eq(a: Seq<u8>, b: Seq<u8>, off: int, le: bool)
    requires
        0 <= off,
        off + 4 <= a.len(),
        off + 4 <= b.len(),
        a[off] == b[off],
        a[off + 1] == b[off + 1],
        a[off + 2] == b[off + 2],
        a[off + 3] == b[off + 3],
    ensures
        u32_at(a, off, le) == u32_at(b, off, le),
{
    reveal(u32_at);
}

proof fn lemma_walk_frame(a: Seq<u8>, b: Seq<u8>, le: bool, off: int, n: nat, end: int)
    requires
        0 <= off,
        end <= a.len(),
        end <= b.len(),
        forall|i: int| off <= i < end ==> a[i] == b[i],
    ensures
        walk(a, le, off, n, end) == walk(b, le, off, n, end),
        walk(a, le, off, n, end) is Some ==> walk_end(a, le, off, n) == walk_end(b, le, off, n),
    decreases n,
{
    if n > 0 && off + 8 <= end {
        lemma_u32_at_eq(a, b, off + 4, le);
        lemma_u32_at_eq(a, b, off, le);
        let size = u32_at(a, off + 4, le);
        if size >= 8 && off + size <= end {
            lemma_walk_frame(a, b, le, off + size, (n - 1) as nat, end);
        }
    }
}

proof fn lemma_walk_append(d: Seq<u8>, le: bool, off: int, n: nat, end1: int, end2: int)
    requires
        0 <= off,
        walk(d, le, off, n, end1) is Some,
        walk_end(d, le, off, n) == end1,
        end1 + 8 <= end2,
        u32_at(d, end1 + 4, le) >= 8,
        end1 + u32_at(d, end1 + 4, le) <= end2,
    ensures
        walk(d, le, off, n + 1, end2) == Some(
            walk(d, le, off, n, end1)->0 + seq![
                LoadCmd {
                    offset: end1 as usize,
                    cmd: u32_at(d, end1, le),
                    cmdsize: u32_at(d, end1 + 4, le),
                },
            ],
        ),
        walk_end(d, le, off, n + 1) == end1 + u32_at(d, end1 + 4, le),
    decreases n,
{
    if n == 0 {
        assert(off == end1);
        assert(walk_end(d, le, off, 1) == walk_end(d, le, off + u32_at(d, off + 4, le), 0));
        assert(walk(d, le, off + u32_at(d, off + 4, le), 0, end2) == Some(Seq::<LoadCmd>::empty()));
        let c = LoadCmd { offset: end1 as usize, cmd: u32_at(d, end1, le), cmdsize: u32_at(d, end1 + 4, le) };
        assert(seq![c] + Seq::<LoadCmd>::empty() =~= seq![c]);
        assert(Seq::<LoadCmd>::empty() + seq![c] =~= seq![c]);
    } else {
        let size = u32_at(d, off + 4, le);
        lemma_walk_append(d, le, off + size, (n - 1) as nat, end1, end2);
        let head = LoadCmd { offset: off as usize, cmd: u32_at(d, off, le), cmdsize: size };
        let rest = walk(d, le, off + size, (n - 1) as nat, end1)->0;
        let c = LoadCmd { offset: end1 as usize, cmd: u32_at(d, end1, le), cmdsize: u32_at(d, end1 + 4, le) };
        assert(seq![head] + (rest + seq![c]) =~= (seq![head] + rest) + seq![c]);
    }
}

} // verus!

verus! {

/// Load commands moved `delta` bytes towards the start.
pub open spec fn shift_cmds(cmds: Seq<LoadCmd>, delta: int) -> Seq<LoadCmd> {
    cmds.map_values(|c: LoadCmd| LoadCmd { offset: (c.offset - delta) as usize, cmd: c.cmd, cmdsize: c.cmdsize })
}

proof fn lemma_u32_at_moved(a: Seq<u8>, b: Seq<u8>, offa: int, offb: int, le: bool)
    requires
        0 <= offa,
        0 <= offb,
        offa + 4 <= a.len(),
        offb + 4 <= b.len(),
        a[offa] == b[offb],
        a[offa + 1] == b[offb + 1],
        a[offa + 2] == b[offb + 2],
        a[offa + 3] == b[offb + 3],
    ensures
        u32_at(a, offa, le) == u32_at(b, offb, le),
{
    reveal(u32_at);
}

proof fn lemma_walk_shift(a: Seq<u8>, b: Seq<u8>, le: bool, off: int, n: nat, end: int, delta: int)
    requires
        0 <= off,
        0 <= delta,
        end + delta <= a.len(),
        end <= b.len(),
        end + delta <= usize::MAX,
        forall|i: int| off <= i < end ==> b[i] == a[i + delta],
    ensures
        walk(b, le, off, n, end) == match walk(a, le, off + delta, n, end + delta) {
            Some(c) => Some(shift_cmds(c, delta)),
            None => None,
        },
        walk(a, le, off + delta, n, end + delta) is Some ==> walk_end(b, le, off, n) + delta
            == walk_end(a, le, off + delta, n),
    decreases n,
{
    if n == 0 {
        assert(shift_cmds(Seq::<LoadCmd>::empty(), delta) =~= Seq::<LoadCmd>::empty());
    } else if off + 8 <= end {
        lemma_u32_at_moved(b, a, off + 4, off + delta + 4, le);
        lemma_u32_at_moved(b, a, off, off + delta, le);
        let size = u32_at(b, off + 4, le);
        if size >= 8 && off + size <= end {
            lemma_walk_shift(a, b, le, off + size, (n - 1) as nat, end, delta);
            if let Some(rest) = walk(a, le, off + delta + size, (n - 1) as nat, end + delta) {
                let ha = LoadCmd { offset: (off + delta) as usize, cmd: u32_at(a, off + delta, le), cmdsize: size };
                let hb = LoadCmd { offset: off as usize, cmd: u32_at(b, off, le), cmdsize: size };
                assert(shift_cmds(seq![ha] + rest, delta) =~= seq![hb] + shift_cmds(rest, delta));
            }
        }
    }
}

proof fn lemma_walk_remove(d1: Seq<u8>, le: bool, off: int, n: nat, k: int, o: int, s: int, end: int)
    requires
        0 <= off,
        end <= d1.len(),
        end <= usize::MAX,
        walk(d1, le, off, n, end) matches Some(cmds) && 0 <= k < cmds.len() && cmds[k].offset == o
            && cmds[k].cmdsize == s,
        walk_end(d1, le, off, n) == end,
    ensures
        ({
            let d2 = removed(d1, o, s, end);
            let cmds = walk(d1, le, off, n, end)->0;
            &&& walk(d2, le, off, (n - 1) as nat, end - s) == Some(cmds.take(k) + shift_cmds(cmds.skip(k + 1), s))
            &&& walk_end(d2, le, off, (n - 1) as nat) == end - s
        }),
    decreases n,
{
    let d2 = removed(d1, o, s, end);
    let cmds = walk(d1, le, off, n, end)->0;
    lemma_walk_facts(d1, le, off, n, end);
    let size = u32_at(d1, off + 4, le);
    let rest = walk(d1, le, off + size, (n - 1) as nat, end)->0;
    assert(cmds == seq![LoadCmd { offset: off as usize, cmd: u32_at(d1, off, le), cmdsize: size }] + rest);
    assert(d2.len() == d1.len());
    if k == 0 {
        assert(cmds[0].offset == off as usize);
        assert(o == off);
        assert(s == size);
        assert forall|i: int| off <= i < end - s implies d2[i] == d1[i + s] by {}
        lemma_walk_shift(d1, d2, le, off, (n - 1) as nat, end - s, s);
        assert(cmds.take(0) + shift_cmds(cmds.skip(1), s) =~= shift_cmds(rest, s));
        assert(cmds.skip(1) =~= rest);
    } else {
        lemma_walk_facts(d1, le, off + size, (n - 1) as nat, end);
        assert(cmds[k] == rest[k - 1]);
        assert(off + size <= o);
        lemma_u32_at_moved(d2, d1, off + 4, off + 4, le);
        lemma_u32_at_moved(d2, d1, off, off, le);
        lemma_walk_remove(d1, le, off + size, (n - 1) as nat, k - 1, o, s, end);
        let head = LoadCmd { offset: off as usize, cmd: u32_at(d1, off, le), cmdsize: size };
        assert(seq![head] + (rest.take(k - 1) + shift_cmds(rest.skip(k), s)) =~= cmds.take(k)
            + shift_cmds(cmds.skip(k + 1), s));
    }
}

} // verus!

verus! {

/// The runtime paths that the commands `cmds` of `data` list, as stored bytes.
pub open spec fn rpath_strings(data: Seq<u8>, cmds: Seq<LoadCmd>, le: bool) -> Set<Seq<u8>> {
    Set::new(
        |b: Seq<u8>|
            exists|j: int|
                0 <= j < cmds.len() && #[trigger] cmds[j].cmd == LC_RPATH && cmds[j].cmdsize
                    >= SIZEOF_RPATH_COMMAND && cmd_string(data, cmds[j], le) == b,
    )
}

proof fn lemma_cmd_string_moved(a: Seq<u8>, b: Seq<u8>, ca: LoadCmd, cb: LoadCmd, le: bool)
    requires
        ca.cmdsize == cb.cmdsize,
        ca.cmdsize >= 12,
        ca.offset + ca.cmdsize <= a.len(),
        cb.offset + cb.cmdsize <= b.len(),
        b.subrange(cb.offset as int, cb.offset + cb.cmdsize) == a.subrange(
            ca.offset as int,
            ca.offset + ca.cmdsize,
        ),
    ensures
        cmd_string(b, cb, le) == cmd_string(a, ca, le),
{
    let sb = b.subrange(cb.offset as int, cb.offset + cb.cmdsize);
    let sa = a.subrange(ca.offset as int, ca.offset + ca.cmdsize);
    assert(sb[8] == sa[8] && sb[9] == sa[9] && sb[10] == sa[10] && sb[11] == sa[11]);
    assert(b[cb.offset + 8] == a[ca.offset + 8]);
    assert(b[cb.offset + 9] == a[ca.offset + 9]);
    assert(b[cb.offset + 10] == a[ca.offset + 10]);
    assert(b[cb.offset + 11] == a[ca.offset + 11]);
    lemma_u32_at_moved(b, a, cb.offset + 8, ca.offset + 8, le);
    let so = u32_at(a, ca.offset + 8, le);
    if so <= ca.cmdsize {
        assert(b.subrange(cb.offset + so, cb.offset + cb.cmdsize) =~= sb.subrange(so as int, cb.cmdsize as int));
        assert(a.subrange(ca.offset + so, ca.offset + ca.cmdsize) =~= sa.subrange(so as int, ca.cmdsize as int));
    }
}

proof fn lemma_nul_index_prefix(p: Seq<u8>, z: nat)
    requires
        nul_free(p),
        z >= 1,
    ensures
        nul_index(p + zeros(z)) == p.len(),
    decreases p.len(),
{
    if p.len() == 0 {
        assert((p + zeros(z))[0] == 0);
    } else {
        assert((p + zeros(z))[0] == p[0]);
        assert((p + zeros(z)).skip(1) =~= p.skip(1) + zeros(z));
        lemma_nul_index_prefix(p.skip(1), z);
    }
}

proof fn lemma_read_u32_bytes(s: Seq<u8>, off: int, v: u32, le: bool)
    requires
        0 <= off,
        off + 4 <= s.len(),
        s.subrange(off, off + 4) == u32_bytes(v, le),
    ensures
        u32_at(s, off, le) == v,
{
    lemma_u32_roundtrip(v, le);
    let w = u32_bytes(v, le);
    assert(s[off] == w[0]);
    assert(s[off + 1] == w[1]);
    assert(s[off + 2] == w[2]);
    assert(s[off + 3] == w[3]);
    lemma_u32_at_moved(s, w, off, 0, le);
}

} // verus!

verus! {

/// The commands of `img` fill its command area exactly.
pub open spec fn tight(data: Seq<u8>, img: ImageModel) -> bool {
    walk_end(data, img.ctx.little_endian, header_size(img.ctx), img.ncmds as nat) == header_size(
        img.ctx,
    ) + img.sizeofcmds
}

proof fn lemma_rpath_bytes_facts(p: Seq<u8>, ctx: Ctx)
    requires
        nul_free(p),
        p.len() <= MAX_NAME_LEN,
    ensures
        ({
            let b = rpath_command_bytes(p, ctx);
            let size = cmd_size_for(SIZEOF_RPATH_COMMAND as int, p.len() as int, ctx);
            &&& b.len() == size
            &&& 12 + p.len() < size <= 12 + p.len() + 12
            &&& b.subrange(0, 4) == u32_bytes(LC_RPATH, ctx.little_endian)
            &&& b.subrange(4, 8) == u32_bytes(size as u32, ctx.little_endian)
            &&& b.subrange(8, 12) == u32_bytes(12, ctx.little_endian)
            &&& b.subrange(12, size) == p + zeros((size - 12 - p.len()) as nat)
        }),
{
    let b = rpath_command_bytes(p, ctx);
    let size = cmd_size_for(SIZEOF_RPATH_COMMAND as int, p.len() as int, ctx);
    let le = ctx.little_endian;
    assert(b =~= u32_bytes(LC_RPATH, le) + u32_bytes(size as u32, le) + u32_bytes(12, le) + (p
        + zeros((size - 12 - p.len()) as nat)));
    assert(b.subrange(0, 4) =~= u32_bytes(LC_RPATH, le));
    assert(b.subrange(4, 8) =~= u32_bytes(size as u32, le));
    assert(b.subrange(8, 12) =~= u32_bytes(12, le));
    assert(b.subrange(12, size) =~= p + zeros((size - 12 - p.len()) as nat));
}

/// The bytes of an image after a command is appended with room to spare:
/// the header counts it, the command area before it is untouched, and it
/// stands right after the old command area.
proof fn lemma_appended_bytes(data: Seq<u8>, img: ImageModel, bytes: Seq<u8>)
    requires
        image_of(data) == Some(img),
        appended_cmd(data, img, bytes) is Some,
        header_size(img.ctx) + img.sizeofcmds + bytes.len() <= data.len(),
    ensures
        ({
            let d1 = appended_cmd(data, img, bytes)->0;
            let end = header_size(img.ctx) + img.sizeofcmds;
            let le = img.ctx.little_endian;
            &&& d1.len() == data.len()
            &&& u32_at(d1, 0, false) == u32_at(data, 0, false)
            &&& u32_at(d1, 16, le) == img.ncmds + 1
            &&& u32_at(d1, 20, le) == img.sizeofcmds + bytes.len()
            &&& forall|i: int| 24 <= i < end ==> d1[i] == data[i]
            &&& d1.subrange(end, end + bytes.len()) == bytes
        }),
{
    let le = img.ctx.little_endian;
    let end = header_size(img.ctx) + img.sizeofcmds;
    let len = bytes.len();
    let ins = inserted(data, end, bytes, end);
    assert(ins =~= data.subrange(0, end) + bytes + data.subrange(end + len, data.len() as int));
    let d1 = appended_cmd(data, img, bytes)->0;
    lemma_header_ncmds(ins, (img.ncmds + 1) as u32, (img.sizeofcmds + len) as u32, le);
    assert(d1.subrange(end, end + len) =~= bytes);
    lemma_u32_at_moved(d1, data, 0, 0, false);
}

/// Appending a command to a tight image with room for it gives a tight
/// image whose commands are the old ones followed by the new one.
#[verifier::spinoff_prover]
proof fn lemma_append_image(data: Seq<u8>, img: ImageModel, bytes: Seq<u8>)
    requires
        image_of(data) == Some(img),
        tight(data, img),
        appended_cmd(data, img, bytes) is Some,
        header_size(img.ctx) + img.sizeofcmds + bytes.len() <= data.len(),
        data.len() <= usize::MAX,
        bytes.len() >= 8,
        u32_at(bytes, 4, img.ctx.little_endian) == bytes.len(),
    ensures
        ({
            let d1 = appended_cmd(data, img, bytes)->0;
            let end = header_size(img.ctx) + img.sizeofcmds;
            let le = img.ctx.little_endian;
            image_of(d1) == Some(
                ImageModel {
                    ctx: img.ctx,
                    ncmds: (img.ncmds + 1) as u32,
                    sizeofcmds: (img.sizeofcmds + bytes.len()) as u32,
                    cmds: img.cmds + seq![
                        LoadCmd { offset: end as usize, cmd: u32_at(bytes, 0, le), cmdsize: bytes.len() as u32 },
                    ],
                },
            ) && tight(d1, image_of(d1)->0)
        }),
{
    let le = img.ctx.little_endian;
    let hs = header_size(img.ctx);
    let end = hs + img.sizeofcmds;
    let len = bytes.len();
    let n = img.ncmds;
    lemma_appended_bytes(data, img, bytes);
    let d1 = appended_cmd(data, img, bytes)->0;
    lemma_walk_frame(data, d1, le, hs, n as nat, end);
    let sub = d1.subrange(end, end + len);
    assert(sub[0] == d1[end] && sub[1] == d1[end + 1] && sub[2] == d1[end + 2] && sub[3] == d1[end + 3]);
    assert(sub[4] == d1[end + 4] && sub[5] == d1[end + 5] && sub[6] == d1[end + 6] && sub[7] == d1[end + 7]);
    lemma_u32_at_moved(d1, bytes, end, 0, le);
    lemma_u32_at_moved(d1, bytes, end + 4, 4, le);
    lemma_walk_append(d1, le, hs, n as nat, end, end + len);
}

} // verus!


verus! {

/// Deleting command `k` of a tight image closes up the command area: the
/// commands before it stay, the ones after it move back by its size.
#[verifier::spinoff_prover]
proof fn lemma_delete_image(d1: Seq<u8>, img1: ImageModel, k: int)
    requires
        image_of(d1) == Some(img1),
        tight(d1, img1),
        0 <= k < img1.cmds.len(),
        d1.len() <= usize::MAX,
    ensures
        ({
            let c = img1.cmds[k];
            let d2 = deleted_cmd(d1, img1, c);
            &&& d2.len() == d1.len()
            &&& image_of(d2) == Some(
                ImageModel {
                    ctx: img1.ctx,
                    ncmds: (img1.ncmds - 1) as u32,
                    sizeofcmds: (img1.sizeofcmds - c.cmdsize) as u32,
                    cmds: img1.cmds.take(k) + shift_cmds(img1.cmds.skip(k + 1), c.cmdsize as int),
                },
            )
            &&& forall|i: int| 24 <= i < c.offset ==> d2[i] == d1[i]
            &&& forall|i: int|
                c.offset <= i < header_size(img1.ctx) + img1.sizeofcmds - c.cmdsize ==> d2[i]
                    == d1[i + c.cmdsize]
        }),
{
    let le = img1.ctx.little_endian;
    let hs = header_size(img1.ctx);
    let end = hs + img1.sizeofcmds;
    let c = img1.cmds[k];
    let o = c.offset as int;
    let cs = c.cmdsize as int;
    lemma_walk_facts(d1, le, hs, img1.ncmds as nat, end);
    let rem = removed(d1, o, cs, end);
    lemma_header_ncmds(rem, (img1.ncmds - 1) as u32, (img1.sizeofcmds - cs) as u32, le);
    let d2 = deleted_cmd(d1, img1, c);
    assert(d2 =~= with_header(rem, (img1.ncmds - 1) as u32, (img1.sizeofcmds - cs) as u32, le));
    lemma_u32_at_moved(d2, d1, 0, 0, false);
    lemma_walk_remove(d1, le, hs, img1.ncmds as nat, k, o, cs, end);
    lemma_walk_frame(rem, d2, le, hs, (img1.ncmds - 1) as nat, end - cs);
}

/// A command's stored string after the image was changed around it but not
/// inside it.
proof fn lemma_strings_kept(a: Seq<u8>, b: Seq<u8>, ca: LoadCmd, delta: int, le: bool)
    requires
        ca.cmdsize >= 12,
        delta >= 0,
        ca.offset - delta >= 0,
        ca.offset + ca.cmdsize <= a.len(),
        ca.offset - delta + ca.cmdsize <= b.len(),
        forall|i: int| ca.offset <= i < ca.offset + ca.cmdsize ==> b[i - delta] == a[i],
    ensures
        cmd_string(b, LoadCmd { offset: (ca.offset - delta) as usize, cmd: ca.cmd, cmdsize: ca.cmdsize }, le)
            == cmd_string(a, ca, le),
{
    let cb = LoadCmd { offset: (ca.offset - delta) as usize, cmd: ca.cmd, cmdsize: ca.cmdsize };
    assert(cb.offset == ca.offset - delta);
    assert forall|j: int| 0 <= j < ca.cmdsize implies #[trigger] b.subrange(cb.offset as int, cb.offset + cb.cmdsize)[j]
        == a.subrange(ca.offset as int, ca.offset + ca.cmdsize)[j] by {
        assert(a[ca.offset + j] == b[ca.offset + j - delta]);
        assert(b.subrange(cb.offset as int, cb.offset + cb.cmdsize)[j] == b[cb.offset + j]);
        assert(a.subrange(ca.offset as int, ca.offset + ca.cmdsize)[j] == a[ca.offset + j]);
    }
    assert(b.subrange(cb.offset as int, cb.offset + cb.cmdsize) =~= a.subrange(
        ca.offset as int,
        ca.offset + ca.cmdsize,
    ));
    lemma_cmd_string_moved(a, b, ca, cb, le);
}

} // verus!

verus! {

proof fn lemma_walk_ordered(data: Seq<u8>, le: bool, off: int, n: nat, end: int)
    requires
        0 <= off,
        end <= usize::MAX,
    ensures
        walk(data, le, off, n, end) matches Some(cmds) ==> forall|a: int, b: int|
            0 <= a < b < cmds.len() ==> #[trigger] cmds[a].offset + cmds[a].cmdsize <= #[trigger] cmds[b].offset,
    decreases n,
{
    if n > 0 && off + 8 <= end {
        let size = u32_at(data, off + 4, le);
        if size >= 8 && off + size <= end {
            lemma_walk_ordered(data, le, off + size, (n - 1) as nat, end);
            lemma_walk_facts(data, le, off + size, (n - 1) as nat, end);
            if let Some(cmds) = walk(data, le, off, n, end) {
                let rest = walk(data, le, off + size, (n - 1) as nat, end)->0;
                assert forall|a: int, b: int| 0 <= a < b < cmds.len() implies #[trigger] cmds[a].offset
                    + cmds[a].cmdsize <= #[trigger] cmds[b].offset by {
                    assert(cmds[b] == rest[b - 1]);
                    if a > 0 {
                        assert(cmds[a] == rest[a - 1]);
                    }
                }
            }
        }
    }
}

proof fn lemma_edited_add(data: Seq<u8>, p: Seq<char>)
    requires
        edited(data, EditModel::AddRpath(p)) is Ok,
    ensures
        image_of(data) matches Some(img) && (storable(p) && (appended_cmd(
            data,
            img,
            rpath_command_bytes(encode_utf8(p), img.ctx),
        ) matches Some(d1) && edited(data, EditModel::AddRpath(p)) == Ok::<Seq<u8>, MachOError>(d1))),
{
    reveal(edited);
}

proof fn lemma_edited_delete(d1: Seq<u8>, p: Seq<char>)
    requires
        edited(d1, EditModel::DeleteRpath(p)) is Ok,
    ensures
        image_of(d1) matches Some(img1) && (first_selected(
            d1,
            img1.cmds,
            img1.ctx.little_endian,
            Target::Rpath,
            p,
            0,
        ) matches Some(k) && edited(d1, EditModel::DeleteRpath(p)) == Ok::<Seq<u8>, MachOError>(
            deleted_cmd(d1, img1, img1.cmds[k]),
        )),
{
    reveal(edited);
}

/// The stored string of the new `LC_RPATH` command appended for `p`.
#[verifier::spinoff_prover]
proof fn lemma_new_rpath_string(data: Seq<u8>, img: ImageModel, p: Seq<char>)
    requires
        data.len() <= usize::MAX,
        image_of(data) == Some(img),
        storable(p),
        appended_cmd(data, img, rpath_command_bytes(encode_utf8(p), img.ctx)) is Some,
        header_size(img.ctx) + img.sizeofcmds + rpath_command_bytes(encode_utf8(p), img.ctx).len()
            <= data.len(),
    ensures
        ({
            let bytes = rpath_command_bytes(encode_utf8(p), img.ctx);
            let d1 = appended_cmd(data, img, bytes)->0;
            let end = header_size(img.ctx) + img.sizeofcmds;
            let le = img.ctx.little_endian;
            &&& bytes.len() >= 12
            &&& u32_at(bytes, 0, le) == LC_RPATH
            &&& u32_at(bytes, 4, le) == bytes.len()
            &&& cmd_string(d1, LoadCmd { offset: end as usize, cmd: LC_RPATH, cmdsize: bytes.len() as u32 }, le)
                == encode_utf8(p)
        }),
{
    let le = img.ctx.little_endian;
    let pb = encode_utf8(p);
    let bytes = rpath_command_bytes(pb, img.ctx);
    let len = bytes.len();
    let end = header_size(img.ctx) + img.sizeofcmds;
    lemma_rpath_bytes_facts(pb, img.ctx);
    lemma_read_u32_bytes(bytes, 0, LC_RPATH, le);
    lemma_read_u32_bytes(bytes, 4, len as u32, le);
    lemma_appended_bytes(data, img, bytes);
    let d1 = appended_cmd(data, img, bytes)->0;
    assert(d1.subrange(end + 8, end + 12) =~= bytes.subrange(8, 12)) by {
        assert forall|i: int| 0 <= i < 4 implies #[trigger] d1.subrange(end + 8, end + 12)[i]
            == bytes.subrange(8, 12)[i] by {
            assert(d1.subrange(end, end + len)[8 + i] == bytes[8 + i]);
        }
    }
    lemma_read_u32_bytes(d1, end + 8, 12, le);
    let z = (len - 12 - pb.len()) as nat;
    assert(d1.subrange(end + 12, end + len) =~= bytes.subrange(12, len as int)) by {
        assert forall|i: int| 0 <= i < len - 12 implies #[trigger] d1.subrange(end + 12, end + len)[i]
            == bytes.subrange(12, len as int)[i] by {
            assert(d1.subrange(end, end + len)[12 + i] == bytes[12 + i]);
        }
    }
    lemma_nul_index_prefix(pb, z);
    assert((pb + zeros(z)).take(pb.len() as int) =~= pb);
}

} // verus!

verus! {

/// The index in the commands before a deletion of command `k` that the
/// `j`-th command after it came from.
pub open spec fn before_delete(j: int, k: int) -> int {
    if j < k {
        j
    } else {
        j + 1
    }
}

/// Commands of a tight image keep their strings when a command is appended
/// with room to spare.
proof fn lemma_add_strings(data: Seq<u8>, img: ImageModel, bytes: Seq<u8>)
    requires
        image_of(data) == Some(img),
        appended_cmd(data, img, bytes) is Some,
        header_size(img.ctx) + img.sizeofcmds + bytes.len() <= data.len(),
        data.len() <= usize::MAX,
    ensures
        forall|j: int|
            0 <= j < img.cmds.len() && #[trigger] img.cmds[j].cmdsize >= 12 ==> cmd_string(
                appended_cmd(data, img, bytes)->0,
                img.cmds[j],
                img.ctx.little_endian,
            ) == cmd_string(data, img.cmds[j], img.ctx.little_endian),
{
    let le = img.ctx.little_endian;
    let hs = header_size(img.ctx);
    let end = hs + img.sizeofcmds;
    lemma_appended_bytes(data, img, bytes);
    lemma_walk_facts(data, le, hs, img.ncmds as nat, end);
    let d1 = appended_cmd(data, img, bytes)->0;
    assert forall|j: int| 0 <= j < img.cmds.len() && #[trigger] img.cmds[j].cmdsize >= 12 implies cmd_string(
        d1,
        img.cmds[j],
        le,
    ) == cmd_string(data, img.cmds[j], le) by {
        let c = img.cmds[j];
        assert(LoadCmd { offset: (c.offset - 0) as usize, cmd: c.cmd, cmdsize: c.cmdsize } == c);
        lemma_strings_kept(data, d1, c, 0, le);
    }
}

/// The commands left by a deletion keep their strings.
#[verifier::spinoff_prover]
proof fn lemma_delete_strings(d1: Seq<u8>, img1: ImageModel, k: int)
    requires
        image_of(d1) == Some(img1),
        tight(d1, img1),
        0 <= k < img1.cmds.len(),
        d1.len() <= usize::MAX,
    ensures
        ({
            let c = img1.cmds[k];
            let d2 = deleted_cmd(d1, img1, c);
            let cmds2 = img1.cmds.take(k) + shift_cmds(img1.cmds.skip(k + 1), c.cmdsize as int);
            let le = img1.ctx.little_endian;
            &&& cmds2.len() + 1 == img1.cmds.len()
            &&& forall|j: int|
                0 <= j < cmds2.len() ==> (#[trigger] cmds2[j]).cmd == img1.cmds[before_delete(j, k)].cmd
                    && cmds2[j].cmdsize == img1.cmds[before_delete(j, k)].cmdsize
            &&& forall|j: int|
                0 <= j < cmds2.len() && (#[trigger] cmds2[j]).cmdsize >= 12 ==> cmd_string(d2, cmds2[j], le)
                    == cmd_string(d1, img1.cmds[before_delete(j, k)], le)
        }),
{
    let le = img1.ctx.little_endian;
    let hs = header_size(img1.ctx);
    let end = hs + img1.sizeofcmds;
    let cmds1 = img1.cmds;
    let c = cmds1[k];
    let cs = c.cmdsize as int;
    let d2 = deleted_cmd(d1, img1, c);
    let cmds2 = cmds1.take(k) + shift_cmds(cmds1.skip(k + 1), cs);
    lemma_delete_image(d1, img1, k);
    lemma_walk_facts(d1, le, hs, img1.ncmds as nat, end);
    lemma_walk_ordered(d1, le, hs, img1.ncmds as nat, end);
    assert forall|j: int| 0 <= j < cmds2.len() implies (#[trigger] cmds2[j]).cmd == cmds1[before_delete(j, k)].cmd
        && cmds2[j].cmdsize == cmds1[before_delete(j, k)].cmdsize by {
        if j >= k {
            assert(cmds2[j] == shift_cmds(cmds1.skip(k + 1), cs)[j - k]);
        }
    }
    assert forall|j: int| 0 <= j < cmds2.len() && (#[trigger] cmds2[j]).cmdsize >= 12 implies cmd_string(
        d2,
        cmds2[j],
        le,
    ) == cmd_string(d1, cmds1[before_delete(j, k)], le) by {
        if j < k {
            let cj = cmds1[j];
            assert(cmds2[j] == cj);
            assert(cj.offset + cj.cmdsize <= c.offset);
            assert(LoadCmd { offset: (cj.offset - 0) as usize, cmd: cj.cmd, cmdsize: cj.cmdsize } == cj);
            lemma_strings_kept(d1, d2, cj, 0, le);
        } else {
            let cj = cmds1[j + 1];
            assert(cmds2[j] == shift_cmds(cmds1.skip(k + 1), cs)[j - k]);
            assert(cmds2[j] == LoadCmd { offset: (cj.offset - cs) as usize, cmd: cj.cmd, cmdsize: cj.cmdsize });
            assert(c.offset + c.cmdsize <= cj.offset);
            assert forall|i: int| cj.offset <= i < cj.offset + cj.cmdsize implies d2[i - cs] == d1[i] by {
                assert(d2[(i - cs)] == d1[(i - cs) + cs]);
            }
            lemma_strings_kept(d1, d2, cj, cs, le);
        }
    }
}

} // verus!

verus! {

proof fn lemma_rpath_set_restored(
    data: Seq<u8>,
    d1: Seq<u8>,
    d2: Seq<u8>,
    cmds0: Seq<LoadCmd>,
    cmds2: Seq<LoadCmd>,
    newc: LoadCmd,
    k: int,
    pb: Seq<u8>,
    le: bool,
)
    requires
        newc.cmd == LC_RPATH,
        newc.cmdsize >= 12,
        cmd_string(d1, newc, le) == pb,
        forall|j: int|
            0 <= j < cmds0.len() && #[trigger] cmds0[j].cmdsize >= 12 ==> cmd_string(d1, cmds0[j], le)
                == cmd_string(data, cmds0[j], le),
        0 <= k <= cmds0.len(),
        (cmds0 + seq![newc])[k].cmd == LC_RPATH,
        (cmds0 + seq![newc])[k].cmdsize >= 12,
        cmd_string(d1, (cmds0 + seq![newc])[k], le) == pb,
        cmds2.len() == cmds0.len(),
        forall|j: int|
            0 <= j < cmds2.len() ==> (#[trigger] cmds2[j]).cmd == (cmds0 + seq![newc])[before_delete(
                j,
                k,
            )].cmd && cmds2[j].cmdsize == (cmds0 + seq![newc])[before_delete(j, k)].cmdsize,
        forall|j: int|
            0 <= j < cmds2.len() && (#[trigger] cmds2[j]).cmdsize >= 12 ==> cmd_string(d2, cmds2[j], le)
                == cmd_string(d1, (cmds0 + seq![newc])[before_delete(j, k)], le),
    ensures
        rpath_strings(d2, cmds2, le) == rpath_strings(data, cmds0, le),
{
    let cmds1 = cmds0 + seq![newc];
    let s0 = rpath_strings(data, cmds0, le);
    let s2 = rpath_strings(d2, cmds2, le);
    assert forall|b: Seq<u8>| s2.contains(b) implies s0.contains(b) by {
        let j = choose|j: int|
            0 <= j < cmds2.len() && #[trigger] cmds2[j].cmd == LC_RPATH && cmds2[j].cmdsize
                >= SIZEOF_RPATH_COMMAND && cmd_string(d2, cmds2[j], le) == b;
        let j1 = before_delete(j, k);
        if j1 < cmds0.len() {
            assert(cmds1[j1] == cmds0[j1]);
            assert(cmds0[j1].cmdsize >= 12);
            assert(cmd_string(d1, cmds0[j1], le) == cmd_string(data, cmds0[j1], le));
        } else {
            assert(cmds1[j1] == newc);
            assert(k < cmds0.len());
            assert(cmds1[k] == cmds0[k]);
            assert(cmds0[k].cmdsize >= 12);
            assert(cmd_string(d1, cmds0[k], le) == cmd_string(data, cmds0[k], le));
            assert(cmds0[k].cmd == LC_RPATH);
        }
    }
    assert forall|b: Seq<u8>| s0.contains(b) implies s2.contains(b) by {
        let j = choose|j: int|
            0 <= j < cmds0.len() && #[trigger] cmds0[j].cmd == LC_RPATH && cmds0[j].cmdsize
                >= SIZEOF_RPATH_COMMAND && cmd_string(data, cmds0[j], le) == b;
        assert(cmds1[j] == cmds0[j]);
        if j != k {
            let j2 = if j < k { j } else { j - 1 };
            assert(before_delete(j2, k) == j);
            assert(cmds2[j2].cmd == LC_RPATH);
        } else {
            let j2 = cmds0.len() - 1;
            assert(before_delete(j2, k) == cmds0.len());
            assert(cmds1[cmds0.len() as int] == newc);
            assert(cmds2[j2].cmd == LC_RPATH);
        }
    }
    assert(s2 =~= s0);
}

/// Adding a runtime path and then deleting that same path gives back an
/// image with the same size, the same number of load commands and the same
/// set of runtime paths, for a non-empty path and an image whose commands
/// fill its command area and which has room for the new command.
pub proof fn add_then_delete_rpath_law(data: Seq<u8>, p: Seq<char>)
    requires
        p.len() > 0,
        data.len() <= usize::MAX,
        image_of(data) matches Some(img) && (tight(data, img) && header_size(img.ctx)
            + img.sizeofcmds + rpath_command_bytes(encode_utf8(p), img.ctx).len() <= data.len()),
        edited(data, EditModel::AddRpath(p)) matches Ok(d1) && edited(d1, EditModel::DeleteRpath(p)) is Ok,
    ensures
        ({
            let img = image_of(data)->0;
            let le = img.ctx.little_endian;
            let d1 = edited(data, EditModel::AddRpath(p))->Ok_0;
            let d2 = edited(d1, EditModel::DeleteRpath(p))->Ok_0;
            &&& d2.len() == data.len()
            &&& image_of(d2) matches Some(img2) && img2.ncmds == img.ncmds && rpath_strings(d2, img2.cmds, le)
                == rpath_strings(data, img.cmds, le)
        }),
{
    let img = image_of(data)->0;
    let le = img.ctx.little_endian;
    let end = header_size(img.ctx) + img.sizeofcmds;
    let pb = encode_utf8(p);
    lemma_edited_add(data, p);
    let bytes = rpath_command_bytes(pb, img.ctx);
    let d1 = appended_cmd(data, img, bytes)->0;
    lemma_new_rpath_string(data, img, p);
    lemma_appended_bytes(data, img, bytes);
    lemma_append_image(data, img, bytes);
    lemma_add_strings(data, img, bytes);
    let newc = LoadCmd { offset: end as usize, cmd: LC_RPATH, cmdsize: bytes.len() as u32 };
    let img1 = image_of(d1)->0;
    assert(img1.cmds == img.cmds + seq![newc]);
    lemma_edited_delete(d1, p);
    let k = first_selected(d1, img1.cmds, le, Target::Rpath, p, 0)->0;
    lemma_first_selected_bounds(d1, img1.cmds, le, Target::Rpath, p, 0);
    let c = img1.cmds[k];
    let d2 = deleted_cmd(d1, img1, c);
    lemma_delete_image(d1, img1, k);
    lemma_delete_strings(d1, img1, k);
    let cmds2 = img1.cmds.take(k) + shift_cmds(img1.cmds.skip(k + 1), c.cmdsize as int);
    assert(image_of(d2)->0.cmds == cmds2);
    assert(vstd::utf8::valid_utf8(cmd_string(d1, c, le)));
    lemma_rpath_set_restored(data, d1, d2, img.cmds, cmds2, newc, k, pb, le);
}

} // verus!

verus! {

proof fn lemma_replaced_len(data: Seq<u8>, img: ImageModel, c: LoadCmd, bytes: Seq<u8>)
    requires
        header_size(img.ctx) <= c.offset,
        c.offset + c.cmdsize <= header_size(img.ctx) + img.sizeofcmds <= data.len(),
        data.len() >= 24,
    ensures
        replaced_cmd(data, img, c, bytes) matches Some(d) ==> d.len() == data.len(),
{
}

#[verifier::spinoff_prover]
proof fn lemma_replace_selected_len(data: Seq<u8>, img: ImageModel, t: Target, o: Seq<char>, n: Seq<char>)
    requires
        image_of(data) == Some(img),
        data.len() <= usize::MAX,
    ensures
        replace_selected(data, img, t, o, n) matches Ok(d) ==> d.len() == data.len(),
{
    let le = img.ctx.little_endian;
    let hs = header_size(img.ctx);
    lemma_walk_facts(data, le, hs, img.ncmds as nat, hs + img.sizeofcmds);
    lemma_first_selected_bounds(data, img.cmds, le, t, o, 0);
    if let Some(k) = first_selected(data, img.cmds, le, t, o, 0) {
        let c = img.cmds[k];
        assert(hs <= c.offset && c.offset + c.cmdsize <= hs + img.sizeofcmds);
        let b = if t == Target::Rpath {
            rpath_command_bytes(encode_utf8(n), img.ctx)
        } else {
            dylib_command_bytes(encode_utf8(n), dylib_fields(data, c, le), img.ctx)
        };
        lemma_replaced_len(data, img, c, b);
    }
}

proof fn lemma_deleted_len(data: Seq<u8>, img: ImageModel, p: Seq<char>)
    requires
        image_of(data) == Some(img),
        data.len() <= usize::MAX,
    ensures
        first_selected(data, img.cmds, img.ctx.little_endian, Target::Rpath, p, 0) matches Some(k)
            ==> deleted_cmd(data, img, img.cmds[k]).len() == data.len(),
{
    let le = img.ctx.little_endian;
    let hs = header_size(img.ctx);
    lemma_walk_facts(data, le, hs, img.ncmds as nat, hs + img.sizeofcmds);
    lemma_first_selected_bounds(data, img.cmds, le, Target::Rpath, p, 0);
}

/// An edit that succeeds keeps the image's size.
#[verifier::spinoff_prover]
#[verifier::rlimit(40)]
proof fn lemma_edited_len(data: Seq<u8>, op: EditModel)
    requires
        data.len() <= usize::MAX,
    ensures
        edited(data, op) matches Ok(d) ==> d.len() == data.len(),
{
    reveal(edited);
    if let Some(img) = image_of(data) {
        match op {
            EditModel::ChangeId(n) => lemma_replace_selected_len(data, img, Target::Id, seq![], n),
            EditModel::ChangeDylib(o, n) => lemma_replace_selected_len(data, img, Target::Dylib, o, n),
            EditModel::ChangeRpath(o, n) => lemma_replace_selected_len(data, img, Target::Rpath, o, n),
            EditModel::DeleteRpath(p) => lemma_deleted_len(data, img, p),
            EditModel::AddRpath(p) => {},
        }
    }
}

/// A sequence of edits that succeeds keeps the image's size.
pub proof fn lemma_apply_all_len(data: Seq<u8>, ops: Seq<EditModel>)
    requires
        data.len() <= usize::MAX,
    ensures
        apply_all(data, ops) matches Ok(d) ==> d.len() == data.len(),
    decreases ops.len(),
{
    if ops.len() > 0 {
        lemma_edited_len(data, ops[0]);
        if let Ok(d) = edited(data, ops[0]) {
            lemma_apply_all_len(d, ops.skip(1));
        }
    }
}

} // verus!
