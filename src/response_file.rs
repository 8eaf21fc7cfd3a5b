//! Linker response files: decoding, rewriting line by line, and encoding back
//! in the file's own encoding.
use vstd::prelude::*;
use vstd::utf8::{decode_utf8, encode_utf8, valid_utf8};

use crate::invocation::{has_undefined_dynamic_lookup, requests_dynamic_lookup, should_add_libcharset, wants_libcharset};
use crate::linker::{filter_linker_arg, filtered_arg, str_views, TargetInfo, TargetModel};
use crate::version::Version;

verus! {

/// The pieces of `s` between `'\n'` characters (one piece more than there
/// are newlines).
pub open spec fn lines_of(s: Seq<char>) -> Seq<Seq<char>>
    decreases s.len(),
{
    if s.len() == 0 {
        seq![seq![]]
    } else {
        let rest = lines_of(s.drop_last());
        if s.last() == '\n' {
            rest.push(seq![])
        } else {
            rest.update(rest.len() - 1, rest.last().push(s.last()))
        }
    }
}

proof fn lemma_lines_of_nonempty(s: Seq<char>)
    ensures
        lines_of(s).len() >= 1,
    decreases s.len(),
{
    if s.len() > 0 {
        lemma_lines_of_nonempty(s.drop_last());
    }
}

/// `parts` joined with `sep` between consecutive parts.
pub open spec fn joined(parts: Seq<Seq<char>>, sep: Seq<char>) -> Seq<char>
    decreases parts.len(),
{
    if parts.len() == 0 {
        seq![]
    } else if parts.len() == 1 {
        parts[0]
    } else {
        joined(parts.drop_last(), sep) + sep + parts.last()
    }
}

/// Splits `s` at each `'\n'`.
pub fn split_lines(s: &str) -> (r: Vec<String>)
    ensures
        str_views(r@) == lines_of(s@),
{
    let x = crate::text::chars_of(s);
    let n = x.len();
    let mut out: Vec<String> = Vec::new();
    let mut cur: Vec<char> = Vec::new();
    let mut i: usize = 0;
    assert(s@.take(0) =~= Seq::<char>::empty());
    assert(str_views(out@).push(cur@) =~= lines_of(s@.take(0)));
    while i < n
        invariant
            x@ == s@,
            n == s@.len(),
            i <= n,
            str_views(out@).push(cur@) == lines_of(s@.take(i as int)),
        decreases n - i,
    {
        let ghost pre = s@.take(i as int);
        let ghost now = s@.take(i + 1);
        assert(now.drop_last() =~= pre);
        assert(now.last() == x@[i as int]);
        proof {
            lemma_lines_of_nonempty(pre);
        }
        let ghost before = str_views(out@);
        if x[i] == '\n' {
            let line = crate::text::string_from_chars(&cur);
            out.push(line);
            cur = Vec::new();
            assert(str_views(out@) =~= before.push(line@));
            assert(str_views(out@).push(cur@) =~= lines_of(now));
        } else {
            cur.push(x[i]);
            assert(str_views(out@).push(cur@) =~= lines_of(now));
        }
        i = i + 1;
    }
    let last = crate::text::string_from_chars(&cur);
    let ghost before = str_views(out@);
    out.push(last);
    assert(str_views(out@) =~= before.push(last@));
    assert(s@.take(n as int) =~= s@);
    out
}

/// Joins `parts` with `sep` between consecutive parts.
pub fn join_strings(parts: &Vec<String>, sep: &str) -> (r: String)
    ensures
        r@ == joined(str_views(parts@), sep@),
{
    let ghost v = str_views(parts@);
    let n = parts.len();
    let mut out = String::new();
    let mut i: usize = 0;
    assert(v.take(0) =~= Seq::<Seq<char>>::empty());
    while i < n
        invariant
            n == parts@.len(),
            v == str_views(parts@),
            i <= n,
            out@ == joined(v.take(i as int), sep@),
        decreases n - i,
    {
        assert(v.take(i + 1).drop_last() =~= v.take(i as int));
        if i > 0 {
            out.append(sep);
        }
        out.append(parts[i].as_str());
        i = i + 1;
        if i == 1 {
            assert(out@ =~= joined(v.take(1), sep@));
        }
    }
    assert(v.take(n as int) =~= v);
    out
}

/// The arguments replacing each of `lines`, in order.
pub open spec fn filtered_lines(lines: Seq<Seq<char>>, rustc: Version, zig: Version, t: TargetModel) -> Seq<
    Seq<char>,
>
    decreases lines.len(),
{
    if lines.len() == 0 {
        seq![]
    } else {
        filtered_lines(lines.drop_last(), rustc, zig, t) + filtered_arg(lines.last(), rustc, zig, t)
    }
}

/// The arguments of a response file after rewriting: each line filtered, then
/// the dynamic-lookup flag and, on Apple targets, `-lcharset` where needed.
pub open spec fn response_args(text: Seq<char>, rustc: Version, zig: Version, t: TargetModel) -> Seq<
    Seq<char>,
> {
    let a = filtered_lines(lines_of(text), rustc, zig, t);
    let b = if requests_dynamic_lookup(a) {
        a.push("-Wl,-undefined=dynamic_lookup"@)
    } else {
        a
    };
    if t.is_macos && wants_libcharset(b, zig) {
        b.push("-lcharset"@)
    } else {
        b
    }
}

/// Sixteen-bit units read little-endian from pairs of bytes (an odd last byte
/// is ignored).
pub open spec fn le_units(b: Seq<u8>) -> Seq<u16> {
    Seq::new(b.len() / 2, |i: int| (b[2 * i] as int + 256 * b[2 * i + 1] as int) as u16)
}

/// Sixteen-bit units written little-endian.
pub open spec fn le_bytes(u: Seq<u16>) -> Seq<u8> {
    Seq::new(
        2 * u.len(),
        |i: int|
            if i % 2 == 0 {
                (u[i / 2] % 256) as u8
            } else {
                (u[i / 2] / 256) as u8
            },
    )
}

/// What `String::from_utf16` yields for `units`.
pub uninterp spec fn utf16_decoded(units: Seq<u16>) -> Option<Seq<char>>;

/// The UTF-16 units of one character: itself below U+10000, else a
/// surrogate pair.
pub open spec fn utf16_units(c: char) -> Seq<u16> {
    let v = c as u32;
    if v < 0x10000 {
        seq![v as u16]
    } else {
        seq![(0xD800 + (v - 0x10000) / 1024) as u16, (0xDC00 + (v - 0x10000) % 1024) as u16]
    }
}

/// The UTF-16 encoding of `s`.
pub open spec fn utf16_encoded(s: Seq<char>) -> Seq<u16>
    decreases s.len(),
{
    if s.len() == 0 {
        seq![]
    } else {
        utf16_encoded(s.drop_last()) + utf16_units(s.last())
    }
}

/// Relies on `String::from_utf16`: decodes UTF-16, failing on unpaired surrogates.
#[verifier::external_body]
fn decode_utf16(units: &Vec<u16>) -> (r: Option<String>)
    ensures
        match r {
            Some(s) => utf16_decoded(units@) == Some(s@),
            None => utf16_decoded(units@) is None,
        },
{
    String::from_utf16(units).ok()
}

/// Encodes `s` in UTF-16.
fn encode_utf16(s: &str) -> (r: Vec<u16>)
    ensures
        r@ == utf16_encoded(s@),
{
    let x = crate::text::chars_of(s);
    let mut r: Vec<u16> = Vec::new();
    let mut i: usize = 0;
    assert(s@.take(0) =~= Seq::<char>::empty());
    while i < x.len()
        invariant
            x@ == s@,
            i <= x@.len(),
            r@ == utf16_encoded(s@.take(i as int)),
        decreases x@.len() - i,
    {
        assert(s@.take(i + 1).drop_last() =~= s@.take(i as int));
        assert(s@.take(i + 1).last() == x@[i as int]);
        let v = x[i] as u32;
        let ghost before = r@;
        if v < 0x10000 {
            r.push(v as u16);
        } else {
            r.push((0xD800 + (v - 0x10000) / 1024) as u16);
            r.push((0xDC00 + (v - 0x10000) % 1024) as u16);
        }
        assert(r@ =~= before + utf16_units(x@[i as int]));
        i = i + 1;
    }
    assert(s@.take(x@.len() as int) =~= s@);
    r
}

/// Relies on `String::from_utf8`: succeeds exactly on valid UTF-8 and then
/// holds the decoded characters.
#[verifier::external_body]
pub(crate) fn decode_utf8_bytes(bytes: &Vec<u8>) -> (r: Option<String>)
    ensures
        r is Some <==> valid_utf8(bytes@),
        r matches Some(s) ==> s@ == decode_utf8(bytes@),
{
    String::from_utf8(bytes.clone()).ok()
}

/// Why a response file could not be read.
#[derive(Clone, Copy, Debug, PartialEq, Eq, Structural)]
pub enum ResponseFileError {
    /// A UTF-16 file did not start with the little-endian byte-order mark.
    MissingBom,
    /// A UTF-16 file did not hold valid UTF-16.
    InvalidUtf16,
    /// A UTF-8 file did not hold valid UTF-8.
    InvalidUtf8,
}

/// The file starts with the little-endian UTF-16 byte-order mark.
pub open spec fn has_utf16_bom(b: Seq<u8>) -> bool {
    b.len() >= 2 && b[0] == 255 && b[1] == 254
}

/// The bytes written back for the rewritten arguments.
pub open spec fn encoded_response(args: Seq<Seq<char>>, utf16: bool) -> Seq<u8> {
    let text = joined(args, "\n"@);
    if utf16 {
        seq![255u8, 254u8] + le_bytes(utf16_encoded(text))
    } else {
        encode_utf8(text)
    }
}

fn units_of(b: &Vec<u8>, from: usize) -> (r: Vec<u16>)
    requires
        from <= b@.len(),
    ensures
        r@ == le_units(b@.skip(from as int)),
{
    let n = (b.len() - from) / 2;
    let mut r: Vec<u16> = Vec::new();
    let mut i: usize = 0;
    while i < n
        invariant
            n == (b@.len() - from) / 2,
            from <= b@.len(),
            b@.len() <= usize::MAX,
            i <= n,
            r@ == le_units(b@.skip(from as int)).take(i as int),
        decreases n - i,
    {
        assert(2 * i + 2 <= b@.len() - from);
        let lo = b[from + 2 * i] as u16;
        let hi = b[from + 2 * i + 1] as u16;
        let u = lo + hi * 256;
        r.push(u);
        i = i + 1;
        assert(r@ =~= le_units(b@.skip(from as int)).take(i as int));
    }
    assert(r@ =~= le_units(b@.skip(from as int)));
    r
}

fn bytes_of(u: &Vec<u16>) -> (r: Vec<u8>)
    ensures
        r@ == seq![255u8, 254u8] + le_bytes(u@),
{
    let mut r: Vec<u8> = Vec::new();
    r.push(255u8);
    r.push(254u8);
    let mut i: usize = 0;
    while i < u.len()
        invariant
            i <= u@.len(),
            r@ == seq![255u8, 254u8] + le_bytes(u@).take(2 * i),
        decreases u@.len() - i,
    {
        let c = u[i];
        r.push((c % 256) as u8);
        r.push((c / 256) as u8);
        i = i + 1;
        assert(r@ =~= seq![255u8, 254u8] + le_bytes(u@).take(2 * i));
    }
    assert(le_bytes(u@).take(2 * u@.len() as int) =~= le_bytes(u@));
    r
}

/// Rewrites the content of a linker response file: decodes it (UTF-16 with a
/// byte-order mark for the MSVC-style environment, UTF-8 otherwise), filters
/// each line, and encodes the result the same way.
pub fn process_linker_response_file(
    content: &Vec<u8>,
    rustc_ver: &Version,
    zig_version: &Version,
    target_info: &TargetInfo,
) -> (r: Result<Vec<u8>, ResponseFileError>)
    ensures
        target_info.is_windows_msvc && !has_utf16_bom(content@) ==> r == Err::<
            Vec<u8>,
            ResponseFileError,
        >(ResponseFileError::MissingBom),
        target_info.is_windows_msvc && has_utf16_bom(content@) && utf16_decoded(
            le_units(content@.skip(2)),
        ) is None ==> r == Err::<Vec<u8>, ResponseFileError>(ResponseFileError::InvalidUtf16),
        !target_info.is_windows_msvc && !valid_utf8(content@) ==> r == Err::<
            Vec<u8>,
            ResponseFileError,
        >(ResponseFileError::InvalidUtf8),
        target_info.is_windows_msvc && has_utf16_bom(content@) ==> (utf16_decoded(
            le_units(content@.skip(2)),
        ) matches Some(text) ==> (r matches Ok(out) && out@ == encoded_response(
            response_args(text, *rustc_ver, *zig_version, target_info@),
            true,
        ))),
        !target_info.is_windows_msvc && valid_utf8(content@) ==> (r matches Ok(out) && out@
            == encoded_response(
            response_args(decode_utf8(content@), *rustc_ver, *zig_version, target_info@),
            false,
        )),
{
    let text = if target_info.is_windows_msvc {
        if content.len() < 2 || content[0] != 255 || content[1] != 254 {
            return Err(ResponseFileError::MissingBom);
        }
        let units = units_of(content, 2);
        match decode_utf16(&units) {
            Some(s) => s,
            None => {
                return Err(ResponseFileError::InvalidUtf16);
            },
        }
    } else {
        match decode_utf8_bytes(content) {
            Some(s) => s,
            None => {
                return Err(ResponseFileError::InvalidUtf8);
            },
        }
    };
    let lines = split_lines(text.as_str());
    let ghost lv = str_views(lines@);
    let mut link_args: Vec<String> = Vec::new();
    let mut i: usize = 0;
    assert(lv.take(0) =~= Seq::<Seq<char>>::empty());
    while i < lines.len()
        invariant
            lv == str_views(lines@),
            i <= lines@.len(),
            str_views(link_args@) == filtered_lines(
                lv.take(i as int),
                *rustc_ver,
                *zig_version,
                target_info@,
            ),
        decreases lines@.len() - i,
    {
        let mut piece = filter_linker_arg(lines[i].as_str(), rustc_ver, zig_version, target_info);
        assert(lv.take(i + 1).drop_last() =~= lv.take(i as int));
        assert(str_views(link_args@ + piece@) =~= str_views(link_args@) + str_views(piece@));
        link_args.append(&mut piece);
        i = i + 1;
    }
    assert(lv.take(lines@.len() as int) =~= lv);
    let ghost a = str_views(link_args@);
    assert(a == filtered_lines(lines_of(text@), *rustc_ver, *zig_version, target_info@));
    if has_undefined_dynamic_lookup(&link_args) {
        link_args.push(String::from_str("-Wl,-undefined=dynamic_lookup"));
        assert(str_views(link_args@) =~= a.push("-Wl,-undefined=dynamic_lookup"@));
    }
    let ghost b = str_views(link_args@);
    assert(b == (if requests_dynamic_lookup(a) {
        a.push("-Wl,-undefined=dynamic_lookup"@)
    } else {
        a
    }));
    if target_info.is_macos && should_add_libcharset(&link_args, zig_version) {
        link_args.push(String::from_str("-lcharset"));
        assert(str_views(link_args@) =~= b.push("-lcharset"@));
    }
    assert(str_views(link_args@) == response_args(text@, *rustc_ver, *zig_version, target_info@));
    let joined_text = join_strings(&link_args, "\n");
    if target_info.is_windows_msvc {
        let units = encode_utf16(joined_text.as_str());
        Ok(bytes_of(&units))
    } else {
        Ok(joined_text.as_str().as_bytes_vec())
    }
}

} // verus!
