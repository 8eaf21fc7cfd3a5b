//! The include and macro flags that make a header-binding generator see the
//! same system headers as the external C and C++ compilers, read from the
//! compilers' verbose preprocessing output.
use vstd::prelude::*;

use crate::linker::str_views;
use crate::response_file::{lines_of, split_lines};
use crate::target::digits_value;
use crate::text::{
    chars_match_at, chars_of, contains, ends_with, has_infix, is_suffix, occurs_at, slice_chars, trim,
    trimmed,
};

verus! {

/// The first position from `i` on where `p` occurs in `s`.
pub open spec fn find_from(s: Seq<char>, p: Seq<char>, i: int) -> Option<int>
    decreases s.len() + 1 - i,
{
    if i < 0 || i + p.len() > s.len() {
        None
    } else if occurs_at(p, s, i) {
        Some(i)
    } else {
        find_from(s, p, i + 1)
    }
}

proof fn lemma_find_from_bounds(s: Seq<char>, p: Seq<char>, i: int)
    ensures
        find_from(s, p, i) matches Some(k) ==> i <= k && k + p.len() <= s.len(),
    decreases s.len() + 1 - i,
{
    if 0 <= i && i + p.len() <= s.len() && !occurs_at(p, s, i) {
        lemma_find_from_bounds(s, p, i + 1);
    }
}

/// The first position of `p` in `s`.
pub fn find(s: &Vec<char>, p: &Vec<char>) -> (r: Option<usize>)
    ensures
        match r {
            Some(k) => find_from(s@, p@, 0) == Some(k as int) && k + p@.len() <= s@.len(),
            None => find_from(s@, p@, 0) is None,
        },
{
    if p.len() > s.len() {
        return None;
    }
    let last = s.len() - p.len();
    let mut i: usize = 0;
    while i <= last
        invariant
            last == s@.len() - p@.len(),
            i <= last + 1,
            find_from(s@, p@, 0) == find_from(s@, p@, i as int),
        decreases last + 1 - i,
    {
        if chars_match_at(s, p, i) {
            return Some(i);
        }
        if i == last {
            assert(find_from(s@, p@, i + 1) is None);
            return None;
        }
        i = i + 1;
    }
    None
}

/// The number of ASCII digits at the start of `s`.
pub open spec fn digit_run(s: Seq<char>) -> int
    decreases s.len(),
{
    if s.len() > 0 && '0' <= s[0] <= '9' {
        1 + digit_run(s.skip(1))
    } else {
        0
    }
}

/// The glibc minor version defined on the compiler's internal command line:
/// the digits after the first `__GLIBC_MINOR__=`, when there are some and
/// they fit in 32 bits.
pub open spec fn glibc_minor(out: Seq<char>) -> Option<u32> {
    match find_from(out, "__GLIBC_MINOR__="@, 0) {
        None => None,
        Some(k) => {
            let rest = out.skip(k + 16);
            let d = rest.take(digit_run(rest));
            if d.len() == 0 || digits_value(d) > u32::MAX {
                None
            } else {
                Some(digits_value(d) as u32)
            }
        },
    }
}

/// How a directory is searched.
#[derive(Clone, Copy, Debug, PartialEq, Eq, Structural)]
pub enum IncludeKind {
    Normal,
    Framework,
}

/// Why the compiler output could not be used.
#[derive(Clone, Copy, Debug, PartialEq, Eq, Structural)]
pub enum BindgenError {
    /// The output has no well-formed list of search directories.
    UnparsableOutput,
    /// A search directory is a header map, which cannot be passed on.
    HeaderMap,
    /// The C and C++ compilers disagree on the glibc minor version.
    GlibcMismatch,
    /// The C and C++ search lists do not share the expected layout.
    UnexpectedLayout,
}

/// The text between the header and the footer of the search list.
pub open spec fn search_section(out: Seq<char>) -> Option<Seq<char>> {
    match (
        find_from(out, "#include <...> search starts here:"@, 0),
        find_from(out, "End of search list."@, 0),
    ) {
        (Some(a), Some(b)) => if a + 34 <= b {
            Some(out.subrange(a + 34, b))
        } else {
            None
        },
        _ => None,
    }
}

/// One line of the search list: a framework directory, a normal one, a
/// header map (refused) or nothing.
pub open spec fn search_entry(line: Seq<char>) -> Result<Option<(IncludeKind, Seq<char>)>, BindgenError> {
    let l = trimmed(line);
    if is_suffix(" (framework directory)"@, l) {
        let p = trimmed(l.take(l.len() - 22));
        if p.len() == 0 {
            Ok(None)
        } else {
            Ok(Some((IncludeKind::Framework, p)))
        }
    } else if is_suffix(" (headermap)"@, l) {
        Err(BindgenError::HeaderMap)
    } else if l.len() == 0 {
        Ok(None)
    } else {
        Ok(Some((IncludeKind::Normal, l)))
    }
}

/// The search directories listed by `lines`, in order.
pub open spec fn search_entries(lines: Seq<Seq<char>>) -> Result<Seq<(IncludeKind, Seq<char>)>, BindgenError>
    decreases lines.len(),
{
    if lines.len() == 0 {
        Ok(seq![])
    } else {
        match search_entries(lines.drop_last()) {
            Err(e) => Err(e),
            Ok(pre) => match search_entry(lines.last()) {
                Err(e) => Err(e),
                Ok(None) => Ok(pre),
                Ok(Some(x)) => Ok(pre.push(x)),
            },
        }
    }
}

/// What one compiler's verbose output says: its glibc minor version and its
/// system search directories.
pub struct LanguageOptions {
    pub glibc_minor_ver: Option<u32>,
    pub include_paths: Vec<(IncludeKind, String)>,
}

/// The views of a list of search directories.
pub open spec fn entry_views(v: Seq<(IncludeKind, String)>) -> Seq<(IncludeKind, Seq<char>)> {
    v.map_values(|e: (IncludeKind, String)| (e.0, e.1@))
}

fn find_str(s: &Vec<char>, p: &str) -> (r: Option<usize>)
    ensures
        match r {
            Some(k) => find_from(s@, p@, 0) == Some(k as int) && k + p@.len() <= s@.len(),
            None => find_from(s@, p@, 0) is None,
        },
{
    let pc = chars_of(p);
    find(s, &pc)
}

fn read_glibc_minor(x: &Vec<char>, text: &str) -> (r: Option<u32>)
    requires
        x@ == text@,
    ensures
        r == glibc_minor(text@),
{
    proof {
        reveal_strlit("__GLIBC_MINOR__=");
    }
    let k = match find_str(x, "__GLIBC_MINOR__=") {
        None => {
            return None;
        },
        Some(k) => k,
    };
    assert("__GLIBC_MINOR__="@.len() == 16);
    let n = x.len();
    assert(k + 16 <= n);
    let ghost rest = text@.skip(k + 16);
    let mut i = k + 16;
    assert(rest.skip(0) =~= rest);
    while i < x.len() && '0' <= x[i] && x[i] <= '9'
        invariant
            k + 16 <= i <= x@.len(),
            x@ == text@,
            rest == text@.skip(k + 16),
            digit_run(rest) == (i - (k + 16)) + digit_run(text@.skip(i as int)),
        decreases x@.len() - i,
    {
        assert(text@.skip(i as int).skip(1) =~= text@.skip(i + 1));
        i = i + 1;
    }
    if i < x.len() {
        assert(!('0' <= text@.skip(i as int)[0] <= '9'));
    } else {
        assert(text@.skip(i as int).len() == 0);
    }
    let digits = slice_chars(text, k + 16, i);
    let dx = chars_of(digits.as_str());
    assert(dx@ =~= rest.take(digit_run(rest)));
    if dx.len() == 0 {
        return None;
    }
    assert(forall|j: int| 0 <= j < dx@.len() ==> '0' <= #[trigger] dx@[j] <= '9') by {
        assert forall|j: int| 0 <= j < dx@.len() implies '0' <= #[trigger] dx@[j] <= '9' by {
            lemma_digit_run(rest, j);
        }
    }
    parse_u32_digits(&dx)
}

proof fn lemma_digit_run(s: Seq<char>, j: int)
    requires
        0 <= j < digit_run(s),
    ensures
        '0' <= s[j] <= '9',
        j < s.len(),
    decreases s.len(),
{
    if j > 0 {
        lemma_digit_run(s.skip(1), j - 1);
    }
}

fn parse_u32_digits(d: &Vec<char>) -> (r: Option<u32>)
    requires
        crate::target::all_digits(d@),
    ensures
        r == (if digits_value(d@) > u32::MAX {
            None
        } else {
            Some(digits_value(d@) as u32)
        }),
{
    let mut v: u64 = 0;
    let mut i: usize = 0;
    assert(d@.take(0) =~= Seq::<char>::empty());
    while i < d.len()
        invariant
            crate::target::all_digits(d@),
            i <= d@.len(),
            v <= u32::MAX,
            v == digits_value(d@.take(i as int)),
        decreases d@.len() - i,
    {
        assert(d@.take(i + 1).drop_last() =~= d@.take(i as int));
        assert('0' <= d@[i as int] <= '9');
        let c = (d[i] as u32 - '0' as u32) as u64;
        v = v * 10 + c;
        i = i + 1;
        if v > u32::MAX as u64 {
            proof {
                lemma_digits_value_grows(d@, i as int);
            }
            return None;
        }
    }
    assert(d@.take(d@.len() as int) =~= d@);
    Some(v as u32)
}

proof fn lemma_digits_value_grows(d: Seq<char>, i: int)
    requires
        0 <= i <= d.len(),
        crate::target::all_digits(d),
    ensures
        digits_value(d) >= digits_value(d.take(i)),
    decreases d.len() - i,
{
    if i < d.len() {
        lemma_digits_value_grows(d, i + 1);
        assert(d.take(i + 1).drop_last() =~= d.take(i));
        let a = digits_value(d.take(i));
        let b = digits_value(d.take(i + 1));
        assert(b == a * 10 + (d[i] as nat - '0' as nat)) by {
            assert(d.take(i + 1).last() == d[i]);
        }
        assert('0' <= d[i] <= '9');
        assert(b >= a) by (nonlinear_arith)
            requires
                b == a * 10 + (d[i] as nat - '0' as nat),
                '0' <= d[i],
        ;
    } else {
        assert(d.take(i) =~= d);
    }
}

} // verus!

verus! {

fn parse_entry(line: &str) -> (r: Result<Option<(IncludeKind, String)>, BindgenError>)
    ensures
        match r {
            Ok(Some((k, p))) => search_entry(line@) == Ok::<Option<(IncludeKind, Seq<char>)>, BindgenError>(Some((k, p@))),
            Ok(None) => search_entry(line@) == Ok::<Option<(IncludeKind, Seq<char>)>, BindgenError>(None),
            Err(e) => search_entry(line@) == Err::<Option<(IncludeKind, Seq<char>)>, BindgenError>(e),
        },
{
    proof {
        reveal_strlit(" (framework directory)");
    }
    let l = trim(line);
    if ends_with(l.as_str(), " (framework directory)") {
        let n = l.as_str().unicode_len();
        let head = slice_chars(l.as_str(), 0, n - 22);
        let p = trim(head.as_str());
        if p.as_str().unicode_len() == 0 {
            Ok(None)
        } else {
            Ok(Some((IncludeKind::Framework, p)))
        }
    } else if ends_with(l.as_str(), " (headermap)") {
        Err(BindgenError::HeaderMap)
    } else if l.as_str().unicode_len() == 0 {
        Ok(None)
    } else {
        Ok(Some((IncludeKind::Normal, l)))
    }
}

/// What one compiler's verbose preprocessing output says.
pub open spec fn language_options(out: Seq<char>) -> Result<(Option<u32>, Seq<(IncludeKind, Seq<char>)>), BindgenError> {
    match search_section(out) {
        None => Err(BindgenError::UnparsableOutput),
        Some(section) => match search_entries(lines_of(section)) {
            Err(e) => Err(e),
            Ok(paths) => Ok((glibc_minor(out), paths)),
        },
    }
}

/// Reads the glibc minor version and the system search directories from a
/// compiler's verbose preprocessing output.
pub fn parse_language_options(out: &str) -> (r: Result<LanguageOptions, BindgenError>)
    ensures
        match r {
            Ok(o) => language_options(out@) == Ok::<(Option<u32>, Seq<(IncludeKind, Seq<char>)>), BindgenError>((o.glibc_minor_ver, entry_views(o.include_paths@))),
            Err(e) => language_options(out@) == Err::<(Option<u32>, Seq<(IncludeKind, Seq<char>)>), BindgenError>(e),
        },
{
    proof {
        reveal_strlit("#include <...> search starts here:");
    }
    let x = chars_of(out);
    let n = x.len();
    assert("#include <...> search starts here:"@.len() == 34);
    let start = match find_str(&x, "#include <...> search starts here:") {
        Some(a) => {
            assert(a + 34 <= n);
            a + 34
        },
        None => {
            return Err(BindgenError::UnparsableOutput);
        },
    };
    let end = match find_str(&x, "End of search list.") {
        Some(b) => b,
        None => {
            return Err(BindgenError::UnparsableOutput);
        },
    };
    if start > end {
        return Err(BindgenError::UnparsableOutput);
    }
    let section = slice_chars(out, start, end);
    let lines = split_lines(section.as_str());
    let ghost lv = str_views(lines@);
    assert(search_section(out@) == Some(section@));
    let mut paths: Vec<(IncludeKind, String)> = Vec::new();
    let mut i: usize = 0;
    assert(lv.take(0) =~= Seq::<Seq<char>>::empty());
    assert(entry_views(paths@) =~= Seq::<(IncludeKind, Seq<char>)>::empty());
    while i < lines.len()
        invariant
            lv == str_views(lines@),
            lv == lines_of(section@),
            search_section(out@) == Some(section@),
            i <= lines@.len(),
            search_entries(lv.take(i as int)) == Ok::<Seq<(IncludeKind, Seq<char>)>, BindgenError>(entry_views(paths@)),
        decreases lines@.len() - i,
    {
        assert(lv.take(i + 1).drop_last() =~= lv.take(i as int));
        assert(lv.take(i + 1).last() == lines@[i as int]@);
        match parse_entry(lines[i].as_str()) {
            Err(e) => {
                proof {
                    lemma_entries_error(lv, i as int + 1, e);
                }
                return Err(e);
            },
            Ok(None) => {},
            Ok(Some(entry)) => {
                let ghost pre = entry_views(paths@);
                paths.push(entry);
                assert(entry_views(paths@) =~= pre.push((entry.0, entry.1@)));
            },
        }
        i = i + 1;
    }
    assert(lv.take(lines@.len() as int) =~= lv);
    let glibc = read_glibc_minor(&x, out);
    Ok(LanguageOptions { glibc_minor_ver: glibc, include_paths: paths })
}

proof fn lemma_entries_error(lines: Seq<Seq<char>>, i: int, e: BindgenError)
    requires
        0 < i <= lines.len(),
        search_entries(lines.take(i)) == Err::<Seq<(IncludeKind, Seq<char>)>, BindgenError>(e),
    ensures
        search_entries(lines) == Err::<Seq<(IncludeKind, Seq<char>)>, BindgenError>(e),
    decreases lines.len() - i,
{
    if i < lines.len() {
        assert(lines.take(i + 1).drop_last() =~= lines.take(i));
        lemma_entries_error(lines, i + 1, e);
    } else {
        assert(lines.take(i) =~= lines);
    }
}

} // verus!

verus! {

/// The first search directory of `v` equal to `e`.
pub open spec fn position_of(v: Seq<(IncludeKind, Seq<char>)>, e: (IncludeKind, Seq<char>)) -> Option<int>
    decreases v.len(),
{
    if v.len() == 0 {
        None
    } else if v[0] == e {
        Some(0)
    } else {
        crate::invocation::shifted(position_of(v.skip(1), e), 1)
    }
}

/// The first normal (non-framework) directory of `v`.
pub open spec fn first_normal(v: Seq<(IncludeKind, Seq<char>)>) -> Option<int>
    decreases v.len(),
{
    if v.len() == 0 {
        None
    } else if v[0].0 == IncludeKind::Normal {
        Some(0)
    } else {
        crate::invocation::shifted(first_normal(v.skip(1)), 1)
    }
}

/// The C++-only directories before the shared ones: each normal one as a
/// C++ system directory.
pub open spec fn cxx_only_flags(v: Seq<(IncludeKind, Seq<char>)>) -> Seq<Seq<char>>
    decreases v.len(),
{
    if v.len() == 0 {
        seq![]
    } else {
        cxx_only_flags(v.drop_last()) + if v.last().0 == IncludeKind::Normal {
            seq!["-cxx-isystem"@, v.last().1]
        } else {
            seq![]
        }
    }
}

/// The C directories: a normal one as a system directory for both
/// languages, a framework one as a framework directory.
pub open spec fn shared_flags(v: Seq<(IncludeKind, Seq<char>)>) -> Seq<Seq<char>>
    decreases v.len(),
{
    if v.len() == 0 {
        seq![]
    } else {
        shared_flags(v.drop_last()) + if v.last().0 == IncludeKind::Normal {
            seq!["-Xclang"@, "-c-isystem"@, "-Xclang"@, v.last().1, "-cxx-isystem"@, v.last().1]
        } else {
            seq!["-iframework"@, v.last().1]
        }
    }
}

/// `n` in decimal.
pub open spec fn dec_of(n: nat) -> Seq<char>
    decreases n,
{
    if n < 10 {
        seq![(('0' as nat) + n) as char]
    } else {
        dec_of(n / 10) + seq![(('0' as nat) + n % 10) as char]
    }
}

/// The fixed macro flags: no default include directories, the C++ library's
/// configuration, and the glibc minor version when known.
pub open spec fn head_flags(musl_like: bool, glibc: Option<u32>) -> Seq<Seq<char>> {
    seq!["-nostdinc"@] + (if musl_like {
        seq!["-D_LIBCPP_HAS_MUSL_LIBC"@, "-D_LARGEFILE64_SOURCE"@]
    } else {
        seq![]
    }) + seq![
        "-D_LIBCPP_DISABLE_VISIBILITY_ANNOTATIONS"@,
        "-D_LIBCPP_HAS_NO_VENDOR_AVAILABILITY_ANNOTATIONS"@,
        "-D_LIBCXXABI_DISABLE_VISIBILITY_ANNOTATIONS"@,
        "-D_LIBCPP_PSTL_CPU_BACKEND_SERIAL"@,
        "-D_LIBCPP_ABI_VERSION=1"@,
        "-D_LIBCPP_ABI_NAMESPACE=__1"@,
        "-D_LIBCPP_HARDENING_MODE=_LIBCPP_HARDENING_MODE_FAST"@,
    ] + match glibc {
        Some(v) => seq!["-D__GLIBC_MINOR__="@ + dec_of(v as nat)],
        None => seq![],
    }
}

/// Every directory of `v` is a normal one.
pub open spec fn all_normal(v: Seq<(IncludeKind, Seq<char>)>) -> bool {
    forall|j: int| 0 <= j < v.len() ==> #[trigger] v[j].0 == IncludeKind::Normal
}

/// The flags for a header-binding generator from the C and the C++
/// compiler's options: the C++ search list is the C one with C++-only
/// directories before and after it.
pub open spec fn merged_flags(
    c_glibc: Option<u32>,
    c: Seq<(IncludeKind, Seq<char>)>,
    cpp_glibc: Option<u32>,
    cpp: Seq<(IncludeKind, Seq<char>)>,
    musl_like: bool,
) -> Result<Seq<Seq<char>>, BindgenError> {
    if c_glibc != cpp_glibc {
        Err(BindgenError::GlibcMismatch)
    } else {
        match first_normal(c) {
            None => Err(BindgenError::UnexpectedLayout),
            Some(f) => {
                let pre = match position_of(cpp, c[f]) {
                    Some(p) => p,
                    None => 0,
                };
                let q = match position_of(cpp, c.last()) {
                    Some(p) => p,
                    None => 0,
                };
                if q + 1 > cpp.len() {
                    Err(BindgenError::UnexpectedLayout)
                } else {
                    let post = cpp.len() - q - 1;
                    let tail = cpp.subrange(cpp.len() - post, cpp.len() as int);
                    if pre + post > cpp.len() || !all_normal(tail) {
                        Err(BindgenError::UnexpectedLayout)
                    } else {
                        Ok(head_flags(musl_like, c_glibc) + cxx_only_flags(cpp.take(pre))
                            + shared_flags(c) + cxx_only_flags(tail))
                    }
                }
            },
        }
    }
}

} // verus!

verus! {

proof fn lemma_position_bounds(v: Seq<(IncludeKind, Seq<char>)>, e: (IncludeKind, Seq<char>))
    ensures
        position_of(v, e) matches Some(p) ==> 0 <= p < v.len(),
    decreases v.len(),
{
    if v.len() > 0 && v[0] != e {
        lemma_position_bounds(v.skip(1), e);
    }
}

proof fn lemma_first_normal_bounds(v: Seq<(IncludeKind, Seq<char>)>)
    ensures
        first_normal(v) matches Some(p) ==> 0 <= p < v.len(),
    decreases v.len(),
{
    if v.len() > 0 && v[0].0 != IncludeKind::Normal {
        lemma_first_normal_bounds(v.skip(1));
    }
}

fn position_in(v: &Vec<(IncludeKind, String)>, kind: IncludeKind, path: &str) -> (r: Option<usize>)
    ensures
        match r {
            Some(p) => position_of(entry_views(v@), (kind, path@)) == Some(p as int),
            None => position_of(entry_views(v@), (kind, path@)) is None,
        },
{
    let ghost ev = entry_views(v@);
    let mut i: usize = 0;
    assert(ev.skip(0) =~= ev);
    while i < v.len()
        invariant
            ev == entry_views(v@),
            i <= v@.len(),
            position_of(ev, (kind, path@)) == crate::invocation::shifted(
                position_of(ev.skip(i as int), (kind, path@)),
                i as int,
            ),
        decreases v@.len() - i,
    {
        assert(ev.skip(i as int)[0] == ev[i as int]);
        if v[i].0 == kind && crate::text::str_eq(v[i].1.as_str(), path) {
            return Some(i);
        }
        assert(ev.skip(i as int).skip(1) =~= ev.skip(i + 1));
        i = i + 1;
    }
    None
}

fn first_normal_in(v: &Vec<(IncludeKind, String)>) -> (r: Option<usize>)
    ensures
        match r {
            Some(p) => first_normal(entry_views(v@)) == Some(p as int),
            None => first_normal(entry_views(v@)) is None,
        },
{
    let ghost ev = entry_views(v@);
    let mut i: usize = 0;
    assert(ev.skip(0) =~= ev);
    while i < v.len()
        invariant
            ev == entry_views(v@),
            i <= v@.len(),
            first_normal(ev) == crate::invocation::shifted(first_normal(ev.skip(i as int)), i as int),
        decreases v@.len() - i,
    {
        assert(ev.skip(i as int)[0] == ev[i as int]);
        if v[i].0 == IncludeKind::Normal {
            return Some(i);
        }
        assert(ev.skip(i as int).skip(1) =~= ev.skip(i + 1));
        i = i + 1;
    }
    None
}

fn push_str(out: &mut Vec<String>, s: &str)
    ensures
        str_views(final(out)@) == str_views(old(out)@).push(s@),
{
    out.push(String::from_str(s));
    assert(str_views(out@) =~= str_views(old(out)@).push(s@));
}

fn push_cxx_only(out: &mut Vec<String>, v: &Vec<(IncludeKind, String)>, from: usize, to: usize)
    requires
        from <= to <= v@.len(),
    ensures
        str_views(final(out)@) == str_views(old(out)@) + cxx_only_flags(
            entry_views(v@).subrange(from as int, to as int),
        ),
{
    let ghost ev = entry_views(v@);
    let ghost start = str_views(out@);
    let mut i = from;
    assert(ev.subrange(from as int, from as int) =~= Seq::<(IncludeKind, Seq<char>)>::empty());
    assert(start + Seq::<Seq<char>>::empty() =~= start);
    while i < to
        invariant
            from <= i <= to,
            to <= v@.len(),
            ev == entry_views(v@),
            str_views(out@) == start + cxx_only_flags(ev.subrange(from as int, i as int)),
        decreases to - i,
    {
        assert(ev.subrange(from as int, i + 1).drop_last() =~= ev.subrange(from as int, i as int));
        assert(ev.subrange(from as int, i + 1).last() == ev[i as int]);
        let ghost before = str_views(out@);
        if v[i].0 == IncludeKind::Normal {
            push_str(out, "-cxx-isystem");
            push_str(out, v[i].1.as_str());
            assert(str_views(out@) =~= before + seq!["-cxx-isystem"@, ev[i as int].1]);
        } else {
            assert(str_views(out@) =~= before + Seq::<Seq<char>>::empty());
        }
        i = i + 1;
    }
}

fn push_shared(out: &mut Vec<String>, v: &Vec<(IncludeKind, String)>)
    ensures
        str_views(final(out)@) == str_views(old(out)@) + shared_flags(entry_views(v@)),
{
    let ghost ev = entry_views(v@);
    let ghost start = str_views(out@);
    let mut i: usize = 0;
    assert(ev.take(0) =~= Seq::<(IncludeKind, Seq<char>)>::empty());
    assert(start + Seq::<Seq<char>>::empty() =~= start);
    while i < v.len()
        invariant
            i <= v@.len(),
            ev == entry_views(v@),
            str_views(out@) == start + shared_flags(ev.take(i as int)),
        decreases v@.len() - i,
    {
        assert(ev.take(i + 1).drop_last() =~= ev.take(i as int));
        assert(ev.take(i + 1).last() == ev[i as int]);
        let ghost before = str_views(out@);
        let path = v[i].1.as_str();
        if v[i].0 == IncludeKind::Normal {
            push_str(out, "-Xclang");
            push_str(out, "-c-isystem");
            push_str(out, "-Xclang");
            push_str(out, path);
            push_str(out, "-cxx-isystem");
            push_str(out, path);
            assert(str_views(out@) =~= before + seq![
                "-Xclang"@,
                "-c-isystem"@,
                "-Xclang"@,
                ev[i as int].1,
                "-cxx-isystem"@,
                ev[i as int].1,
            ]);
        } else {
            push_str(out, "-iframework");
            push_str(out, path);
            assert(str_views(out@) =~= before + seq!["-iframework"@, ev[i as int].1]);
        }
        i = i + 1;
    }
    assert(ev.take(v@.len() as int) =~= ev);
}

fn dec_digit(d: u32) -> (r: String)
    requires
        d < 10,
    ensures
        r@ == seq![(('0' as nat) + d) as char],
{
    let table = "0123456789";
    proof {
        reveal_strlit("0123456789");
    }
    let r = slice_chars(table, d as usize, d as usize + 1);
    assert(r@ =~= seq![(('0' as nat) + d) as char]);
    r
}

/// Formats `n` in decimal.
pub fn to_dec(n: u32) -> (r: String)
    ensures
        r@ == dec_of(n as nat),
    decreases n,
{
    if n < 10 {
        dec_digit(n)
    } else {
        let mut s = to_dec(n / 10);
        let d = dec_digit(n % 10);
        s.append(d.as_str());
        s
    }
}

} // verus!

verus! {

fn all_normal_from(v: &Vec<(IncludeKind, String)>, from: usize) -> (r: bool)
    requires
        from <= v@.len(),
    ensures
        r == forall|k: int| from <= k < v@.len() ==> #[trigger] v@[k].0 == IncludeKind::Normal,
{
    let mut j = from;
    while j < v.len()
        invariant
            from <= j <= v@.len(),
            forall|k: int| from <= k < j ==> #[trigger] v@[k].0 == IncludeKind::Normal,
        decreases v@.len() - j,
    {
        if v[j].0 != IncludeKind::Normal {
            return false;
        }
        j = j + 1;
    }
    true
}

fn head(musl_like: bool, glibc: Option<u32>) -> (r: Vec<String>)
    ensures
        str_views(r@) == head_flags(musl_like, glibc),
{
    let mut out: Vec<String> = Vec::new();
    push_str(&mut out, "-nostdinc");
    let ghost a0 = str_views(out@);
    if musl_like {
        push_str(&mut out, "-D_LIBCPP_HAS_MUSL_LIBC");
        push_str(&mut out, "-D_LARGEFILE64_SOURCE");
    }
    let ghost a1 = str_views(out@);
    push_str(&mut out, "-D_LIBCPP_DISABLE_VISIBILITY_ANNOTATIONS");
    push_str(&mut out, "-D_LIBCPP_HAS_NO_VENDOR_AVAILABILITY_ANNOTATIONS");
    push_str(&mut out, "-D_LIBCXXABI_DISABLE_VISIBILITY_ANNOTATIONS");
    push_str(&mut out, "-D_LIBCPP_PSTL_CPU_BACKEND_SERIAL");
    push_str(&mut out, "-D_LIBCPP_ABI_VERSION=1");
    push_str(&mut out, "-D_LIBCPP_ABI_NAMESPACE=__1");
    push_str(&mut out, "-D_LIBCPP_HARDENING_MODE=_LIBCPP_HARDENING_MODE_FAST");
    let ghost a2 = str_views(out@);
    match glibc {
        Some(v) => {
            let mut d = String::from_str("-D__GLIBC_MINOR__=");
            let digits = to_dec(v);
            d.append(digits.as_str());
            out.push(d);
        },
        None => {},
    }
    proof {
        assert(a0 =~= seq!["-nostdinc"@]);
        assert(a1 =~= a0 + (if musl_like {
            seq!["-D_LIBCPP_HAS_MUSL_LIBC"@, "-D_LARGEFILE64_SOURCE"@]
        } else {
            seq![]
        }));
        assert(a2 =~= a1 + seq![
            "-D_LIBCPP_DISABLE_VISIBILITY_ANNOTATIONS"@,
            "-D_LIBCPP_HAS_NO_VENDOR_AVAILABILITY_ANNOTATIONS"@,
            "-D_LIBCXXABI_DISABLE_VISIBILITY_ANNOTATIONS"@,
            "-D_LIBCPP_PSTL_CPU_BACKEND_SERIAL"@,
            "-D_LIBCPP_ABI_VERSION=1"@,
            "-D_LIBCPP_ABI_NAMESPACE=__1"@,
            "-D_LIBCPP_HARDENING_MODE=_LIBCPP_HARDENING_MODE_FAST"@,
        ]);
        assert(str_views(out@) =~= head_flags(musl_like, glibc));
    }
    out
}

/// Combines the C and the C++ compiler's options into flags for a
/// header-binding generator, by `merged_flags`.
pub fn merge_options(c: &LanguageOptions, cpp: &LanguageOptions, musl_like: bool) -> (r: Result<
    Vec<String>,
    BindgenError,
>)
    ensures
        match r {
            Ok(v) => merged_flags(
                c.glibc_minor_ver,
                entry_views(c.include_paths@),
                cpp.glibc_minor_ver,
                entry_views(cpp.include_paths@),
                musl_like,
            ) == Ok::<Seq<Seq<char>>, BindgenError>(str_views(v@)),
            Err(e) => merged_flags(
                c.glibc_minor_ver,
                entry_views(c.include_paths@),
                cpp.glibc_minor_ver,
                entry_views(cpp.include_paths@),
                musl_like,
            ) == Err::<Seq<Seq<char>>, BindgenError>(e),
        },
{
    let ghost cv = entry_views(c.include_paths@);
    let ghost pv = entry_views(cpp.include_paths@);
    if c.glibc_minor_ver != cpp.glibc_minor_ver {
        return Err(BindgenError::GlibcMismatch);
    }
    proof {
        lemma_first_normal_bounds(cv);
    }
    let f = match first_normal_in(&c.include_paths) {
        Some(f) => f,
        None => {
            return Err(BindgenError::UnexpectedLayout);
        },
    };
    let first = &c.include_paths[f];
    assert(cv[f as int] == (first.0, first.1@));
    proof {
        lemma_position_bounds(pv, cv[f as int]);
    }
    let pre = match position_in(&cpp.include_paths, first.0, first.1.as_str()) {
        Some(p) => p,
        None => 0,
    };
    let last_index = c.include_paths.len() - 1;
    let last = &c.include_paths[last_index];
    assert(cv.last() == (last.0, last.1@));
    proof {
        lemma_position_bounds(pv, cv.last());
    }
    let q = match position_in(&cpp.include_paths, last.0, last.1.as_str()) {
        Some(p) => p,
        None => 0,
    };
    let n = cpp.include_paths.len();
    if q >= n {
        return Err(BindgenError::UnexpectedLayout);
    }
    let post = n - q - 1;
    if pre > n - post {
        return Err(BindgenError::UnexpectedLayout);
    }
    let ghost tail = pv.subrange(n - post, n as int);
    if !all_normal_from(&cpp.include_paths, n - post) {
        proof {
            let k = choose|k: int| (n - post) <= k < n && #[trigger] cpp.include_paths@[k].0 != IncludeKind::Normal;
            assert(tail[k - (n - post)] == pv[k]);
            assert(pv[k].0 == cpp.include_paths@[k].0);
            assert(tail[k - (n - post)].0 != IncludeKind::Normal);
            assert(!all_normal(tail));
        }
        return Err(BindgenError::UnexpectedLayout);
    }
    assert(all_normal(tail)) by {
        assert forall|j: int| 0 <= j < tail.len() implies #[trigger] tail[j].0 == IncludeKind::Normal by {
            assert(tail[j] == pv[j + (n - post)]);
            assert(cpp.include_paths@[j + (n - post)].0 == IncludeKind::Normal);
        }
    }
    assert(forall|k: int| 0 <= k < tail.len() ==> #[trigger] tail[k] == pv[k + (n - post)]);
    let mut out = head(musl_like, c.glibc_minor_ver);
    push_cxx_only(&mut out, &cpp.include_paths, 0, pre);
    push_shared(&mut out, &c.include_paths);
    push_cxx_only(&mut out, &cpp.include_paths, n - post, n);
    assert(pv.subrange(0, pre as int) =~= pv.take(pre as int));
    Ok(out)
}

/// The flags for a header-binding generator, from the verbose preprocessing
/// output of the C and the C++ compiler for `raw_target`. OpenHarmony
/// targets also search the NDK's sysroot headers, under `ohos_ndk`.
pub fn collect_zig_cc_options(
    c_output: &str,
    cpp_output: &str,
    raw_target: &str,
    ohos_ndk: Option<&str>,
) -> (r: Result<Vec<String>, BindgenError>)
    requires
        has_infix(raw_target@, "ohos"@) ==> ohos_ndk is Some,
    ensures
        match (language_options(c_output@), language_options(cpp_output@)) {
            (Err(e), _) => r == Err::<Vec<String>, BindgenError>(e),
            (Ok(_), Err(e)) => r == Err::<Vec<String>, BindgenError>(e),
            (Ok((cg, cp)), Ok((pg, pp))) => {
                let extra = if has_infix(raw_target@, "ohos"@) {
                    seq![(IncludeKind::Normal, ohos_ndk.unwrap()@ + "/native/sysroot/usr/include"@)]
                } else {
                    seq![]
                };
                let musl_like = has_infix(raw_target@, "musl"@) || has_infix(raw_target@, "ohos"@);
                match merged_flags(cg, cp + extra, pg, pp + extra, musl_like) {
                    Ok(v) => r matches Ok(o) && str_views(o@) == v,
                    Err(e) => r == Err::<Vec<String>, BindgenError>(e),
                }
            },
        },
{
    let mut c = parse_language_options(c_output)?;
    let mut cpp = parse_language_options(cpp_output)?;
    let ohos = contains(raw_target, "ohos");
    let ghost c0 = entry_views(c.include_paths@);
    let ghost p0 = entry_views(cpp.include_paths@);
    if ohos {
        let mut dir = String::from_str(ohos_ndk.unwrap());
        dir.append("/native/sysroot/usr/include");
        c.include_paths.push((IncludeKind::Normal, dir.clone()));
        cpp.include_paths.push((IncludeKind::Normal, dir));
        assert(entry_views(c.include_paths@) =~= c0 + seq![(IncludeKind::Normal, dir@)]);
        assert(entry_views(cpp.include_paths@) =~= p0 + seq![(IncludeKind::Normal, dir@)]);
    } else {
        assert(entry_views(c.include_paths@) =~= c0 + Seq::<(IncludeKind, Seq<char>)>::empty());
        assert(entry_views(cpp.include_paths@) =~= p0 + Seq::<(IncludeKind, Seq<char>)>::empty());
    }
    let musl_like = contains(raw_target, "musl") || ohos;
    merge_options(&c, &cpp, musl_like)
}

} // verus!

verus! {

/// What `shlex::try_join` yields for `words` (`None` for its error).
pub uninterp spec fn shell_joined(words: Seq<Seq<char>>) -> Option<Seq<char>>;

/// Whether `shlex::split` can split `s` into words.
pub uninterp spec fn shell_splits(s: Seq<char>) -> bool;

/// What `shlex::try_quote` yields for `s` (`None` for its error).
pub uninterp spec fn shell_quoted(s: Seq<char>) -> Option<Seq<char>>;

/// Relies on `shlex::try_join`: the words quoted for a POSIX shell and
/// joined with spaces.
#[verifier::external_body]
fn join_words(words: &Vec<String>) -> (r: Option<String>)
    ensures
        match r {
            Some(s) => shell_joined(str_views(words@)) == Some(s@),
            None => shell_joined(str_views(words@)) is None,
        },
{
    shlex::try_join(words.iter().map(|s| s.as_str())).ok()
}

/// Relies on `shlex::split`: whether the text splits into words.
#[verifier::external_body]
fn splits(s: &str) -> (r: bool)
    ensures
        r == shell_splits(s@),
{
    shlex::split(s).is_some()
}

/// Relies on `shlex::try_quote`: the text quoted as one word.
#[verifier::external_body]
fn quote(s: &str) -> (r: Option<String>)
    ensures
        match r {
            Some(q) => shell_quoted(s@) == Some(q@),
            None => shell_quoted(s@) is None,
        },
{
    shlex::try_quote(s).ok().map(|q| q.into_owned())
}

/// The value for a header-binding generator's extra-arguments variable: the
/// options, shell-quoted, after the value already set (which is quoted as one
/// word when it does not split into words, and separated by a space when not
/// empty). `None` when quoting fails.
pub open spec fn bindgen_args_value(existing: Option<Seq<char>>, options: Seq<Seq<char>>) -> Option<Seq<char>> {
    match shell_joined(options) {
        None => None,
        Some(escaped) => match existing {
            None => Some(escaped),
            Some(v) => {
                let base = if shell_splits(v) {
                    Some(v)
                } else {
                    shell_quoted(v)
                };
                match base {
                    None => None,
                    Some(b) => Some(
                        if b.len() == 0 {
                            escaped
                        } else {
                            b + " "@ + escaped
                        },
                    ),
                }
            },
        },
    }
}

/// Computes the value for a header-binding generator's extra-arguments
/// variable from the value already set, if any, and the options to add.
pub fn bindgen_args(existing: Option<&str>, options: &Vec<String>) -> (r: Option<String>)
    ensures
        match r {
            Some(s) => bindgen_args_value(
                match existing {
                    Some(v) => Some(v@),
                    None => None,
                },
                str_views(options@),
            ) == Some(s@),
            None => bindgen_args_value(
                match existing {
                    Some(v) => Some(v@),
                    None => None,
                },
                str_views(options@),
            ) is None,
        },
{
    let escaped = match join_words(options) {
        Some(e) => e,
        None => {
            return None;
        },
    };
    match existing {
        None => Some(escaped),
        Some(v) => {
            let mut value = if splits(v) {
                String::from_str(v)
            } else {
                match quote(v) {
                    Some(q) => q,
                    None => {
                        return None;
                    },
                }
            };
            if value.as_str().unicode_len() > 0 {
                value.append(" ");
            }
            value.append(escaped.as_str());
            Some(value)
        },
    }
}

} // verus!
