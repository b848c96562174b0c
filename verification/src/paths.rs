//! Relative paths inside the library root, as text with `/` between
//! segments.

use crate::error::{ApiError, ErrorKind};
use crate::text::{chars_of, lowercase, same_text, string_of, to_lower, trim, trim_spec};
use vstd::prelude::*;
use vstd::slice::slice_subrange;
use vstd::string::StringExecFns;

verus! {

// ---------------------------------------------------------------------------
// Slashes
// ---------------------------------------------------------------------------

/// Index of the first character at or after `from` that is not `/`.
pub open spec fn slash_start(s: Seq<char>, from: int) -> int
    decreases s.len() - from,
{
    if 0 <= from < s.len() && s[from] == '/' {
        slash_start(s, from + 1)
    } else {
        from
    }
}

/// End of what remains of `s.take(to)` once trailing `/` are dropped, never
/// going below `floor`.
pub open spec fn slash_end(s: Seq<char>, floor: int, to: int) -> int
    decreases to,
{
    if floor < to <= s.len() && 0 < to && s[to - 1] == '/' {
        slash_end(s, floor, to - 1)
    } else {
        to
    }
}

/// `s` without its leading and trailing `/`.
pub open spec fn trim_slashes(s: Seq<char>) -> Seq<char> {
    let lo = slash_start(s, 0);
    s.subrange(lo, slash_end(s, lo, s.len() as int))
}

/// `slash_start` stays within the text and stops at a character that is
/// not `/`.
pub proof fn lemma_slash_start_bounds(s: Seq<char>, from: int)
    requires
        0 <= from <= s.len(),
    ensures
        from <= slash_start(s, from) <= s.len(),
        slash_start(s, from) < s.len() ==> s[slash_start(s, from)] != '/',
    decreases s.len() - from,
{
    if from < s.len() && s[from] == '/' {
        lemma_slash_start_bounds(s, from + 1);
    }
}

/// `slash_end` stays within its bounds and stops after a character that is
/// not `/`.
pub proof fn lemma_slash_end_bounds(s: Seq<char>, floor: int, to: int)
    requires
        0 <= floor <= to <= s.len(),
    ensures
        floor <= slash_end(s, floor, to) <= to,
        floor < slash_end(s, floor, to) ==> s[slash_end(s, floor, to) - 1] != '/',
    decreases to,
{
    if floor < to && s[to - 1] == '/' {
        lemma_slash_end_bounds(s, floor, to - 1);
    }
}

/// Trimmed text neither begins nor ends with `/`.
pub proof fn lemma_trim_slashes_is_trimmed(s: Seq<char>)
    ensures
        trim_slashes(s).len() > 0 ==> trim_slashes(s).first() != '/' && trim_slashes(s).last()
            != '/',
{
    lemma_slash_start_bounds(s, 0);
    lemma_slash_end_bounds(s, slash_start(s, 0), s.len() as int);
}

/// Removes leading and trailing `/`.
pub fn strip_slashes<'a>(s: &'a [char]) -> (r: &'a [char])
    ensures
        r@ == trim_slashes(s@),
{
    let mut lo: usize = 0;
    while lo < s.len() && s[lo] == '/'
        invariant
            lo <= s@.len(),
            slash_start(s@, 0) == slash_start(s@, lo as int),
        decreases s@.len() - lo,
    {
        lo = lo + 1;
    }
    let mut hi: usize = s.len();
    while hi > lo && s[hi - 1] == '/'
        invariant
            lo <= hi <= s@.len(),
            slash_end(s@, lo as int, s@.len() as int) == slash_end(s@, lo as int, hi as int),
        decreases hi,
    {
        hi = hi - 1;
    }
    slice_subrange(s, lo, hi)
}

// ---------------------------------------------------------------------------
// Directories and what lies under them
// ---------------------------------------------------------------------------

/// The text that every path under the directory `dir` begins with.
pub open spec fn dir_prefix(dir: Seq<char>) -> Seq<char> {
    dir.push('/')
}

/// `path` lies under the directory `dir`: it continues `dir` past a `/`.
/// A path that merely begins with the same letters does not.
pub open spec fn is_under(path: Seq<char>, dir: Seq<char>) -> bool {
    dir_prefix(dir).is_prefix_of(path)
}

/// Whether `path` lies under the directory `dir`.
pub fn lies_under(path: &[char], dir: &[char]) -> (b: bool)
    ensures
        b == is_under(path@, dir@),
{
    let n = dir.len();
    if path.len() <= n {
        return false;
    }
    let mut k: usize = 0;
    while k < n
        invariant
            k <= n,
            n == dir@.len(),
            n < path@.len(),
            forall|j: int| 0 <= j < k ==> path@[j] == dir@[j],
        decreases n - k,
    {
        if path[k] != dir[k] {
            proof {
                assert(dir_prefix(dir@)[k as int] == dir@[k as int]);
                if is_under(path@, dir@) {
                    assert(path@.subrange(0, n + 1)[k as int] == dir_prefix(dir@)[k as int]);
                }
            }
            return false;
        }
        k = k + 1;
    }
    proof {
        if path@[n as int] == '/' {
            assert(path@.subrange(0, n + 1) =~= dir_prefix(dir@));
        } else if is_under(path@, dir@) {
            assert(path@.subrange(0, n + 1)[n as int] == dir_prefix(dir@)[n as int]);
        }
    }
    path[n] == '/'
}

/// Where a path under the directory `from` ends up when that directory
/// becomes `to`: the prefix is replaced and the rest is kept. An empty `to`
/// stands for the root, which needs no separator.
pub open spec fn relocated(path: Seq<char>, from: Seq<char>, to: Seq<char>) -> Seq<char> {
    if to.len() == 0 {
        path.skip(from.len() as int + 1)
    } else {
        dir_prefix(to) + path.skip(from.len() as int + 1)
    }
}

/// Computes where a path under `from` ends up when `from` becomes `to`.
pub(crate) fn relocate(path: &[char], from: &[char], to: &[char]) -> (r: Vec<char>)
    requires
        is_under(path@, from@),
    ensures
        r@ == relocated(path@, from@, to@),
{
    let mut r: Vec<char> = Vec::new();
    if to.len() > 0 {
        append_chars(&mut r, to);
        r.push('/');
    }
    let total = path.len();
    assert(from@.len() + 1 <= total) by {
        assert(dir_prefix(from@).len() == from@.len() + 1);
    }
    let rest = slice_subrange(path, from.len() + 1, total);
    append_chars(&mut r, rest);
    proof {
        assert(r@ =~= relocated(path@, from@, to@));
    }
    r
}

/// The path under `from` from which `path` would arrive when the directory
/// `from` becomes `to`: the inverse of `relocated`.
pub open spec fn origin(path: Seq<char>, from: Seq<char>, to: Seq<char>) -> Seq<char> {
    if to.len() == 0 {
        dir_prefix(from) + path
    } else {
        dir_prefix(from) + path.skip(to.len() as int + 1)
    }
}

/// Whatever arrives, it comes from under `from`.
pub proof fn lemma_origin_is_under(path: Seq<char>, from: Seq<char>, to: Seq<char>)
    ensures
        is_under(origin(path, from, to), from),
{
    let o = origin(path, from, to);
    assert(o.subrange(0, dir_prefix(from).len() as int) =~= dir_prefix(from));
}

/// A path under `from` is the origin of the place it is relocated to.
pub proof fn lemma_origin_of_relocated(path: Seq<char>, from: Seq<char>, to: Seq<char>)
    requires
        is_under(path, from),
    ensures
        origin(relocated(path, from, to), from, to) == path,
{
    let n = from.len() as int + 1;
    let rest = path.skip(n);
    assert(dir_prefix(from).len() == n);
    assert(path =~= dir_prefix(from) + rest);
    if to.len() > 0 {
        assert((dir_prefix(to) + rest).skip(to.len() as int + 1) =~= rest);
    }
}

/// Two paths under `from` are relocated to different places.
pub proof fn lemma_relocated_injective(a: Seq<char>, b: Seq<char>, from: Seq<char>, to: Seq<char>)
    requires
        is_under(a, from),
        is_under(b, from),
        relocated(a, from, to) == relocated(b, from, to),
    ensures
        a == b,
{
    lemma_origin_of_relocated(a, from, to);
    lemma_origin_of_relocated(b, from, to);
}

/// A path that is relocated into a directory lies under that directory.
pub proof fn lemma_relocated_is_under(path: Seq<char>, from: Seq<char>, to: Seq<char>)
    requires
        to.len() > 0,
    ensures
        is_under(relocated(path, from, to), to),
{
    assert(relocated(path, from, to).subrange(0, dir_prefix(to).len() as int) =~= dir_prefix(to));
}

/// Two directories of which neither is the other nor lies under the other
/// have no path under both.
pub proof fn lemma_unrelated_dirs_share_nothing(path: Seq<char>, a: Seq<char>, b: Seq<char>)
    requires
        a != b,
        !is_under(a, b),
        !is_under(b, a),
        is_under(path, a),
    ensures
        !is_under(path, b),
{
    if is_under(path, b) {
        let pa = dir_prefix(a);
        let pb = dir_prefix(b);
        assert(path.subrange(0, pa.len() as int) == pa);
        assert(path.subrange(0, pb.len() as int) == pb);
        assert forall|i: int| 0 <= i < pa.len() implies pa[i] == path[i] by {
            assert(path.subrange(0, pa.len() as int)[i] == path[i]);
        }
        assert forall|i: int| 0 <= i < pb.len() implies pb[i] == path[i] by {
            assert(path.subrange(0, pb.len() as int)[i] == path[i]);
        }
        if a.len() < b.len() {
            assert(b.subrange(0, pa.len() as int) =~= pa) by {
                assert forall|i: int| 0 <= i < pa.len() implies b[i] == pa[i] by {
                    assert(pb[i] == b[i]);
                }
            }
        } else if b.len() < a.len() {
            assert(a.subrange(0, pb.len() as int) =~= pb) by {
                assert forall|i: int| 0 <= i < pb.len() implies a[i] == pb[i] by {
                    assert(pa[i] == a[i]);
                }
            }
        } else {
            assert(a =~= b) by {
                assert forall|i: int| 0 <= i < a.len() implies a[i] == b[i] by {
                    assert(pa[i] == a[i]);
                    assert(pb[i] == b[i]);
                }
            }
        }
    }
}

/// A path that continues a directory's name without a `/` in between is
/// neither the directory nor under it.
pub proof fn lemma_sibling_is_not_under(dir: Seq<char>, more: Seq<char>)
    requires
        more.len() > 0,
        more[0] != '/',
    ensures
        dir + more != dir,
        !is_under(dir + more, dir),
{
    let path = dir + more;
    assert(path.len() == dir.len() + more.len());
    if is_under(path, dir) {
        assert(path.subrange(0, dir.len() as int + 1)[dir.len() as int] == dir_prefix(dir)[dir.len() as int]);
        assert(path[dir.len() as int] == more[0]);
    }
}

/// Appends characters to a buffer.
pub fn append_chars(buffer: &mut Vec<char>, more: &[char])
    ensures
        final(buffer)@ == old(buffer)@ + more@,
{
    let mut i: usize = 0;
    while i < more.len()
        invariant
            i <= more@.len(),
            buffer@ == old(buffer)@ + more@.take(i as int),
        decreases more@.len() - i,
    {
        buffer.push(more[i]);
        proof {
            assert(buffer@ =~= old(buffer)@ + more@.take(i + 1));
        }
        i = i + 1;
    }
    proof {
        assert(more@.take(more@.len() as int) =~= more@);
    }
}

// ---------------------------------------------------------------------------
// Relative paths from callers
// ---------------------------------------------------------------------------

/// A path relative to the library root, free of leading and trailing `/`.
#[derive(Clone, Debug, PartialEq, Eq)]
pub struct RelPath {
    pub text: String,
}

impl View for RelPath {
    type V = Seq<char>;

    open spec fn view(&self) -> Seq<char> {
        self.text@
    }
}

/// The segment `..` stands at index `at` of the path.
pub open spec fn parent_dir_at(s: Seq<char>, at: int) -> bool {
    &&& 0 <= at
    &&& at + 2 <= s.len()
    &&& s[at] == '.'
    &&& s[at + 1] == '.'
    &&& (at == 0 || s[at - 1] == '/')
    &&& (at + 2 == s.len() || s[at + 2] == '/')
}

/// Some segment of the path is `..`.
pub open spec fn has_parent_dir(s: Seq<char>) -> bool {
    exists|at: int| parent_dir_at(s, at)
}

fn is_parent_dir_at(s: &[char], at: usize) -> (b: bool)
    requires
        at < s@.len(),
    ensures
        b == parent_dir_at(s@, at as int),
{
    let len = s.len();
    len - at >= 2 && s[at] == '.' && s[at + 1] == '.' && (at == 0 || s[at - 1] == '/') && (len - at
        == 2 || s[at + 2] == '/')
}

/// Takes a path as a caller sends it and makes it relative to the library
/// root: leading and trailing `/` are dropped. A path with a `..` segment
/// is refused as invalid input, so that no path climbs out of the root.
pub fn sanitize_relative(path: &str) -> (r: Result<RelPath, ApiError>)
    ensures
        match r {
            Ok(rel) => !has_parent_dir(trim_slashes(path@)) && rel@ == trim_slashes(path@),
            Err(e) => has_parent_dir(trim_slashes(path@)) && e.kind == ErrorKind::InvalidInput
                && e.message@ == "Invalid path"@,
        },
{
    let chars = chars_of(path);
    let trimmed = strip_slashes(chars.as_slice());
    let mut at: usize = 0;
    while at < trimmed.len()
        invariant
            at <= trimmed@.len(),
            trimmed@ == trim_slashes(path@),
            forall|j: int| 0 <= j < at ==> !parent_dir_at(trimmed@, j),
        decreases trimmed@.len() - at,
    {
        if is_parent_dir_at(trimmed, at) {
            return Err(ApiError::new(ErrorKind::InvalidInput, "Invalid path"));
        }
        at = at + 1;
    }
    Ok(RelPath { text: string_of(trimmed) })
}

/// The text of a relative path.
pub fn rel_to_string(rel: &RelPath) -> (s: String)
    ensures
        s@ == rel@,
{
    rel.text.clone()
}

/// `name` inside the directory `base`; inside the root, when `base` is
/// empty, just `name`.
pub open spec fn joined(base: Seq<char>, name: Seq<char>) -> Seq<char> {
    if base.len() == 0 {
        name
    } else {
        dir_prefix(base) + name
    }
}

/// The path of the entry `name` in the directory `base`.
pub fn join_rel(base: &RelPath, name: &str) -> (r: RelPath)
    ensures
        r@ == joined(base@, name@),
{
    let mut buffer = chars_of(base.text.as_str());
    let name_chars = chars_of(name);
    if buffer.len() > 0 {
        buffer.push('/');
    }
    append_chars(&mut buffer, name_chars.as_slice());
    proof {
        assert(buffer@ =~= joined(base@, name@));
    }
    RelPath { text: string_of(buffer.as_slice()) }
}

/// A joined path lies under its base directory.
pub proof fn lemma_joined_is_under(base: Seq<char>, name: Seq<char>)
    requires
        base.len() > 0,
    ensures
        is_under(joined(base, name), base),
{
    assert(joined(base, name).subrange(0, dir_prefix(base).len() as int) =~= dir_prefix(base));
}

// ---------------------------------------------------------------------------
// File kinds
// ---------------------------------------------------------------------------

/// Index of the last `c` in `s`.
pub open spec fn last_index_of(s: Seq<char>, c: char) -> Option<int>
    decreases s.len(),
{
    if s.len() == 0 {
        None
    } else if s.last() == c {
        Some(s.len() - 1)
    } else {
        last_index_of(s.drop_last(), c)
    }
}

/// The name of the file that a path ends in: what follows its last `/`.
pub open spec fn file_name_of(path: Seq<char>) -> Seq<char> {
    match last_index_of(path, '/') {
        Some(i) => path.skip(i + 1),
        None => path,
    }
}

/// The extension of a file name: what follows its last `.`, unless that
/// `.` opens the name or the name is `..`.
pub open spec fn extension_of(name: Seq<char>) -> Option<Seq<char>> {
    match last_index_of(name, '.') {
        Some(i) => if i == 0 || name == seq!['.', '.'] {
            None
        } else {
            Some(name.skip(i + 1))
        },
        None => None,
    }
}

/// The extension is one of the RAW formats that the library holds.
pub open spec fn is_raw_extension(ext: Seq<char>) -> bool {
    ||| ext == "arw"@
    ||| ext == "dng"@
    ||| ext == "cr2"@
    ||| ext == "cr3"@
    ||| ext == "nef"@
    ||| ext == "raf"@
    ||| ext == "orf"@
    ||| ext == "rw2"@
    ||| ext == "srw"@
    ||| ext == "pef"@
}

/// The path names a RAW file: its extension, in lowercase, is a RAW format.
pub open spec fn supported_raw(path: Seq<char>) -> bool {
    match extension_of(file_name_of(path)) {
        Some(ext) => is_raw_extension(lowercase(ext)),
        None => false,
    }
}

fn last_index(s: &[char], c: char) -> (r: Option<usize>)
    ensures
        match r {
            Some(i) => last_index_of(s@, c) == Some(i as int) && i < s.len(),
            None => last_index_of(s@, c) is None,
        },
{
    let mut i: usize = s.len();
    proof {
        assert(s@.take(s@.len() as int) =~= s@);
    }
    while i > 0
        invariant
            i <= s.len(),
            last_index_of(s@, c) == last_index_of(s@.take(i as int), c),
        decreases i,
    {
        proof {
            assert(s@.take(i as int).last() == s@[i - 1]);
            assert(s@.take(i as int).drop_last() =~= s@.take(i - 1));
        }
        if s[i - 1] == c {
            return Some(i - 1);
        }
        i = i - 1;
    }
    None
}

/// Tells whether an extension, already in lowercase, is a RAW format.
pub fn is_raw_format(ext: &[char]) -> (b: bool)
    ensures
        b == is_raw_extension(ext@),
{
    same_text(ext, chars_of("arw").as_slice()) || same_text(ext, chars_of("dng").as_slice())
        || same_text(ext, chars_of("cr2").as_slice()) || same_text(
        ext,
        chars_of("cr3").as_slice(),
    ) || same_text(ext, chars_of("nef").as_slice()) || same_text(ext, chars_of("raf").as_slice())
        || same_text(ext, chars_of("orf").as_slice()) || same_text(
        ext,
        chars_of("rw2").as_slice(),
    ) || same_text(ext, chars_of("srw").as_slice()) || same_text(ext, chars_of("pef").as_slice())
}

/// Tells whether a path names a RAW file that the library holds, by its
/// extension, in any letter case.
pub fn is_supported_raw(path: &str) -> (b: bool)
    ensures
        b == supported_raw(path@),
{
    let chars = chars_of(path);
    let name = match last_index(chars.as_slice(), '/') {
        Some(i) => slice_subrange(chars.as_slice(), i + 1, chars.len()),
        None => {
            proof {
                assert(chars@.subrange(0, chars@.len() as int) =~= chars@);
            }
            slice_subrange(chars.as_slice(), 0, chars.len())
        },
    };
    let dot = match last_index(name, '.') {
        Some(i) => i,
        None => {
            return false;
        },
    };
    if dot == 0 || (name.len() == 2 && name[0] == '.' && name[1] == '.') {
        proof {
            if name.len() == 2 && name[0] == '.' && name[1] == '.' {
                assert(name@ =~= seq!['.', '.']);
            }
        }
        return false;
    }
    proof {
        if name@ == seq!['.', '.'] {
            assert(name@.len() == 2 && name@[0] == '.' && name@[1] == '.');
        }
    }
    let ext = string_of(slice_subrange(name, dot + 1, name.len()));
    let lower = to_lower(ext.as_str());
    is_raw_format(chars_of(lower.as_str()).as_slice())
}

/// The path of the XMP sidecar of a file: the path with the extension of
/// its file name replaced by `xmp`, or with `.xmp` added where the name has
/// no extension. A path that ends in `/`, `.` or `..` names no file and has
/// no sidecar.
pub open spec fn sidecar_of(path: Seq<char>) -> Option<Seq<char>> {
    let name = file_name_of(path);
    if name.len() == 0 || name == seq!['.'] || name == seq!['.', '.'] {
        None
    } else {
        match extension_of(name) {
            Some(ext) => Some(path.take(path.len() - ext.len() - 1) + ".xmp"@),
            None => Some(path + ".xmp"@),
        }
    }
}

/// Names the XMP sidecar that belongs to a file.
pub fn sidecar_path(path: &str) -> (r: Option<String>)
    ensures
        crate::metadata::text_view(r) == sidecar_of(path@),
{
    let chars = chars_of(path);
    let start = match last_index(chars.as_slice(), '/') {
        Some(i) => i + 1,
        None => 0,
    };
    let name = slice_subrange(chars.as_slice(), start, chars.len());
    proof {
        assert(chars@.subrange(0, chars@.len() as int) =~= chars@);
        assert(name@ == file_name_of(path@));
    }
    if name.len() == 0 || (name.len() == 1 && name[0] == '.') || (name.len() == 2 && name[0] == '.'
        && name[1] == '.') {
        proof {
            if name.len() == 1 && name[0] == '.' {
                assert(name@ =~= seq!['.']);
            }
            if name.len() == 2 && name[0] == '.' && name[1] == '.' {
                assert(name@ =~= seq!['.', '.']);
            }
        }
        return None;
    }
    proof {
        if name@ == seq!['.'] {
            assert(name@.len() == 1 && name@[0] == '.');
        }
        if name@ == seq!['.', '.'] {
            assert(name@.len() == 2 && name@[0] == '.' && name@[1] == '.');
        }
    }
    let keep = match last_index(name, '.') {
        Some(dot) => if dot == 0 {
            chars.len()
        } else {
            proof {
                assert(name@.skip(dot + 1).len() == name@.len() - dot - 1);
            }
            start + dot
        },
        None => chars.len(),
    };
    proof {
        assert(chars@.take(chars@.len() as int) =~= chars@);
    }
    Some(string_of(slice_subrange(chars.as_slice(), 0, keep)).concat(".xmp"))
}

// ---------------------------------------------------------------------------
// Configuration
// ---------------------------------------------------------------------------

/// The library root that the environment configures: the primary setting
/// where it is present, else the secondary one; surrounding whitespace is
/// dropped, and a setting that is then empty configures nothing.
pub open spec fn configured_root(primary: Option<Seq<char>>, secondary: Option<Seq<char>>)
    -> Option<Seq<char>> {
    let raw = match primary {
        Some(p) => Some(p),
        None => secondary,
    };
    match raw {
        Some(text) => if trim_spec(text).len() == 0 {
            None
        } else {
            Some(trim_spec(text))
        },
        None => None,
    }
}

/// Picks the library root from the two settings that may configure it.
pub fn library_root_setting(primary: Option<&str>, secondary: Option<&str>) -> (r: Option<String>)
    ensures
        crate::metadata::text_view(r) == configured_root(
            match primary {
                Some(p) => Some(p@),
                None => None,
            },
            match secondary {
                Some(s) => Some(s@),
                None => None,
            },
        ),
{
    let raw = match primary {
        Some(p) => Some(p),
        None => secondary,
    };
    match raw {
        Some(text) => {
            let chars = chars_of(text);
            let trimmed = trim(chars.as_slice());
            if trimmed.len() == 0 {
                None
            } else {
                Some(string_of(trimmed))
            }
        },
        None => None,
    }
}

} // verus!
