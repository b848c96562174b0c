//! Character-sequence utilities shared by the path, tag and XMP logic.
//!
//! Text is modelled as `Seq<char>`. Executable code works on `&[char]`, which
//! gives constant-time indexing; `chars_of` and `string_of` convert at the
//! edges.

use vstd::prelude::*;
use vstd::slice::slice_subrange;

verus! {

// ---------------------------------------------------------------------------
// Conversions
// ---------------------------------------------------------------------------

/// The characters of `s`, in order.
pub fn chars_of(s: &str) -> (v: Vec<char>)
    ensures
        v@ == s@,
{
    let mut v: Vec<char> = Vec::new();
    for c in it: s.chars()
        invariant
            v@ == it.seq().take(it.index()),
            it.seq() == s@,
    {
        v.push(c);
    }
    v
}

/// Builds a `String` from characters with `Iterator::collect`; the text of
/// the result is exactly the given characters, in order.
#[verifier::external_body]
pub(crate) fn string_of(chars: &[char]) -> (s: String)
    ensures
        s@ == chars@,
{
    chars.iter().collect()
}

/// What `String::from_utf8_lossy` yields for the given bytes: the decoded
/// text, with each ill-formed byte sequence replaced by U+FFFD.
pub uninterp spec fn utf8_lossy(bytes: Seq<u8>) -> Seq<char>;

/// Decodes bytes with `String::from_utf8_lossy`. The result depends on the
/// bytes alone and is named `utf8_lossy`.
#[verifier::external_body]
pub(crate) fn decode_lossy(bytes: &[u8]) -> (s: String)
    ensures
        s@ == utf8_lossy(bytes@),
{
    String::from_utf8_lossy(bytes).into_owned()
}

/// What `str::to_lowercase` yields for the given text (Unicode lowercase
/// mapping, which may change the number of characters).
pub uninterp spec fn lowercase(text: Seq<char>) -> Seq<char>;

/// Lowercases text with `str::to_lowercase`. The result depends on the text
/// alone and is named `lowercase`.
#[verifier::external_body]
pub(crate) fn to_lower(s: &str) -> (r: String)
    ensures
        r@ == lowercase(s@),
{
    s.to_lowercase()
}

// ---------------------------------------------------------------------------
// Whitespace and trimming
// ---------------------------------------------------------------------------

/// Unicode `White_Space`, the set that `char::is_whitespace` tests.
pub open spec fn is_space(c: char) -> bool {
    let n = c as u32;
    (0x09 <= n <= 0x0D) || n == 0x20 || n == 0x85 || n == 0xA0 || n == 0x1680 || (0x2000 <= n
        <= 0x200A) || n == 0x2028 || n == 0x2029 || n == 0x202F || n == 0x205F || n == 0x3000
}

/// Tells whether a character is whitespace.
pub fn is_whitespace(c: char) -> (b: bool)
    ensures
        b == is_space(c),
{
    let n: u32 = c as u32;
    (0x09 <= n && n <= 0x0D) || n == 0x20 || n == 0x85 || n == 0xA0 || n == 0x1680 || (0x2000
        <= n && n <= 0x200A) || n == 0x2028 || n == 0x2029 || n == 0x202F || n == 0x205F || n
        == 0x3000
}

/// Index of the first character at or after `from` that is not whitespace,
/// or `s.len()` when there is none.
pub open spec fn text_start(s: Seq<char>, from: int) -> int
    decreases s.len() - from,
{
    if 0 <= from < s.len() && is_space(s[from]) {
        text_start(s, from + 1)
    } else {
        from
    }
}

/// End of the text that remains of `s.take(to)` once trailing whitespace is
/// dropped, never going below `floor`.
pub open spec fn text_end(s: Seq<char>, floor: int, to: int) -> int
    decreases to,
{
    if floor < to <= s.len() && 0 < to && is_space(s[to - 1]) {
        text_end(s, floor, to - 1)
    } else {
        to
    }
}

/// `s` without its leading whitespace.
pub open spec fn trim_start_spec(s: Seq<char>) -> Seq<char> {
    s.skip(text_start(s, 0))
}

/// `s` without its leading and trailing whitespace.
pub open spec fn trim_spec(s: Seq<char>) -> Seq<char> {
    let lo = text_start(s, 0);
    s.subrange(lo, text_end(s, lo, s.len() as int))
}

/// `text_start` skips whitespace only, and stops at the first character
/// that is none.
pub proof fn lemma_text_start_bounds(s: Seq<char>, from: int)
    requires
        0 <= from <= s.len(),
    ensures
        from <= text_start(s, from) <= s.len(),
        forall|j: int| from <= j < text_start(s, from) ==> is_space(s[j]),
        text_start(s, from) < s.len() ==> !is_space(s[text_start(s, from)]),
    decreases s.len() - from,
{
    if from < s.len() && is_space(s[from]) {
        lemma_text_start_bounds(s, from + 1);
    }
}

/// `text_end` drops whitespace only, and stops after the last character
/// that is none.
pub proof fn lemma_text_end_bounds(s: Seq<char>, floor: int, to: int)
    requires
        0 <= floor <= to <= s.len(),
    ensures
        floor <= text_end(s, floor, to) <= to,
        forall|j: int| text_end(s, floor, to) <= j < to ==> is_space(s[j]),
        floor < text_end(s, floor, to) ==> !is_space(s[text_end(s, floor, to) - 1]),
    decreases to,
{
    if floor < to && is_space(s[to - 1]) {
        lemma_text_end_bounds(s, floor, to - 1);
    }
}

fn scan_start(s: &[char]) -> (lo: usize)
    ensures
        lo == text_start(s@, 0),
        lo <= s@.len(),
{
    let mut lo: usize = 0;
    while lo < s.len() && is_whitespace(s[lo])
        invariant
            lo <= s@.len(),
            text_start(s@, 0) == text_start(s@, lo as int),
        decreases s@.len() - lo,
    {
        lo = lo + 1;
    }
    lo
}

fn scan_end(s: &[char], floor: usize) -> (hi: usize)
    requires
        floor <= s@.len(),
    ensures
        hi == text_end(s@, floor as int, s@.len() as int),
        floor <= hi <= s@.len(),
{
    let mut hi: usize = s.len();
    while hi > floor && is_whitespace(s[hi - 1])
        invariant
            floor <= hi <= s@.len(),
            text_end(s@, floor as int, s@.len() as int) == text_end(s@, floor as int, hi as int),
        decreases hi,
    {
        hi = hi - 1;
    }
    hi
}

/// Drops leading whitespace.
pub fn trim_start<'a>(s: &'a [char]) -> (r: &'a [char])
    ensures
        r@ == trim_start_spec(s@),
{
    let lo = scan_start(s);
    slice_subrange(s, lo, s.len())
}

/// Drops leading and trailing whitespace.
pub fn trim<'a>(s: &'a [char]) -> (r: &'a [char])
    ensures
        r@ == trim_spec(s@),
{
    let lo = scan_start(s);
    let hi = scan_end(s, lo);
    slice_subrange(s, lo, hi)
}

// ---------------------------------------------------------------------------
// Searching
// ---------------------------------------------------------------------------

/// `needle` occurs in `hay` at index `i`.
pub open spec fn occurs_at(hay: Seq<char>, needle: Seq<char>, i: int) -> bool {
    0 <= i && i + needle.len() <= hay.len() && hay.subrange(i, i + needle.len()) == needle
}

/// Index of the first occurrence of `needle` in `hay` at or after `from`.
pub open spec fn find_from(hay: Seq<char>, needle: Seq<char>, from: int) -> Option<int>
    decreases hay.len() - from + 1,
{
    if from < 0 || from + needle.len() > hay.len() {
        None
    } else if occurs_at(hay, needle, from) {
        Some(from)
    } else {
        find_from(hay, needle, from + 1)
    }
}

/// Index of the first occurrence of `needle` in `hay`, as `str::find` gives
/// it counted in characters.
pub open spec fn find_spec(hay: Seq<char>, needle: Seq<char>) -> Option<int> {
    find_from(hay, needle, 0)
}

/// `find_from` returns the least index at which `needle` occurs, and `None`
/// exactly when it occurs nowhere at or after `from`.
pub proof fn lemma_find_from_is_first(hay: Seq<char>, needle: Seq<char>, from: int)
    requires
        0 <= from,
    ensures
        match find_from(hay, needle, from) {
            Some(i) => from <= i && occurs_at(hay, needle, i) && forall|j: int|
                from <= j < i ==> !occurs_at(hay, needle, j),
            None => forall|j: int| from <= j ==> !occurs_at(hay, needle, j),
        },
    decreases hay.len() - from + 1,
{
    if from + needle.len() <= hay.len() && !occurs_at(hay, needle, from) {
        lemma_find_from_is_first(hay, needle, from + 1);
    }
}

fn matches_here(hay: &[char], needle: &[char], at: usize) -> (b: bool)
    requires
        at + needle@.len() <= hay@.len(),
    ensures
        b == occurs_at(hay@, needle@, at as int),
{
    let n = needle.len();
    let total = hay.len();
    let mut k: usize = 0;
    while k < n
        invariant
            k <= n,
            n == needle@.len(),
            total == hay@.len(),
            at + n <= total,
            forall|j: int| 0 <= j < k ==> hay@[at + j] == needle@[j],
        decreases n - k,
    {
        if hay[at + k] != needle[k] {
            assert(hay@.subrange(at as int, at + n)[k as int] != needle@[k as int]);
            return false;
        }
        k = k + 1;
    }
    assert(hay@.subrange(at as int, at + n) =~= needle@);
    true
}

/// Finds the first occurrence of `needle` in `hay`.
pub fn find(hay: &[char], needle: &[char]) -> (r: Option<usize>)
    ensures
        match r {
            Some(i) => find_spec(hay@, needle@) == Some(i as int) && i + needle.len()
                <= hay.len(),
            None => find_spec(hay@, needle@) is None,
        },
{
    if needle.len() > hay.len() {
        return None;
    }
    let last = hay.len() - needle.len();
    let mut i: usize = 0;
    loop
        invariant
            i <= last,
            last == hay@.len() - needle@.len(),
            find_spec(hay@, needle@) == find_from(hay@, needle@, i as int),
        decreases last - i,
    {
        if matches_here(hay, needle, i) {
            return Some(i);
        }
        if i == last {
            assert(find_from(hay@, needle@, i + 1) is None);
            return None;
        }
        i = i + 1;
    }
}

/// Index of the first `c` in `hay` at or after `from`.
pub open spec fn find_char_from(hay: Seq<char>, c: char, from: int) -> Option<int>
    decreases hay.len() - from,
{
    if from < 0 || from >= hay.len() {
        None
    } else if hay[from] == c {
        Some(from)
    } else {
        find_char_from(hay, c, from + 1)
    }
}

/// Index of the first `c` in `hay`.
pub open spec fn find_char_spec(hay: Seq<char>, c: char) -> Option<int> {
    find_char_from(hay, c, 0)
}

/// `find_char_from` gives the least index of the character at or after
/// `from`, and `None` exactly when there is none.
pub proof fn lemma_find_char_is_first(hay: Seq<char>, c: char, from: int)
    requires
        0 <= from,
    ensures
        match find_char_from(hay, c, from) {
            Some(i) => from <= i < hay.len() && hay[i] == c && forall|j: int|
                from <= j < i ==> hay[j] != c,
            None => forall|j: int| from <= j < hay.len() ==> hay[j] != c,
        },
    decreases hay.len() - from,
{
    if from < hay.len() && hay[from] != c {
        lemma_find_char_is_first(hay, c, from + 1);
    }
}

/// Finds the first `c` in `hay`.
pub fn find_char(hay: &[char], c: char) -> (r: Option<usize>)
    ensures
        match r {
            Some(i) => find_char_spec(hay@, c) == Some(i as int) && i < hay.len(),
            None => find_char_spec(hay@, c) is None,
        },
{
    let mut i: usize = 0;
    while i < hay.len()
        invariant
            i <= hay@.len(),
            find_char_spec(hay@, c) == find_char_from(hay@, c, i as int),
        decreases hay@.len() - i,
    {
        if hay[i] == c {
            return Some(i);
        }
        i = i + 1;
    }
    None
}

/// Whether two texts hold the same characters.
pub fn same_text(a: &[char], b: &[char]) -> (r: bool)
    ensures
        r == (a@ == b@),
{
    if a.len() != b.len() {
        return false;
    }
    proof {
        assert(a@.subrange(0, a@.len() as int) =~= a@);
    }
    matches_here(a, b, 0)
}

// ---------------------------------------------------------------------------
// Decimal integers
// ---------------------------------------------------------------------------

/// An ASCII decimal digit.
pub open spec fn is_digit(c: char) -> bool {
    '0' <= c <= '9'
}

/// Every character is an ASCII decimal digit.
pub open spec fn all_digits(s: Seq<char>) -> bool {
    forall|i: int| 0 <= i < s.len() ==> is_digit(#[trigger] s[i])
}

/// Value of a string of decimal digits.
pub open spec fn decimal_value(s: Seq<char>) -> int
    decreases s.len(),
{
    if s.len() == 0 {
        0
    } else {
        10 * decimal_value(s.drop_last()) + (s.last() as u32 - '0' as u32)
    }
}

/// What `str::parse::<i32>` accepts: an optional `+` or `-`, then one or more
/// ASCII digits, whose value lies within `i32`. Anything else is an error,
/// given here as `None`.
pub open spec fn parse_i32_spec(s: Seq<char>) -> Option<int> {
    if s.len() == 0 {
        None
    } else {
        let negative = s[0] == '-';
        let digits = if s[0] == '-' || s[0] == '+' {
            s.skip(1)
        } else {
            s
        };
        let magnitude = decimal_value(digits);
        let value = if negative {
            -magnitude
        } else {
            magnitude
        };
        if digits.len() > 0 && all_digits(digits) && i32::MIN <= value <= i32::MAX {
            Some(value)
        } else {
            None
        }
    }
}

proof fn lemma_decimal_value_grows(s: Seq<char>, k: int)
    requires
        all_digits(s),
        0 <= k <= s.len(),
    ensures
        0 <= decimal_value(s.take(k)) <= decimal_value(s),
    decreases s.len() - k,
{
    if k == 0 {
        assert(s.take(0) =~= Seq::<char>::empty());
        lemma_decimal_value_nonneg(s);
    } else if k < s.len() {
        lemma_decimal_value_grows(s, k + 1);
        assert(s.take(k + 1).drop_last() =~= s.take(k));
        assert(is_digit(s[k]));
        lemma_decimal_value_nonneg(s.take(k));
    } else {
        assert(s.take(k) =~= s);
        lemma_decimal_value_nonneg(s);
    }
}

proof fn lemma_decimal_value_nonneg(s: Seq<char>)
    requires
        all_digits(s),
    ensures
        0 <= decimal_value(s),
    decreases s.len(),
{
    if s.len() > 0 {
        assert(is_digit(s[s.len() - 1]));
        lemma_decimal_value_nonneg(s.drop_last());
    }
}

/// Reads a decimal integer the way `str::parse::<i32>` does.
pub fn parse_i32(s: &[char]) -> (r: Option<i32>)
    ensures
        match r {
            Some(v) => parse_i32_spec(s@) == Some(v as int),
            None => parse_i32_spec(s@) is None,
        },
{
    if s.len() == 0 {
        return None;
    }
    let negative = s[0] == '-';
    let digits = if s[0] == '-' || s[0] == '+' {
        assert(s@.subrange(1, s@.len() as int) =~= s@.skip(1));
        slice_subrange(s, 1, s.len())
    } else {
        assert(s@.subrange(0, s@.len() as int) =~= s@);
        slice_subrange(s, 0, s.len())
    };
    if digits.len() == 0 {
        return None;
    }
    let limit: i64 = if negative {
        2147483648
    } else {
        2147483647
    };
    let mut acc: i64 = 0;
    let mut k: usize = 0;
    while k < digits.len()
        invariant
            k <= digits@.len(),
            all_digits(digits@.take(k as int)),
            acc == decimal_value(digits@.take(k as int)),
            0 <= acc <= limit,
            limit == if negative { 2147483648i64 } else { 2147483647i64 },
            s@.len() > 0,
            negative == (s@[0] == '-'),
            digits@.len() > 0,
            digits@ == if s@[0] == '-' || s@[0] == '+' { s@.skip(1) } else { s@ },
        decreases digits@.len() - k,
    {
        let c = digits[k];
        if !(c >= '0' && c <= '9') {
            assert(!is_digit(digits@[k as int]));
            return None;
        }
        let d: i64 = (c as u32 - '0' as u32) as i64;
        proof {
            assert(digits@.take(k + 1).drop_last() =~= digits@.take(k as int));
            assert(digits@.take(k + 1).last() == c);
            assert forall|i: int| 0 <= i < k + 1 implies is_digit(
                #[trigger] digits@.take(k + 1)[i],
            ) by {
                if i < k {
                    assert(digits@.take(k as int)[i] == digits@.take(k + 1)[i]);
                }
            }
        }
        let next: i64 = acc * 10 + d;
        if next > limit {
            proof {
                if all_digits(digits@) {
                    lemma_decimal_value_grows(digits@, k + 1);
                }
            }
            return None;
        }
        acc = next;
        k = k + 1;
    }
    assert(digits@.take(k as int) =~= digits@);
    if negative {
        Some((-acc) as i32)
    } else {
        Some(acc as i32)
    }
}

/// Confines a rating to the range of stars, 0 through 5.
pub open spec fn clamp_stars(v: int) -> int {
    if v < 0 {
        0
    } else if v > 5 {
        5
    } else {
        v
    }
}

/// Confines a rating to 0 through 5.
pub fn clamp_rating(v: i32) -> (r: i32)
    ensures
        r == clamp_stars(v as int),
{
    if v < 0 {
        0
    } else if v > 5 {
        5
    } else {
        v
    }
}

} // verus!
