//! Preview generation: locating the largest embedded JPEG in a RAW file and
//! naming the cache file that holds it.

use vstd::prelude::*;
use vstd::slice::{slice_subrange, slice_to_vec};
use vstd::string::StringExecFns;
use vstd::utf8::encode_utf8;

verus! {

// ---------------------------------------------------------------------------
// Marker scanning
// ---------------------------------------------------------------------------

/// Second byte of the JPEG start-of-image marker `FF D8`.
pub const START_OF_IMAGE: u8 = 0xD8;

/// Second byte of the JPEG end-of-image marker `FF D9`.
pub const END_OF_IMAGE: u8 = 0xD9;

/// The two bytes at `i` are the marker `FF kind`.
pub open spec fn marker_at(data: Seq<u8>, i: int, kind: u8) -> bool {
    0 <= i && i + 1 < data.len() && data[i] == 0xFF && data[i + 1] == kind
}

/// Position of the first marker `FF kind` at or after `from`.
pub open spec fn next_marker(data: Seq<u8>, kind: u8, from: int) -> Option<int>
    decreases data.len() - from,
{
    if from < 0 || from + 1 >= data.len() {
        None
    } else if marker_at(data, from, kind) {
        Some(from)
    } else {
        next_marker(data, kind, from + 1)
    }
}

/// `next_marker` gives the least position of the marker at or after `from`,
/// and `None` exactly when there is no such position.
pub proof fn lemma_next_marker_is_first(data: Seq<u8>, kind: u8, from: int)
    requires
        0 <= from,
    ensures
        match next_marker(data, kind, from) {
            Some(j) => from <= j && marker_at(data, j, kind) && forall|k: int|
                from <= k < j ==> !marker_at(data, k, kind),
            None => forall|k: int| from <= k ==> !marker_at(data, k, kind),
        },
    decreases data.len() - from,
{
    if from + 1 < data.len() && !marker_at(data, from, kind) {
        lemma_next_marker_is_first(data, kind, from + 1);
    }
}

/// The byte ranges `(start, end)` that a left-to-right scan from `from`
/// meets: each begins at a start-of-image marker and ends just past the
/// first end-of-image marker that follows it; the scan resumes at `end`. A
/// start marker with no end marker after it closes the scan.
pub open spec fn jpeg_frames(data: Seq<u8>, from: int) -> Seq<(int, int)>
    decreases data.len() - from,
{
    if from < 0 || from + 1 >= data.len() {
        Seq::empty()
    } else if marker_at(data, from, START_OF_IMAGE) {
        match next_marker(data, END_OF_IMAGE, from + 2) {
            Some(j) => {
                proof {
                    lemma_next_marker_is_first(data, END_OF_IMAGE, from + 2);
                }
                seq![(from, j + 2)] + jpeg_frames(data, j + 2)
            },
            None => Seq::empty(),
        }
    } else {
        jpeg_frames(data, from + 1)
    }
}

/// The longest of the ranges; among equally long ones, the first.
pub open spec fn largest_frame(frames: Seq<(int, int)>) -> Option<(int, int)>
    decreases frames.len(),
{
    if frames.len() == 0 {
        None
    } else {
        let last = frames.last();
        match largest_frame(frames.drop_last()) {
            Some(best) => if best.1 - best.0 < last.1 - last.0 {
                Some(last)
            } else {
                Some(best)
            },
            None => Some(last),
        }
    }
}

/// The range that `find_largest_jpeg` selects in `data`.
pub open spec fn largest_jpeg(data: Seq<u8>) -> Option<(int, int)> {
    largest_frame(jpeg_frames(data, 0))
}

/// A start-of-image marker that has an end-of-image marker somewhere after
/// it, without overlap.
pub open spec fn has_marker_pair(data: Seq<u8>) -> bool {
    exists|s: int, e: int|
        #[trigger] marker_at(data, s, START_OF_IMAGE) && s + 2 <= e && #[trigger] marker_at(
            data,
            e,
            END_OF_IMAGE,
        )
}

/// Every range of the scan lies inside the data, opens with a start marker
/// and closes with the first end marker after it.
pub proof fn lemma_frames_are_images(data: Seq<u8>, from: int, k: int)
    requires
        0 <= from,
        0 <= k < jpeg_frames(data, from).len(),
    ensures
        ({
            let f = jpeg_frames(data, from)[k];
            &&& from <= f.0
            &&& f.0 + 4 <= f.1 <= data.len()
            &&& marker_at(data, f.0, START_OF_IMAGE)
            &&& next_marker(data, END_OF_IMAGE, f.0 + 2) == Some(f.1 - 2)
        }),
    decreases data.len() - from,
{
    if from + 1 >= data.len() {
    } else if marker_at(data, from, START_OF_IMAGE) {
        lemma_next_marker_is_first(data, END_OF_IMAGE, from + 2);
        match next_marker(data, END_OF_IMAGE, from + 2) {
            Some(j) => {
                if k > 0 {
                    lemma_frames_are_images(data, j + 2, k - 1);
                    assert(jpeg_frames(data, from)[k] == jpeg_frames(data, j + 2)[k - 1]);
                }
            },
            None => {},
        }
    } else {
        lemma_frames_are_images(data, from + 1, k);
    }
}

/// The scan from `from` finds nothing exactly when no start marker at or
/// after `from` has an end marker after it.
pub proof fn lemma_no_frames_iff_no_pair(data: Seq<u8>, from: int)
    requires
        0 <= from,
    ensures
        jpeg_frames(data, from).len() == 0 <==> forall|s: int, e: int|
            from <= s && s + 2 <= e && #[trigger] marker_at(data, s, START_OF_IMAGE)
                ==> !#[trigger] marker_at(data, e, END_OF_IMAGE),
    decreases data.len() - from,
{
    if from + 1 >= data.len() {
    } else if marker_at(data, from, START_OF_IMAGE) {
        lemma_next_marker_is_first(data, END_OF_IMAGE, from + 2);
        match next_marker(data, END_OF_IMAGE, from + 2) {
            Some(j) => {
                assert(marker_at(data, from, START_OF_IMAGE) && marker_at(data, j, END_OF_IMAGE));
            },
            None => {},
        }
    } else {
        lemma_no_frames_iff_no_pair(data, from + 1);
    }
}

/// The selected range is one of the scanned ranges and none is longer; there
/// is a selection whenever there is a range.
pub proof fn lemma_largest_frame_is_longest(frames: Seq<(int, int)>)
    ensures
        largest_frame(frames) is None <==> frames.len() == 0,
        largest_frame(frames) matches Some(best) ==> frames.contains(best) && forall|k: int|
            0 <= k < frames.len() ==> (#[trigger] frames[k]).1 - frames[k].0 <= best.1 - best.0,
    decreases frames.len(),
{
    if frames.len() > 0 {
        let init = frames.drop_last();
        lemma_largest_frame_is_longest(init);
        let best = largest_frame(frames)->0;
        assert(frames.last() == frames[frames.len() - 1]);
        if largest_frame(init) is Some && best == largest_frame(init)->0 {
            let i = choose|i: int| 0 <= i < init.len() && init[i] == best;
            assert(frames[i] == best);
        }
        assert forall|k: int| 0 <= k < frames.len() implies (#[trigger] frames[k]).1 - frames[k].0
            <= best.1 - best.0 by {
            if k < init.len() {
                assert(init[k] == frames[k]);
            }
        }
    }
}

/// Of two ranges of different lengths the longer is selected.
pub proof fn lemma_longer_of_two_is_selected(first: (int, int), second: (int, int))
    requires
        first.1 - first.0 != second.1 - second.0,
    ensures
        largest_frame(seq![first, second]) == Some(
            if first.1 - first.0 > second.1 - second.0 {
                first
            } else {
                second
            },
        ),
{
    let both = seq![first, second];
    assert(both.drop_last() =~= seq![first]);
    assert(seq![first].drop_last() =~= Seq::<(int, int)>::empty());
    reveal_with_fuel(largest_frame, 3);
}

/// A selection is made exactly when the data holds a start marker followed
/// by an end marker.
pub proof fn lemma_selection_iff_pair(data: Seq<u8>)
    ensures
        largest_jpeg(data) is Some <==> has_marker_pair(data),
{
    lemma_no_frames_iff_no_pair(data, 0);
    lemma_largest_frame_is_longest(jpeg_frames(data, 0));
}

fn is_marker(data: &[u8], i: usize, kind: u8) -> (b: bool)
    requires
        i + 1 < data@.len(),
    ensures
        b == marker_at(data@, i as int, kind),
{
    data[i] == 0xFF && data[i + 1] == kind
}

/// Scans `data` for embedded JPEG images and returns the byte range of the
/// largest one, or `None` when no start marker is followed by an end marker.
pub fn find_largest_jpeg(data: &[u8]) -> (r: Option<(usize, usize)>)
    ensures
        match r {
            Some((start, end)) => largest_jpeg(data@) == Some((start as int, end as int)) && start
                + 4 <= end <= data@.len(),
            None => largest_jpeg(data@) is None,
        },
        r is Some <==> has_marker_pair(data@),
{
    let len = data.len();
    let mut best: Option<(usize, usize)> = None;
    let ghost mut done: Seq<(int, int)> = Seq::empty();
    let mut i: usize = 0;
    proof {
        assert(done + jpeg_frames(data@, 0) =~= jpeg_frames(data@, 0));
    }
    while i < len && i + 1 < len
        invariant
            len == data@.len(),
            i <= len,
            jpeg_frames(data@, 0) == done + jpeg_frames(data@, i as int),
            match best {
                Some((s, e)) => largest_frame(done) == Some((s as int, e as int)) && s + 4 <= e
                    <= len,
                None => largest_frame(done) is None,
            },
        decreases len - i,
    {
        if is_marker(data, i, START_OF_IMAGE) {
            let start = i;
            let mut j: usize = i + 2;
            let mut end: Option<usize> = None;
            while end.is_none() && j < len && j + 1 < len
                invariant
                    len == data@.len(),
                    start + 2 <= j <= len,
                    match end {
                        Some(e) => next_marker(data@, END_OF_IMAGE, start + 2) == Some(e - 2)
                            && start + 4 <= e <= len,
                        None => next_marker(data@, END_OF_IMAGE, start + 2) == next_marker(
                            data@,
                            END_OF_IMAGE,
                            j as int,
                        ),
                    },
                decreases len - j + if end.is_none() { 1int } else { 0int },
            {
                if is_marker(data, j, END_OF_IMAGE) {
                    end = Some(j + 2);
                } else {
                    j = j + 1;
                }
            }
            match end {
                Some(e) => {
                    let replace = match best {
                        Some((bs, be)) => be - bs < e - start,
                        None => true,
                    };
                    proof {
                        let frame = (start as int, e as int);
                        assert(done.push(frame).drop_last() =~= done);
                        assert(done + (seq![frame] + jpeg_frames(data@, e as int)) =~= done.push(
                            frame,
                        ) + jpeg_frames(data@, e as int));
                        done = done.push(frame);
                    }
                    if replace {
                        best = Some((start, e));
                    }
                    i = e;
                },
                None => {
                    proof {
                        assert(done + Seq::<(int, int)>::empty() =~= done);
                    }
                    i = len;
                },
            }
        } else {
            i = i + 1;
        }
    }
    proof {
        assert(done + Seq::<(int, int)>::empty() =~= done);
        lemma_selection_iff_pair(data@);
    }
    best
}

/// The bytes of the largest embedded JPEG, copied out verbatim; `None` when
/// the data holds no start marker followed by an end marker.
pub fn extract_preview(data: &[u8]) -> (r: Option<Vec<u8>>)
    ensures
        match r {
            Some(image) => largest_jpeg(data@) matches Some((s, e)) && image@ == data@.subrange(
                s,
                e,
            ),
            None => largest_jpeg(data@) is None,
        },
        r is Some <==> has_marker_pair(data@),
{
    match find_largest_jpeg(data) {
        Some((start, end)) => Some(slice_to_vec(slice_subrange(data, start, end))),
        None => None,
    }
}

// ---------------------------------------------------------------------------
// Cache freshness
// ---------------------------------------------------------------------------

/// A file modification time: whole seconds since the Unix epoch and the
/// nanoseconds within that second.
#[derive(Clone, Copy, Debug, PartialEq, Eq, Structural)]
pub struct FileTime {
    pub secs: i64,
    pub nanos: u32,
}

impl FileTime {
    /// `self` is not earlier than `other`.
    pub open spec fn not_before(self, other: FileTime) -> bool {
        self.secs > other.secs || (self.secs == other.secs && self.nanos >= other.nanos)
    }
}

/// Whether a cached preview can be served as it is: both modification times
/// are known and the preview is not older than its source. `preview` is
/// `None` when no cached preview exists or its time cannot be read.
pub fn is_preview_current(source: Option<FileTime>, preview: Option<FileTime>) -> (hit: bool)
    ensures
        hit <==> (source matches Some(s) && preview matches Some(p) && p.not_before(s)),
{
    match (source, preview) {
        (Some(s), Some(p)) => p.secs > s.secs || (p.secs == s.secs && p.nanos >= s.nanos),
        _ => false,
    }
}

/// What has to happen so that a preview can be served.
#[derive(Clone, Debug, PartialEq, Eq)]
pub enum PreviewOutcome {
    /// The cached preview is current; nothing is written.
    Cached,
    /// These bytes, one whole JPEG image, are to be written to the cache.
    Write(Vec<u8>),
    /// The source holds no embedded image; nothing is written.
    Unavailable,
}

impl PreviewOutcome {
    /// Whether a preview can be served once the outcome is carried out.
    pub fn is_available(&self) -> (b: bool)
        ensures
            b == !(self is Unavailable),
    {
        match self {
            PreviewOutcome::Unavailable => false,
            _ => true,
        }
    }
}

/// Decides how the preview of a source file comes about, from the two
/// modification times and the bytes of the source: a current cached preview
/// is kept as it is; otherwise the largest embedded JPEG is to be written,
/// byte for byte; a source without one has no preview.
pub fn ensure_preview(source: Option<FileTime>, preview: Option<FileTime>, data: &[u8]) -> (r:
    PreviewOutcome)
    ensures
        (source matches Some(s) && preview matches Some(p) && p.not_before(s)) ==> r
            == PreviewOutcome::Cached,
        !(source matches Some(s) && preview matches Some(p) && p.not_before(s)) ==> match r {
            PreviewOutcome::Cached => false,
            PreviewOutcome::Write(image) => largest_jpeg(data@) matches Some((s, e)) && image@
                == data@.subrange(s, e),
            PreviewOutcome::Unavailable => largest_jpeg(data@) is None && !has_marker_pair(data@),
        },
{
    if is_preview_current(source, preview) {
        return PreviewOutcome::Cached;
    }
    match extract_preview(data) {
        Some(image) => PreviewOutcome::Write(image),
        None => PreviewOutcome::Unavailable,
    }
}

// ---------------------------------------------------------------------------
// Cache naming
// ---------------------------------------------------------------------------

/// The SHA-256 digest of a byte string, as the `sha2` crate computes it.
pub uninterp spec fn sha256(data: Seq<u8>) -> Seq<u8>;

/// Hashes bytes with `sha2::Sha256` (`new`, `update`, `finalize`). The
/// digest depends on the bytes alone and is named `sha256`; it is 32 bytes
/// long, the output size that the crate fixes for SHA-256.
#[verifier::external_body]
fn sha256_digest(data: &[u8]) -> (digest: Vec<u8>)
    ensures
        digest@ == sha256(data@),
        digest@.len() == 32,
{
    let mut hasher = <sha2::Sha256 as sha2::Digest>::new();
    sha2::Digest::update(&mut hasher, data);
    sha2::Digest::finalize(hasher).to_vec()
}

/// The lowercase hexadecimal digit for a value below sixteen.
pub open spec fn hex_digit(n: int) -> char {
    seq!['0', '1', '2', '3', '4', '5', '6', '7', '8', '9', 'a', 'b', 'c', 'd', 'e', 'f'][n]
}

/// Two lowercase hexadecimal digits per byte, high half first.
pub open spec fn hex_lower(bytes: Seq<u8>) -> Seq<char> {
    Seq::new(
        2 * bytes.len(),
        |i: int|
            if i % 2 == 0 {
                hex_digit(bytes[i / 2] as int / 16)
            } else {
                hex_digit(bytes[i / 2] as int % 16)
            },
    )
}

/// Encodes bytes with `hex::encode`: each byte becomes two lowercase
/// hexadecimal digits, high half first.
#[verifier::external_body]
fn hex_encode(bytes: &[u8]) -> (text: String)
    ensures
        text@ == hex_lower(bytes@),
{
    hex::encode(bytes)
}

/// Name of the cache file for a relative path: the hexadecimal SHA-256 of
/// the path's UTF-8 bytes, with the extension `.jpg`.
pub open spec fn cache_name(rel_path: Seq<char>) -> Seq<char> {
    hex_lower(sha256(encode_utf8(rel_path))) + ".jpg"@
}

/// Location of the cache file: the cache name inside `dir`.
pub open spec fn cache_path(dir: Seq<char>, rel_path: Seq<char>) -> Seq<char> {
    if dir.len() == 0 {
        cache_name(rel_path)
    } else if dir.last() == '/' {
        dir + cache_name(rel_path)
    } else {
        dir + "/"@ + cache_name(rel_path)
    }
}

/// Name of the cache file for a path with the given digest: the digest in
/// hexadecimal, with the extension `.jpg`.
pub fn cache_file_name(digest: &[u8]) -> (name: String)
    ensures
        name@ == hex_lower(digest@) + ".jpg"@,
        name@.len() == 2 * digest@.len() + 4,
{
    proof {
        reveal_strlit(".jpg");
    }
    hex_encode(digest).concat(".jpg")
}

/// Name of the file that caches the preview of `rel_path`: 64 hexadecimal
/// digits and the extension `.jpg`.
pub fn preview_cache_name(rel_path: &str) -> (name: String)
    ensures
        name@ == cache_name(rel_path@),
        name@.len() == 68,
{
    let digest = sha256_digest(rel_path.as_bytes());
    cache_file_name(digest.as_slice())
}

/// Path of the file that caches the preview of `rel_path`, inside
/// `preview_dir`.
pub fn preview_cache_path(preview_dir: &str, rel_path: &str) -> (path: String)
    ensures
        path@ == cache_path(preview_dir@, rel_path@),
{
    let name = preview_cache_name(rel_path);
    let dir = crate::text::chars_of(preview_dir);
    if dir.len() == 0 {
        name
    } else if dir[dir.len() - 1] == '/' {
        String::from_str(preview_dir).concat(name.as_str())
    } else {
        String::from_str(preview_dir).concat("/").concat(name.as_str())
    }
}

/// The same relative path always has the same cache name.
pub proof fn lemma_cache_name_deterministic(a: Seq<char>, b: Seq<char>)
    requires
        a == b,
    ensures
        cache_name(a) == cache_name(b),
{
}

/// Hexadecimal encoding loses nothing: equal encodings come from equal bytes.
pub proof fn lemma_hex_lower_injective(a: Seq<u8>, b: Seq<u8>)
    requires
        hex_lower(a) == hex_lower(b),
    ensures
        a == b,
{
    assert(hex_lower(a).len() == 2 * a.len());
    assert(hex_lower(b).len() == 2 * b.len());
    assert forall|k: int| 0 <= k < a.len() implies a[k] == b[k] by {
        let hi_a = a[k] as int / 16;
        let lo_a = a[k] as int % 16;
        let hi_b = b[k] as int / 16;
        let lo_b = b[k] as int % 16;
        assert(hex_lower(a)[2 * k] == hex_digit(hi_a));
        assert(hex_lower(b)[2 * k] == hex_digit(hi_b));
        assert(hex_lower(a)[2 * k + 1] == hex_digit(lo_a));
        assert(hex_lower(b)[2 * k + 1] == hex_digit(lo_b));
        assert(hi_a == hi_b);
        assert(lo_a == lo_b);
    }
    assert(a =~= b);
}

/// Two relative paths share a cache name only if their SHA-256 digests
/// collide.
pub proof fn lemma_cache_name_collision(a: Seq<char>, b: Seq<char>)
    requires
        cache_name(a) == cache_name(b),
    ensures
        sha256(encode_utf8(a)) == sha256(encode_utf8(b)),
{
    let ha = hex_lower(sha256(encode_utf8(a)));
    let hb = hex_lower(sha256(encode_utf8(b)));
    let ext = ".jpg"@;
    assert(ha.len() == hb.len()) by {
        assert((ha + ext).len() == ha.len() + ext.len());
        assert((hb + ext).len() == hb.len() + ext.len());
    }
    assert(ha =~= hb) by {
        assert forall|i: int| 0 <= i < ha.len() implies ha[i] == hb[i] by {
            assert((ha + ext)[i] == ha[i]);
            assert((hb + ext)[i] == hb[i]);
        }
    }
    lemma_hex_lower_injective(sha256(encode_utf8(a)), sha256(encode_utf8(b)));
}

} // verus!
