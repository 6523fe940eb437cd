//! Request-path normalization and mapping of normalized paths to asset keys.
//!
//! A path is read as a sequence of segments separated by `/`.  Normalizing
//! keeps the segments that name something, lets `..` cancel the segment
//! before it, and writes what is left as `/seg/seg/...`.

use crate::path_laws::lemma_canonical_shape;
use crate::text::{chars_to_string, str_chars};
use vstd::prelude::*;
use vstd::string::StringExecFns;

verus! {

/// Why a path was rejected.
#[derive(Debug)]
pub enum PathError {
    /// The input is malformed and cannot be normalized.
    InvalidPath(String),
    /// The canonical form still holds two adjacent dots.
    PathTraversal,
}

impl PathError {
    /// The text of `message`.
    pub open spec fn message_spec(&self) -> Seq<char> {
        match self {
            PathError::InvalidPath(detail) => "Invalid path: "@ + detail@,
            PathError::PathTraversal => "Path traversal attempt detected"@,
        }
    }

    /// A sentence that describes the error.
    pub fn message(&self) -> (text: String)
        ensures
            text@ == self.message_spec(),
    {
        match self {
            PathError::InvalidPath(detail) => {
                let mut text = "Invalid path: ".to_owned();
                text.append(detail.as_str());
                text
            },
            PathError::PathTraversal => "Path traversal attempt detected".to_owned(),
        }
    }
}

/// The pieces of `s` between slashes, left to right.  A string with `n`
/// slashes has `n + 1` segments, some of which may be empty.
pub open spec fn split_segments(s: Seq<char>) -> Seq<Seq<char>>
    decreases s.len(),
{
    if s.len() == 0 {
        seq![Seq::<char>::empty()]
    } else {
        let before = split_segments(s.drop_last());
        if s.last() == '/' {
            before.push(Seq::<char>::empty())
        } else {
            before.drop_last().push(before.last().push(s.last()))
        }
    }
}

/// The segment `.`.
pub open spec fn is_current_dir(seg: Seq<char>) -> bool {
    seg.len() == 1 && seg[0] == '.'
}

/// The segment `..`.
pub open spec fn is_parent_dir(seg: Seq<char>) -> bool {
    seg.len() == 2 && seg[0] == '.' && seg[1] == '.'
}

/// The retained segments after one more segment has been read: empty and
/// `.` segments change nothing, `..` removes the last retained segment if
/// there is one, any other segment is retained.
pub open spec fn retain_step(kept: Seq<Seq<char>>, seg: Seq<char>) -> Seq<Seq<char>> {
    if seg.len() == 0 || is_current_dir(seg) {
        kept
    } else if is_parent_dir(seg) {
        if kept.len() > 0 {
            kept.drop_last()
        } else {
            kept
        }
    } else {
        kept.push(seg)
    }
}

/// The segments retained after reading all of `segs` from the left.
pub open spec fn retained_segments(segs: Seq<Seq<char>>) -> Seq<Seq<char>>
    decreases segs.len(),
{
    if segs.len() == 0 {
        Seq::<Seq<char>>::empty()
    } else {
        retain_step(retained_segments(segs.drop_last()), segs.last())
    }
}

/// Each segment preceded by one `/`, in order.
pub open spec fn join_segments(kept: Seq<Seq<char>>) -> Seq<char>
    decreases kept.len(),
{
    if kept.len() == 0 {
        Seq::<char>::empty()
    } else {
        join_segments(kept.drop_last()) + seq!['/'] + kept.last()
    }
}

/// The canonical spelling of a list of retained segments: `/` alone when
/// nothing is retained.
pub open spec fn canonical_path(kept: Seq<Seq<char>>) -> Seq<char> {
    if kept.len() == 0 {
        seq!['/']
    } else {
        join_segments(kept)
    }
}

/// The canonical form of `path`, before the check for adjacent dots.
pub open spec fn canonical_form(path: Seq<char>) -> Seq<char> {
    canonical_path(retained_segments(split_segments(path)))
}

/// `s` holds two adjacent dots somewhere.
pub open spec fn has_double_dot(s: Seq<char>) -> bool {
    exists|i: int| 0 <= i && i + 1 < s.len() && s[i] == '.' && #[trigger] s[i + 1] == '.'
}

/// `s` holds two adjacent slashes somewhere.
pub open spec fn has_double_slash(s: Seq<char>) -> bool {
    exists|i: int| 0 <= i && i + 1 < s.len() && s[i] == '/' && #[trigger] s[i + 1] == '/'
}

/// What normalizing `path` yields: its canonical form, unless that form
/// holds two adjacent dots.
pub open spec fn normalize_spec(path: Seq<char>) -> Option<Seq<char>> {
    if has_double_dot(canonical_form(path)) {
        None
    } else {
        Some(canonical_form(path))
    }
}

/// A string always splits into at least one segment.
pub proof fn lemma_split_nonempty(s: Seq<char>)
    ensures
        split_segments(s).len() >= 1,
    decreases s.len(),
{
    if s.len() > 0 {
        lemma_split_nonempty(s.drop_last());
    }
}

/// The segments that a vector of character vectors stands for.
pub open spec fn segment_views(kept: Seq<Vec<char>>) -> Seq<Seq<char>> {
    Seq::new(kept.len(), |i: int| kept[i]@)
}

/// Reads one more segment into the retained segments.
fn retain_segment(kept: &mut Vec<Vec<char>>, seg: Vec<char>)
    ensures
        segment_views(final(kept)@) == retain_step(segment_views(old(kept)@), seg@),
{
    let n = seg.len();
    if n == 0 || (n == 1 && seg[0] == '.') {
        assert(segment_views(kept@) =~= segment_views(old(kept)@));
    } else if n == 2 && seg[0] == '.' && seg[1] == '.' {
        if kept.len() > 0 {
            kept.pop();
            assert(segment_views(kept@) =~= segment_views(old(kept)@).drop_last());
        }
    } else {
        kept.push(seg);
        assert(segment_views(kept@) =~= segment_views(old(kept)@).push(seg@));
    }
}

/// Splits `path` on slashes and retains its segments in one pass.
fn split_and_retain(path: &str) -> (kept: Vec<Vec<char>>)
    ensures
        segment_views(kept@) == retained_segments(split_segments(path@)),
{
    let mut kept: Vec<Vec<char>> = Vec::new();
    let mut current: Vec<char> = Vec::new();
    let mut it = path.chars();
    proof {
        assert(path@.take(0) =~= Seq::<char>::empty());
        assert(split_segments(path@.take(0)).drop_last() =~= Seq::<Seq<char>>::empty());
        assert(segment_views(kept@) =~= Seq::<Seq<char>>::empty());
    }
    for c in iter: it
        invariant
            iter.seq() == path@,
            split_segments(path@.take(iter.index() as int)).last() == current@,
            retained_segments(split_segments(path@.take(iter.index() as int)).drop_last())
                == segment_views(kept@),
    {
        proof {
            let i = iter.index() as int;
            let before = path@.take(i);
            let after = path@.take(i + 1);
            assert(after.drop_last() =~= before);
            assert(after.last() == c);
            lemma_split_nonempty(before);
            let segs = split_segments(before);
            if c == '/' {
                assert(split_segments(after).drop_last() =~= segs);
            } else {
                assert(split_segments(after).drop_last() =~= segs.drop_last());
            }
        }
        if c == '/' {
            retain_segment(&mut kept, current);
            current = Vec::new();
        } else {
            current.push(c);
        }
    }
    proof {
        assert(path@.take(path@.len() as int) =~= path@);
        lemma_split_nonempty(path@);
    }
    retain_segment(&mut kept, current);
    kept
}

/// Writes the retained segments in canonical form.
fn join_retained(kept: &Vec<Vec<char>>) -> (out: Vec<char>)
    ensures
        out@ == canonical_path(segment_views(kept@)),
{
    let mut out: Vec<char> = Vec::new();
    if kept.len() == 0 {
        out.push('/');
        assert(out@ =~= seq!['/']);
        return out;
    }
    let mut i: usize = 0;
    proof {
        assert(segment_views(kept@).take(0) =~= Seq::<Seq<char>>::empty());
    }
    while i < kept.len()
        invariant
            i <= kept.len(),
            out@ == join_segments(segment_views(kept@).take(i as int)),
        decreases kept.len() - i,
    {
        let seg = &kept[i];
        let ghost joined = out@;
        out.push('/');
        let mut j: usize = 0;
        while j < seg.len()
            invariant
                j <= seg.len(),
                out@ == joined + seq!['/'] + seg@.take(j as int),
            decreases seg.len() - j,
        {
            out.push(seg[j]);
            assert(seg@.take(j + 1) =~= seg@.take(j as int).push(seg@[j as int]));
            j += 1;
        }
        proof {
            let views = segment_views(kept@);
            assert(seg@.take(seg@.len() as int) =~= seg@);
            assert(views.take(i + 1).drop_last() =~= views.take(i as int));
            assert(views.take(i + 1).last() == seg@);
        }
        i += 1;
    }
    proof {
        let views = segment_views(kept@);
        assert(views.take(views.len() as int) =~= views);
    }
    out
}

/// Whether two adjacent dots occur in `s`.
fn contains_double_dot(s: &Vec<char>) -> (found: bool)
    ensures
        found == has_double_dot(s@),
{
    let mut i: usize = 1;
    while i < s.len()
        invariant
            1 <= i,
            forall|k: int| 0 <= k && k + 1 < i ==> !(s@[k] == '.' && #[trigger] s@[k + 1] == '.'),
        decreases s.len() - i,
    {
        if s[i - 1] == '.' && s[i] == '.' {
            assert(s@[(i - 1) + 1] == '.');
            return true;
        }
        i += 1;
    }
    false
}

/// Normalizes a request path.
///
/// The path is split on `/`; empty and `.` segments are dropped and each
/// `..` removes the segment retained before it (at the root it removes
/// nothing).  The result is the retained segments, each preceded by one
/// `/`, or `/` alone.  A result that still holds two adjacent dots is
/// rejected as a traversal attempt; no other error is returned.
pub fn normalize_path(path: &str) -> (r: Result<String, PathError>)
    ensures
        match r {
            Ok(p) => normalize_spec(path@) == Some(p@),
            Err(e) => normalize_spec(path@) is None && e is PathTraversal,
        },
        r matches Ok(p) ==> {
            &&& p@.len() >= 1
            &&& p@[0] == '/'
            &&& !has_double_slash(p@)
            &&& !has_double_dot(p@)
            &&& p@.len() > 1 ==> p@.last() != '/'
        },
{
    let kept = split_and_retain(path);
    let canonical = join_retained(&kept);
    proof {
        lemma_canonical_shape(path@);
    }
    if contains_double_dot(&canonical) {
        Err(PathError::PathTraversal)
    } else {
        Ok(chars_to_string(&canonical))
    }
}

/// `s` without the slashes at its start.
pub open spec fn trim_leading_slashes(s: Seq<char>) -> Seq<char>
    decreases s.len(),
{
    if s.len() > 0 && s[0] == '/' {
        trim_leading_slashes(s.drop_first())
    } else {
        s
    }
}

/// `s` without the slashes at its end.
pub open spec fn trim_trailing_slashes(s: Seq<char>) -> Seq<char>
    decreases s.len(),
{
    if s.len() > 0 && s.last() == '/' {
        trim_trailing_slashes(s.drop_last())
    } else {
        s
    }
}

/// `s` without the slashes at either end.
pub open spec fn trim_slashes(s: Seq<char>) -> Seq<char> {
    trim_trailing_slashes(trim_leading_slashes(s))
}

/// `path` begins with `/`, then `base`, and the base ends where the path
/// ends or where its next segment begins.
pub open spec fn has_base_prefix(path: Seq<char>, base: Seq<char>) -> bool {
    &&& path.len() >= base.len() + 1
    &&& path[0] == '/'
    &&& path.subrange(1, base.len() as int + 1) == base
    &&& (path.len() == base.len() + 1 || path[base.len() as int + 1] == '/')
}

/// `path` without its first character if that is a slash.
pub open spec fn drop_leading_slash(path: Seq<char>) -> Seq<char> {
    if path.len() > 0 && path[0] == '/' {
        path.drop_first()
    } else {
        path
    }
}

/// What is left of `path` below the mount base `base`.  Where the trimmed
/// base is empty, or the path does not lie below it, only the leading
/// slash of the path is removed.
pub open spec fn strip_base(path: Seq<char>, base: Seq<char>) -> Seq<char> {
    let mount = trim_slashes(base);
    if mount.len() > 0 && has_base_prefix(path, mount) {
        if path.len() == mount.len() + 1 {
            Seq::<char>::empty()
        } else {
            path.subrange(mount.len() as int + 2, path.len() as int)
        }
    } else {
        drop_leading_slash(path)
    }
}

/// The key under which the mount's index document is looked up.
pub open spec fn index_key() -> Seq<char> {
    "index.html"@
}

/// The asset key for `path` under the mount base `base`: what is left
/// below the base, or the index key where nothing is left.
pub open spec fn asset_key(path: Seq<char>, base: Seq<char>) -> Seq<char> {
    let rest = strip_base(path, base);
    if rest.len() == 0 {
        index_key()
    } else {
        rest
    }
}

/// The bounds of `s` without the slashes at either end.
fn trimmed_bounds(s: &Vec<char>) -> (bounds: (usize, usize))
    ensures
        bounds.0 <= bounds.1 <= s.len(),
        s@.subrange(bounds.0 as int, bounds.1 as int) == trim_slashes(s@),
{
    let mut start: usize = 0;
    proof {
        assert(s@.subrange(0, s@.len() as int) =~= s@);
    }
    while start < s.len() && s[start] == '/'
        invariant
            start <= s.len(),
            trim_leading_slashes(s@) == trim_leading_slashes(
                s@.subrange(start as int, s@.len() as int),
            ),
        decreases s.len() - start,
    {
        proof {
            assert(s@.subrange(start as int, s@.len() as int).drop_first() =~= s@.subrange(
                start + 1,
                s@.len() as int,
            ));
        }
        start += 1;
    }
    let ghost lead = s@.subrange(start as int, s@.len() as int);
    assert(trim_leading_slashes(s@) == lead);
    let mut end: usize = s.len();
    while end > start && s[end - 1] == '/'
        invariant
            start <= end <= s.len(),
            lead == s@.subrange(start as int, s@.len() as int),
            trim_trailing_slashes(lead) == trim_trailing_slashes(
                s@.subrange(start as int, end as int),
            ),
        decreases end - start,
    {
        proof {
            assert(s@.subrange(start as int, end as int).drop_last() =~= s@.subrange(
                start as int,
                end - 1,
            ));
        }
        end -= 1;
    }
    (start, end)
}

/// Whether `path` lies below the mount named by `base[from..to]`.
fn starts_with_base(path: &Vec<char>, base: &Vec<char>, from: usize, to: usize) -> (yes: bool)
    requires
        from <= to <= base.len(),
    ensures
        yes == has_base_prefix(path@, base@.subrange(from as int, to as int)),
{
    let n = to - from;
    let ghost mount = base@.subrange(from as int, to as int);
    if path.len() <= n || path[0] != '/' {
        return false;
    }
    let mut i: usize = 0;
    while i < n
        invariant
            i <= n,
            n == to - from,
            from <= to <= base.len(),
            n < path.len(),
            mount == base@.subrange(from as int, to as int),
            path@.subrange(1, i + 1) == mount.take(i as int),
        decreases n - i,
    {
        if path[i + 1] != base[from + i] {
            assert(path@.subrange(1, n + 1)[i as int] != mount[i as int]);
            return false;
        }
        assert(path@.subrange(1, i + 2) =~= path@.subrange(1, i + 1).push(path@[i + 1]));
        assert(mount.take(i + 1) =~= mount.take(i as int).push(mount[i as int]));
        i += 1;
    }
    assert(mount.take(n as int) =~= mount);
    path.len() == n + 1 || path[n + 1] == '/'
}

/// Maps a normalized path to the key of the asset it names below the
/// mount base.
///
/// Slashes at either end of `base` are ignored.  A path that is `/base`,
/// or begins with `/base/`, loses that prefix; any other path, and every
/// path where the base is empty, loses only its leading slash.  Where
/// nothing is left the key is `index.html`, so that the mount point
/// itself names the index document.
pub fn relative_to_base(path: &str, base: &str) -> (key: String)
    ensures
        key@ == asset_key(path@, base@),
{
    let path_chars = str_chars(path);
    let base_chars = str_chars(base);
    let (from, to) = trimmed_bounds(&base_chars);
    let n = to - from;
    let start: usize = if n > 0 && starts_with_base(&path_chars, &base_chars, from, to) {
        if path_chars.len() == n + 1 {
            n + 1
        } else {
            n + 2
        }
    } else if path_chars.len() > 0 && path_chars[0] == '/' {
        1
    } else {
        0
    };
    if start == path_chars.len() {
        assert(strip_base(path@, base@) =~= Seq::<char>::empty());
        return "index.html".to_owned();
    }
    let mut rest: Vec<char> = Vec::new();
    let mut i: usize = start;
    while i < path_chars.len()
        invariant
            start <= i <= path_chars.len(),
            rest@ == path_chars@.subrange(start as int, i as int),
        decreases path_chars.len() - i,
    {
        rest.push(path_chars[i]);
        assert(path_chars@.subrange(start as int, i + 1) =~= path_chars@.subrange(
            start as int,
            i as int,
        ).push(path_chars@[i as int]));
        i += 1;
    }
    assert(rest@ =~= strip_base(path@, base@));
    chars_to_string(&rest)
}

} // verus!
