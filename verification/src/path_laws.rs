//! What holds of every normalized path and of every asset key made from
//! one.

use crate::path::{
    asset_key, canonical_form, has_double_dot, has_double_slash, index_key, is_current_dir,
    is_parent_dir, join_segments, lemma_split_nonempty, normalize_spec, retained_segments,
    split_segments, strip_base, trim_slashes,
};
use vstd::prelude::*;

verus! {

/// `s` holds no slash.
pub open spec fn slash_free(s: Seq<char>) -> bool {
    forall|i: int| 0 <= i < s.len() ==> s[i] != '/'
}

/// A segment that normalization retains: it names something, so it is
/// neither empty nor `.` nor `..`, and it holds no slash.
pub open spec fn is_plain_segment(seg: Seq<char>) -> bool {
    &&& seg.len() > 0
    &&& slash_free(seg)
    &&& !is_current_dir(seg)
    &&& !is_parent_dir(seg)
}

/// Every segment of `kept` is plain.
pub open spec fn all_plain(kept: Seq<Seq<char>>) -> bool {
    forall|i: int| 0 <= i < kept.len() ==> is_plain_segment(#[trigger] kept[i])
}

/// No segment of a split string holds a slash.
pub proof fn lemma_split_slash_free(s: Seq<char>)
    ensures
        forall|i: int|
            0 <= i < split_segments(s).len() ==> slash_free(#[trigger] split_segments(s)[i]),
    decreases s.len(),
{
    if s.len() > 0 {
        lemma_split_slash_free(s.drop_last());
        lemma_split_nonempty(s.drop_last());
    }
}

/// Reading slash-free segments retains only plain segments.
pub proof fn lemma_retained_plain(segs: Seq<Seq<char>>)
    requires
        forall|i: int| 0 <= i < segs.len() ==> slash_free(#[trigger] segs[i]),
    ensures
        all_plain(retained_segments(segs)),
    decreases segs.len(),
{
    if segs.len() > 0 {
        lemma_retained_plain(segs.drop_last());
    }
}

/// Appending slash-free text to a string extends its last segment.
pub proof fn lemma_split_append(s: Seq<char>, tail: Seq<char>)
    requires
        slash_free(tail),
    ensures
        split_segments(s + tail) == split_segments(s).drop_last().push(
            split_segments(s).last() + tail,
        ),
    decreases tail.len(),
{
    lemma_split_nonempty(s);
    let segs = split_segments(s);
    if tail.len() == 0 {
        assert(s + tail =~= s);
        assert(segs.last() + tail =~= segs.last());
        assert(segs.drop_last().push(segs.last()) =~= segs);
    } else {
        let shorter = tail.drop_last();
        lemma_split_append(s, shorter);
        assert((s + tail).drop_last() =~= s + shorter);
        assert((s + tail).last() == tail.last());
        assert(tail.last() != '/');
        let before = split_segments(s + shorter);
        assert(before.drop_last() =~= segs.drop_last());
        assert(before.last().push(tail.last()) =~= segs.last() + tail);
    }
}

/// Splitting the joined form of plain segments gives them back, after one
/// empty segment for the text before the first slash.
pub proof fn lemma_split_join(kept: Seq<Seq<char>>)
    requires
        all_plain(kept),
    ensures
        split_segments(join_segments(kept)) == seq![Seq::<char>::empty()] + kept,
    decreases kept.len(),
{
    let empty = Seq::<char>::empty();
    if kept.len() == 0 {
        assert(seq![empty] + kept =~= seq![empty]);
    } else {
        let init = kept.drop_last();
        let last = kept.last();
        assert(is_plain_segment(kept[kept.len() - 1]));
        assert forall|i: int| 0 <= i < init.len() implies is_plain_segment(
            #[trigger] init[i],
        ) by {
            assert(init[i] == kept[i]);
        }
        lemma_split_join(init);
        let head = join_segments(init) + seq!['/'];
        assert(head.drop_last() =~= join_segments(init));
        assert(split_segments(head) == split_segments(join_segments(init)).push(empty));
        lemma_split_append(head, last);
        assert(empty + last =~= last);
        assert(split_segments(head).drop_last() =~= seq![empty] + init);
        assert((seq![empty] + init).push(last) =~= seq![empty] + kept);
    }
}

/// Reading plain segments retains all of them, and a leading empty
/// segment changes nothing.
pub proof fn lemma_retained_of_plain(kept: Seq<Seq<char>>)
    requires
        all_plain(kept),
    ensures
        retained_segments(seq![Seq::<char>::empty()] + kept) == kept,
    decreases kept.len(),
{
    let empty = Seq::<char>::empty();
    let segs = seq![empty] + kept;
    if kept.len() == 0 {
        assert(retained_segments(Seq::<Seq<char>>::empty()) =~= Seq::<Seq<char>>::empty());
        assert(segs.drop_last() =~= Seq::<Seq<char>>::empty());
        assert(segs.last() == empty);
        assert(retained_segments(segs) =~= kept);
    } else {
        let init = kept.drop_last();
        assert(is_plain_segment(kept[kept.len() - 1]));
        assert forall|i: int| 0 <= i < init.len() implies is_plain_segment(
            #[trigger] init[i],
        ) by {
            assert(init[i] == kept[i]);
        }
        lemma_retained_of_plain(init);
        assert(segs.drop_last() =~= seq![empty] + init);
        assert(segs.last() == kept.last());
        assert(init.push(kept.last()) =~= kept);
    }
}

/// The segments that normalization retains are plain.
pub proof fn lemma_canonical_segments_plain(path: Seq<char>)
    ensures
        all_plain(retained_segments(split_segments(path))),
{
    lemma_split_slash_free(path);
    lemma_retained_plain(split_segments(path));
}

/// The canonical form of a canonical form is itself.
pub proof fn lemma_canonical_form_idempotent(path: Seq<char>)
    ensures
        canonical_form(canonical_form(path)) == canonical_form(path),
{
    let empty = Seq::<char>::empty();
    let kept = retained_segments(split_segments(path));
    lemma_canonical_segments_plain(path);
    if kept.len() == 0 {
        let root = seq!['/'];
        assert(split_segments(empty) =~= seq![empty]);
        assert(root.drop_last() =~= empty);
        assert(root.last() == '/');
        let segs = split_segments(root);
        assert(segs =~= seq![empty].push(empty));
        lemma_retained_of_plain(kept);
        assert(seq![empty] + kept =~= seq![empty]);
        assert(segs.drop_last() =~= seq![empty]);
        assert(segs.last() == empty);
        assert(retained_segments(segs) =~= kept);
    } else {
        lemma_split_join(kept);
        lemma_retained_of_plain(kept);
    }
}

/// Normalizing is idempotent: a path that normalization accepts
/// normalizes to a path that normalizes to itself.
pub proof fn lemma_normalize_idempotent(path: Seq<char>)
    ensures
        normalize_spec(path) matches Some(once) ==> normalize_spec(once) == Some(once),
{
    lemma_canonical_form_idempotent(path);
}

/// The joined form of one or more plain segments begins with a slash,
/// does not end with one, and holds no two adjacent slashes.
pub proof fn lemma_join_shape(kept: Seq<Seq<char>>)
    requires
        all_plain(kept),
        kept.len() > 0,
    ensures
        join_segments(kept).len() >= 2,
        join_segments(kept)[0] == '/',
        join_segments(kept).last() != '/',
        !has_double_slash(join_segments(kept)),
    decreases kept.len(),
{
    let init = kept.drop_last();
    let last = kept.last();
    let head = join_segments(init);
    let joined = join_segments(kept);
    assert(is_plain_segment(kept[kept.len() - 1]));
    assert(joined == head + seq!['/'] + last);
    assert(joined.last() == last.last());
    if init.len() == 0 {
        assert(head =~= Seq::<char>::empty());
    } else {
        assert forall|i: int| 0 <= i < init.len() implies is_plain_segment(
            #[trigger] init[i],
        ) by {
            assert(init[i] == kept[i]);
        }
        lemma_join_shape(init);
    }
    assert forall|i: int| 0 <= i && i + 1 < joined.len() implies !(joined[i] == '/'
        && #[trigger] joined[i + 1] == '/') by {
        if i + 1 < head.len() {
            assert(joined[i] == head[i] && joined[i + 1] == head[i + 1]);
        } else if i + 1 == head.len() {
            assert(joined[i] == head.last());
        } else {
            assert(joined[i + 1] == last[i - head.len()]);
        }
    }
}

/// A canonical form begins with a slash, holds no two adjacent slashes,
/// and ends with a slash only where it is `/` itself.
pub proof fn lemma_canonical_shape(path: Seq<char>)
    ensures
        canonical_form(path).len() >= 1,
        canonical_form(path)[0] == '/',
        !has_double_slash(canonical_form(path)),
        canonical_form(path).len() > 1 ==> canonical_form(path).last() != '/',
{
    let kept = retained_segments(split_segments(path));
    lemma_canonical_segments_plain(path);
    if kept.len() > 0 {
        lemma_join_shape(kept);
    }
}

/// The index key is ten characters long and holds neither a slash nor two
/// adjacent dots.
pub proof fn lemma_index_key_shape()
    ensures
        index_key().len() == 10,
        slash_free(index_key()),
        !has_double_dot(index_key()),
        !has_double_slash(index_key()),
{
    reveal_strlit("index.html");
    let key = index_key();
    assert(key =~= seq!['i', 'n', 'd', 'e', 'x', '.', 'h', 't', 'm', 'l']);
}

/// The key made from a canonical form is never empty, never begins with a
/// slash, holds no two adjacent slashes, and holds two adjacent dots only
/// where the canonical form did.
pub proof fn lemma_asset_key_relative(path: Seq<char>, base: Seq<char>)
    ensures
        asset_key(canonical_form(path), base).len() > 0,
        asset_key(canonical_form(path), base)[0] != '/',
        !has_double_slash(asset_key(canonical_form(path), base)),
        !has_double_dot(canonical_form(path)) ==> !has_double_dot(
            asset_key(canonical_form(path), base),
        ),
{
    let full = canonical_form(path);
    let rest = strip_base(full, base);
    let key = asset_key(full, base);
    lemma_canonical_shape(path);
    lemma_index_key_shape();
    if rest.len() > 0 {
        // `rest` is the end of `full`, from some offset on.
        let offset = full.len() - rest.len();
        assert(rest =~= full.subrange(offset, full.len() as int));
        assert(offset >= 1);
        assert(full[offset - 1] == '/');
        assert(rest[0] == full[(offset - 1) + 1]);
        assert forall|i: int| 0 <= i && i + 1 < rest.len() implies !(rest[i] == '/'
            && #[trigger] rest[i + 1] == '/') by {
            assert(rest[i + 1] == full[(offset + i) + 1]);
        }
        if !has_double_dot(full) {
            assert forall|i: int| 0 <= i && i + 1 < rest.len() implies !(rest[i] == '.'
                && #[trigger] rest[i + 1] == '.') by {
                assert(rest[i + 1] == full[(offset + i) + 1]);
            }
        }
    }
}

/// A base without slashes at its ends is its own trimmed form.
pub proof fn lemma_trim_of_trimmed(base: Seq<char>)
    requires
        base.len() > 0 ==> base[0] != '/' && base.last() != '/',
    ensures
        trim_slashes(base) == base,
{
}

/// Stripping undoes mounting: the path `/base/rest` has the key `rest`
/// below `base`, and the mount point `/base` itself, with or without a
/// slash after it, has the index key.
pub proof fn lemma_key_below_base(base: Seq<char>, rest: Seq<char>)
    requires
        base.len() > 0,
        base[0] != '/',
        base.last() != '/',
    ensures
        asset_key(seq!['/'] + base, base) == index_key(),
        asset_key(seq!['/'] + base + seq!['/'] + rest, base) == (if rest.len() == 0 {
            index_key()
        } else {
            rest
        }),
{
    lemma_trim_of_trimmed(base);
    let mount = seq!['/'] + base;
    assert(mount.subrange(1, base.len() as int + 1) =~= base);
    assert(strip_base(mount, base) =~= Seq::<char>::empty());
    let full = seq!['/'] + base + seq!['/'] + rest;
    assert(full.subrange(1, base.len() as int + 1) =~= base);
    assert(full[base.len() as int + 1] == '/');
    assert(full.subrange(base.len() as int + 2, full.len() as int) =~= rest);
    assert(strip_base(full, base) =~= rest);
}

} // verus!
