//! Cleanup of a raw request path before it is resolved: every run of
//! slashes becomes one slash.

use crate::path::{canonical_form, lemma_split_nonempty, normalize_spec, retained_segments, split_segments};
use vstd::prelude::*;

verus! {

/// `s` without every slash that directly follows a slash.
pub open spec fn collapse_slashes(s: Seq<char>) -> Seq<char>
    decreases s.len(),
{
    if s.len() == 0 {
        s
    } else {
        let before = collapse_slashes(s.drop_last());
        if s.last() == '/' && s.len() >= 2 && s[s.len() - 2] == '/' {
            before
        } else {
            before.push(s.last())
        }
    }
}

/// Compiles `pattern` with `Regex::new` and replaces every match in
/// `text` with `Regex::replace_all`.  The contract speaks of one pattern
/// only: `/+` matches each longest run of slashes, and replacing each
/// match by `/` leaves one slash per run.
#[verifier::external_body]
fn replace_all(pattern: &str, text: &str, replacement: &str) -> (replaced: String)
    requires
        pattern@ == "/+"@,
        replacement@ == "/"@,
    ensures
        replaced@ == collapse_slashes(text@),
{
    regex::Regex::new(pattern).unwrap().replace_all(text, replacement).into_owned()
}

/// The request path with every run of slashes collapsed to one slash.
pub fn clean_request_path(path: &str) -> (cleaned: String)
    ensures
        cleaned@ == collapse_slashes(path@),
{
    replace_all("/+", path, "/")
}

/// A collapsed string ends as the string itself ends, and splits into
/// the same last segment and the same retained segments before it.
proof fn lemma_collapse_segments(s: Seq<char>)
    ensures
        collapse_slashes(s).len() == 0 <==> s.len() == 0,
        s.len() > 0 ==> collapse_slashes(s).last() == s.last(),
        split_segments(collapse_slashes(s)).last() == split_segments(s).last(),
        retained_segments(split_segments(collapse_slashes(s)).drop_last()) == retained_segments(
            split_segments(s).drop_last(),
        ),
    decreases s.len(),
{
    if s.len() > 0 {
        let init = s.drop_last();
        let before = collapse_slashes(init);
        lemma_collapse_segments(init);
        lemma_split_nonempty(init);
        lemma_split_nonempty(before);
        let segs = split_segments(init);
        let clean_segs = split_segments(before);
        if s.last() == '/' && s.len() >= 2 && s[s.len() - 2] == '/' {
            assert(init.last() == '/');
            assert(segs.last() =~= Seq::<char>::empty());
            assert(split_segments(s).drop_last() =~= segs);
        } else {
            let after = before.push(s.last());
            assert(after.drop_last() =~= before);
            if s.last() == '/' {
                assert(split_segments(s).drop_last() =~= segs);
                assert(split_segments(after).drop_last() =~= clean_segs);
            } else {
                assert(split_segments(s).drop_last() =~= segs.drop_last());
                assert(split_segments(after).drop_last() =~= clean_segs.drop_last());
            }
        }
    }
}

/// Collapsing runs of slashes changes neither the canonical form of a
/// path nor what normalizing it yields.
pub proof fn lemma_collapse_keeps_normal_form(path: Seq<char>)
    ensures
        canonical_form(collapse_slashes(path)) == canonical_form(path),
        normalize_spec(collapse_slashes(path)) == normalize_spec(path),
{
    lemma_collapse_segments(path);
    lemma_split_nonempty(path);
    lemma_split_nonempty(collapse_slashes(path));
}

} // verus!
