//! Conversions between strings and character vectors.
//!
//! The path rules are stated over sequences of characters; the functions
//! here move text in and out of `Vec<char>` so that the rules can index it.

use vstd::prelude::*;
use vstd::std_specs::iter::IteratorSpec;

verus! {

/// `String::push` appends one character to the end of the string.
pub assume_specification[ String::push ](s: &mut String, ch: char)
    ensures
        final(s)@ == old(s)@.push(ch),
;

/// The characters of `s`, in order.
pub fn str_chars(s: &str) -> (chars: Vec<char>)
    ensures
        chars@ == s@,
{
    let mut chars: Vec<char> = Vec::new();
    let mut it = s.chars();
    for c in iter: it
        invariant
            chars@ == iter.seq().take(iter.index() as int),
    {
        chars.push(c);
    }
    chars
}

/// A string holding exactly the characters of `chars`.
pub fn chars_to_string(chars: &Vec<char>) -> (s: String)
    ensures
        s@ == chars@,
{
    let mut s = String::new();
    let mut i: usize = 0;
    while i < chars.len()
        invariant
            i <= chars.len(),
            s@ == chars@.take(i as int),
        decreases chars.len() - i,
    {
        s.push(chars[i]);
        i += 1;
    }
    s
}

/// Whether `a` and `b` hold the same characters.
pub fn same_text(a: &str, b: &str) -> (same: bool)
    ensures
        same == (a@ == b@),
{
    let mut xs = a.chars();
    let mut ys = b.chars();
    let ghost mut read: Seq<char> = Seq::empty();
    proof {
        assert(read + a@ =~= a@);
        assert(read + b@ =~= b@);
    }
    loop
        invariant
            a@ == read + xs.remaining(),
            b@ == read + ys.remaining(),
        decreases a@.len() - read.len(),
    {
        let ghost left = xs.remaining();
        let ghost right = ys.remaining();
        let x = xs.next();
        let y = ys.next();
        match (x, y) {
            (Some(c), Some(d)) => {
                if c != d {
                    assert(a@[read.len() as int] == c);
                    assert(b@[read.len() as int] == d);
                    return false;
                }
                proof {
                    assert(read.push(c) + left.drop_first() =~= read + left);
                    assert(read.push(c) + right.drop_first() =~= read + right);
                    read = read.push(c);
                }
            },
            (None, None) => {
                assert(left =~= right);
                return true;
            },
            _ => {
                assert(a@.len() != b@.len());
                return false;
            },
        }
    }
}

/// The texts that a sequence of strings stands for.
pub open spec fn text_views(texts: Seq<String>) -> Seq<Seq<char>> {
    Seq::new(texts.len(), |i: int| texts[i]@)
}

} // verus!
