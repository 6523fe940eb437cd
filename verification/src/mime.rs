//! MIME classification of asset keys.
//!
//! An index document is always `text/html`.  Any other key is classified
//! by the extension of its file name, through the extension table of the
//! `mime_guess` crate.

use crate::config::{is_index_document, SpaConfig};
use crate::error::SpaError;
use crate::text::{chars_to_string, str_chars};
use vstd::prelude::*;

verus! {

/// The position of the last dot in the file name of `key`, that is in the
/// text after its last slash.
pub open spec fn last_dot_in_name(key: Seq<char>) -> Option<int>
    decreases key.len(),
{
    if key.len() == 0 || key.last() == '/' {
        None
    } else if key.last() == '.' {
        Some(key.len() - 1)
    } else {
        last_dot_in_name(key.drop_last())
    }
}

/// The extension of `key`: the text after the last dot of its file name,
/// unless the name has no dot or only begins with one.
pub open spec fn extension_spec(key: Seq<char>) -> Option<Seq<char>> {
    match last_dot_in_name(key) {
        Some(dot) => if dot > 0 && key[dot - 1] != '/' {
            Some(key.subrange(dot + 1, key.len() as int))
        } else {
            None
        },
        None => None,
    }
}

/// The extension of `key`, if it has one.
pub fn extension_of(key: &str) -> (ext: Option<String>)
    ensures
        match ext {
            Some(text) => extension_spec(key@) == Some(text@),
            None => extension_spec(key@) is None,
        },
{
    let chars = str_chars(key);
    let mut end: usize = chars.len();
    proof {
        assert(chars@.take(end as int) =~= chars@);
    }
    while end > 0 && chars[end - 1] != '/' && chars[end - 1] != '.'
        invariant
            end <= chars.len(),
            last_dot_in_name(chars@) == last_dot_in_name(chars@.take(end as int)),
        decreases end,
    {
        proof {
            assert(chars@.take(end as int).drop_last() =~= chars@.take(end - 1));
        }
        end -= 1;
    }
    if end == 0 || chars[end - 1] == '/' {
        return None;
    }
    let dot = end - 1;
    assert(last_dot_in_name(chars@) == Some(dot as int));
    if dot == 0 || chars[dot - 1] == '/' {
        return None;
    }
    let mut ext: Vec<char> = Vec::new();
    let mut i: usize = end;
    while i < chars.len()
        invariant
            end <= i <= chars.len(),
            ext@ == chars@.subrange(end as int, i as int),
        decreases chars.len() - i,
    {
        ext.push(chars[i]);
        assert(chars@.subrange(end as int, i + 1) =~= chars@.subrange(end as int, i as int).push(
            chars@[i as int],
        ));
        i += 1;
    }
    Some(chars_to_string(&ext))
}

/// The first MIME type that the extension table of `mime_guess` lists for
/// the extension `ext`, if it lists one.
pub uninterp spec fn mime_of_extension(ext: Seq<char>) -> Option<Seq<char>>;

/// Looks `ext` up in the extension table: `mime_guess::from_ext`, then
/// `MimeGuess::first_raw`.  The table is fixed when the crate is built, so
/// the answer depends on `ext` alone; nothing is claimed of which type is
/// listed for which extension.
#[verifier::external_body]
fn guess_by_extension(ext: &str) -> (guess: Option<&'static str>)
    ensures
        match guess {
            Some(mime) => mime_of_extension(ext@) == Some(mime@),
            None => mime_of_extension(ext@) is None,
        },
{
    mime_guess::from_ext(ext).first_raw()
}

/// What the extension table says of `key`.
pub open spec fn guessed_mime(key: Seq<char>) -> Option<Seq<char>> {
    match extension_spec(key) {
        Some(ext) => mime_of_extension(ext),
        None => None,
    }
}

/// The MIME type of every index document.
pub open spec fn html_mime() -> Seq<char> {
    "text/html"@
}

/// The MIME type of `key`, given what the extension table says of it: an
/// index document is `text/html` whatever the table says.
pub open spec fn classify_spec(
    key: Seq<char>,
    index_files: Seq<Seq<char>>,
    guess: Option<Seq<char>>,
) -> Option<Seq<char>> {
    if is_index_document(key, index_files) {
        Some(html_mime())
    } else {
        guess
    }
}

/// Turns the answer of the extension table into a classification: a
/// listed type is the MIME type, and no listing is a failure.
pub fn mime_from_guess(guess: Option<&'static str>) -> (r: Result<&'static str, SpaError>)
    ensures
        match guess {
            Some(mime) => r == Ok::<&'static str, SpaError>(mime),
            None => r == Err::<&'static str, SpaError>(SpaError::MimeDetection),
        },
{
    match guess {
        Some(mime) => Ok(mime),
        None => Err(SpaError::MimeDetection),
    }
}

/// Classifies the asset stored under `key`.
///
/// An index document of `config` is `text/html`, and the extension table
/// is not consulted for it.  Any other key has the type that the table
/// lists for its extension; a key without an extension, or with one that
/// the table does not list, fails with `MimeDetection`.
pub fn classify(key: &str, config: &SpaConfig) -> (r: Result<&'static str, SpaError>)
    ensures
        match classify_spec(key@, config@.index_files, guessed_mime(key@)) {
            Some(mime) => r matches Ok(found) && found@ == mime,
            None => r == Err::<&'static str, SpaError>(SpaError::MimeDetection),
        },
{
    if config.is_index_document(key) {
        Ok("text/html")
    } else {
        let guess = match extension_of(key) {
            Some(ext) => guess_by_extension(ext.as_str()),
            None => None,
        };
        mime_from_guess(guess)
    }
}

} // verus!
