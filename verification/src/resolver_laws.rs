//! What holds of every resolution.

use crate::config::{is_index_document, SpaConfigView};
use crate::error::SpaError;
use crate::mime::html_mime;
use crate::path::{asset_key, has_double_dot, index_key, normalize_spec};
use crate::path_laws::lemma_asset_key_relative;
use crate::resolver::{fallback_key, first_present, resolve_spec, serve_spec};
use vstd::prelude::*;

verus! {

/// The first name that a store holds is found behind any number of names
/// that it does not hold.
pub proof fn lemma_first_present_at(
    names: Seq<Seq<char>>,
    store: Map<Seq<char>, Seq<u8>>,
    at: int,
)
    requires
        0 <= at < names.len(),
        store.contains_key(names[at]),
        forall|k: int| 0 <= k < at ==> !store.contains_key(#[trigger] names[k]),
    ensures
        first_present(names, store) == Some(names[at]),
    decreases names.len(),
{
    if at > 0 {
        let rest = names.drop_first();
        assert(!store.contains_key(names[0]));
        assert forall|k: int| 0 <= k < at - 1 implies !store.contains_key(#[trigger] rest[k]) by {
            assert(rest[k] == names[k + 1]);
        }
        lemma_first_present_at(rest, store, at - 1);
    }
}

/// Among names that a store does not hold, none is found.
pub proof fn lemma_first_present_none(names: Seq<Seq<char>>, store: Map<Seq<char>, Seq<u8>>)
    requires
        forall|k: int| 0 <= k < names.len() ==> !store.contains_key(#[trigger] names[k]),
    ensures
        first_present(names, store) is None,
    decreases names.len(),
{
    if names.len() > 0 {
        let rest = names.drop_first();
        assert(!store.contains_key(names[0]));
        assert forall|k: int| 0 <= k < rest.len() implies !store.contains_key(#[trigger] rest[k]) by {
            assert(rest[k] == names[k + 1]);
        }
        lemma_first_present_none(rest, store);
    }
}

/// What is found among some names is one of them, and the store holds it.
pub proof fn lemma_first_present_is_held(names: Seq<Seq<char>>, store: Map<Seq<char>, Seq<u8>>)
    ensures
        first_present(names, store) matches Some(name) ==> names.contains(name)
            && store.contains_key(name),
    decreases names.len(),
{
    if names.len() > 0 && !store.contains_key(names[0]) {
        let rest = names.drop_first();
        lemma_first_present_is_held(rest, store);
        if let Some(name) = first_present(rest, store) {
            let k = choose|k: int| 0 <= k < rest.len() && rest[k] == name;
            assert(names[k + 1] == name);
        }
    }
}

/// Fallback order: for a key that names no asset, the first configured
/// index document that exists is served, as `text/html`.
pub proof fn lemma_fallback_serves_first_index(
    key: Seq<char>,
    index_files: Seq<Seq<char>>,
    store: Map<Seq<char>, Seq<u8>>,
    guess: Option<Seq<char>>,
    at: int,
)
    requires
        !store.contains_key(key),
        0 <= at < index_files.len(),
        store.contains_key(index_files[at]),
        forall|k: int| 0 <= k < at ==> !store.contains_key(#[trigger] index_files[k]),
    ensures
        serve_spec(key, index_files, store, guess) == Ok::<(Seq<u8>, Seq<char>), SpaError>(
            (store[index_files[at]], html_mime()),
        ),
{
    let names = index_files.push(index_key());
    assert(names[at] == index_files[at]);
    assert forall|k: int| 0 <= k < at implies !store.contains_key(#[trigger] names[k]) by {
        assert(names[k] == index_files[k]);
    }
    lemma_first_present_at(names, store, at);
}

/// Where no configured index document exists, `index.html` is served if
/// it exists.
pub proof fn lemma_fallback_last_resort(
    key: Seq<char>,
    index_files: Seq<Seq<char>>,
    store: Map<Seq<char>, Seq<u8>>,
    guess: Option<Seq<char>>,
)
    requires
        !store.contains_key(key),
        store.contains_key(index_key()),
        forall|k: int| 0 <= k < index_files.len() ==> !store.contains_key(#[trigger] index_files[k]),
    ensures
        serve_spec(key, index_files, store, guess) == Ok::<(Seq<u8>, Seq<char>), SpaError>(
            (store[index_key()], html_mime()),
        ),
{
    let names = index_files.push(index_key());
    assert forall|k: int| 0 <= k < index_files.len() implies !store.contains_key(
        #[trigger] names[k],
    ) by {
        assert(names[k] == index_files[k]);
    }
    lemma_first_present_at(names, store, index_files.len() as int);
}

/// A store without assets serves nothing: every key fails with
/// `IndexFileNotFound`.
pub proof fn lemma_empty_store_serves_nothing(
    key: Seq<char>,
    index_files: Seq<Seq<char>>,
    guess: Option<Seq<char>>,
)
    ensures
        serve_spec(key, index_files, Map::<Seq<char>, Seq<u8>>::empty(), guess) == Err::<
            (Seq<u8>, Seq<char>),
            SpaError,
        >(SpaError::IndexFileNotFound),
{
    lemma_first_present_none(index_files.push(index_key()), Map::<Seq<char>, Seq<u8>>::empty());
}

/// Against a store without assets, every path that normalization accepts
/// fails with `IndexFileNotFound`, and every other path with the
/// rejection of the path.
pub proof fn lemma_empty_store_resolves_nothing(raw: Seq<char>, config: SpaConfigView)
    ensures
        resolve_spec(raw, config, Map::<Seq<char>, Seq<u8>>::empty()) is Err,
        normalize_spec(raw) is Some ==> resolve_spec(
            raw,
            config,
            Map::<Seq<char>, Seq<u8>>::empty(),
        ) == Err::<(Seq<u8>, Seq<char>), SpaError>(SpaError::IndexFileNotFound),
{
    if let Some(path) = normalize_spec(raw) {
        let key = asset_key(path, config.base_path);
        lemma_empty_store_serves_nothing(
            key,
            config.index_files,
            crate::mime::guessed_mime(key),
        );
    }
}

/// An index document is always served as `text/html`: the one that a key
/// names, and the one that stands in for a key that names no asset.
/// What is served is always content of the store.
pub proof fn lemma_index_documents_are_html(
    key: Seq<char>,
    index_files: Seq<Seq<char>>,
    store: Map<Seq<char>, Seq<u8>>,
    guess: Option<Seq<char>>,
)
    ensures
        store.contains_key(key) && is_index_document(key, index_files) ==> serve_spec(
            key,
            index_files,
            store,
            guess,
        ) == Ok::<(Seq<u8>, Seq<char>), SpaError>((store[key], html_mime())),
        !store.contains_key(key) ==> match serve_spec(key, index_files, store, guess) {
            Ok((bytes, mime)) => {
                &&& mime == html_mime()
                &&& fallback_key(index_files, store) matches Some(name)
                &&& is_index_document(name, index_files)
                &&& store.contains_key(name)
                &&& bytes == store[name]
            },
            Err(error) => error == SpaError::IndexFileNotFound,
        },
{
    let names = index_files.push(index_key());
    lemma_first_present_is_held(names, store);
    if let Some(name) = first_present(names, store) {
        let k = choose|k: int| 0 <= k < names.len() && names[k] == name;
        if k < index_files.len() {
            assert(index_files[k] == name);
        }
    }
}

/// The key that a resolution looks up is never empty, never begins with
/// a slash, and never holds two adjacent dots.
pub proof fn lemma_resolved_key_is_relative(raw: Seq<char>, base: Seq<char>)
    ensures
        normalize_spec(raw) matches Some(path) ==> {
            &&& asset_key(path, base).len() > 0
            &&& asset_key(path, base)[0] != '/'
            &&& !has_double_dot(asset_key(path, base))
        },
{
    lemma_asset_key_relative(raw, base);
}

} // verus!
