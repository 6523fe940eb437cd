//! Resolution of a request path to an asset: the asset that the path
//! names, or else the first index document that exists.

use crate::cleanup::{clean_request_path, lemma_collapse_keeps_normal_form};
use crate::config::{SpaConfig, SpaConfigView};
use crate::error::SpaError;
use crate::mime::{classify, classify_spec, guessed_mime, html_mime};
use crate::path::{asset_key, index_key, normalize_path, normalize_spec, relative_to_base, PathError};
use crate::store::AssetStore;
use vstd::prelude::*;

verus! {

/// The first of `names` that `store` holds, if it holds any of them.
pub open spec fn first_present(names: Seq<Seq<char>>, store: Map<Seq<char>, Seq<u8>>) -> Option<
    Seq<char>,
>
    decreases names.len(),
{
    if names.len() == 0 {
        None
    } else if store.contains_key(names[0]) {
        Some(names[0])
    } else {
        first_present(names.drop_first(), store)
    }
}

/// The document served where the requested key names no asset: the first
/// configured index document that exists, and `index.html` as the last
/// resort.
pub open spec fn fallback_key(index_files: Seq<Seq<char>>, store: Map<Seq<char>, Seq<u8>>) -> Option<
    Seq<char>,
> {
    first_present(index_files.push(index_key()), store)
}

/// What is served for the asset key `key`, as content and MIME type,
/// given what the extension table says of the key.
pub open spec fn serve_spec(
    key: Seq<char>,
    index_files: Seq<Seq<char>>,
    store: Map<Seq<char>, Seq<u8>>,
    guess: Option<Seq<char>>,
) -> Result<(Seq<u8>, Seq<char>), SpaError> {
    if store.contains_key(key) {
        match classify_spec(key, index_files, guess) {
            Some(mime) => Ok((store[key], mime)),
            None => Err(SpaError::MimeDetection),
        }
    } else {
        match fallback_key(index_files, store) {
            Some(name) => Ok((store[name], html_mime())),
            None => Err(SpaError::IndexFileNotFound),
        }
    }
}

/// What is served for the request path `raw`.
pub open spec fn resolve_spec(
    raw: Seq<char>,
    config: SpaConfigView,
    store: Map<Seq<char>, Seq<u8>>,
) -> Result<(Seq<u8>, Seq<char>), SpaError> {
    match normalize_spec(raw) {
        Some(path) => {
            let key = asset_key(path, config.base_path);
            serve_spec(key, config.index_files, store, guessed_mime(key))
        },
        None => Err(SpaError::PathError(PathError::PathTraversal)),
    }
}

/// An outcome of the resolver as plain values.
pub open spec fn outcome_view(outcome: Result<(&[u8], &'static str), SpaError>) -> Result<
    (Seq<u8>, Seq<char>),
    SpaError,
> {
    match outcome {
        Ok((bytes, mime)) => Ok((bytes@, mime@)),
        Err(error) => Err(error),
    }
}

/// Resolves request paths against one configuration and one asset store.
pub struct SpaHandler {
    config: SpaConfig,
    store: AssetStore,
}

impl SpaHandler {
    /// The configuration that the handler was made with.
    pub closed spec fn config(&self) -> SpaConfigView {
        self.config@
    }

    /// The assets that the handler was made with.
    pub closed spec fn assets(&self) -> Map<Seq<char>, Seq<u8>> {
        self.store@
    }

    /// A handler that serves `store` as `config` says.
    pub fn new(config: SpaConfig, store: AssetStore) -> (handler: SpaHandler)
        ensures
            handler.config() == config@,
            handler.assets() == store@,
    {
        SpaHandler { config, store }
    }

    /// The first index document that exists, as `text/html`.
    fn serve_fallback(&self) -> (r: Result<(&[u8], &'static str), SpaError>)
        ensures
            outcome_view(r) == (match fallback_key(self.config().index_files, self.assets()) {
                Some(name) => Ok((self.assets()[name], html_mime())),
                None => Err(SpaError::IndexFileNotFound),
            }),
    {
        let ghost names = self.config@.index_files.push(index_key());
        let mut i: usize = 0;
        proof {
            assert(names.skip(0) =~= names);
        }
        while i < self.config.index_files.len()
            invariant
                i <= self.config.index_files@.len(),
                names == self.config@.index_files.push(index_key()),
                first_present(names, self.store@) == first_present(
                    names.skip(i as int),
                    self.store@,
                ),
            decreases self.config.index_files@.len() - i,
        {
            proof {
                assert(names.skip(i as int)[0] == self.config.index_files@[i as int]@);
                assert(names.skip(i as int).drop_first() =~= names.skip(i + 1));
            }
            if let Some(bytes) = self.store.get(self.config.index_files[i].as_str()) {
                return Ok((bytes, "text/html"));
            }
            i += 1;
        }
        proof {
            let last = names.skip(i as int);
            assert(last[0] == index_key());
            assert(last.drop_first() =~= Seq::<Seq<char>>::empty());
            assert(first_present(last.drop_first(), self.store@) is None);
        }
        match self.store.get("index.html") {
            Some(bytes) => Ok((bytes, "text/html")),
            None => Err(SpaError::IndexFileNotFound),
        }
    }

    /// Serves the asset key `key`.
    ///
    /// An asset stored under `key` is served with the MIME type of its
    /// classification, and not at all where it cannot be classified.
    /// Where nothing is stored under `key`, the first configured index
    /// document that exists is served as `text/html`, then `index.html`;
    /// where none of them exists the result is `IndexFileNotFound`.
    pub fn serve(&self, key: &str) -> (r: Result<(&[u8], &'static str), SpaError>)
        ensures
            outcome_view(r) == serve_spec(
                key@,
                self.config().index_files,
                self.assets(),
                guessed_mime(key@),
            ),
    {
        match self.store.get(key) {
            Some(bytes) => match classify(key, &self.config) {
                Ok(mime) => Ok((bytes, mime)),
                Err(_) => Err(SpaError::MimeDetection),
            },
            None => self.serve_fallback(),
        }
    }

    /// Resolves the request path `request_path` to content and MIME type.
    ///
    /// The path is normalized, mapped to an asset key below the mount
    /// base, and served as `serve` says.  A path that normalization
    /// rejects gives that rejection as a `PathError`.
    pub fn get_file(&self, request_path: &str) -> (r: Result<(&[u8], &'static str), SpaError>)
        ensures
            outcome_view(r) == resolve_spec(request_path@, self.config(), self.assets()),
    {
        match normalize_path(request_path) {
            Ok(path) => {
                let key = relative_to_base(path.as_str(), self.config.base_path.as_str());
                self.serve(key.as_str())
            },
            Err(error) => Err(SpaError::from(error)),
        }
    }

    /// Handles the raw path of a request: runs of slashes are collapsed,
    /// then the path is resolved as `get_file` says.  The cleanup never
    /// changes what is served.
    pub fn handle(&self, request_path: &str) -> (r: Result<(&[u8], &'static str), SpaError>)
        ensures
            outcome_view(r) == resolve_spec(request_path@, self.config(), self.assets()),
    {
        let cleaned = clean_request_path(request_path);
        proof {
            lemma_collapse_keeps_normal_form(request_path@);
        }
        self.get_file(cleaned.as_str())
    }
}

} // verus!
