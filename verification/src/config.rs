//! The configuration of a mount: where it sits and which documents stand
//! in for paths that name no asset.

use crate::path::index_key;
use crate::text::{same_text, text_views};
use vstd::prelude::*;

verus! {

/// Where the assets are mounted and which index documents are tried, in
/// order, for a path that names no asset.
#[derive(Clone, Debug)]
pub struct SpaConfig {
    /// The URL prefix under which the assets are served.
    pub base_path: String,
    /// The index documents, first choice first.
    pub index_files: Vec<String>,
}

/// A configuration as plain text.
pub struct SpaConfigView {
    pub base_path: Seq<char>,
    pub index_files: Seq<Seq<char>>,
}

impl View for SpaConfig {
    type V = SpaConfigView;

    open spec fn view(&self) -> SpaConfigView {
        SpaConfigView {
            base_path: self.base_path@,
            index_files: text_views(self.index_files@),
        }
    }
}

/// `key` names an index document: one of `index_files`, or `index.html`.
pub open spec fn is_index_document(key: Seq<char>, index_files: Seq<Seq<char>>) -> bool {
    index_files.contains(key) || key == index_key()
}

impl Default for SpaConfig {
    /// A mount at `/` with `index.html` as its only index document.
    fn default() -> (config: SpaConfig)
        ensures
            config@.base_path == "/"@,
            config@.index_files == seq![index_key()],
    {
        let mut index_files: Vec<String> = Vec::new();
        index_files.push("index.html".to_owned());
        let config = SpaConfig { base_path: "/".to_owned(), index_files };
        assert(config@.index_files =~= seq![index_key()]);
        config
    }
}

impl SpaConfig {
    /// The same configuration mounted at `base_path`.
    pub fn with_base_path(self, base_path: &str) -> (config: SpaConfig)
        ensures
            config@.base_path == base_path@,
            config@.index_files == self@.index_files,
    {
        SpaConfig { base_path: base_path.to_owned(), index_files: self.index_files }
    }

    /// The same configuration with `files` as its index documents, in the
    /// order given.
    pub fn with_index_files(self, files: &[&str]) -> (config: SpaConfig)
        ensures
            config@.base_path == self@.base_path,
            config@.index_files.len() == files@.len(),
            forall|i: int| 0 <= i < files@.len() ==> config@.index_files[i] == files@[i]@,
    {
        let mut index_files: Vec<String> = Vec::new();
        let mut i: usize = 0;
        while i < files.len()
            invariant
                i <= files@.len(),
                index_files@.len() == i,
                forall|k: int| 0 <= k < i ==> index_files@[k]@ == files@[k]@,
            decreases files@.len() - i,
        {
            index_files.push(files[i].to_owned());
            i += 1;
        }
        SpaConfig { base_path: self.base_path, index_files }
    }

    /// The same configuration with `file` as one more index document,
    /// tried after those already there.
    pub fn add_index_file(self, file: &str) -> (config: SpaConfig)
        ensures
            config@.base_path == self@.base_path,
            config@.index_files == self@.index_files.push(file@),
    {
        let mut index_files = self.index_files;
        index_files.push(file.to_owned());
        let config = SpaConfig { base_path: self.base_path, index_files };
        assert(config@.index_files =~= self@.index_files.push(file@));
        config
    }

    /// Whether `key` names an index document of this mount.
    pub fn is_index_document(&self, key: &str) -> (yes: bool)
        ensures
            yes == is_index_document(key@, self@.index_files),
    {
        let mut i: usize = 0;
        while i < self.index_files.len()
            invariant
                i <= self.index_files@.len(),
                forall|k: int| 0 <= k < i ==> self@.index_files[k] != key@,
            decreases self.index_files@.len() - i,
        {
            if same_text(self.index_files[i].as_str(), key) {
                assert(self@.index_files[i as int] == key@);
                return true;
            }
            i += 1;
        }
        same_text(key, "index.html")
    }
}

} // verus!
