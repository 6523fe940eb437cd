//! The failures of a resolution.

use crate::path::PathError;
use vstd::prelude::*;
use vstd::std_specs::convert::FromSpecImpl;
use vstd::string::StringExecFns;

verus! {

/// Why no asset was served.
#[derive(Debug)]
pub enum SpaError {
    /// The named resource does not exist.
    NotFound(String),
    /// The asset exists but no MIME type is known for it.
    MimeDetection,
    /// The request path was rejected.
    PathError(PathError),
    /// Neither the asset nor any index document exists.
    IndexFileNotFound,
}

impl SpaError {
    /// The text of `message`.
    pub open spec fn message_spec(&self) -> Seq<char> {
        match self {
            SpaError::NotFound(name) => "Resource not found: "@ + name@,
            SpaError::MimeDetection => "MIME type detection failed"@,
            SpaError::PathError(inner) => "Path error: "@ + inner.message_spec(),
            SpaError::IndexFileNotFound => "Index file not found"@,
        }
    }

    /// A sentence that describes the error.
    pub fn message(&self) -> (text: String)
        ensures
            text@ == self.message_spec(),
    {
        match self {
            SpaError::NotFound(name) => {
                let mut text = "Resource not found: ".to_owned();
                text.append(name.as_str());
                text
            },
            SpaError::MimeDetection => "MIME type detection failed".to_owned(),
            SpaError::PathError(inner) => {
                let mut text = "Path error: ".to_owned();
                let detail = inner.message();
                text.append(detail.as_str());
                text
            },
            SpaError::IndexFileNotFound => "Index file not found".to_owned(),
        }
    }
}

impl From<PathError> for SpaError {
    fn from(error: PathError) -> (wrapped: SpaError) {
        SpaError::PathError(error)
    }
}

impl FromSpecImpl<PathError> for SpaError {
    open spec fn obeys_from_spec() -> bool {
        true
    }

    open spec fn from_spec(error: PathError) -> SpaError {
        SpaError::PathError(error)
    }
}

} // verus!
