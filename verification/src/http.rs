//! What an HTTP adapter answers for an outcome of the resolver.

use crate::error::SpaError;
use crate::mime::html_mime;
use crate::text::same_text;
use vstd::prelude::*;

verus! {

/// The answer to a request, for an adapter to write in its framework's
/// own response type.
pub enum Reply<'a> {
    /// Status 200 with the asset as body.
    Asset {
        body: &'a [u8],
        /// The value of `Content-Type`.
        content_type: &'static str,
        /// The value of `Cache-Control`, where the header is sent.
        cache_control: Option<&'static str>,
    },
    /// Status 404 without a body.
    NotFound,
}

/// The caching directive sent with everything that is not HTML: public,
/// and fresh for one year.
pub open spec fn long_lived_cache() -> Seq<char> {
    "public, max-age=31536000"@
}

/// The caching directive for content of type `mime`: none for
/// `text/html`, so that the application shell is always fetched anew.
pub open spec fn cache_policy_spec(mime: Seq<char>) -> Option<Seq<char>> {
    if mime == html_mime() {
        None
    } else {
        Some(long_lived_cache())
    }
}

/// The caching directive for content of type `mime`.
pub fn cache_policy(mime: &str) -> (directive: Option<&'static str>)
    ensures
        match directive {
            Some(text) => cache_policy_spec(mime@) == Some(text@),
            None => cache_policy_spec(mime@) is None,
        },
{
    if same_text(mime, "text/html") {
        None
    } else {
        Some("public, max-age=31536000")
    }
}

impl<'a> Reply<'a> {
    /// The status code of the reply.
    pub fn status(&self) -> (code: u16)
        ensures
            code == (if self is Asset { 200u16 } else { 404u16 }),
    {
        match self {
            Reply::Asset { .. } => 200,
            Reply::NotFound => 404,
        }
    }
}

/// The reply for an outcome of the resolver: a resolved asset is sent as
/// it is, with its MIME type and the caching directive for that type, and
/// every failure is a 404.
pub fn plan_reply<'a>(outcome: Result<(&'a [u8], &'static str), SpaError>) -> (reply: Reply<'a>)
    ensures
        match outcome {
            Ok((bytes, mime)) => {
                &&& reply matches Reply::Asset { body, content_type, cache_control }
                &&& body@ == bytes@
                &&& content_type@ == mime@
                &&& (match cache_control {
                    Some(text) => cache_policy_spec(mime@) == Some(text@),
                    None => cache_policy_spec(mime@) is None,
                })
            },
            Err(_) => reply is NotFound,
        },
{
    match outcome {
        Ok((bytes, mime)) => Reply::Asset {
            body: bytes,
            content_type: mime,
            cache_control: cache_policy(mime),
        },
        Err(_) => Reply::NotFound,
    }
}

} // verus!
