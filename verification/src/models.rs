//! The persisted mapping record.
//!
//! A `Url` ties a unique 64-bit identifier, the short code derived from it,
//! and the original URL together. Records are write-once: they are created
//! here and never mutated.

use vstd::prelude::*;

use crate::codec;
use crate::errors::ShortenError;

verus! {

/// Whether a string parses as an absolute URL. Names the result of
/// `url::Url::parse`, which depends on the characters alone.
pub uninterp spec fn url_parse_ok(s: Seq<char>) -> bool;

/// Relies on `url::Url::parse`: it returns `Ok` exactly when the input is a
/// syntactically well-formed absolute URL.
#[verifier::external_body]
pub(crate) fn parse_url(s: &str) -> (r: bool)
    ensures
        r == url_parse_ok(s@),
{
    url::Url::parse(s).is_ok()
}

/// The mathematical value of a mapping record.
pub struct UrlModel {
    pub id: u64,
    pub url: Seq<char>,
    pub short_url: Seq<char>,
}

/// A stored mapping: an identifier, the original URL, and the short code.
pub struct Url {
    pub id: u64,
    pub url: String,
    pub short_url: String,
}

impl View for Url {
    type V = UrlModel;

    open spec fn view(&self) -> UrlModel {
        UrlModel { id: self.id, url: self.url@, short_url: self.short_url@ }
    }
}

/// A record is well-formed when its code is the encoding of its identifier.
pub open spec fn record_wf(m: UrlModel) -> bool {
    m.short_url == codec::encode_spec(m.id as nat)
}

impl Url {
    /// Builds the record for identifier `id`, after checking that `url` is a
    /// well-formed absolute URL; rejects anything else with `InvalidUrl`.
    pub fn new(url: &str, id: u64) -> (r: Result<Url, ShortenError>)
        ensures
            match r {
                Ok(m) => {
                    &&& url_parse_ok(url@)
                    &&& m.id == id
                    &&& m@.url == url@
                    &&& m@.short_url == codec::encode_spec(id as nat)
                    &&& record_wf(m@)
                },
                Err(e) => e == ShortenError::InvalidUrl && !url_parse_ok(url@),
            },
    {
        if !parse_url(url) {
            return Err(ShortenError::InvalidUrl);
        }
        let short_url = codec::encode(id);
        Ok(Url { id, url: url.to_owned(), short_url })
    }
}

} // verus!
