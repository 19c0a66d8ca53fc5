//! The shortening service.
//!
//! Orchestrates the encoder, the identifier allocator and the mapping store.
//! The allocator is seeded at start-up from the greatest identifier the
//! store already holds, so identifiers handed out after a restart never
//! collide with surviving records. The store's uniqueness constraint stays
//! the final authority: insertion conflicts are proved impossible here
//! rather than retried.

use vstd::prelude::*;

use crate::allocator::Allocator;
use crate::codec;
use crate::errors::{ResolveError, ShortenError};
use crate::models::{parse_url, record_wf, url_parse_ok, Url, UrlModel};
use crate::store::{
    contains_code, contains_id, find_code, lemma_find_code_absent, lemma_find_code_push,
    store_inv, Database,
};

verus! {

/// Every stored record carries the code its identifier encodes to: the
/// data-model invariant the service maintains as the store's only writer.
pub open spec fn records_wf(s: Seq<UrlModel>) -> bool {
    forall|i: int| 0 <= i < s.len() ==> record_wf(#[trigger] s[i])
}

/// Every stored identifier is at most `c`.
pub open spec fn ids_bounded(s: Seq<UrlModel>, c: u64) -> bool {
    forall|i: int| 0 <= i < s.len() ==> (#[trigger] s[i]).id <= c
}

/// Round-trip law: a successful shorten of `url` stores one mapping under a
/// code absent before the call, and a resolve of that code finds exactly
/// that mapping, whose original URL is `url` — so resolving what shorten
/// returned gives the input URL back. The hypotheses are what `short_url`
/// ensures of a success; the conclusion is what `redirect_to_origin_url`
/// answers from.
pub proof fn lemma_resolve_after_shorten(
    pre: Seq<UrlModel>,
    post: Seq<UrlModel>,
    url: Seq<char>,
    code: Seq<char>,
    id: u64,
)
    requires
        !contains_code(pre, code),
        post == pre.push(UrlModel { id, url, short_url: code }),
    ensures
        find_code(post, code) == Some(UrlModel { id, url, short_url: code }),
        find_code(post, code)->Some_0.url == url,
{
    lemma_find_code_push(pre, UrlModel { id, url, short_url: code });
}

/// The shortening service: a mapping store together with the allocator
/// handing out the identifiers of new mappings.
pub struct ShorterController {
    database: Database,
    allocator: Allocator,
}

impl ShorterController {
    /// The mappings the service's store holds, in insertion order.
    pub closed spec fn mappings(&self) -> Seq<UrlModel> {
        self.database@
    }

    /// The greatest identifier handed out so far.
    pub closed spec fn allocated(&self) -> u64 {
        self.allocator.allocated()
    }

    /// Service invariant: identifiers and codes are unique, every record's
    /// code encodes its identifier, and no stored identifier exceeds the
    /// allocator's state.
    pub open spec fn inv(&self) -> bool {
        &&& store_inv(self.mappings())
        &&& records_wf(self.mappings())
        &&& ids_bounded(self.mappings(), self.allocated())
    }

    /// Connects the service to a store, resuming identifier allocation from
    /// the greatest identifier the store already holds, so a fresh
    /// identifier never collides with a record surviving a restart.
    pub fn new(database: Database) -> (s: ShorterController)
        requires
            store_inv(database@),
            records_wf(database@),
        ensures
            s.inv(),
            s.mappings() == database@,
            database@.len() == 0 ==> s.allocated() == 0,
            database@.len() > 0 ==> contains_id(database@, s.allocated()),
    {
        let resume_from: u64 = match database.max_id() {
            Ok(Some(m)) => m,
            Ok(None) => 0,
            Err(_) => {
                proof {
                    assert(false);
                }
                0
            },
        };
        ShorterController { database, allocator: Allocator::new(resume_from) }
    }

    /// How many mappings the service's store holds.
    pub fn mapping_count(&self) -> (n: usize)
        ensures
            n == self.mappings().len(),
    {
        self.database.len()
    }

    /// The shorten operation: validates the URL, allocates the next
    /// identifier, encodes it, and persists the record. Fails with
    /// `InvalidUrl` exactly when the input is not a well-formed absolute
    /// URL, before anything is allocated or written; fails with
    /// `AllocationExhausted` only when the identifier space is spent. A
    /// successful call stores one new mapping under a previously unissued
    /// identifier and code.
    pub fn short_url(&mut self, url: &str) -> (r: Result<String, ShortenError>)
        requires
            old(self).inv(),
        ensures
            final(self).inv(),
            match r {
                Ok(code) => {
                    &&& url_parse_ok(url@)
                    &&& old(self).allocated() < u64::MAX
                    &&& final(self).allocated() == old(self).allocated() + 1
                    &&& code@ == codec::encode_spec(final(self).allocated() as nat)
                    &&& !contains_id(old(self).mappings(), final(self).allocated())
                    &&& !contains_code(old(self).mappings(), code@)
                    &&& final(self).mappings() =~= old(self).mappings().push(
                        UrlModel {
                            id: final(self).allocated(),
                            url: url@,
                            short_url: code@,
                        },
                    )
                },
                Err(ShortenError::InvalidUrl) => {
                    &&& !url_parse_ok(url@)
                    &&& *final(self) == *old(self)
                },
                Err(ShortenError::AllocationExhausted) => {
                    &&& url_parse_ok(url@)
                    &&& old(self).allocated() == u64::MAX
                    &&& *final(self) == *old(self)
                },
                Err(ShortenError::Unavailable) => false,
            },
    {
        if !parse_url(url) {
            return Err(ShortenError::InvalidUrl);
        }
        let id = match self.allocator.allocate() {
            Ok(id) => id,
            Err(_) => {
                return Err(ShortenError::AllocationExhausted);
            },
        };
        let short_url = codec::encode(id);
        let code = short_url.clone();
        let url_model = Url { id, url: url.to_owned(), short_url };
        proof {
            assert(!contains_id(self.database@, id)) by {
                if contains_id(self.database@, id) {
                    let i = choose|i: int|
                        0 <= i < self.database@.len() && #[trigger] self.database@[i].id == id;
                }
            }
            assert(!contains_code(self.database@, code@)) by {
                if contains_code(self.database@, code@) {
                    let i = choose|i: int|
                        0 <= i < self.database@.len()
                            && #[trigger] self.database@[i].short_url == code@;
                    assert(record_wf(self.database@[i]));
                    codec::lemma_encode_injective(self.database@[i].id, id);
                }
            }
        }
        let ghost s0 = self.database@;
        match self.database.save_shorter_url(url_model) {
            Ok(()) => {
                proof {
                    assert forall|i: int| 0 <= i < self.database@.len() implies record_wf(
                        #[trigger] self.database@[i],
                    ) by {
                        if i < s0.len() {
                            assert(self.database@[i] == s0[i]);
                        }
                    }
                    assert forall|i: int|
                        0 <= i < self.database@.len() implies (
                    #[trigger] self.database@[i]).id <= id by {
                        if i < s0.len() {
                            assert(self.database@[i] == s0[i]);
                        }
                    }
                }
                Ok(code)
            },
            Err(_) => {
                proof {
                    assert(false);
                }
                Err(ShortenError::Unavailable)
            },
        }
    }

    /// The resolve operation: looks up the stored mapping carrying the code
    /// and returns its original URL. A code that decodes to no identifier
    /// cannot have been issued, so it is reported as `NotFound`, exactly as
    /// a well-formed code nobody registered. No side effects.
    pub fn redirect_to_origin_url(&self, shorted_url: &str) -> (r: Result<String, ResolveError>)
        requires
            self.inv(),
        ensures
            match find_code(self.mappings(), shorted_url@) {
                Some(m) => r is Ok && r->Ok_0@ == m.url,
                None => r == Err::<String, ResolveError>(ResolveError::NotFound),
            },
    {
        match codec::decode(shorted_url) {
            Ok(_) => {},
            Err(_) => {
                proof {
                    assert(!contains_code(self.database@, shorted_url@)) by {
                        if contains_code(self.database@, shorted_url@) {
                            let i = choose|i: int|
                                0 <= i < self.database@.len()
                                    && #[trigger] self.database@[i].short_url == shorted_url@;
                            assert(record_wf(self.database@[i]));
                            codec::lemma_decode_encode(self.database@[i].id);
                        }
                    }
                    lemma_find_code_absent(self.database@, shorted_url@);
                }
                return Err(ResolveError::NotFound);
            },
        }
        match self.database.get_origin_url(shorted_url) {
            Ok(u) => Ok(u),
            Err(_) => Err(ResolveError::NotFound),
        }
    }
}

} // verus!
