//! The mapping store.
//!
//! One logical collection of `Url` records, keyed by code with a secondary
//! uniqueness constraint on the identifier. The store offers an atomic
//! insert that rejects duplicate identifiers or codes with `Conflict`, a
//! point lookup by code, and the greatest stored identifier. A record that
//! `save_shorter_url` accepted is immediately visible to lookups by its code
//! (read-your-writes), and records are never updated or deleted.

use vstd::prelude::*;

use crate::errors::StoreError;
use crate::models::{Url, UrlModel};

verus! {

/// Whether some stored record carries identifier `id`.
pub open spec fn contains_id(s: Seq<UrlModel>, id: u64) -> bool {
    exists|i: int| 0 <= i < s.len() && #[trigger] s[i].id == id
}

/// Whether some stored record carries code `code`.
pub open spec fn contains_code(s: Seq<UrlModel>, code: Seq<char>) -> bool {
    exists|i: int| 0 <= i < s.len() && #[trigger] s[i].short_url == code
}

/// The first stored record carrying code `code`, if any.
pub open spec fn find_code(s: Seq<UrlModel>, code: Seq<char>) -> Option<UrlModel>
    decreases s.len(),
{
    if s.len() == 0 {
        None
    } else if s[0].short_url == code {
        Some(s[0])
    } else {
        find_code(s.drop_first(), code)
    }
}

/// Store invariant: no two stored records share an identifier or a code.
pub open spec fn store_inv(s: Seq<UrlModel>) -> bool {
    forall|i: int, j: int|
        0 <= i < j < s.len() ==> (#[trigger] s[i]).id != (#[trigger] s[j]).id
            && s[i].short_url != s[j].short_url
}

/// Uniqueness law: a store satisfying the invariant never holds two mappings
/// with the same code, so no two shortening requests can have succeeded with
/// the same code.
pub proof fn lemma_codes_distinct(s: Seq<UrlModel>, i: int, j: int)
    requires
        store_inv(s),
        0 <= i < s.len(),
        0 <= j < s.len(),
        i != j,
    ensures
        s[i].short_url != s[j].short_url,
{
}

/// A lookup comes back empty exactly when no record carries the code.
pub proof fn lemma_find_code_absent(s: Seq<UrlModel>, code: Seq<char>)
    ensures
        find_code(s, code) is None <==> !contains_code(s, code),
    decreases s.len(),
{
    if s.len() > 0 {
        lemma_find_code_absent(s.drop_first(), code);
        if s[0].short_url != code {
            assert(contains_code(s, code) ==> contains_code(s.drop_first(), code)) by {
                if contains_code(s, code) {
                    let i = choose|i: int|
                        0 <= i < s.len() && #[trigger] s[i].short_url == code;
                    assert(s.drop_first()[i - 1] == s[i]);
                }
            }
            assert(contains_code(s.drop_first(), code) ==> contains_code(s, code)) by {
                if contains_code(s.drop_first(), code) {
                    let i = choose|i: int|
                        0 <= i < s.drop_first().len() && #[trigger] s.drop_first()[i].short_url
                            == code;
                    assert(s[i + 1] == s.drop_first()[i]);
                }
            }
        }
    }
}

/// A record stored under a code nobody else carries is the one a lookup of
/// that code finds.
pub proof fn lemma_find_code_push(s: Seq<UrlModel>, m: UrlModel)
    requires
        !contains_code(s, m.short_url),
    ensures
        find_code(s.push(m), m.short_url) == Some(m),
    decreases s.len(),
{
    if s.len() == 0 {
        assert(s.push(m)[0] == m);
    } else {
        assert(s[0].short_url != m.short_url);
        assert(s.push(m)[0] == s[0]);
        assert(!contains_code(s.drop_first(), m.short_url)) by {
            if contains_code(s.drop_first(), m.short_url) {
                let i = choose|i: int|
                    0 <= i < s.drop_first().len() && #[trigger] s.drop_first()[i].short_url
                        == m.short_url;
                assert(s[i + 1] == s.drop_first()[i]);
            }
        }
        lemma_find_code_push(s.drop_first(), m);
        assert(s.push(m).drop_first() =~= s.drop_first().push(m));
    }
}

/// Scanning may skip a prefix in which no record carries the code.
proof fn lemma_find_code_skip(s: Seq<UrlModel>, code: Seq<char>, i: int)
    requires
        0 <= i <= s.len(),
        forall|j: int| 0 <= j < i ==> (#[trigger] s[j]).short_url != code,
    ensures
        find_code(s, code) == find_code(s.subrange(i, s.len() as int), code),
    decreases i,
{
    if i > 0 {
        lemma_find_code_skip(s, code, i - 1);
        let t = s.subrange(i - 1, s.len() as int);
        assert(t[0] == s[i - 1]);
        assert(s[i - 1].short_url != code);
        assert(t.drop_first() =~= s.subrange(i, s.len() as int));
    } else {
        assert(s.subrange(0, s.len() as int) =~= s);
    }
}

/// Verified string equality over the character views.
fn str_eq(a: &str, b: &str) -> (r: bool)
    ensures
        r == (a@ == b@),
{
    let la = a.unicode_len();
    let lb = b.unicode_len();
    if la != lb {
        return false;
    }
    let mut i: usize = 0;
    while i < la
        invariant
            i <= la,
            la == a@.len(),
            la == b@.len(),
            forall|j: int| 0 <= j < i ==> a@[j] == b@[j],
        decreases la - i,
    {
        if a.get_char(i) != b.get_char(i) {
            return false;
        }
        i = i + 1;
    }
    proof {
        assert(a@ =~= b@);
    }
    true
}

/// The in-memory mapping store. It owns all persisted records; its view is
/// the sequence of stored mapping values in insertion order.
pub struct Database {
    urls: Vec<Url>,
}

impl View for Database {
    type V = Seq<UrlModel>;

    closed spec fn view(&self) -> Seq<UrlModel> {
        Seq::new(self.urls@.len(), |i: int| self.urls@[i]@)
    }
}

impl Database {
    /// Opens an empty store.
    pub fn new() -> (db: Database)
        ensures
            db@ =~= Seq::<UrlModel>::empty(),
    {
        Database { urls: Vec::new() }
    }

    /// How many mappings the store holds.
    pub fn len(&self) -> (n: usize)
        ensures
            n == self@.len(),
    {
        self.urls.len()
    }

    /// Persists one mapping, all or nothing. Fails with `Conflict` exactly
    /// when a stored record already carries the record's identifier or code,
    /// and leaves the store unchanged then; on success the record is
    /// appended and immediately visible to a lookup by its code.
    pub fn save_shorter_url(&mut self, url_model: Url) -> (r: Result<(), StoreError>)
        ensures
            match r {
                Ok(()) => {
                    &&& !contains_id(old(self)@, url_model@.id)
                    &&& !contains_code(old(self)@, url_model@.short_url)
                    &&& final(self)@ =~= old(self)@.push(url_model@)
                    &&& find_code(final(self)@, url_model@.short_url) == Some(url_model@)
                },
                Err(StoreError::Conflict) => {
                    &&& contains_id(old(self)@, url_model@.id) || contains_code(
                        old(self)@,
                        url_model@.short_url,
                    )
                    &&& final(self)@ == old(self)@
                },
                Err(_) => false,
            },
            store_inv(old(self)@) ==> store_inv(final(self)@),
    {
        let n = self.urls.len();
        let mut i: usize = 0;
        while i < n
            invariant
                i <= n,
                n == self@.len(),
                self == old(self),
                forall|j: int|
                    0 <= j < i ==> (#[trigger] self@[j]).id != url_model@.id
                        && self@[j].short_url != url_model@.short_url,
            decreases n - i,
        {
            if self.urls[i].id == url_model.id {
                proof {
                    assert(self@[i as int].id == url_model@.id);
                }
                return Err(StoreError::Conflict);
            }
            if str_eq(self.urls[i].short_url.as_str(), url_model.short_url.as_str()) {
                proof {
                    assert(self@[i as int].short_url == url_model@.short_url);
                }
                return Err(StoreError::Conflict);
            }
            i = i + 1;
        }
        proof {
            assert(!contains_id(self@, url_model@.id));
            assert(!contains_code(self@, url_model@.short_url));
        }
        let ghost s0 = self@;
        self.urls.push(url_model);
        proof {
            assert(self@ =~= s0.push(url_model@));
            lemma_find_code_push(s0, url_model@);
            if store_inv(s0) {
                assert forall|i: int, j: int| 0 <= i < j < self@.len() implies (
                #[trigger] self@[i]).id != (#[trigger] self@[j]).id && self@[i].short_url
                    != self@[j].short_url by {
                    if j < s0.len() {
                        assert(s0[i].id != s0[j].id && s0[i].short_url != s0[j].short_url);
                    } else {
                        assert(self@[j] == url_model@);
                        assert(self@[i] == s0[i]);
                    }
                }
            }
        }
        Ok(())
    }

    /// Point lookup: the stored mapping carrying `code`, or `None`.
    pub fn find_by_code(&self, code: &str) -> (r: Result<Option<&Url>, StoreError>)
        ensures
            match r {
                Ok(Some(m)) => find_code(self@, code@) == Some(m@),
                Ok(None) => find_code(self@, code@) is None,
                Err(_) => false,
            },
    {
        let n = self.urls.len();
        let mut i: usize = 0;
        while i < n
            invariant
                i <= n,
                n == self@.len(),
                forall|j: int| 0 <= j < i ==> (#[trigger] self@[j]).short_url != code@,
            decreases n - i,
        {
            if str_eq(self.urls[i].short_url.as_str(), code) {
                proof {
                    lemma_find_code_skip(self@, code@, i as int);
                    let t = self@.subrange(i as int, self@.len() as int);
                    assert(t[0] == self@[i as int]);
                }
                return Ok(Some(&self.urls[i]));
            }
            i = i + 1;
        }
        proof {
            lemma_find_code_skip(self@, code@, n as int);
            assert(self@.subrange(n as int, self@.len() as int) =~= Seq::<UrlModel>::empty());
        }
        Ok(None)
    }

    /// The original URL stored under `short_url`, or `NotFound` when no
    /// record carries that code.
    pub fn get_origin_url(&self, short_url: &str) -> (r: Result<String, StoreError>)
        ensures
            match find_code(self@, short_url@) {
                Some(m) => r is Ok && r->Ok_0@ == m.url,
                None => r == Err::<String, StoreError>(StoreError::NotFound),
            },
    {
        match self.find_by_code(short_url) {
            Ok(Some(m)) => Ok(m.url.clone()),
            Ok(None) => Err(StoreError::NotFound),
            Err(e) => Err(e),
        }
    }

    /// The greatest stored identifier, or `None` on an empty store.
    pub fn max_id(&self) -> (r: Result<Option<u64>, StoreError>)
        ensures
            match r {
                Ok(None) => self@.len() == 0,
                Ok(Some(m)) => contains_id(self@, m) && forall|i: int|
                    0 <= i < self@.len() ==> (#[trigger] self@[i]).id <= m,
                Err(_) => false,
            },
    {
        let n = self.urls.len();
        if n == 0 {
            return Ok(None);
        }
        let mut best: u64 = self.urls[0].id;
        proof {
            assert(self@[0].id == best);
        }
        let mut i: usize = 1;
        while i < n
            invariant
                1 <= i <= n,
                n == self@.len(),
                contains_id(self@, best),
                forall|j: int| 0 <= j < i ==> (#[trigger] self@[j]).id <= best,
            decreases n - i,
        {
            if self.urls[i].id > best {
                best = self.urls[i].id;
                proof {
                    assert(self@[i as int].id == best);
                }
            }
            i = i + 1;
        }
        Ok(Some(best))
    }
}

} // verus!
