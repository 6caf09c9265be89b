//! Asking an Immich server for a random photo.

use crate::text::{chars_of, joined, string_of};
use vstd::prelude::*;
use vstd::slice::slice_subrange;

verus! {

/// A photo on the server.
#[derive(Debug)]
pub struct Asset {
    pub id: String,
}

/// Where the server is and how to log in to it.
#[derive(Debug)]
pub struct ImmichClient {
    pub base_url: String,
    pub api_key: String,
}

/// `s` without the slashes at its end.
pub open spec fn without_slashes(s: Seq<char>) -> Seq<char>
    decreases s.len(),
{
    if s.len() > 0 && s.last() == '/' {
        without_slashes(s.drop_last())
    } else {
        s
    }
}

/// The server names no photo.
#[derive(Debug, Clone, Copy, PartialEq, Eq, Structural)]
pub struct NoAssets;

impl NoAssets {
    /// What went wrong, in words.
    pub fn message(&self) -> (r: String)
        ensures
            r@ == "Immich returned empty asset list"@,
    {
        "Immich returned empty asset list".to_owned()
    }
}

impl ImmichClient {
    /// A client for the server at `base_url`, which may end in slashes.
    pub fn new(base_url: String, api_key: String) -> (r: Self)
        ensures
            r.base_url@ == without_slashes(base_url@),
            r.api_key@ == api_key@,
    {
        let chars = chars_of(base_url.as_str());
        let mut n: usize = chars.len();
        assert(chars@.take(n as int) == chars@);
        while n > 0 && chars[n - 1] == '/'
            invariant
                n <= chars@.len(),
                without_slashes(chars@) == without_slashes(chars@.take(n as int)),
            decreases n,
        {
            assert(chars@.take(n as int).drop_last() == chars@.take(n - 1));
            n = n - 1;
        }
        assert(chars@.take(n as int) == chars@.subrange(0, n as int));
        ImmichClient { base_url: string_of(slice_subrange(chars.as_slice(), 0, n)), api_key }
    }

    /// Where a random photo is asked for.
    pub fn random_url(&self) -> (r: String)
        ensures
            r@ == self.base_url@ + "/api/assets/random?count=1"@,
    {
        joined(self.base_url.clone(), "/api/assets/random?count=1")
    }

    /// Where a photo's bytes are.
    pub fn original_url(&self, asset: &Asset) -> (r: String)
        ensures
            r@ == self.base_url@ + "/api/assets/"@ + asset.id@ + "/original"@,
    {
        joined(
            joined(joined(self.base_url.clone(), "/api/assets/"), asset.id.as_str()),
            "/original",
        )
    }
}

/// The photo to show: the first that the server names.
pub fn first_asset(assets: Vec<Asset>) -> (r: Result<Asset, NoAssets>)
    ensures
        match r {
            Ok(asset) => assets@.len() > 0 && asset.id@ == assets@[0].id@,
            Err(_) => assets@.len() == 0,
        },
{
    if assets.len() == 0 {
        return Err(NoAssets);
    }
    Ok(Asset { id: assets[0].id.clone() })
}

/// A client's base URL does not end in a slash, and one that did not end in one to
/// begin with is kept.
pub proof fn law_base_url_ends_without_slash(s: Seq<char>)
    ensures
        without_slashes(s).len() > 0 ==> without_slashes(s).last() != '/',
        (s.len() == 0 || s.last() != '/') ==> without_slashes(s) == s,
    decreases s.len(),
{
    if s.len() > 0 && s.last() == '/' {
        law_base_url_ends_without_slash(s.drop_last());
    }
}

/// Only slashes are taken away, and only at the end.
pub proof fn law_only_slashes_go(s: Seq<char>)
    ensures
        without_slashes(s).len() <= s.len(),
        without_slashes(s) == s.take(without_slashes(s).len() as int),
        forall|i: int| without_slashes(s).len() <= i < s.len() ==> #[trigger] s[i] == '/',
    decreases s.len(),
{
    if s.len() > 0 && s.last() == '/' {
        let shorter = s.drop_last();
        law_only_slashes_go(shorter);
        assert(shorter.take(without_slashes(s).len() as int) == s.take(
            without_slashes(s).len() as int,
        ));
        assert forall|i: int| without_slashes(s).len() <= i < s.len() implies #[trigger] s[i] == '/' by {
            if i < shorter.len() {
                assert(shorter[i] == s[i]);
            }
        }
    } else {
        assert(s.take(s.len() as int) == s);
    }
}

} // verus!
