//! Routing for the embedded Lens web UI: which request paths are API paths
//! that no handler matched, which embedded files a page request may be
//! served from (in the order they are tried), and how long a browser may
//! cache the answer.

use vstd::prelude::*;

use crate::memory::{strip_leading, strip_trailing};
use crate::text::{chars_of, has_prefix, owned, push_chars, push_str, slice_chars, starts_with, string_of};

verus! {

/// `Cache-Control` for content-hashed assets under `_app/immutable/`.
pub const IMMUTABLE_CACHE: &'static str = "public, max-age=31536000, immutable";

/// `Cache-Control` for every other page and file.
pub const NO_CACHE: &'static str = "no-cache";

/// How a request outside the hub's API routes is answered.
pub enum LensRoute {
    /// An unknown `/api/` path: a JSON 404 with this body.
    ApiNotFound { body: String },
    /// A page or file: the first embedded file among `candidates` that
    /// exists is served with this `Cache-Control`; none is a plain 404.
    Asset { candidates: Vec<String>, cache_control: String },
}

/// The embedded files a page path may be served from, in order: the path
/// itself, its `index.html`, and the UI's root `index.html`.
pub open spec fn lens_candidates(raw: Seq<char>) -> Seq<Seq<char>> {
    let path = strip_leading(raw, '/');
    seq![path, strip_trailing(path, '/') + "/index.html"@, "index.html"@]
}

/// The cache policy of a page path.
pub open spec fn lens_cache(raw: Seq<char>) -> Seq<char> {
    if has_prefix(strip_leading(raw, '/'), "_app/immutable/"@) {
        IMMUTABLE_CACHE@
    } else {
        NO_CACHE@
    }
}

/// The JSON body of a 404 for an unknown API path.
pub open spec fn api_not_found_body(raw: Seq<char>) -> Seq<char> {
    "{\"error\":\"not found\",\"path\":\""@ + raw + "\"}"@
}

proof fn lemma_strip_leading_at(s: Seq<char>, c: char, k: int)
    requires
        0 <= k <= s.len(),
        forall|t: int| 0 <= t < k ==> s[t] == c,
        k < s.len() ==> s[k] != c,
    ensures
        strip_leading(s, c) == s.skip(k),
    decreases k,
{
    if k == 0 {
        assert(s.skip(0) =~= s);
    } else {
        lemma_strip_leading_at(s.drop_first(), c, k - 1);
        assert(s.drop_first().skip(k - 1) =~= s.skip(k));
    }
}

proof fn lemma_strip_trailing_at(s: Seq<char>, c: char, k: int)
    requires
        0 <= k <= s.len(),
        forall|t: int| k <= t < s.len() ==> s[t] == c,
        k > 0 ==> s[k - 1] != c,
    ensures
        strip_trailing(s, c) == s.take(k),
    decreases s.len() - k,
{
    if k == s.len() {
        assert(s.take(k) =~= s);
    } else {
        lemma_strip_trailing_at(s.drop_last(), c, k);
        assert(s.drop_last().take(k) =~= s.take(k));
    }
}

/// `s` without its leading `c`s.
pub(crate) fn strip_leading_exec(s: &Vec<char>, c: char) -> (r: Vec<char>)
    ensures
        r@ == strip_leading(s@, c),
{
    let n: usize = s.len();
    let mut k: usize = 0;
    while k < n && s[k] == c
        invariant
            n == s@.len(),
            k <= n,
            forall|t: int| 0 <= t < k ==> s@[t] == c,
        decreases n - k,
    {
        k = k + 1;
    }
    proof {
        lemma_strip_leading_at(s@, c, k as int);
    }
    slice_chars(s, k, n)
}

/// `s` without its trailing `c`s.
pub(crate) fn strip_trailing_exec(s: &Vec<char>, c: char) -> (r: Vec<char>)
    ensures
        r@ == strip_trailing(s@, c),
{
    let n: usize = s.len();
    let mut k: usize = n;
    while k > 0 && s[k - 1] == c
        invariant
            n == s@.len(),
            k <= n,
            forall|t: int| k <= t < n ==> s@[t] == c,
        decreases k,
    {
        k = k - 1;
    }
    proof {
        lemma_strip_trailing_at(s@, c, k as int);
    }
    slice_chars(s, 0, k)
}

/// How the hub answers a request for `raw_path` that no API route took:
/// an `/api/` path is a JSON 404 naming it; anything else is a page of the
/// UI, looked up among `lens_candidates` and cached as `lens_cache` says.
pub fn lens_route(raw_path: &str) -> (r: LensRoute)
    ensures
        has_prefix(raw_path@, "/api/"@) ==> (r matches LensRoute::ApiNotFound { body } && body@
            == api_not_found_body(raw_path@)),
        !has_prefix(raw_path@, "/api/"@) ==> (r matches LensRoute::Asset { candidates, cache_control }
            && candidates@.map_values(|s: String| s@) == lens_candidates(raw_path@)
            && cache_control@ == lens_cache(raw_path@)),
{
    proof {
        reveal_strlit("/api/");
        reveal_strlit("{\"error\":\"not found\",\"path\":\"");
        reveal_strlit("\"}");
        reveal_strlit("/index.html");
        reveal_strlit("index.html");
        reveal_strlit("_app/immutable/");
    }
    let raw = chars_of(raw_path);
    let api = chars_of("/api/");
    if starts_with(&raw, &api) {
        let mut body = owned("{\"error\":\"not found\",\"path\":\"");
        push_str(&mut body, raw_path);
        push_str(&mut body, "\"}");
        return LensRoute::ApiNotFound { body };
    }
    let path = strip_leading_exec(&raw, '/');
    let trimmed = strip_trailing_exec(&path, '/');
    let mut with_index = string_of(&trimmed);
    push_str(&mut with_index, "/index.html");
    let mut candidates: Vec<String> = Vec::new();
    candidates.push(string_of(&path));
    candidates.push(with_index);
    candidates.push(owned("index.html"));
    let immutable = chars_of("_app/immutable/");
    let cache_control = if starts_with(&path, &immutable) {
        owned(IMMUTABLE_CACHE)
    } else {
        owned(NO_CACHE)
    };
    proof {
        assert(candidates@.map_values(|s: String| s@) =~= lens_candidates(raw_path@));
    }
    LensRoute::Asset { candidates, cache_control }
}

} // verus!
