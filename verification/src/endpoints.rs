//! The keys under which the guard records blocked endpoints, leaking
//! payloads and leak reports in its key-value store, and the statuses its
//! handlers answer with.

use vstd::prelude::*;
use vstd::utf8::encode_utf8;
use crate::digest::{md5, md5_encode};
use crate::hex::hex_lower;
use crate::leak_check::HttpStatus;
use crate::leak_model::{strings_view, LeakModel};
use crate::string_map::StringMap;
use crate::text::{chars_of, prefix, string_from_chars, take_prefix};

verus! {

/// The fingerprint of an endpoint: the MD5 digest of its UTF-8 bytes in
/// lower-case hexadecimal.
pub open spec fn fingerprint(endpoint: Seq<char>) -> Seq<char> {
    hex_lower(md5(encode_utf8(endpoint)))
}

/// The key that marks `name` as blocked.
pub open spec fn blocked_key_of(name: Seq<char>) -> Seq<char> {
    name + "_blocked_endpoint"@
}

/// The key under which the endpoint with fingerprint `hash` is recorded.
pub open spec fn endpoint_key_of(hash: Seq<char>) -> Seq<char> {
    hash + "_endpoint"@
}

/// The key and value that blocking stores for the requested `name` (the
/// fingerprint of the endpoint to block): the blocked key of the name, and
/// the name itself.
pub fn block_record(name: &str) -> (r: (String, String))
    ensures
        r.0@ == blocked_key_of(name@),
        r.1@ == name@,
{
    let mut key = String::from_str(name);
    key.append("_blocked_endpoint");
    (key, String::from_str(name))
}

/// The key that the status check of `endpoint` looks up: the blocked key of
/// the endpoint's fingerprint.
pub fn status_key(endpoint: &str) -> (r: String)
    ensures
        r@ == blocked_key_of(fingerprint(endpoint@)),
{
    let mut key = md5_encode(endpoint.as_bytes());
    key.append("_blocked_endpoint");
    key
}

/// The status of an endpoint: refused when its blocked key was found.
pub fn status_response(blocked: bool) -> (r: HttpStatus)
    ensures
        r == (if blocked {
            HttpStatus::Forbidden
        } else {
            HttpStatus::Success
        }),
{
    if blocked {
        HttpStatus::Forbidden
    } else {
        HttpStatus::Success
    }
}

/// The status of a request that stores one value: success when the store
/// could be reached (and, where the outcome of the write is heeded, the write
/// succeeded).
pub fn store_response(stored: bool) -> (r: HttpStatus)
    ensures
        r == (if stored {
            HttpStatus::Success
        } else {
            HttpStatus::ServerError
        }),
{
    if stored {
        HttpStatus::Success
    } else {
        HttpStatus::ServerError
    }
}

/// The key and value under which a leak's endpoint is recorded, so that the
/// listing of blocked endpoints can show it.
pub fn endpoint_record(leak: &LeakModel) -> (r: (String, String))
    ensures
        r.0@ == endpoint_key_of(leak.endpoint_hash@),
        r.1@ == leak.endpoint@,
{
    let mut key = String::from_str(leak.endpoint_hash.as_str());
    key.append("_endpoint");
    (key, String::from_str(leak.endpoint.as_str()))
}

/// The key under which the signal server's secret is kept.
pub fn signal_secret_key() -> (r: String)
    ensures
        r@ == "SECURUM_EXIRE_SIGNAL_SERVER_SECRET"@,
{
    String::from_str("SECURUM_EXIRE_SIGNAL_SERVER_SECRET")
}

/// The address to which leaks are reported.
pub fn leak_report_url() -> (r: String)
    ensures
        r@ == "http://localhost:9000/report/leak"@,
{
    String::from_str("http://localhost:9000/report/leak")
}

/// The listing's lookup key for a stored key: its first 32 characters (the
/// length of a fingerprint) as an endpoint key.
pub open spec fn lookup_key_of(stored: Seq<char>) -> Seq<char> {
    endpoint_key_of(prefix(stored, 32))
}

/// The lookup key under which the listing of blocked endpoints finds the
/// endpoint of a blocked key.
pub fn listing_lookup_key(blocked_key: &str) -> (r: String)
    ensures
        r@ == lookup_key_of(blocked_key@),
{
    let chars = chars_of(blocked_key);
    let head = take_prefix(&chars, 32);
    let mut key = string_from_chars(&head);
    key.append("_endpoint");
    key
}

/// The listing of blocked endpoints: for each lookup key, in order, the
/// first 32 characters of the key mapped to the endpoint found under it; a
/// later pair overrides an earlier one.
pub open spec fn listing_of(lookup_keys: Seq<Seq<char>>, endpoints: Seq<Seq<char>>) -> Map<
    Seq<char>,
    Seq<char>,
>
    decreases lookup_keys.len(),
{
    if lookup_keys.len() == 0 {
        Map::empty()
    } else {
        let i = lookup_keys.len() - 1;
        listing_of(lookup_keys.drop_last(), endpoints).insert(
            prefix(lookup_keys[i], 32),
            endpoints[i],
        )
    }
}

/// Builds the listing of blocked endpoints from the lookup keys and the
/// endpoints read under them (one for each key, in the same order).
pub fn blocked_listing(lookup_keys: &Vec<String>, endpoints: &Vec<String>) -> (r: StringMap)
    requires
        endpoints@.len() >= lookup_keys@.len(),
    ensures
        r.wf(),
        r@ == listing_of(strings_view(lookup_keys@), strings_view(endpoints@)),
{
    let ghost ks = strings_view(lookup_keys@);
    let ghost es = strings_view(endpoints@);
    let n = lookup_keys.len();
    let mut r = StringMap::new();
    let mut i: usize = 0;
    assert(ks.take(0) =~= Seq::<Seq<char>>::empty());
    while i < n
        invariant
            n == lookup_keys@.len(),
            endpoints@.len() >= n,
            ks == strings_view(lookup_keys@),
            es == strings_view(endpoints@),
            i <= n,
            r.wf(),
            r@ == listing_of(ks.take(i as int), es),
        decreases n - i,
    {
        let chars = chars_of(lookup_keys[i].as_str());
        let head = take_prefix(&chars, 32);
        r.insert(string_from_chars(&head), endpoints[i].clone());
        assert(ks.take(i + 1).drop_last() =~= ks.take(i as int));
        assert(ks.take(i + 1)[i as int] == lookup_keys@[i as int]@);
        i = i + 1;
    }
    assert(ks.take(n as int) =~= ks);
    r
}

/// The pattern of the keys that unblocking the fingerprint `hash` deletes.
pub fn unblock_pattern(hash: &str) -> (r: String)
    ensures
        r@ == "*"@ + hash@ + "*_blocked_endpoint"@,
{
    let mut p = String::from_str("*");
    p.append(hash);
    p.append("*_blocked_endpoint");
    p
}

/// The status of an unblocking: success when the keys were deleted, not
/// found when the deletion failed, a server error when the store could not
/// be reached.
pub fn unblock_response(connected: bool, deleted: bool) -> (r: HttpStatus)
    ensures
        r == (if !connected {
            HttpStatus::ServerError
        } else if deleted {
            HttpStatus::Success
        } else {
            HttpStatus::NotFound
        }),
{
    if !connected {
        HttpStatus::ServerError
    } else if deleted {
        HttpStatus::Success
    } else {
        HttpStatus::NotFound
    }
}

/// The status check finds a block exactly when the blocked name is the
/// endpoint's fingerprint: distinct names have distinct blocked keys.
pub proof fn lemma_blocked_key_injective(a: Seq<char>, b: Seq<char>)
    ensures
        blocked_key_of(a) == blocked_key_of(b) <==> a == b,
{
    if blocked_key_of(a) == blocked_key_of(b) {
        let s = "_blocked_endpoint"@;
        assert(blocked_key_of(a) == a + s);
        assert(blocked_key_of(b) == b + s);
        assert((a + s).len() == a.len() + s.len());
        assert((b + s).len() == b.len() + s.len());
        assert(a.len() == b.len());
        assert(a =~= blocked_key_of(a).take(a.len() as int));
        assert(b =~= blocked_key_of(b).take(b.len() as int));
    }
}

/// The listing of blocked endpoints looks a blocked fingerprint up under the
/// very key that the leak report recorded the endpoint under: for a
/// 32-character fingerprint, the lookup key of its blocked key is its
/// endpoint key.
pub proof fn lemma_listing_finds_recorded_endpoint(hash: Seq<char>)
    requires
        hash.len() == 32,
    ensures
        lookup_key_of(blocked_key_of(hash)) == endpoint_key_of(hash),
{
    reveal_strlit("_blocked_endpoint");
    assert(blocked_key_of(hash).take(32) =~= hash);
}

/// The lookup keys that the listing reads for the blocked fingerprints
/// `hashes`, in order.
pub open spec fn lookups_of(hashes: Seq<Seq<char>>) -> Seq<Seq<char>> {
    hashes.map_values(|h: Seq<char>| lookup_key_of(blocked_key_of(h)))
}

/// The listing of blocked endpoints shows every blocked fingerprint with the
/// endpoint recorded for it, and nothing else: where the blocked keys are
/// those of the 32-character fingerprints `hashes`, and the endpoints read
/// are, for each, what the store holds under its endpoint key, the listing
/// maps each fingerprint to that endpoint and has no other key.
pub proof fn lemma_listing_shows_recorded_endpoints(
    hashes: Seq<Seq<char>>,
    store: Map<Seq<char>, Seq<char>>,
    endpoints: Seq<Seq<char>>,
)
    requires
        forall|i: int| 0 <= i < hashes.len() ==> (#[trigger] hashes[i]).len() == 32,
        endpoints.len() >= hashes.len(),
        forall|i: int|
            0 <= i < hashes.len() ==> #[trigger] endpoints[i] == store[endpoint_key_of(hashes[i])],
    ensures
        forall|h: Seq<char>|
            #[trigger] listing_of(lookups_of(hashes), endpoints).contains_key(h) <==> hashes.contains(h),
        forall|i: int|
            0 <= i < hashes.len() ==> listing_of(lookups_of(hashes), endpoints)[#[trigger] hashes[i]]
                == store[endpoint_key_of(hashes[i])],
    decreases hashes.len(),
{
    if hashes.len() > 0 {
        let n = hashes.len() - 1;
        let p = hashes.drop_last();
        assert(lookups_of(hashes).drop_last() =~= lookups_of(p));
        lemma_listing_shows_recorded_endpoints(p, store, endpoints);
        let last = hashes[n];
        lemma_listing_finds_recorded_endpoint(last);
        reveal_strlit("_endpoint");
        assert(prefix(endpoint_key_of(last), 32) =~= last);
        assert(prefix(lookups_of(hashes)[n], 32) == last);
        let prev = listing_of(lookups_of(p), endpoints);
        let m = listing_of(lookups_of(hashes), endpoints);
        assert(m == prev.insert(last, endpoints[n]));
        assert forall|h: Seq<char>| #[trigger] m.contains_key(h) <==> hashes.contains(h) by {
            if hashes.contains(h) && h != last {
                let i = choose|i: int| 0 <= i < hashes.len() && hashes[i] == h;
                assert(i != n);
                assert(p[i] == h);
            }
            if p.contains(h) {
                let i = choose|i: int| 0 <= i < p.len() && p[i] == h;
                assert(hashes[i] == h);
            }
            if h == last {
                assert(hashes[n] == h);
            }
        }
        assert forall|i: int| 0 <= i < hashes.len() implies m[#[trigger] hashes[i]] == store[endpoint_key_of(
            hashes[i],
        )] by {
            if hashes[i] != last {
                assert(p[i] == hashes[i]);
            }
        }
    }
}

} // verus!
