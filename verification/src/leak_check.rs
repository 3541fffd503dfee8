//! Checking a response payload for leaked credentials.

use vstd::prelude::*;
use vstd::utf8::{encode_utf8, valid_utf8};
use crate::digest::{md5, md5_encode, sha256, sha256_encode};
use crate::hex::hex_lower;
use crate::leak_model::{strings_view, LeakModel};
use crate::string_map::StringMap;
use crate::text::{chars_of, contains, contains_chars, utf8_decode};

verus! {

/// The HTTP status a handler answers with.
#[derive(PartialEq, Eq, Structural, Debug, Clone, Copy)]
pub enum HttpStatus {
    /// 200: the request may go through.
    Success,
    Forbidden,
    NotFound,
    ServerError,
}

/// The matches, in order, that an Aho-Corasick automaton built by the
/// `aho-corasick` crate from `patterns` (with its default, standard match
/// semantics) reports in `haystack`: for each, the pattern's index and the
/// match's start and end byte offsets.
pub uninterp spec fn aho_corasick_matches(patterns: Seq<Seq<char>>, haystack: Seq<u8>) -> Seq<
    (usize, usize, usize),
>;

/// `AhoCorasick::new(patterns)`, then `find_iter(haystack)`, each match
/// handed out as its `pattern()`, `start()` and `end()`. The matches are
/// taken as a function of the patterns and the haystack alone. Stated beyond
/// that, as the crate documents it: a pattern index is the position of a
/// pattern, the bytes between start and end are that pattern's bytes, the
/// matches come from left to right and do not overlap, and the search
/// reports no match only when no pattern occurs in the haystack.
#[verifier::external_body]
fn aho_corasick_find_iter(patterns: &Vec<String>, haystack: &[u8]) -> (r: Vec<(usize, usize, usize)>)
    ensures
        r@ == aho_corasick_matches(strings_view(patterns@), haystack@),
        forall|i: int|
            0 <= i < r@.len() ==> {
                let m = #[trigger] r@[i];
                &&& m.0 < patterns@.len()
                &&& m.1 <= m.2 <= haystack@.len()
                &&& haystack@.subrange(m.1 as int, m.2 as int) == encode_utf8(patterns@[m.0 as int]@)
            },
        forall|i: int, j: int|
            #![trigger r@[i], r@[j]]
            0 <= i < j < r@.len() ==> r@[i].2 <= r@[j].1,
        r@.len() == 0 <==> forall|j: int|
            0 <= j < patterns@.len() ==> !bytes_occur(haystack@, encode_utf8(#[trigger] patterns@[j]@)),
{
    let ac = aho_corasick::AhoCorasick::new(patterns);
    let mut out = Vec::new();
    for m in ac.find_iter(haystack) {
        out.push((m.pattern(), m.start(), m.end()));
    }
    out
}

/// The keys of the entries.
pub open spec fn entry_keys(e: Seq<(Seq<char>, Seq<char>)>) -> Seq<Seq<char>> {
    e.map_values(|p: (Seq<char>, Seq<char>)| p.0)
}

/// The values of the entries.
pub open spec fn entry_values(e: Seq<(Seq<char>, Seq<char>)>) -> Seq<Seq<char>> {
    e.map_values(|p: (Seq<char>, Seq<char>)| p.1)
}

/// The credential names that the automaton search reports for `payload`:
/// for every match of a credential's value, in order, that credential's key.
pub open spec fn automaton_leaks(e: Seq<(Seq<char>, Seq<char>)>, payload: Seq<u8>) -> Seq<Seq<char>> {
    aho_corasick_matches(entry_values(e), payload).map_values(
        |m: (usize, usize, usize)| e[m.0 as int].0,
    )
}

/// `needle` occurs in `hay` as a run of bytes starting at `i`.
pub open spec fn bytes_at(hay: Seq<u8>, needle: Seq<u8>, i: int) -> bool {
    0 <= i && i + needle.len() <= hay.len() && hay.subrange(i, i + needle.len()) == needle
}

/// `needle` occurs in `hay` as a run of bytes.
pub open spec fn bytes_occur(hay: Seq<u8>, needle: Seq<u8>) -> bool {
    exists|i: int| bytes_at(hay, needle, i)
}

/// Some credential named `name` among the entries has a value whose bytes
/// occur in `payload`.
pub open spec fn value_occurs(e: Seq<(Seq<char>, Seq<char>)>, payload: Seq<u8>, name: Seq<char>) -> bool {
    exists|j: int|
        #![trigger e[j]]
        0 <= j < e.len() && e[j].0 == name && bytes_occur(payload, encode_utf8(e[j].1))
}

/// The bytes of some credential's value occur in `payload`.
pub open spec fn some_value_occurs(e: Seq<(Seq<char>, Seq<char>)>, payload: Seq<u8>) -> bool {
    exists|j: int| 0 <= j < e.len() && bytes_occur(payload, encode_utf8(#[trigger] e[j].1))
}

/// The characters of some credential's value occur in `text`.
pub open spec fn some_value_contained(e: Seq<(Seq<char>, Seq<char>)>, text: Seq<char>) -> bool {
    exists|j: int| 0 <= j < e.len() && contains(text, #[trigger] e[j].1)
}

/// Finds the credentials of `store` whose values occur in `payload`, with an
/// Aho-Corasick automaton over the values: one key per match, in the order
/// of the matches. Every key reported names a credential whose value occurs
/// in the payload.
pub fn scan_payload(store: &StringMap, payload: &[u8]) -> (r: Vec<String>)
    requires
        store.wf(),
    ensures
        strings_view(r@) == automaton_leaks(store.entries_view(), payload@),
        forall|i: int|
            0 <= i < r@.len() ==> value_occurs(store.entries_view(), payload@, #[trigger] r@[i]@),
        r@.len() == 0 <==> !some_value_occurs(store.entries_view(), payload@),
{
    let keys = store.keys();
    let values = store.values();
    let ghost e = store.entries_view();
    assert(strings_view(values@) =~= entry_values(e));
    let matches = aho_corasick_find_iter(&values, payload);
    let n = matches.len();
    let mut r: Vec<String> = Vec::new();
    let mut i: usize = 0;
    while i < n
        invariant
            n == matches@.len(),
            i <= n,
            e == store.entries_view(),
            keys@.len() == e.len(),
            values@.len() == e.len(),
            forall|k: int| 0 <= k < keys@.len() ==> #[trigger] keys@[k]@ == e[k].0,
            forall|k: int| 0 <= k < values@.len() ==> #[trigger] values@[k]@ == e[k].1,
            matches@ == aho_corasick_matches(entry_values(e), payload@),
            forall|k: int|
                0 <= k < matches@.len() ==> {
                    let m = #[trigger] matches@[k];
                    &&& m.0 < values@.len()
                    &&& m.1 <= m.2 <= payload@.len()
                    &&& payload@.subrange(m.1 as int, m.2 as int) == encode_utf8(values@[m.0 as int]@)
                },
            r@.len() == i,
            forall|k: int| 0 <= k < i ==> #[trigger] r@[k]@ == e[matches@[k].0 as int].0,
        decreases n - i,
    {
        let m = matches[i];
        r.push(keys[m.0].clone());
        i = i + 1;
    }
    assert(strings_view(r@) =~= automaton_leaks(e, payload@));
    assert(r@.len() == 0 <==> !some_value_occurs(e, payload@)) by {
        if some_value_occurs(e, payload@) {
            let j = choose|j: int| 0 <= j < e.len() && bytes_occur(payload@, encode_utf8(#[trigger] e[j].1));
            assert(values@[j]@ == e[j].1);
        }
        if r@.len() != 0 {
            assert(!(forall|j: int|
                0 <= j < values@.len() ==> !bytes_occur(payload@, encode_utf8(#[trigger] values@[j]@))));
            let j = choose|j: int|
                !(0 <= j < values@.len() ==> !bytes_occur(payload@, encode_utf8(#[trigger] values@[j]@)));
            assert(values@[j]@ == e[j].1);
        }
    }
    assert forall|i: int| 0 <= i < r@.len() implies value_occurs(e, payload@, #[trigger] r@[i]@) by {
        let m = matches@[i];
        let j = m.0 as int;
        assert(r@[i]@ == e[j].0);
        assert(values@[j]@ == e[j].1);
        assert(payload@.subrange(m.1 as int, m.1 + encode_utf8(e[j].1).len()) == encode_utf8(e[j].1));
        assert(bytes_at(payload@, encode_utf8(e[j].1), m.1 as int));
    }
    r
}

/// The keys, in entry order, of the credentials whose values occur in
/// `payload`.
pub open spec fn contained_leaks(e: Seq<(Seq<char>, Seq<char>)>, payload: Seq<char>) -> Seq<Seq<char>>
    decreases e.len(),
{
    if e.len() == 0 {
        Seq::empty()
    } else {
        let prev = contained_leaks(e.drop_last(), payload);
        if contains(payload, e.last().1) {
            prev.push(e.last().0)
        } else {
            prev
        }
    }
}

/// Finds the credentials of `store` whose values occur in `payload`, by
/// testing each value in turn: the keys, in entry order, of exactly those
/// credentials.
pub fn scan_by_containment(store: &StringMap, payload: &str) -> (r: Vec<String>)
    requires
        store.wf(),
    ensures
        strings_view(r@) == contained_leaks(store.entries_view(), payload@),
{
    let keys = store.keys();
    let values = store.values();
    let ghost e = store.entries_view();
    let text = chars_of(payload);
    let n = keys.len();
    let mut r: Vec<String> = Vec::new();
    let mut i: usize = 0;
    assert(e.take(0) =~= Seq::<(Seq<char>, Seq<char>)>::empty());
    assert(strings_view(r@) =~= Seq::<Seq<char>>::empty());
    while i < n
        invariant
            n == e.len(),
            i <= n,
            e == store.entries_view(),
            text@ == payload@,
            keys@.len() == e.len(),
            values@.len() == e.len(),
            forall|k: int| 0 <= k < keys@.len() ==> #[trigger] keys@[k]@ == e[k].0,
            forall|k: int| 0 <= k < values@.len() ==> #[trigger] values@[k]@ == e[k].1,
            strings_view(r@) == contained_leaks(e.take(i as int), payload@),
        decreases n - i,
    {
        assert(e.take(i + 1).drop_last() =~= e.take(i as int));
        assert(e.take(i + 1).last() == e[i as int]);
        let value = chars_of(values[i].as_str());
        if contains_chars(&text, &value) {
            let ghost before = r@;
            r.push(keys[i].clone());
            assert(strings_view(r@) =~= strings_view(before).push(e[i as int].0));
        }
        i = i + 1;
    }
    assert(e.take(n as int) =~= e);
    r
}

/// The containment scan names a credential exactly when its value occurs in
/// the payload (keys being unique).
pub proof fn lemma_contained_leaks_exact(e: Seq<(Seq<char>, Seq<char>)>, payload: Seq<char>)
    requires
        crate::string_map::keys_distinct(e),
    ensures
        forall|i: int|
            0 <= i < e.len() ==> (contained_leaks(e, payload).contains(#[trigger] e[i].0) <==> contains(
                payload,
                e[i].1,
            )),
        forall|k: Seq<char>|
            #[trigger] contained_leaks(e, payload).contains(k) ==> exists|i: int|
                0 <= i < e.len() && e[i].0 == k,
    decreases e.len(),
{
    if e.len() > 0 {
        let p = e.drop_last();
        lemma_contained_leaks_exact(p, payload);
        let prev = contained_leaks(p, payload);
        let last = e.last();
        assert forall|k: Seq<char>| #[trigger]
            contained_leaks(e, payload).contains(k) implies exists|i: int| 0 <= i < e.len() && e[i].0 == k by {
            if prev.contains(k) {
                let i = choose|i: int| 0 <= i < p.len() && p[i].0 == k;
                assert(e[i].0 == k);
            } else {
                let j = choose|j: int| 0 <= j < contained_leaks(e, payload).len() && contained_leaks(e, payload)[j] == k;
                assert(j == prev.len());
                assert(e[e.len() - 1].0 == k);
            }
        }
        assert forall|i: int| 0 <= i < e.len() implies (contained_leaks(e, payload).contains(
            #[trigger] e[i].0,
        ) <==> contains(payload, e[i].1)) by {
            if i < e.len() - 1 {
                assert(p[i] == e[i]);
                assert(e[i].0 != last.0);
                if contained_leaks(e, payload).contains(e[i].0) {
                    if !prev.contains(e[i].0) {
                        let j = choose|j: int| 0 <= j < contained_leaks(e, payload).len() && contained_leaks(e, payload)[j] == e[i].0;
                        assert(j == prev.len());
                    }
                }
                if prev.contains(e[i].0) {
                    let j = choose|j: int| 0 <= j < prev.len() && prev[j] == e[i].0;
                    if contains(payload, last.1) {
                        assert(contained_leaks(e, payload)[j] == e[i].0);
                    }
                }
            } else {
                if contains(payload, last.1) {
                    assert(contained_leaks(e, payload)[prev.len() as int] == last.0);
                } else {
                    if prev.contains(last.0) {
                        let j = choose|j: int| 0 <= j < prev.len() && prev[j] == last.0;
                        let q = choose|q: int| 0 <= q < p.len() && p[q].0 == last.0;
                        assert(e[q].0 == e[e.len() - 1].0);
                    }
                }
            }
        }
    }
}

/// A payload is refused exactly when a report goes with the refusal.
pub proof fn lemma_refusal_is_reported(
    e: Seq<(Seq<char>, Seq<char>)>,
    payload: Seq<u8>,
    known_leak: bool,
    method: ScanMethod,
)
    ensures
        check_verdict(e, payload, known_leak, method) matches Some(v) ==> (v.0
            == HttpStatus::Forbidden <==> v.1 is Some),
        check_verdict(e, payload, known_leak, method) matches Some(v) ==> (v.0
            == HttpStatus::Forbidden || v.0 == HttpStatus::Success),
{
}

/// How the credentials in a payload are looked for.
#[derive(PartialEq, Eq, Structural, Debug, Clone, Copy)]
pub enum ScanMethod {
    /// One Aho-Corasick automaton over all the values (see [`scan_payload`]).
    Automaton,
    /// Each value tested in turn (see [`scan_by_containment`]).
    Containment,
}

/// The outcome of checking a payload: the status to answer with, and the
/// leak to report, if any.
pub struct CheckOutcome {
    pub status: HttpStatus,
    pub report: Option<LeakModel>,
}

/// The credential names that `method` finds in `payload`.
pub open spec fn leaks_found(
    method: ScanMethod,
    e: Seq<(Seq<char>, Seq<char>)>,
    payload: Seq<u8>,
) -> Seq<Seq<char>> {
    match method {
        ScanMethod::Automaton => automaton_leaks(e, payload),
        ScanMethod::Containment => contained_leaks(e, vstd::utf8::decode_utf8(payload)),
    }
}

/// The report is a leak at `endpoint` of exactly `leaks`, fingerprinted from
/// the endpoint and the payload.
pub open spec fn reports(
    l: LeakModel,
    endpoint: Seq<char>,
    payload: Seq<u8>,
    leaks: Seq<Seq<char>>,
) -> bool {
    &&& l.endpoint@ == endpoint
    &&& strings_view(l.leaked_credentials@) == leaks
    &&& l.payload_hash@ == hex_lower(sha256(payload))
    &&& l.endpoint_hash@ == hex_lower(md5(encode_utf8(endpoint)))
    &&& l.payload_hash@.len() == 64
    &&& l.endpoint_hash@.len() == 32
}

/// The decision on a payload, as a status and, when the payload is refused,
/// the credential names to report; `None` where the payload cannot be read
/// as text.
pub open spec fn check_verdict(
    e: Seq<(Seq<char>, Seq<char>)>,
    payload: Seq<u8>,
    known_leak: bool,
    method: ScanMethod,
) -> Option<(HttpStatus, Option<Seq<Seq<char>>>)> {
    if known_leak {
        Some((HttpStatus::Forbidden, Some(Seq::empty())))
    } else if !valid_utf8(payload) {
        None
    } else {
        let leaks = leaks_found(method, e, payload);
        if leaks.len() > 0 {
            Some((HttpStatus::Forbidden, Some(leaks)))
        } else {
            Some((HttpStatus::Success, None))
        }
    }
}

/// `r` agrees with `v`: its status is the status in `v`, and it holds a
/// report from `endpoint` and `payload` naming the credentials in `v` just
/// when `v` names credentials.
pub open spec fn carries(
    r: Option<CheckOutcome>,
    v: Option<(HttpStatus, Option<Seq<Seq<char>>>)>,
    endpoint: Seq<char>,
    payload: Seq<u8>,
) -> bool {
    match (r, v) {
        (None, None) => true,
        (Some(o), Some(w)) => o.status == w.0 && match (o.report, w.1) {
            (None, None) => true,
            (Some(l), Some(leaks)) => reports(l, endpoint, payload, leaks),
            _ => false,
        },
        _ => false,
    }
}

/// The outcome refuses the payload.
pub open spec fn refused(r: Option<CheckOutcome>) -> bool {
    match r {
        Some(o) => o.status == HttpStatus::Forbidden,
        None => false,
    }
}

/// `method` has something to find in `payload`: the bytes of some
/// credential's value occur in it, or, read as text, it contains some
/// credential's value.
pub open spec fn credential_present(
    method: ScanMethod,
    e: Seq<(Seq<char>, Seq<char>)>,
    payload: Seq<u8>,
) -> bool {
    match method {
        ScanMethod::Automaton => some_value_occurs(e, payload),
        ScanMethod::Containment => some_value_contained(e, vstd::utf8::decode_utf8(payload)),
    }
}

/// `name` is the key of a credential that `method` can find in `payload`:
/// one whose value's bytes occur in it, or, read as text, whose value it
/// contains.
pub open spec fn found_in(
    method: ScanMethod,
    e: Seq<(Seq<char>, Seq<char>)>,
    payload: Seq<u8>,
    name: Seq<char>,
) -> bool {
    match method {
        ScanMethod::Automaton => value_occurs(e, payload, name),
        ScanMethod::Containment => exists|j: int|
            #![trigger e[j]]
            0 <= j < e.len() && e[j].0 == name && contains(vstd::utf8::decode_utf8(payload), e[j].1),
    }
}

/// Every credential named in the outcome's report is one that `method`
/// finds in `payload`.
pub open spec fn names_found(
    r: Option<CheckOutcome>,
    method: ScanMethod,
    e: Seq<(Seq<char>, Seq<char>)>,
    payload: Seq<u8>,
) -> bool {
    r matches Some(o) ==> (o.report matches Some(l) ==> forall|i: int|
        0 <= i < l.leaked_credentials@.len() ==> found_in(
            method,
            e,
            payload,
            #[trigger] l.leaked_credentials@[i]@,
        ))
}

/// The credential names of a verdict that refuses a payload with a report;
/// `None` for any other verdict.
pub open spec fn refused_names(v: Option<(HttpStatus, Option<Seq<Seq<char>>>)>) -> Option<
    Seq<Seq<char>>,
> {
    match v {
        Some((HttpStatus::Forbidden, Some(l))) => Some(l),
        _ => None,
    }
}

/// Every credential whose value the text contains is named by the
/// containment scan.
pub proof fn lemma_contained_leaks_complete(e: Seq<(Seq<char>, Seq<char>)>, text: Seq<char>, j: int)
    requires
        0 <= j < e.len(),
        contains(text, e[j].1),
    ensures
        contained_leaks(e, text).contains(e[j].0),
    decreases e.len(),
{
    let prev = contained_leaks(e.drop_last(), text);
    if j == e.len() - 1 {
        assert(contained_leaks(e, text)[prev.len() as int] == e[j].0);
    } else {
        assert(e.drop_last()[j] == e[j]);
        lemma_contained_leaks_complete(e.drop_last(), text, j);
        let k = choose|k: int| 0 <= k < prev.len() && prev[k] == e[j].0;
        assert(contained_leaks(e, text)[k] == e[j].0);
    }
}

/// Where the text contains no credential's value, the containment scan names
/// nothing.
pub proof fn lemma_contained_leaks_none(e: Seq<(Seq<char>, Seq<char>)>, text: Seq<char>)
    requires
        forall|j: int| 0 <= j < e.len() ==> !contains(text, #[trigger] e[j].1),
    ensures
        contained_leaks(e, text).len() == 0,
    decreases e.len(),
{
    if e.len() > 0 {
        assert forall|j: int| 0 <= j < e.drop_last().len() implies !contains(
            text,
            #[trigger] e.drop_last()[j].1,
        ) by {
            assert(e.drop_last()[j] == e[j]);
        }
        lemma_contained_leaks_none(e.drop_last(), text);
        assert(!contains(text, e[e.len() - 1].1));
    }
}

/// A payload that is not known to leak and whose automaton search reports
/// matches is refused, and its report names, in order, the credential of
/// every match, one name per match; a payload with no match goes through
/// with no report.
pub proof fn lemma_check_names_every_match(e: Seq<(Seq<char>, Seq<char>)>, payload: Seq<u8>)
    requires
        valid_utf8(payload),
    ensures
        ({
            let ms = aho_corasick_matches(entry_values(e), payload);
            let v = check_verdict(e, payload, false, ScanMethod::Automaton);
            let l = refused_names(v)->0;
            &&& ms.len() > 0 ==> refused_names(v) is Some && l.len() == ms.len() && forall|i: int|
                0 <= i < ms.len() ==> #[trigger] l[i] == e[ms[i].0 as int].0
            &&& ms.len() == 0 ==> v == Some((HttpStatus::Success, None::<Seq<Seq<char>>>))
        }),
{
}

/// A payload that is not known to leak is refused by the containment scan
/// whenever its text contains a credential's value, and the report names
/// every such credential; a payload whose text contains none goes through
/// with no report.
pub proof fn lemma_check_names_every_contained(e: Seq<(Seq<char>, Seq<char>)>, payload: Seq<u8>)
    requires
        valid_utf8(payload),
    ensures
        forall|j: int|
            0 <= j < e.len() && contains(vstd::utf8::decode_utf8(payload), #[trigger] e[j].1)
                ==> refused_names(check_verdict(e, payload, false, ScanMethod::Containment)) is Some
                && refused_names(check_verdict(e, payload, false, ScanMethod::Containment))->0.contains(
                e[j].0,
            ),
        (forall|j: int|
            0 <= j < e.len() ==> !contains(vstd::utf8::decode_utf8(payload), #[trigger] e[j].1))
            ==> check_verdict(e, payload, false, ScanMethod::Containment) == Some(
            (HttpStatus::Success, None::<Seq<Seq<char>>>),
        ),
{
    let text = vstd::utf8::decode_utf8(payload);
    assert forall|j: int|
        0 <= j < e.len() && contains(text, #[trigger] e[j].1) implies refused_names(
        check_verdict(e, payload, false, ScanMethod::Containment),
    ) is Some && refused_names(check_verdict(e, payload, false, ScanMethod::Containment))->0.contains(
        e[j].0,
    ) by {
        lemma_contained_leaks_complete(e, text, j);
    }
    if forall|j: int| 0 <= j < e.len() ==> !contains(text, #[trigger] e[j].1) {
        lemma_contained_leaks_none(e, text);
    }
}

/// The containment scan finds something exactly when some credential's value
/// is contained in the text.
pub proof fn lemma_contained_leaks_nonempty(e: Seq<(Seq<char>, Seq<char>)>, text: Seq<char>)
    requires
        crate::string_map::keys_distinct(e),
    ensures
        contained_leaks(e, text).len() > 0 <==> some_value_contained(e, text),
{
    lemma_contained_leaks_exact(e, text);
    let c = contained_leaks(e, text);
    if c.len() > 0 {
        assert(c.contains(c[0]));
        let i = choose|i: int| 0 <= i < e.len() && e[i].0 == c[0];
        assert(c.contains(e[i].0));
        assert(contains(text, e[i].1));
    }
    if some_value_contained(e, text) {
        let j = choose|j: int| 0 <= j < e.len() && contains(text, #[trigger] e[j].1);
        assert(c.contains(e[j].0));
    }
}

/// Decides on a payload sent from `endpoint`. A payload already known to leak
/// (`known_leak`, which the caller looks up under its SHA-256 fingerprint) is
/// refused and reported with no credential named. Otherwise the payload must
/// be UTF-8 text (`None` where it is not); it is refused and reported when
/// `method` finds credentials of `store` in it, and let through when none is
/// found.
pub fn check_request(
    store: &StringMap,
    endpoint: &str,
    payload: &[u8],
    known_leak: bool,
    method: ScanMethod,
) -> (r: Option<CheckOutcome>)
    requires
        store.wf(),
    ensures
        carries(r, check_verdict(store.entries_view(), payload@, known_leak, method), endpoint@, payload@),
        !known_leak && valid_utf8(payload@) ==> (refused(r) <==> credential_present(
            method,
            store.entries_view(),
            payload@,
        )),
        names_found(r, method, store.entries_view(), payload@),
        !known_leak && valid_utf8(payload@) ==> (r matches Some(o) ==> (o.report matches Some(l)
            ==> strings_view(l.leaked_credentials@) == leaks_found(
            method,
            store.entries_view(),
            payload@,
        ))),
{
    let endpoint_hash = md5_encode(endpoint.as_bytes());
    let payload_hash = sha256_encode(payload);
    if known_leak {
        let l = LeakModel {
            endpoint: String::from_str(endpoint),
            leaked_credentials: Vec::new(),
            payload_hash,
            endpoint_hash,
        };
        assert(strings_view(l.leaked_credentials@) =~= Seq::<Seq<char>>::empty());
        return Some(CheckOutcome { status: HttpStatus::Forbidden, report: Some(l) });
    }
    let text = match utf8_decode(payload) {
        Some(t) => t,
        None => return None,
    };
    let leaks = match method {
        ScanMethod::Automaton => scan_payload(store, payload),
        ScanMethod::Containment => {
            proof {
                store.lemma_view();
                lemma_contained_leaks_nonempty(store.entries_view(), text@);
                lemma_contained_leaks_exact(store.entries_view(), text@);
            }
            let found = scan_by_containment(store, text.as_str());
            proof {
                let e = store.entries_view();
                assert forall|i: int| 0 <= i < found@.len() implies found_in(
                    method,
                    e,
                    payload@,
                    #[trigger] found@[i]@,
                ) by {
                    let k = found@[i]@;
                    assert(strings_view(found@)[i] == k);
                    assert(contained_leaks(e, text@).contains(k));
                    let j = choose|j: int| 0 <= j < e.len() && e[j].0 == k;
                    assert(contains(text@, e[j].1));
                }
            }
            found
        },
    };
    if leaks.len() > 0 {
        let l = LeakModel {
            endpoint: String::from_str(endpoint),
            leaked_credentials: leaks,
            payload_hash,
            endpoint_hash,
        };
        Some(CheckOutcome { status: HttpStatus::Forbidden, report: Some(l) })
    } else {
        Some(CheckOutcome { status: HttpStatus::Success, report: None })
    }
}

} // verus!
