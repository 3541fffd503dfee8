//! The record of a detected leak, and the message the notification bot sends
//! about it.

use vstd::prelude::*;

verus! {

/// A detected leak: where it happened, which credentials leaked, and the
/// fingerprints of the payload and of the endpoint.
pub struct LeakModel {
    pub endpoint: String,
    pub leaked_credentials: Vec<String>,
    pub payload_hash: String,
    pub endpoint_hash: String,
}

/// The text that `Debug` writes for a string (`format!("{:?}", s)`): the
/// string quoted, with its special characters escaped.
pub uninterp spec fn debug_text(s: Seq<char>) -> Seq<char>;

/// `format!("{:?}", s)`. The text is taken as a function of `s` alone;
/// nothing about its characters is stated.
#[verifier::external_body]
fn debug_string(s: &str) -> (r: String)
    ensures
        r@ == debug_text(s@),
{
    format!("{:?}", s)
}

/// The items joined with `sep` between neighbours.
pub open spec fn join(items: Seq<Seq<char>>, sep: Seq<char>) -> Seq<char>
    decreases items.len(),
{
    if items.len() == 0 {
        Seq::empty()
    } else if items.len() == 1 {
        items[0]
    } else {
        join(items.drop_last(), sep) + sep + items.last()
    }
}

/// Adding an item at the end of a non-empty list adds the separator and the
/// item at the end of the joined text.
pub proof fn lemma_join_push(items: Seq<Seq<char>>, x: Seq<char>, sep: Seq<char>)
    requires
        items.len() > 0,
    ensures
        join(items.push(x), sep) == join(items, sep) + sep + x,
{
    assert(items.push(x).drop_last() =~= items);
}

/// Joining two non-empty lists one after the other gives the two joined
/// texts with one separator between them.
pub proof fn lemma_join_append(a: Seq<Seq<char>>, b: Seq<Seq<char>>, sep: Seq<char>)
    requires
        a.len() > 0,
        b.len() > 0,
    ensures
        join(a + b, sep) == join(a, sep) + sep + join(b, sep),
    decreases b.len(),
{
    if b.len() == 1 {
        assert(a + b =~= a.push(b[0]));
        lemma_join_push(a, b[0], sep);
    } else {
        let bd = b.drop_last();
        assert(b =~= bd.push(b.last()));
        assert(a + b =~= (a + bd).push(b.last()));
        lemma_join_push(a + bd, b.last(), sep);
        lemma_join_append(a, bd, sep);
        lemma_join_push(bd, b.last(), sep);
        assert(join(a, sep) + sep + join(bd, sep) + sep + b.last() =~= join(a, sep) + sep + (join(
            bd,
            sep,
        ) + sep + b.last()));
    }
}

/// The total length of the items.
pub open spec fn total_len(items: Seq<Seq<char>>) -> nat
    decreases items.len(),
{
    if items.len() == 0 {
        0
    } else {
        total_len(items.drop_last()) + items.last().len()
    }
}

/// The joined text holds every item and one separator between each two
/// neighbours, and nothing else: its length is the items' total length plus
/// one separator's length for each item but the first.
pub proof fn lemma_join_len(items: Seq<Seq<char>>, sep: Seq<char>)
    requires
        items.len() > 0,
    ensures
        join(items, sep).len() == total_len(items) + (items.len() - 1) * sep.len(),
    decreases items.len(),
{
    if items.len() > 1 {
        let d = items.drop_last();
        lemma_join_len(d, sep);
        let n = d.len() as int;
        let k = sep.len() as int;
        assert((n - 1) * k + k == n * k) by (nonlinear_arith);
    } else {
        assert(total_len(items.drop_last()) == 0);
    }
}

/// The text that `Debug` writes for a list of strings: `[`, each string's
/// debug text separated by `, `, then `]`.
pub open spec fn debug_list(items: Seq<Seq<char>>) -> Seq<char> {
    "["@ + join(items.map_values(|s: Seq<char>| debug_text(s)), ", "@) + "]"@
}

/// The message announcing that `credentials` leaked at `endpoint`.
pub open spec fn bot_message(credentials: Seq<Seq<char>>, endpoint: Seq<char>) -> Seq<char> {
    "Leaks for the following params"@ + debug_list(credentials) + " have occurred at:\n "@
        + endpoint
}

/// A credential added to a non-empty list of leaked credentials appears in
/// the message after the others, separated from them by `, `.
pub proof fn lemma_bot_message_push(credentials: Seq<Seq<char>>, c: Seq<char>, endpoint: Seq<char>)
    requires
        credentials.len() > 0,
    ensures
        bot_message(credentials.push(c), endpoint) == "Leaks for the following params["@ + join(
            credentials.map_values(|s: Seq<char>| debug_text(s)),
            ", "@,
        ) + ", "@ + debug_text(c) + "] have occurred at:\n "@ + endpoint,
{
    let d = credentials.map_values(|s: Seq<char>| debug_text(s));
    assert(credentials.push(c).map_values(|s: Seq<char>| debug_text(s)) =~= d.push(debug_text(c)));
    lemma_join_push(d, debug_text(c), ", "@);
    reveal_strlit("Leaks for the following params[");
    reveal_strlit("Leaks for the following params");
    reveal_strlit("[");
    reveal_strlit("]");
    reveal_strlit("] have occurred at:\n ");
    reveal_strlit(" have occurred at:\n ");
    assert("Leaks for the following params["@ =~= "Leaks for the following params"@ + "["@);
    assert("] have occurred at:\n "@ =~= "]"@ + " have occurred at:\n "@);
    assert(bot_message(credentials.push(c), endpoint) =~= "Leaks for the following params["@ + join(
        d,
        ", "@,
    ) + ", "@ + debug_text(c) + "] have occurred at:\n "@ + endpoint);
}

/// The character sequences of a list of strings.
pub open spec fn strings_view(v: Seq<String>) -> Seq<Seq<char>> {
    v.map_values(|s: String| s@)
}

impl LeakModel {
    /// The message the notification bot sends about this leak.
    pub fn create_bot_message(self) -> (r: String)
        ensures
            r@ == bot_message(strings_view(self.leaked_credentials@), self.endpoint@),
    {
        let creds = &self.leaked_credentials;
        let ghost items = strings_view(creds@).map_values(|s: Seq<char>| debug_text(s));
        let n = creds.len();
        let mut body = String::new();
        let mut i: usize = 0;
        assert(items.take(0) =~= Seq::<Seq<char>>::empty());
        while i < n
            invariant
                n == creds@.len(),
                items == strings_view(creds@).map_values(|s: Seq<char>| debug_text(s)),
                i <= n,
                body@ == join(items.take(i as int), ", "@),
            decreases n - i,
        {
            let d = debug_string(creds[i].as_str());
            assert(items.take(i + 1).drop_last() =~= items.take(i as int));
            assert(items.take(i + 1).last() == d@);
            if i > 0 {
                body.append(", ");
            } else {
                assert(body@ + d@ =~= d@);
            }
            body.append(d.as_str());
            i = i + 1;
        }
        assert(items.take(n as int) =~= items);
        let mut r = String::from_str("Leaks for the following params[");
        r.append(body.as_str());
        r.append("] have occurred at:\n ");
        r.append(self.endpoint.as_str());
        proof {
            reveal_strlit("Leaks for the following params[");
            reveal_strlit("Leaks for the following params");
            reveal_strlit("[");
            reveal_strlit("]");
            reveal_strlit("] have occurred at:\n ");
            reveal_strlit(" have occurred at:\n ");
            assert("Leaks for the following params["@ =~= "Leaks for the following params"@ + "["@);
            assert("] have occurred at:\n "@ =~= "]"@ + " have occurred at:\n "@);
        }
        assert(r@ =~= bot_message(strings_view(self.leaked_credentials@), self.endpoint@));
        r
    }
}

} // verus!
