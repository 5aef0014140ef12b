use vstd::prelude::*;
use crate::guard::{Id, MessageGuard};
use crate::template::chars_of;
use vstd::string::StringExecFns;

verus! {

/// A decimal digit.
pub open spec fn is_digit(c: char) -> bool {
    '0' <= c && c <= '9'
}

/// The number that a string of decimal digits writes.
pub open spec fn digits_value(d: Seq<char>) -> int
    decreases d.len(),
{
    if d.len() == 0 {
        0
    } else {
        digits_value(d.drop_last()) * 10 + (d.last() as int - '0' as int)
    }
}

/// A text that is nothing but decimal digits.
pub open spec fn all_digits(d: Seq<char>) -> bool {
    forall|i: int| 0 <= i < d.len() ==> is_digit(#[trigger] d[i])
}

/// The text after its sign, if it begins with `+` or `-`.
pub open spec fn unsigned_part(s: Seq<char>) -> Seq<char> {
    if s.len() > 0 && (s[0] == '-' || s[0] == '+') {
        s.drop_first()
    } else {
        s
    }
}

/// The `i64` that a text writes in decimal, as `str::parse` reads it: an optional `+` or
/// `-`, then one or more digits, with the value in range; `None` for anything else.
pub open spec fn parse_i64_spec(s: Seq<char>) -> Option<i64> {
    let d = unsigned_part(s);
    if d.len() == 0 || !all_digits(d) {
        None
    } else {
        let v = if s[0] == '-' {
            -digits_value(d)
        } else {
            digits_value(d)
        };
        if i64::MIN <= v <= i64::MAX {
            Some(v as i64)
        } else {
            None
        }
    }
}

proof fn lemma_digits_value_grows(d: Seq<char>, k: int)
    requires
        0 <= k <= d.len(),
        forall|i: int| 0 <= i < d.len() ==> is_digit(#[trigger] d[i]),
    ensures
        digits_value(d) >= digits_value(d.take(k)),
        digits_value(d.take(k)) >= 0,
    decreases d.len() - k,
{
    if k < d.len() {
        assert(d.take(k + 1).drop_last() =~= d.take(k));
        lemma_digits_value_grows(d, k + 1);
        assert(is_digit(d.take(k + 1).last()));
    } else {
        assert(d.take(k) =~= d);
        lemma_digits_value_nonneg(d);
    }
}

proof fn lemma_digits_value_nonneg(d: Seq<char>)
    requires
        forall|i: int| 0 <= i < d.len() ==> is_digit(#[trigger] d[i]),
    ensures
        digits_value(d) >= 0,
    decreases d.len(),
{
    if d.len() > 0 {
        assert(is_digit(d[d.len() - 1]));
        lemma_digits_value_nonneg(d.drop_last());
    }
}

/// Reads an id written in decimal, as `str::parse::<i64>` does.
pub fn parse_id(s: &str) -> (r: Option<Id>)
    ensures
        r == parse_i64_spec(s@),
{
    let v = chars_of(s);
    let n = v.len();
    let negative = n > 0 && v[0] == '-';
    let start: usize = if n > 0 && (v[0] == '-' || v[0] == '+') {
        1
    } else {
        0
    };
    let ghost d = unsigned_part(v@);
    assert(d =~= v@.skip(start as int));
    assert(s@.len() > 0 && (s@[0] == '-' || s@[0] == '+') <==> start == 1);
    if start == n {
        return None;
    }
    let bound: i128 = 0x8000_0000_0000_0000;
    let mut acc: i128 = 0;
    let mut i = start;
    while i < n
        invariant
            v@ == s@,
            n == v.len(),
            start <= i <= n,
            d == v@.skip(start as int),
            d == unsigned_part(s@),
            0 <= acc <= bound,
            bound == 0x8000_0000_0000_0000,
            acc == digits_value(d.take(i - start)),
            forall|t: int| 0 <= t < i - start ==> is_digit(#[trigger] d[t]),
        decreases n - i,
    {
        let c = v[i];
        if !('0' <= c && c <= '9') {
            assert(!is_digit(d[i - start]));
            return None;
        }
        let digit = (c as u32 - '0' as u32) as i128;
        assert(d.take(i - start + 1).drop_last() =~= d.take(i - start));
        acc = acc * 10 + digit;
        i = i + 1;
        if acc > bound {
            proof {
                if forall|t: int| 0 <= t < d.len() ==> is_digit(#[trigger] d[t]) {
                    lemma_digits_value_grows(d, i - start);
                }
            }
            return None;
        }
    }
    assert(d.take(n - start) =~= d);
    let value: i128 = if negative {
        -acc
    } else {
        acc
    };
    if value > 0x7fff_ffff_ffff_ffff {
        return None;
    }
    Some(value as Id)
}

/// The count that a query asks for: a number that is not negative.
pub open spec fn query_count(last_n: Seq<char>) -> Option<i64> {
    match parse_i64_spec(last_n) {
        Some(n) => if n >= 0 {
            Some(n)
        } else {
            None
        },
        None => None,
    }
}

/// The latest messages for a query that names how many it wants: `Err("Invalid id")`
/// unless the text is a non-negative number, else what `get_latest` gives for it.
pub fn query_latest<G: MessageGuard>(store: &G, last_n: &str) -> (r: Result<
    Vec<G::Message>,
    String,
>)
    requires
        store.well_formed(),
        query_count(last_n@) matches Some(n) ==> store.latest_defined(n),
    ensures
        match r {
            Err(e) => e@ == "Invalid id"@ && query_count(last_n@) is None,
            Ok(v) => query_count(last_n@) matches Some(n) && v.len() == store.latest_ids(n).len()
                && forall|i: int|
                #![trigger v[i]]
                0 <= i < v.len() ==> 0 <= store.latest_ids(n)[i] < store.messages().len()
                    && cloned(store.messages()[store.latest_ids(n)[i]], v[i]),
        },
{
    match parse_id(last_n) {
        Some(n) => {
            if n < 0 {
                Err("Invalid id".to_owned())
            } else {
                let v = store.get_latest(n);
                assert forall|i: int| 0 <= i < v.len() implies 0 <= #[trigger] store.latest_ids(n)[i]
                    < store.messages().len() by {
                    assert(cloned(store.messages()[store.latest_ids(n)[i]], v[i]));
                }
                Ok(v)
            }
        },
        None => Err("Invalid id".to_owned()),
    }
}

/// The GraphiQL page that talks to the GraphQL endpoint at this URL.
pub uninterp spec fn graphiql_html(endpoint: Seq<char>) -> Seq<char>;

/// The HTML of juniper's GraphiQL page for an endpoint.
///
/// Calls `juniper::http::graphiql::graphiql_source` with no subscriptions endpoint, which
/// fills the endpoint into a fixed page. Trusted to give `graphiql_html` of the endpoint, a
/// value that depends on the endpoint alone; nothing more is claimed of it.
#[verifier::external_body]
fn graphiql_source(endpoint: &str) -> (r: String)
    ensures
        r@ == graphiql_html(endpoint@),
{
    juniper::http::graphiql::graphiql_source(endpoint, None)
}

/// The GraphQL endpoint as seen from a browser that reached the server at `host`.
pub open spec fn graphql_endpoint(host: Seq<char>) -> Seq<char> {
    seq!['/', '/'] + host + seq!['/', 'g', 'r', 'a', 'p', 'h', 'q', 'l']
}

/// The endpoint URL of the GraphQL service at `host`: `//host/graphql`.
fn graphql_endpoint_url(host: &str) -> (r: String)
    ensures
        r@ == graphql_endpoint(host@),
{
    proof {
        reveal_strlit("//");
        reveal_strlit("/graphql");
    }
    let mut url = String::from_str("//");
    url.append(host);
    url.append("/graphql");
    url
}

/// The GraphiQL page for a browser that reached the server at `host` (the request's `Host`
/// header; empty when it has none): the page that talks to `//host/graphql`.
pub fn graphiql_page(host: &str) -> (r: String)
    ensures
        r@ == graphiql_html(graphql_endpoint(host@)),
{
    let url = graphql_endpoint_url(host);
    graphiql_source(url.as_str())
}

} // verus!
