//! The trusted boundary around the `url`, `globset` and `percent-encoding`
//! crates. Each function here is believed, not proved: its contract states
//! only what the called crate's source and documentation show. Results that
//! would take pages to state (what parses, how a glob matches, how a decoder
//! expands `%xx`) are given uninterpreted names instead; the verified logic
//! is proved against those names.

use vstd::prelude::*;

verus! {

/// Whether `globset` accepts the pattern: it parses (`Glob::new`) and its
/// matcher compiles (`GlobSetBuilder::build`, which enforces the crate's
/// regex size limit and returns an error where `Glob::compile_matcher`
/// would panic).
pub uninterp spec fn glob_ok(pat: Seq<char>) -> bool;

/// Whether the compiled glob matches the text.
pub uninterp spec fn glob_hit(pat: Seq<char>, text: Seq<char>) -> bool;

/// Whether `url::Url::parse` accepts the string as an absolute URL.
pub uninterp spec fn url_ok(s: Seq<char>) -> bool;

/// The serialization of the parsed URL (defined where `url_ok` holds).
pub uninterp spec fn url_norm(s: Seq<char>) -> Seq<char>;

/// The parsed URL's host, as `url::Url::host_str` reports it.
pub uninterp spec fn url_host(s: Seq<char>) -> Option<Seq<char>>;

/// The parsed URL's fragment, as `url::Url::fragment` reports it.
pub uninterp spec fn url_fragment(s: Seq<char>) -> Option<Seq<char>>;

/// The parsed URL's query, decoded as form-urlencoded (key, value) pairs in
/// order, as `url::Url::query_pairs` reports them; empty when there is no
/// query.
pub uninterp spec fn url_pairs(s: Seq<char>) -> Seq<(Seq<char>, Seq<char>)>;

/// The serialization of the parsed URL after its fragment is removed.
pub uninterp spec fn url_no_fragment(s: Seq<char>) -> Seq<char>;

/// The serialization of the parsed URL after its query is removed.
pub uninterp spec fn url_no_query(s: Seq<char>) -> Seq<char>;

/// The serialization of the parsed URL after its query is replaced by the
/// form-urlencoded serialization of the given pairs.
pub uninterp spec fn url_with_pairs(s: Seq<char>, ps: Seq<(Seq<char>, Seq<char>)>) -> Seq<char>;

/// What `percent_encoding::percent_decode_str(..).decode_utf8()` yields:
/// `None` where the decoded bytes are not UTF-8.
pub uninterp spec fn pct_decoded(s: Seq<char>) -> Option<Seq<char>>;

/// Relies on `globset::Glob::new` and `globset::GlobSetBuilder::build`:
/// `Ok` from both exactly on patterns that parse and whose matcher
/// compiles.
#[verifier::external_body]
pub(crate) fn glob_valid(pat: &str) -> (r: bool)
    ensures
        r == glob_ok(pat@),
{
    match globset::Glob::new(pat) {
        Ok(g) => {
            let mut b = globset::GlobSetBuilder::new();
            b.add(g);
            b.build().is_ok()
        },
        Err(_) => false,
    }
}

/// Relies on `globset::Glob::new`, `globset::GlobSetBuilder::build` and
/// `globset::GlobSet::is_match`: for a set of one pattern, whether that
/// pattern matches, a function of the pattern and the text alone.
#[verifier::external_body]
pub(crate) fn glob_is_match(pat: &str, text: &str) -> (r: bool)
    requires
        glob_ok(pat@),
    ensures
        r == glob_hit(pat@, text@),
{
    match globset::Glob::new(pat) {
        Ok(g) => {
            let mut b = globset::GlobSetBuilder::new();
            b.add(g);
            match b.build() {
                Ok(set) => set.is_match(text),
                Err(_) => false,
            }
        },
        Err(_) => false,
    }
}

/// Relies on `percent_encoding::percent_decode_str` and
/// `PercentDecode::decode_utf8`: expands `%xx` escapes once, and fails
/// exactly when the expanded bytes are not UTF-8.
#[verifier::external_body]
pub(crate) fn percent_decode(s: &str) -> (r: Option<String>)
    ensures
        r is Some <==> pct_decoded(s@) is Some,
        r matches Some(d) ==> pct_decoded(s@) == Some(d@),
{
    match percent_encoding::percent_decode_str(s).decode_utf8() {
        Ok(c) => Some(c.into_owned()),
        Err(_) => None,
    }
}

/// Relies on `url::Url::parse` and `url::Url::as_str`: parsing succeeds
/// exactly on absolute URLs, and the crate's own invariant (checked by its
/// `check_invariants`) is that a serialization re-parses to the same URL, so
/// normalization is a fixed point.
#[verifier::external_body]
pub(crate) fn parse_and_normalize(s: &str) -> (r: Option<String>)
    ensures
        r is Some <==> url_ok(s@),
        r matches Some(n) ==> n@ == url_norm(s@) && url_ok(n@) && url_norm(n@) == n@,
{
    match url::Url::parse(s) {
        Ok(u) => Some(String::from(u)),
        Err(_) => None,
    }
}

/// Relies on `url::Url::host_str`: the host of the parsed URL.
#[verifier::external_body]
pub(crate) fn host_of(s: &str) -> (r: Option<String>)
    requires
        url_ok(s@),
    ensures
        r is Some <==> url_host(s@) is Some,
        r matches Some(h) ==> url_host(s@) == Some(h@),
{
    match url::Url::parse(s) {
        Ok(u) => u.host_str().map(|h| h.to_string()),
        Err(_) => None,
    }
}

/// Relies on `url::Url::fragment`: the part after `#`, if any.
#[verifier::external_body]
pub(crate) fn fragment_of(s: &str) -> (r: Option<String>)
    requires
        url_ok(s@),
    ensures
        r is Some <==> url_fragment(s@) is Some,
        r matches Some(f) ==> url_fragment(s@) == Some(f@),
{
    match url::Url::parse(s) {
        Ok(u) => u.fragment().map(|f| f.to_string()),
        Err(_) => None,
    }
}

/// Relies on `url::Url::query_pairs`: the query decoded as form-urlencoded
/// (key, value) pairs, in their original order.
#[verifier::external_body]
pub(crate) fn pairs_of(s: &str) -> (r: Vec<(String, String)>)
    requires
        url_ok(s@),
    ensures
        r.deep_view() == url_pairs(s@),
{
    match url::Url::parse(s) {
        Ok(u) => u.query_pairs().into_owned().collect(),
        Err(_) => Vec::new(),
    }
}

/// Relies on `url::Url::set_fragment` with `None`: it only removes the
/// fragment, leaving scheme, host and query as they were, and the result is
/// again a canonical serialization.
#[verifier::external_body]
pub(crate) fn drop_fragment(s: &str) -> (r: String)
    requires
        url_ok(s@),
    ensures
        r@ == url_no_fragment(s@),
        url_ok(r@),
        url_norm(r@) == r@,
        url_fragment(r@) is None,
        url_host(r@) == url_host(s@),
        url_pairs(r@) == url_pairs(s@),
{
    let mut u = url::Url::parse(s).unwrap();
    u.set_fragment(None);
    String::from(u)
}

/// Relies on `url::Url::set_query` with `None`: it only removes the query,
/// leaving scheme, host and fragment as they were, and the result is again a
/// canonical serialization.
#[verifier::external_body]
pub(crate) fn drop_query(s: &str) -> (r: String)
    requires
        url_ok(s@),
    ensures
        r@ == url_no_query(s@),
        url_ok(r@),
        url_norm(r@) == r@,
        url_host(r@) == url_host(s@),
        url_fragment(r@) == url_fragment(s@),
        url_pairs(r@) == Seq::<(Seq<char>, Seq<char>)>::empty(),
{
    let mut u = url::Url::parse(s).unwrap();
    u.set_query(None);
    String::from(u)
}

/// Relies on `form_urlencoded::Serializer` and `url::Url::set_query`: the
/// serializer emits the pairs in `application/x-www-form-urlencoded` form,
/// `set_query` stores that string unchanged (every byte the serializer emits
/// is allowed in a query), and `url::Url::query_pairs` decodes it back to the
/// same pairs. Scheme, host and fragment are left as they were, and the
/// result is again a canonical serialization.
#[verifier::external_body]
pub(crate) fn replace_pairs(s: &str, pairs: &Vec<(String, String)>) -> (r: String)
    requires
        url_ok(s@),
    ensures
        r@ == url_with_pairs(s@, pairs.deep_view()),
        url_ok(r@),
        url_norm(r@) == r@,
        url_host(r@) == url_host(s@),
        url_fragment(r@) == url_fragment(s@),
        url_pairs(r@) == pairs.deep_view(),
{
    let mut u = url::Url::parse(s).unwrap();
    let mut ser = url::form_urlencoded::Serializer::new(String::new());
    for (k, v) in pairs.iter() {
        ser.append_pair(k, v);
    }
    u.set_query(Some(&ser.finish()));
    String::from(u)
}

} // verus!
