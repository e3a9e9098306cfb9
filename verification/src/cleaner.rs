//! The URL sanitizer: parses an input, strips tracker-style fragments,
//! resolves known redirect wrappers recursively (up to a hop limit), and
//! filters query parameters by keep/remove precedence.

use vstd::prelude::*;
use vstd::seq_lib::*;
use vstd::string::StrSliceExecFns;

use crate::outside::{
    drop_fragment, drop_query, fragment_of, glob_hit, glob_is_match, glob_ok, glob_valid, host_of,
    pairs_of, parse_and_normalize, pct_decoded, percent_decode, replace_pairs, url_fragment,
    url_host, url_no_fragment, url_no_query, url_norm, url_ok, url_pairs, url_with_pairs,
};
use crate::rules::{
    any_strip, cat_globs, cat_keeps, cat_removes, cat_unwraps, find_bad_pat, matched_rules,
    CompiledHostRules, RuleSet,
};
use crate::text::{
    contains_case_insensitive, copy_str, in_list_ci, lower_spec, to_lower, trim_input, trim_spec,
};
use crate::CleanError;

verus! {

/// How many redirect wrappers one input may unwrap through before the
/// cleaner gives up with `TooManyRedirects`.
pub const MAX_REDIRECT_HOPS: u32 = 32;

/// What cleaning one input yields, stated over the mathematical model.
pub enum CleanOutcome {
    /// The canonical URL string.
    Cleaned(Seq<char>),
    /// The input did not parse as an absolute URL; carries the raw input.
    BadUrl(Seq<char>),
    /// A malformed wildcard pattern in the active rules; carries it.
    BadGlob(Seq<char>),
    /// A redirect chain longer than the hop limit.
    HopLimit,
}

/// The rule lists that drive filtering for one hostname: the global lists of
/// the rule set beside the host-aggregated ones.
#[verifier::ext_equal]
pub struct FilterView {
    pub g_keep: Seq<Seq<char>>,
    pub h_keep: Seq<Seq<char>>,
    pub strip_all: bool,
    pub g_remove: Seq<Seq<char>>,
    pub h_remove: Seq<Seq<char>>,
    pub g_globs: Seq<Seq<char>>,
    pub h_globs: Seq<Seq<char>>,
}

/// Whether a lowercased name matches any pattern of the list; a malformed
/// pattern matches nothing.
pub open spec fn key_in_globs(globs: Seq<Seq<char>>, kl: Seq<char>) -> bool {
    exists|i: int| 0 <= i < globs.len() && glob_ok(globs[i]) && glob_hit(globs[i], kl)
}

/// The keep/remove precedence for one parameter name, first match wins:
/// keep (global or host), strip-all, exact removal, glob removal, default
/// keep.
pub open spec fn param_kept(fv: FilterView, k: Seq<char>) -> bool {
    if in_list_ci(fv.g_keep, k) || in_list_ci(fv.h_keep, k) {
        true
    } else if fv.strip_all {
        false
    } else if in_list_ci(fv.g_remove, k) || in_list_ci(fv.h_remove, k) {
        false
    } else if key_in_globs(fv.g_globs, lower_spec(k)) || key_in_globs(fv.h_globs, lower_spec(k)) {
        false
    } else {
        true
    }
}

/// The filter view for one hostname, derived from the rule set.
pub open spec fn filter_view(rs: RuleSet, host: Seq<char>) -> FilterView {
    let m = matched_rules(rs.host_rules@, host);
    FilterView {
        g_keep: rs.keep_params.deep_view(),
        h_keep: cat_keeps(m),
        strip_all: any_strip(m),
        g_remove: rs.remove_params.deep_view(),
        h_remove: cat_removes(m),
        g_globs: rs.remove_param_globs.deep_view(),
        h_globs: cat_globs(m),
    }
}

/// The filter view assembled from a rule set and an already-aggregated host
/// view.
pub open spec fn view_of(rs: RuleSet, hv: CompiledHostRules) -> FilterView {
    FilterView {
        g_keep: rs.keep_params.deep_view(),
        h_keep: hv.keep_params.deep_view(),
        strip_all: hv.strip_all_params,
        g_remove: rs.remove_params.deep_view(),
        h_remove: hv.remove_params.deep_view(),
        g_globs: rs.remove_param_globs.deep_view(),
        h_globs: hv.remove_param_globs.deep_view(),
    }
}

/// The query pairs that survive filtering, in their original order.
pub open spec fn filter_pairs(fv: FilterView, ps: Seq<(Seq<char>, Seq<char>)>) -> Seq<
    (Seq<char>, Seq<char>),
> {
    ps.filter(|p: (Seq<char>, Seq<char>)| param_kept(fv, p.0))
}

/// The hostname used for rule lookup: the URL's host, or empty when the URL
/// has none.
pub open spec fn eff_host(s: Seq<char>) -> Seq<char> {
    match url_host(s) {
        Some(h) => h,
        None => Seq::empty(),
    }
}

/// The first malformed pattern of the global glob list, if any.
pub open spec fn first_bad_glob(globs: Seq<Seq<char>>) -> Option<Seq<char>>
    decreases globs.len(),
{
    if globs.len() == 0 {
        None
    } else if !glob_ok(globs[0]) {
        Some(globs[0])
    } else {
        first_bad_glob(globs.drop_first())
    }
}

/// Whether a fragment exists and contains `=`: the tracker heuristic.
pub open spec fn frag_has_eq(f: Option<Seq<char>>) -> bool {
    match f {
        Some(s) => s.contains('='),
        None => false,
    }
}

/// What query filtering yields on an already-parsed URL serialization `u`:
/// a malformed host or global glob pattern is fatal; otherwise the surviving
/// pairs are re-serialized, a fully emptied query is removed, and a query
/// that lost nothing is left byte-for-byte as it was.
pub open spec fn filter_outcome(rs: RuleSet, u: Seq<char>) -> CleanOutcome {
    let host = eff_host(u);
    match find_bad_pat(rs.host_rules@, host) {
        Some(p) => CleanOutcome::BadGlob(p),
        None => match first_bad_glob(rs.remove_param_globs.deep_view()) {
            Some(p) => CleanOutcome::BadGlob(p),
            None => {
                let fv = filter_view(rs, host);
                let ps = url_pairs(u);
                let kept = filter_pairs(fv, ps);
                if kept.len() == ps.len() {
                    CleanOutcome::Cleaned(u)
                } else if kept.len() == 0 {
                    CleanOutcome::Cleaned(url_no_query(u))
                } else {
                    CleanOutcome::Cleaned(url_with_pairs(u, kept))
                }
            },
        },
    }
}

/// The query values that are candidates for unwrapping: the values, in
/// order, of the pairs whose key matches an unwrap parameter name.
pub open spec fn unwrap_candidates(
    unwraps: Seq<Seq<char>>,
    ps: Seq<(Seq<char>, Seq<char>)>,
) -> Seq<Seq<char>> {
    ps.filter(|p: (Seq<char>, Seq<char>)| in_list_ci(unwraps, p.0)).map_values(
        |p: (Seq<char>, Seq<char>)| p.1,
    )
}

/// Scans the candidates in order: the first whose single percent-decode is a
/// valid absolute URL is the target; a candidate whose decode is not UTF-8,
/// or is no absolute URL, is skipped and the scan goes on.
pub open spec fn scan_candidates(cs: Seq<Seq<char>>) -> Option<Seq<char>>
    decreases cs.len(),
{
    if cs.len() == 0 {
        None
    } else {
        match pct_decoded(cs[0]) {
            None => scan_candidates(cs.drop_first()),
            Some(d) => if url_ok(d) {
                Some(d)
            } else {
                scan_candidates(cs.drop_first())
            },
        }
    }
}

/// The embedded target URL to recurse into, if any.
pub open spec fn unwrap_target(unwraps: Seq<Seq<char>>, ps: Seq<(Seq<char>, Seq<char>)>) -> Option<
    Seq<char>,
> {
    if unwraps.len() == 0 {
        None
    } else {
        scan_candidates(unwrap_candidates(unwraps, ps))
    }
}

/// What cleaning yields, for a given rule set, raw input, and remaining hop
/// budget: trim, parse, apply the fragment heuristic, unwrap a known
/// redirector (recursing on the embedded target), else filter the query.
pub open spec fn clean_spec(rs: RuleSet, raw: Seq<char>, hops: nat) -> CleanOutcome
    decreases hops,
{
    let t = trim_spec(raw);
    if !url_ok(t) {
        CleanOutcome::BadUrl(raw)
    } else {
        let n = url_norm(t);
        let n2 = if frag_has_eq(url_fragment(n)) {
            url_no_fragment(n)
        } else {
            n
        };
        match url_host(n2) {
            Some(h) => match find_bad_pat(rs.host_rules@, h) {
                Some(p) => CleanOutcome::BadGlob(p),
                None => {
                    let unwraps = cat_unwraps(matched_rules(rs.host_rules@, h));
                    match unwrap_target(unwraps, url_pairs(n2)) {
                        Some(d) => if hops == 0 {
                            CleanOutcome::HopLimit
                        } else {
                            clean_spec(rs, d, (hops - 1) as nat)
                        },
                        None => filter_outcome(rs, n2),
                    }
                },
            },
            None => filter_outcome(rs, n2),
        }
    }
}

/// Whether the string contains an `=` character.
fn has_eq_char(s: &str) -> (r: bool)
    ensures
        r == s@.contains('='),
{
    let n = s.unicode_len();
    let mut i: usize = 0;
    while i < n
        invariant
            n == s@.len(),
            i <= n,
            forall|j: int| 0 <= j < i ==> s@[j] != '=',
        decreases n - i,
    {
        if s.get_char(i) == '=' {
            return true;
        }
        i = i + 1;
    }
    false
}

/// Checks every pattern of the global glob list, in order; the first
/// malformed one is a fatal error.
fn check_globs(globs: &Vec<String>) -> (r: Result<(), CleanError>)
    ensures
        r is Ok <==> first_bad_glob(globs.deep_view()) is None,
        r matches Err(e) ==> e matches CleanError::InvalidGlobPattern(p) && first_bad_glob(
            globs.deep_view(),
        ) == Some(p@),
{
    let ghost gv = globs.deep_view();
    proof {
        assert(gv.skip(0) =~= gv);
    }
    let mut i: usize = 0;
    while i < globs.len()
        invariant
            i <= gv.len(),
            gv == globs.deep_view(),
            gv.len() == globs@.len(),
            first_bad_glob(gv) == first_bad_glob(gv.skip(i as int)),
        decreases gv.len() - i,
    {
        proof {
            assert(gv.skip(i as int)[0] == gv[i as int]);
            assert(gv[i as int] == globs@[i as int]@);
        }
        if !glob_valid(globs[i].as_str()) {
            return Err(CleanError::InvalidGlobPattern(globs[i].clone()));
        }
        proof {
            assert(gv.skip(i as int).drop_first() =~= gv.skip(i + 1));
        }
        i = i + 1;
    }
    proof {
        assert(gv.skip(gv.len() as int) =~= Seq::<Seq<char>>::empty());
    }
    Ok(())
}

/// Whether the lowercased name matches any pattern of the list; malformed
/// patterns are skipped.
fn any_glob_hit(globs: &Vec<String>, kl: &str) -> (r: bool)
    ensures
        r == key_in_globs(globs.deep_view(), kl@),
{
    let mut i: usize = 0;
    while i < globs.len()
        invariant
            i <= globs@.len(),
            forall|j: int|
                0 <= j < i ==> !(glob_ok(globs.deep_view()[j]) && glob_hit(
                    globs.deep_view()[j],
                    kl@,
                )),
        decreases globs@.len() - i,
    {
        proof {
            assert(globs.deep_view()[i as int] == globs@[i as int]@);
        }
        if glob_valid(globs[i].as_str()) {
            if glob_is_match(globs[i].as_str(), kl) {
                return true;
            }
        }
        i = i + 1;
    }
    false
}

/// The URL cleaner: an immutable rule set and the logic around it.
pub struct UrlCleaner {
    pub rules: RuleSet,
}

/// All pairs survive filtering exactly when the filtered sequence is the
/// whole sequence.
proof fn lemma_filter_all(fv: FilterView, ps: Seq<(Seq<char>, Seq<char>)>)
    requires
        filter_pairs(fv, ps).len() == ps.len(),
    ensures
        filter_pairs(fv, ps) == ps,
    decreases ps.len(),
{
    reveal(Seq::filter);
    let pred = |p: (Seq<char>, Seq<char>)| param_kept(fv, p.0);
    if ps.len() > 0 {
        ps.drop_last().lemma_filter_len(pred);
        if pred(ps.last()) {
            lemma_filter_all(fv, ps.drop_last());
            assert(filter_pairs(fv, ps) =~= ps);
        } else {
            assert(filter_pairs(fv, ps).len() <= ps.drop_last().len());
        }
    } else {
        assert(filter_pairs(fv, ps) =~= ps);
    }
}

impl UrlCleaner {
    /// Builds a cleaner around an assembled rule set.
    pub fn new(rules: RuleSet) -> (r: Self)
        ensures
            r.rules == rules,
    {
        UrlCleaner { rules }
    }

    /// The keep/remove precedence for one parameter name.
    fn param_is_kept(&self, hv: &CompiledHostRules, k: &str) -> (r: bool)
        ensures
            r == param_kept(view_of(self.rules, *hv), k@),
    {
        if contains_case_insensitive(&self.rules.keep_params, k) || contains_case_insensitive(
            &hv.keep_params,
            k,
        ) {
            return true;
        }
        if hv.strip_all_params {
            return false;
        }
        if contains_case_insensitive(&self.rules.remove_params, k) || contains_case_insensitive(
            &hv.remove_params,
            k,
        ) {
            return false;
        }
        let kl = to_lower(k);
        if any_glob_hit(&self.rules.remove_param_globs, kl.as_str()) {
            return false;
        }
        if any_glob_hit(&hv.remove_param_globs, kl.as_str()) {
            return false;
        }
        true
    }

    /// Filters the query of an already-normalized URL serialization by the
    /// active rules: surviving pairs stay in order; a query that lost
    /// nothing is left byte-for-byte; one that lost everything is removed.
    fn clean_query_params(&self, u: String) -> (r: Result<String, CleanError>)
        requires
            url_ok(u@),
            url_norm(u@) == u@,
        ensures
            r is Ok <==> filter_outcome(self.rules, u@) matches CleanOutcome::Cleaned(_),
            r matches Ok(s) ==> filter_outcome(self.rules, u@) == CleanOutcome::Cleaned(s@)
                && url_ok(s@) && url_norm(s@) == s@ && url_host(s@) == url_host(u@) && url_fragment(
                s@,
            ) == url_fragment(u@) && url_pairs(s@) == filter_pairs(
                filter_view(self.rules, eff_host(u@)),
                url_pairs(u@),
            ),
            r matches Ok(s) ==> find_bad_pat(self.rules.host_rules@, eff_host(s@)) is None
                && first_bad_glob(self.rules.remove_param_globs.deep_view()) is None && forall|i:
                int|
                0 <= i < url_pairs(s@).len() ==> param_kept(
                    filter_view(self.rules, eff_host(s@)),
                    (#[trigger] url_pairs(s@)[i]).0,
                ),
            r matches Err(e) ==> e matches CleanError::InvalidGlobPattern(p) && filter_outcome(
                self.rules,
                u@,
            ) == CleanOutcome::BadGlob(p@),
    {
        let host_s: String = match host_of(u.as_str()) {
            Some(h) => h,
            None => String::new(),
        };
        proof {
            assert(host_s@ == eff_host(u@));
        }
        let hv = match self.rules.matcher_for(host_s.as_str()) {
            Ok(hv) => hv,
            Err(e) => {
                return Err(e);
            },
        };
        if let Err(e) = check_globs(&self.rules.remove_param_globs) {
            return Err(e);
        }
        let ghost fv = filter_view(self.rules, host_s@);
        proof {
            assert(fv =~= view_of(self.rules, hv));
        }
        let pairs = pairs_of(u.as_str());
        let ghost pv = pairs.deep_view();
        let ghost pred = |p: (Seq<char>, Seq<char>)| param_kept(fv, p.0);
        let mut kept: Vec<(String, String)> = Vec::new();
        proof {
            reveal(Seq::filter);
            assert(pv.take(0) =~= Seq::<(Seq<char>, Seq<char>)>::empty());
            assert(kept.deep_view() =~= Seq::<(Seq<char>, Seq<char>)>::empty());
        }
        let mut changed = false;
        let mut i: usize = 0;
        while i < pairs.len()
            invariant
                i <= pv.len(),
                pv == pairs.deep_view(),
                pv.len() == pairs@.len(),
                fv == view_of(self.rules, hv),
                pred == (|p: (Seq<char>, Seq<char>)| param_kept(fv, p.0)),
                kept.deep_view() == pv.take(i as int).filter(pred),
                changed <==> pv.take(i as int).filter(pred).len() < i,
            decreases pv.len() - i,
        {
            proof {
                reveal(Seq::filter);
                assert(pv[i as int] == (pairs@[i as int].0@, pairs@[i as int].1@));
                assert(pv.take(i + 1).drop_last() =~= pv.take(i as int));
                assert(pv.take(i + 1).last() == pv[i as int]);
                pv.take(i as int).lemma_filter_len(pred);
            }
            let keep = self.param_is_kept(&hv, pairs[i].0.as_str());
            if keep {
                let ghost before = kept.deep_view();
                kept.push((pairs[i].0.clone(), pairs[i].1.clone()));
                proof {
                    reveal(Seq::filter);
                    assert(kept.deep_view() =~= before.push(pv[i as int]));
                    assert(pred(pv.take(i + 1).last()));
                    assert(pv.take(i + 1).filter(pred) == pv.take(i as int).filter(pred).push(
                        pv[i as int],
                    ));
                }
            } else {
                proof {
                    reveal(Seq::filter);
                    assert(!pred(pv.take(i + 1).last()));
                    assert(pv.take(i + 1).filter(pred) == pv.take(i as int).filter(pred));
                }
                changed = true;
            }
            i = i + 1;
        }
        proof {
            assert(pv.take(pv.len() as int) =~= pv);
            assert(kept.deep_view() == filter_pairs(fv, url_pairs(u@)));
        }
        if !changed {
            proof {
                lemma_filter_all(fv, pv);
                assert forall|k: int| 0 <= k < url_pairs(u@).len() implies param_kept(
                    filter_view(self.rules, eff_host(u@)),
                    (#[trigger] url_pairs(u@)[k]).0,
                ) by {
                    pv.lemma_filter_pred(pred, k);
                }
            }
            Ok(u)
        } else if kept.len() == 0 {
            proof {
                assert(filter_pairs(fv, pv) =~= Seq::<(Seq<char>, Seq<char>)>::empty());
            }
            let r = Ok(drop_query(u.as_str()));
            proof {
                assert(r matches Ok(s) ==> eff_host(s@) == eff_host(u@));
            }
            r
        } else {
            proof {
                pv.lemma_filter_len(pred);
            }
            let r = Ok(replace_pairs(u.as_str(), &kept));
            proof {
                assert(r matches Ok(s) ==> eff_host(s@) == eff_host(u@));
                assert forall|k: int| 0 <= k < filter_pairs(fv, pv).len() implies param_kept(
                    fv,
                    (#[trigger] filter_pairs(fv, pv)[k]).0,
                ) by {
                    pv.lemma_filter_pred(pred, k);
                }
            }
            r
        }
    }

    /// Cleans one raw input with the full hop budget.
    pub fn clean(&self, raw: &str) -> (r: Result<String, CleanError>)
        ensures
            r is Ok <==> clean_spec(self.rules, raw@, MAX_REDIRECT_HOPS as nat) matches
                CleanOutcome::Cleaned(_),
            r matches Ok(s) ==> clean_spec(self.rules, raw@, MAX_REDIRECT_HOPS as nat)
                == CleanOutcome::Cleaned(s@) && url_ok(s@) && url_norm(s@) == s@ && !frag_has_eq(
                url_fragment(s@),
            ) && find_bad_pat(self.rules.host_rules@, eff_host(s@)) is None && first_bad_glob(
                self.rules.remove_param_globs.deep_view(),
            ) is None && forall|i: int|
                0 <= i < url_pairs(s@).len() ==> param_kept(
                    filter_view(self.rules, eff_host(s@)),
                    (#[trigger] url_pairs(s@)[i]).0,
                ),
            r matches Err(e) ==> match e {
                CleanError::InvalidUrl(x) => clean_spec(self.rules, raw@, MAX_REDIRECT_HOPS as nat)
                    == CleanOutcome::BadUrl(x@),
                CleanError::InvalidGlobPattern(p) => clean_spec(
                    self.rules,
                    raw@,
                    MAX_REDIRECT_HOPS as nat,
                ) == CleanOutcome::BadGlob(p@),
                CleanError::TooManyRedirects => clean_spec(
                    self.rules,
                    raw@,
                    MAX_REDIRECT_HOPS as nat,
                ) == CleanOutcome::HopLimit,
            },
    {
        self.clean_with_hops(raw, MAX_REDIRECT_HOPS)
    }

    /// Cleans one raw input with a caller-chosen redirect hop budget.
    pub fn clean_with_hops(&self, raw: &str, hops: u32) -> (r: Result<String, CleanError>)
        ensures
            r is Ok <==> clean_spec(self.rules, raw@, hops as nat) matches CleanOutcome::Cleaned(
                _,
            ),
            r matches Ok(s) ==> clean_spec(self.rules, raw@, hops as nat) == CleanOutcome::Cleaned(
                s@,
            ) && url_ok(s@) && url_norm(s@) == s@ && !frag_has_eq(url_fragment(s@)) && find_bad_pat(
                self.rules.host_rules@,
                eff_host(s@),
            ) is None && first_bad_glob(self.rules.remove_param_globs.deep_view()) is None && forall|
                i: int,
            |
                0 <= i < url_pairs(s@).len() ==> param_kept(
                    filter_view(self.rules, eff_host(s@)),
                    (#[trigger] url_pairs(s@)[i]).0,
                ),
            r matches Err(e) ==> match e {
                CleanError::InvalidUrl(x) => clean_spec(self.rules, raw@, hops as nat)
                    == CleanOutcome::BadUrl(x@),
                CleanError::InvalidGlobPattern(p) => clean_spec(self.rules, raw@, hops as nat)
                    == CleanOutcome::BadGlob(p@),
                CleanError::TooManyRedirects => clean_spec(self.rules, raw@, hops as nat)
                    == CleanOutcome::HopLimit,
            },
        decreases hops,
    {
        let t = trim_input(raw);
        let n = match parse_and_normalize(t) {
            Some(n) => n,
            None => {
                return Err(CleanError::InvalidUrl(copy_str(raw)));
            },
        };
        let frag_eq = match fragment_of(n.as_str()) {
            Some(f) => has_eq_char(f.as_str()),
            None => false,
        };
        let n2 = if frag_eq {
            drop_fragment(n.as_str())
        } else {
            n
        };
        match host_of(n2.as_str()) {
            Some(h) => {
                let hv = match self.rules.matcher_for(h.as_str()) {
                    Ok(hv) => hv,
                    Err(e) => {
                        return Err(e);
                    },
                };
                proof {
                    assert(hv.unwrap_params.deep_view() == cat_unwraps(
                        matched_rules(self.rules.host_rules@, h@),
                    ));
                }
                match try_unwrap(n2.as_str(), &hv) {
                    Some(d) => {
                        if hops == 0 {
                            return Err(CleanError::TooManyRedirects);
                        }
                        self.clean_with_hops(d.as_str(), hops - 1)
                    },
                    None => self.clean_query_params(n2),
                }
            },
            None => self.clean_query_params(n2),
        }
    }
}

/// Collects the unwrap candidates and scans them for an embedded target.
fn try_unwrap(u: &str, hv: &CompiledHostRules) -> (r: Option<String>)
    requires
        url_ok(u@),
    ensures
        r is Some <==> unwrap_target(hv.unwrap_params.deep_view(), url_pairs(u@)) is Some,
        r matches Some(d) ==> unwrap_target(hv.unwrap_params.deep_view(), url_pairs(u@)) == Some(
            d@,
        ) && url_ok(d@),
{
    let ghost uw = hv.unwrap_params.deep_view();
    if hv.unwrap_params.len() == 0 {
        return None;
    }
    let pairs = pairs_of(u);
    let ghost pv = pairs.deep_view();
    let ghost pred = |p: (Seq<char>, Seq<char>)| in_list_ci(uw, p.0);
    let ghost vmap = |p: (Seq<char>, Seq<char>)| p.1;
    let mut cands: Vec<String> = Vec::new();
    proof {
        reveal(Seq::filter);
        assert(pv.take(0) =~= Seq::<(Seq<char>, Seq<char>)>::empty());
        assert(cands.deep_view() =~= Seq::<Seq<char>>::empty());
        assert(pv.take(0).filter(pred).map_values(vmap) =~= Seq::<Seq<char>>::empty());
    }
    let mut i: usize = 0;
    while i < pairs.len()
        invariant
            i <= pv.len(),
            pv == pairs.deep_view(),
            pv.len() == pairs@.len(),
            uw == hv.unwrap_params.deep_view(),
            pred == (|p: (Seq<char>, Seq<char>)| in_list_ci(uw, p.0)),
            vmap == (|p: (Seq<char>, Seq<char>)| p.1),
            cands.deep_view() == pv.take(i as int).filter(pred).map_values(vmap),
        decreases pv.len() - i,
    {
        proof {
            reveal(Seq::filter);
            assert(pv[i as int] == (pairs@[i as int].0@, pairs@[i as int].1@));
            assert(pv.take(i + 1).drop_last() =~= pv.take(i as int));
            assert(pv.take(i + 1).last() == pv[i as int]);
        }
        if contains_case_insensitive(&hv.unwrap_params, pairs[i].0.as_str()) {
            let ghost before = cands.deep_view();
            cands.push(pairs[i].1.clone());
            proof {
                reveal(Seq::filter);
                assert(pred(pv.take(i + 1).last()));
                assert(pv.take(i + 1).filter(pred) == pv.take(i as int).filter(pred).push(
                    pv[i as int],
                ));
                assert(cands.deep_view() =~= before.push(pv[i as int].1));
                assert(pv.take(i + 1).filter(pred).map_values(vmap) =~= pv.take(i as int).filter(
                    pred,
                ).map_values(vmap).push(vmap(pv[i as int])));
            }
        } else {
            proof {
                reveal(Seq::filter);
                assert(!pred(pv.take(i + 1).last()));
                assert(pv.take(i + 1).filter(pred) == pv.take(i as int).filter(pred));
            }
        }
        i = i + 1;
    }
    proof {
        assert(pv.take(pv.len() as int) =~= pv);
        assert(cands.deep_view() == unwrap_candidates(uw, url_pairs(u@)));
    }
    let ghost cv = cands.deep_view();
    proof {
        assert(cv.skip(0) =~= cv);
    }
    let mut j: usize = 0;
    while j < cands.len()
        invariant
            j <= cv.len(),
            cv == cands.deep_view(),
            cv.len() == cands@.len(),
            cv == unwrap_candidates(uw, url_pairs(u@)),
            uw == hv.unwrap_params.deep_view(),
            scan_candidates(cv) == scan_candidates(cv.skip(j as int)),
        decreases cv.len() - j,
    {
        proof {
            assert(cv.skip(j as int)[0] == cv[j as int]);
            assert(cv[j as int] == cands@[j as int]@);
        }
        match percent_decode(cands[j].as_str()) {
            None => {},
            Some(d) => {
                match parse_and_normalize(d.as_str()) {
                    Some(_) => {
                        return Some(d);
                    },
                    None => {},
                }
            },
        }
        proof {
            assert(cv.skip(j as int).drop_first() =~= cv.skip(j + 1));
        }
        j = j + 1;
    }
    proof {
        assert(cv.skip(cv.len() as int) =~= Seq::<Seq<char>>::empty());
    }
    None
}

} // verus!
