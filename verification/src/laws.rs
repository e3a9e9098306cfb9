//! General properties of the cleaning logic, stated and proved over the
//! mathematical model that the contracts use.

use vstd::prelude::*;
use vstd::seq_lib::*;

use crate::cleaner::{
    clean_spec, eff_host, filter_outcome, filter_pairs, filter_view, first_bad_glob, frag_has_eq,
    param_kept, unwrap_target, CleanOutcome, FilterView,
};
use crate::cleaner::{scan_candidates, unwrap_candidates};
use crate::outside::{pct_decoded, url_norm, url_ok, url_pairs};
use crate::rules::{cat_unwraps, find_bad_pat, matched_rules, RuleSet};
use crate::text::{eq_ci_spec, in_list_ci, lower_spec, trim_spec};

verus! {

/// Case-insensitive membership looks only at the folded key.
proof fn lemma_in_list_ci_folded(list: Seq<Seq<char>>, k1: Seq<char>, k2: Seq<char>)
    requires
        lower_spec(k1) == lower_spec(k2),
    ensures
        in_list_ci(list, k1) == in_list_ci(list, k2),
{
    if in_list_ci(list, k1) {
        let i = choose|i: int| 0 <= i < list.len() && eq_ci_spec(list[i], k1);
        assert(eq_ci_spec(list[i], k2));
    }
    if in_list_ci(list, k2) {
        let i = choose|i: int| 0 <= i < list.len() && eq_ci_spec(list[i], k2);
        assert(eq_ci_spec(list[i], k1));
    }
}

/// Parameter names are judged case-insensitively: two names that fold to the
/// same characters are kept or dropped alike, under every rule view.
pub proof fn lemma_case_insensitive_filtering(fv: FilterView, k1: Seq<char>, k2: Seq<char>)
    requires
        lower_spec(k1) == lower_spec(k2),
    ensures
        param_kept(fv, k1) == param_kept(fv, k2),
{
    lemma_in_list_ci_folded(fv.g_keep, k1, k2);
    lemma_in_list_ci_folded(fv.h_keep, k1, k2);
    lemma_in_list_ci_folded(fv.g_remove, k1, k2);
    lemma_in_list_ci_folded(fv.h_remove, k1, k2);
}

/// A parameter named by a keep list (global or host-scoped) survives
/// filtering, whatever remove rules or glob patterns also match it.
pub proof fn lemma_keep_overrides_remove(fv: FilterView, ps: Seq<(Seq<char>, Seq<char>)>, i: int)
    requires
        0 <= i < ps.len(),
        in_list_ci(fv.g_keep, ps[i].0) || in_list_ci(fv.h_keep, ps[i].0),
    ensures
        filter_pairs(fv, ps).contains(ps[i]),
{
    let pred = |p: (Seq<char>, Seq<char>)| param_kept(fv, p.0);
    assert(pred(ps[i]));
    ps.lemma_filter_contains(pred, i);
}

/// Under a strip-all host view, a parameter survives exactly when a keep
/// list (global or host-scoped) names it.
pub proof fn lemma_strip_all_keeps_only(fv: FilterView, k: Seq<char>)
    requires
        fv.strip_all,
    ensures
        param_kept(fv, k) == (in_list_ci(fv.g_keep, k) || in_list_ci(fv.h_keep, k)),
{
}

/// Filtering a sequence whose every key is kept returns it whole.
proof fn lemma_filter_keeps_all(fv: FilterView, ps: Seq<(Seq<char>, Seq<char>)>)
    requires
        forall|i: int| 0 <= i < ps.len() ==> param_kept(fv, (#[trigger] ps[i]).0),
    ensures
        filter_pairs(fv, ps) == ps,
    decreases ps.len(),
{
    reveal(Seq::filter);
    let pred = |p: (Seq<char>, Seq<char>)| param_kept(fv, p.0);
    if ps.len() == 0 {
        assert(filter_pairs(fv, ps) =~= ps);
    } else {
        assert(forall|i: int|
            0 <= i < ps.drop_last().len() ==> param_kept(fv, (#[trigger] ps.drop_last()[i]).0));
        lemma_filter_keeps_all(fv, ps.drop_last());
        assert(pred(ps.last()));
        assert(filter_pairs(fv, ps) =~= ps);
    }
}

/// When no active rule matches any parameter of a URL, filtering returns the
/// URL unchanged: in particular its query is not re-encoded.
pub proof fn lemma_no_removal_no_change(rs: RuleSet, u: Seq<char>)
    requires
        find_bad_pat(rs.host_rules@, eff_host(u)) is None,
        first_bad_glob(rs.remove_param_globs.deep_view()) is None,
        forall|i: int|
            0 <= i < url_pairs(u).len() ==> param_kept(
                filter_view(rs, eff_host(u)),
                (#[trigger] url_pairs(u)[i]).0,
            ),
    ensures
        filter_outcome(rs, u) == CleanOutcome::Cleaned(u),
{
    lemma_filter_keeps_all(filter_view(rs, eff_host(u)), url_pairs(u));
}

/// A candidate value that does not lead anywhere: its single percent-decode
/// either is not UTF-8 or is no absolute URL.
pub open spec fn candidate_fails(c: Seq<char>) -> bool {
    match pct_decoded(c) {
        Some(d) => !url_ok(d),
        None => true,
    }
}

/// A scan over candidates that all fail finds no target.
proof fn lemma_scan_none(cs: Seq<Seq<char>>)
    requires
        forall|i: int| 0 <= i < cs.len() ==> candidate_fails(#[trigger] cs[i]),
    ensures
        scan_candidates(cs) is None,
    decreases cs.len(),
{
    if cs.len() > 0 {
        assert(candidate_fails(cs[0]));
        assert(forall|i: int|
            0 <= i < cs.drop_first().len() ==> candidate_fails(#[trigger] cs.drop_first()[i]));
        lemma_scan_none(cs.drop_first());
    }
}

/// When every unwrap candidate of a URL's pairs fails to decode, there is no
/// redirect target — and filtering the pairs cannot create one, since the
/// surviving pairs are among the original ones.
pub proof fn lemma_no_unwrap_after_filter(
    uw: Seq<Seq<char>>,
    fv: FilterView,
    ps: Seq<(Seq<char>, Seq<char>)>,
)
    requires
        forall|i: int|
            0 <= i < unwrap_candidates(uw, ps).len() ==> candidate_fails(
                #[trigger] unwrap_candidates(uw, ps)[i],
            ),
    ensures
        unwrap_target(uw, ps) is None,
        unwrap_target(uw, filter_pairs(fv, ps)) is None,
{
    let kp = |p: (Seq<char>, Seq<char>)| in_list_ci(uw, p.0);
    let vm = |p: (Seq<char>, Seq<char>)| p.1;
    let fpred = |p: (Seq<char>, Seq<char>)| param_kept(fv, p.0);
    lemma_scan_none(unwrap_candidates(uw, ps));
    let fps = filter_pairs(fv, ps);
    let fcs = unwrap_candidates(uw, fps);
    assert forall|j: int| 0 <= j < fcs.len() implies candidate_fails(#[trigger] fcs[j]) by {
        let q = fps.filter(kp)[j];
        assert(fcs[j] == vm(q));
        fps.lemma_filter_pred(kp, j);
        assert(fps.filter(kp).contains(q));
        fps.lemma_filter_contains_rev(kp, q);
        ps.lemma_filter_contains_rev(fpred, q);
        let m = choose|m: int| 0 <= m < ps.len() && ps[m] == q;
        ps.lemma_filter_contains(kp, m);
        let n = choose|n: int| 0 <= n < ps.filter(kp).len() && ps.filter(kp)[n] == q;
        assert(unwrap_candidates(uw, ps)[n] == vm(q));
        assert(candidate_fails(vm(q)));
    };
    lemma_scan_none(fcs);
}

/// When nothing of a URL matches — its fragment holds no `=`, no redirect
/// target can be unwrapped, every parameter survives the active rules, and
/// every rule pattern is well-formed — cleaning returns the normalized
/// trimmed input itself: nothing is dropped and the query is not re-encoded.
pub proof fn lemma_clean_preserves_unmatched(rs: RuleSet, raw: Seq<char>, hops: nat)
    requires
        url_ok(trim_spec(raw)),
        !frag_has_eq(crate::outside::url_fragment(url_norm(trim_spec(raw)))),
        find_bad_pat(rs.host_rules@, eff_host(url_norm(trim_spec(raw)))) is None,
        first_bad_glob(rs.remove_param_globs.deep_view()) is None,
        unwrap_target(
            cat_unwraps(matched_rules(rs.host_rules@, eff_host(url_norm(trim_spec(raw))))),
            url_pairs(url_norm(trim_spec(raw))),
        ) is None,
        forall|i: int|
            0 <= i < url_pairs(url_norm(trim_spec(raw))).len() ==> param_kept(
                filter_view(rs, eff_host(url_norm(trim_spec(raw)))),
                (#[trigger] url_pairs(url_norm(trim_spec(raw)))[i]).0,
            ),
    ensures
        clean_spec(rs, raw, hops) == CleanOutcome::Cleaned(url_norm(trim_spec(raw))),
{
    lemma_no_removal_no_change(rs, url_norm(trim_spec(raw)));
}

/// Cleaning is idempotent on its own output: a canonical URL that needs no
/// trimming, whose fragment holds no `=`, that offers no redirect target to
/// unwrap, and whose every parameter survives the active rules, cleans to
/// itself — whatever hop budget is left. (Trim-stability is a real
/// hypothesis: an opaque-path URL whose serialization ends in `>` is trimmed
/// again by a second pass.)
pub proof fn lemma_clean_stable(rs: RuleSet, u: Seq<char>, hops: nat)
    requires
        trim_spec(u) == u,
        url_ok(u),
        url_norm(u) == u,
        !frag_has_eq(crate::outside::url_fragment(u)),
        find_bad_pat(rs.host_rules@, eff_host(u)) is None,
        first_bad_glob(rs.remove_param_globs.deep_view()) is None,
        unwrap_target(cat_unwraps(matched_rules(rs.host_rules@, eff_host(u))), url_pairs(u))
            is None,
        forall|i: int|
            0 <= i < url_pairs(u).len() ==> param_kept(
                filter_view(rs, eff_host(u)),
                (#[trigger] url_pairs(u)[i]).0,
            ),
    ensures
        clean_spec(rs, u, hops) == CleanOutcome::Cleaned(u),
{
    lemma_no_removal_no_change(rs, u);
}

} // verus!
