//! The rule repository: the declarative rule data, the built-in baseline,
//! order-preserving merging of user rules, and the per-host aggregation of
//! every rule whose host patterns match a concrete hostname.

use vstd::prelude::*;

use crate::outside::{glob_hit, glob_is_match, glob_ok, glob_valid};
use crate::text::copy_str;
use crate::CleanError;

verus! {

/// The layered rule data, immutable once assembled.
#[derive(Debug, Clone)]
pub struct RuleSet {
    /// Query params to remove (exact match, case-insensitive).
    pub remove_params: Vec<String>,
    /// Query params to remove (glob patterns such as `utm_*`), matched
    /// against lowercased names.
    pub remove_param_globs: Vec<String>,
    /// Params to keep even if matched by remove rules.
    pub keep_params: Vec<String>,
    /// Host-specific rules, in order.
    pub host_rules: Vec<HostRule>,
}

/// One host-scoped rule entry.
#[derive(Debug, Clone)]
pub struct HostRule {
    /// Host glob(s) this rule applies to (such as `*.google.com`).
    pub hosts: Vec<String>,
    /// Param names whose value, when it decodes to a URL, is the real target.
    pub unwrap_params: Vec<String>,
    /// Additional exact names to remove for this host.
    pub remove_params: Vec<String>,
    /// Additional param globs to remove for this host.
    pub remove_param_globs: Vec<String>,
    /// When set, every param is dropped unless explicitly kept.
    pub strip_all_params: Option<bool>,
    /// Params to keep for this host.
    pub keep_params: Vec<String>,
}

/// The ephemeral aggregate of every host rule that matched one hostname.
pub struct CompiledHostRules {
    pub unwrap_params: Vec<String>,
    pub remove_params: Vec<String>,
    pub remove_param_globs: Vec<String>,
    pub strip_all_params: bool,
    pub keep_params: Vec<String>,
}

/// Whether a host rule asks for every parameter to be stripped.
pub open spec fn strip_flag(r: HostRule) -> bool {
    r.strip_all_params == Some(true)
}

/// One rule's host patterns, scanned in order against a hostname:
/// `None` on the first malformed pattern, `Some(true)` on the first match,
/// `Some(false)` when the list runs out. A match is found before a later
/// malformed pattern would be seen.
pub open spec fn hosts_scan(pats: Seq<Seq<char>>, host: Seq<char>) -> Option<bool>
    decreases pats.len(),
{
    if pats.len() == 0 {
        Some(false)
    } else if !glob_ok(pats[0]) {
        None
    } else if glob_hit(pats[0], host) {
        Some(true)
    } else {
        hosts_scan(pats.drop_first(), host)
    }
}

/// The pattern at which `hosts_scan` stops with `None` (meaningful only
/// there).
pub open spec fn scan_bad_pat(pats: Seq<Seq<char>>, host: Seq<char>) -> Seq<char>
    decreases pats.len(),
{
    if pats.len() == 0 {
        Seq::empty()
    } else if !glob_ok(pats[0]) {
        pats[0]
    } else if glob_hit(pats[0], host) {
        Seq::empty()
    } else {
        scan_bad_pat(pats.drop_first(), host)
    }
}

/// Whether a rule is activated for this hostname.
pub open spec fn rule_included(r: HostRule, host: Seq<char>) -> bool {
    hosts_scan(r.hosts.deep_view(), host) == Some(true)
}

/// The first malformed host pattern that the rule scan runs into, if any.
pub open spec fn find_bad_pat(rules: Seq<HostRule>, host: Seq<char>) -> Option<Seq<char>>
    decreases rules.len(),
{
    if rules.len() == 0 {
        None
    } else if hosts_scan(rules[0].hosts.deep_view(), host) is None {
        Some(scan_bad_pat(rules[0].hosts.deep_view(), host))
    } else {
        find_bad_pat(rules.drop_first(), host)
    }
}

/// The rules activated for this hostname, in order.
pub open spec fn matched_rules(rules: Seq<HostRule>, host: Seq<char>) -> Seq<HostRule>
    decreases rules.len(),
{
    if rules.len() == 0 {
        Seq::empty()
    } else if rule_included(rules.last(), host) {
        matched_rules(rules.drop_last(), host).push(rules.last())
    } else {
        matched_rules(rules.drop_last(), host)
    }
}

/// The matched rules' unwrap params, concatenated in order.
pub open spec fn cat_unwraps(rs: Seq<HostRule>) -> Seq<Seq<char>>
    decreases rs.len(),
{
    if rs.len() == 0 {
        Seq::empty()
    } else {
        cat_unwraps(rs.drop_last()) + rs.last().unwrap_params.deep_view()
    }
}

/// The matched rules' exact removals, concatenated in order.
pub open spec fn cat_removes(rs: Seq<HostRule>) -> Seq<Seq<char>>
    decreases rs.len(),
{
    if rs.len() == 0 {
        Seq::empty()
    } else {
        cat_removes(rs.drop_last()) + rs.last().remove_params.deep_view()
    }
}

/// The matched rules' keep lists, concatenated in order.
pub open spec fn cat_keeps(rs: Seq<HostRule>) -> Seq<Seq<char>>
    decreases rs.len(),
{
    if rs.len() == 0 {
        Seq::empty()
    } else {
        cat_keeps(rs.drop_last()) + rs.last().keep_params.deep_view()
    }
}

/// The matched rules' removal globs, concatenated in order.
pub open spec fn cat_globs(rs: Seq<HostRule>) -> Seq<Seq<char>>
    decreases rs.len(),
{
    if rs.len() == 0 {
        Seq::empty()
    } else {
        cat_globs(rs.drop_last()) + rs.last().remove_param_globs.deep_view()
    }
}

/// Whether any matched rule asks to strip every parameter.
pub open spec fn any_strip(rs: Seq<HostRule>) -> bool
    decreases rs.len(),
{
    rs.len() > 0 && (strip_flag(rs.last()) || any_strip(rs.drop_last()))
}

impl CompiledHostRules {
    /// This aggregate is exactly the union, in order, of the rules activated
    /// for `host`.
    pub open spec fn is_agg_of(self, rules: Seq<HostRule>, host: Seq<char>) -> bool {
        let m = matched_rules(rules, host);
        &&& self.unwrap_params.deep_view() == cat_unwraps(m)
        &&& self.remove_params.deep_view() == cat_removes(m)
        &&& self.keep_params.deep_view() == cat_keeps(m)
        &&& self.remove_param_globs.deep_view() == cat_globs(m)
        &&& self.strip_all_params == any_strip(m)
    }
}

/// Appends clones of `src`'s entries to `dst`, in order.
fn append_all(dst: &mut Vec<String>, src: &Vec<String>)
    ensures
        final(dst).deep_view() == old(dst).deep_view() + src.deep_view(),
{
    let mut i: usize = 0;
    while i < src.len()
        invariant
            i <= src@.len(),
            dst.deep_view() == old(dst).deep_view() + src.deep_view().take(i as int),
        decreases src@.len() - i,
    {
        let ghost before = dst.deep_view();
        dst.push(src[i].clone());
        proof {
            assert(dst.deep_view() =~= before.push(src@[i as int]@));
            assert(src.deep_view()[i as int] == src@[i as int]@);
            assert(src.deep_view().take(i + 1) =~= src.deep_view().take(i as int).push(
                src.deep_view()[i as int],
            ));
            assert(dst.deep_view() =~= old(dst).deep_view() + src.deep_view().take(i + 1));
        }
        i = i + 1;
    }
    proof {
        assert(src.deep_view().take(src@.len() as int) =~= src.deep_view());
    }
}

/// Scans one rule's host patterns against a hostname, in order: an error on
/// the first malformed pattern, a match on the first that matches.
fn scan_hosts(pats: &Vec<String>, host: &str) -> (r: Result<bool, CleanError>)
    ensures
        r matches Ok(b) ==> hosts_scan(pats.deep_view(), host@) == Some(b),
        r is Err ==> hosts_scan(pats.deep_view(), host@) is None,
        r matches Err(e) ==> e matches CleanError::InvalidGlobPattern(p) && p@ == scan_bad_pat(
            pats.deep_view(),
            host@,
        ),
{
    let ghost pv = pats.deep_view();
    proof {
        assert(pv.skip(0) =~= pv);
    }
    let mut j: usize = 0;
    while j < pats.len()
        invariant
            j <= pv.len(),
            pv == pats.deep_view(),
            pv.len() == pats@.len(),
            hosts_scan(pv, host@) == hosts_scan(pv.skip(j as int), host@),
            scan_bad_pat(pv, host@) == scan_bad_pat(pv.skip(j as int), host@),
        decreases pv.len() - j,
    {
        proof {
            assert(pv.skip(j as int)[0] == pv[j as int]);
            assert(pv[j as int] == pats@[j as int]@);
        }
        let pat = &pats[j];
        if !glob_valid(pat.as_str()) {
            return Err(CleanError::InvalidGlobPattern(pat.clone()));
        }
        if glob_is_match(pat.as_str(), host) {
            return Ok(true);
        }
        proof {
            assert(pv.skip(j as int).drop_first() =~= pv.skip(j + 1));
        }
        j = j + 1;
    }
    proof {
        assert(pv.skip(pv.len() as int) =~= Seq::<Seq<char>>::empty());
    }
    Ok(false)
}

impl RuleSet {
    /// The curated built-in baseline: common tracker parameter names, common
    /// campaign-tracking glob patterns, and host rules for well-known
    /// redirector hosts with their unwrap parameter names.
    pub fn builtin() -> (r: RuleSet)
        ensures
            r.remove_params.deep_view() =~= seq![
                "gclid"@, "gbraid"@, "wbraid"@, "fbclid"@, "igshid"@, "twclid"@, "mc_eid"@,
                "msclkid"@, "dclid"@, "icid"@, "mkt_tok"@, "vero_id"@, "vero_conv"@, "spm"@,
                "ncid"@, "epik"@, "si"@,
            ],
            r.remove_param_globs.deep_view() =~= seq![
                "utm_*"@, "pk_*"@, "mtm_*"@, "oly_*"@, "s_cid*"@, "aff*"@, "ref*"@,
            ],
            r.keep_params.deep_view() =~= Seq::<Seq<char>>::empty(),
            r.host_rules@.len() == 4,
            r.host_rules@[0].hosts.deep_view() =~= seq!["*.google.com"@],
            r.host_rules@[0].unwrap_params.deep_view() =~= seq!["url"@, "q"@, "u"@],
            r.host_rules@[1].hosts.deep_view() =~= seq!["*.facebook.com"@, "*.lm.facebook.com"@],
            r.host_rules@[1].unwrap_params.deep_view() =~= seq!["u"@],
            r.host_rules@[2].hosts.deep_view() =~= seq!["out.reddit.com"@],
            r.host_rules@[2].unwrap_params.deep_view() =~= seq!["url"@],
            r.host_rules@[3].hosts.deep_view() =~= seq!["*.youtube.com"@, "youtu.be"@],
            r.host_rules@[3].unwrap_params.deep_view() =~= seq!["q"@],
            forall|i: int|
                0 <= i < 4 ==> (#[trigger] r.host_rules@[i]).remove_params.deep_view()
                    =~= Seq::<Seq<char>>::empty() && r.host_rules@[i].remove_param_globs.deep_view()
                    =~= Seq::<Seq<char>>::empty() && r.host_rules@[i].keep_params.deep_view()
                    =~= Seq::<Seq<char>>::empty() && r.host_rules@[i].strip_all_params is None,
    {
        let remove_params: Vec<String> = vec![
            copy_str("gclid"),
            copy_str("gbraid"),
            copy_str("wbraid"),
            copy_str("fbclid"),
            copy_str("igshid"),
            copy_str("twclid"),
            copy_str("mc_eid"),
            copy_str("msclkid"),
            copy_str("dclid"),
            copy_str("icid"),
            copy_str("mkt_tok"),
            copy_str("vero_id"),
            copy_str("vero_conv"),
            copy_str("spm"),
            copy_str("ncid"),
            copy_str("epik"),
            copy_str("si"),
        ];
        let remove_param_globs: Vec<String> = vec![
            copy_str("utm_*"),
            copy_str("pk_*"),
            copy_str("mtm_*"),
            copy_str("oly_*"),
            copy_str("s_cid*"),
            copy_str("aff*"),
            copy_str("ref*"),
        ];
        let host_rules: Vec<HostRule> = vec![
            HostRule {
                hosts: vec![copy_str("*.google.com")],
                unwrap_params: vec![copy_str("url"), copy_str("q"), copy_str("u")],
                remove_params: Vec::new(),
                remove_param_globs: Vec::new(),
                strip_all_params: None,
                keep_params: Vec::new(),
            },
            HostRule {
                hosts: vec![copy_str("*.facebook.com"), copy_str("*.lm.facebook.com")],
                unwrap_params: vec![copy_str("u")],
                remove_params: Vec::new(),
                remove_param_globs: Vec::new(),
                strip_all_params: None,
                keep_params: Vec::new(),
            },
            HostRule {
                hosts: vec![copy_str("out.reddit.com")],
                unwrap_params: vec![copy_str("url")],
                remove_params: Vec::new(),
                remove_param_globs: Vec::new(),
                strip_all_params: None,
                keep_params: Vec::new(),
            },
            HostRule {
                hosts: vec![copy_str("*.youtube.com"), copy_str("youtu.be")],
                unwrap_params: vec![copy_str("q")],
                remove_params: Vec::new(),
                remove_param_globs: Vec::new(),
                strip_all_params: None,
                keep_params: Vec::new(),
            },
        ];
        RuleSet { remove_params, remove_param_globs, keep_params: Vec::new(), host_rules }
    }

    /// Appends `other`'s four lists onto `self`'s, in order: purely additive,
    /// nothing is removed or rewritten.
    pub fn merge(&mut self, other: RuleSet)
        ensures
            final(self).remove_params@ == old(self).remove_params@ + other.remove_params@,
            final(self).remove_param_globs@ == old(self).remove_param_globs@
                + other.remove_param_globs@,
            final(self).keep_params@ == old(self).keep_params@ + other.keep_params@,
            final(self).host_rules@ == old(self).host_rules@ + other.host_rules@,
    {
        let mut o = other;
        self.remove_params.append(&mut o.remove_params);
        self.remove_param_globs.append(&mut o.remove_param_globs);
        self.keep_params.append(&mut o.keep_params);
        self.host_rules.append(&mut o.host_rules);
    }

    /// Resolves the aggregated host view for `host`: every rule whose host
    /// patterns match contributes its lists, in rule order. A malformed host
    /// pattern is a fatal error, never silently skipped.
    pub fn matcher_for(&self, host: &str) -> (r: Result<CompiledHostRules, CleanError>)
        ensures
            r is Ok <==> find_bad_pat(self.host_rules@, host@) is None,
            r matches Ok(hv) ==> hv.is_agg_of(self.host_rules@, host@),
            r matches Err(e) ==> e matches CleanError::InvalidGlobPattern(p) && find_bad_pat(
                self.host_rules@,
                host@,
            ) == Some(p@),
    {
        let ghost rv = self.host_rules@;
        let mut hv = CompiledHostRules {
            unwrap_params: Vec::new(),
            remove_params: Vec::new(),
            remove_param_globs: Vec::new(),
            strip_all_params: false,
            keep_params: Vec::new(),
        };
        proof {
            assert(rv.skip(0) =~= rv);
            assert(rv.take(0) =~= Seq::<HostRule>::empty());
            assert(hv.unwrap_params.deep_view() =~= Seq::<Seq<char>>::empty());
            assert(hv.remove_params.deep_view() =~= Seq::<Seq<char>>::empty());
            assert(hv.keep_params.deep_view() =~= Seq::<Seq<char>>::empty());
            assert(hv.remove_param_globs.deep_view() =~= Seq::<Seq<char>>::empty());
        }
        let mut i: usize = 0;
        while i < self.host_rules.len()
            invariant
                i <= rv.len(),
                rv == self.host_rules@,
                find_bad_pat(rv, host@) == find_bad_pat(rv.skip(i as int), host@),
                hv.is_agg_of(rv.take(i as int), host@),
            decreases rv.len() - i,
        {
            proof {
                assert(rv.skip(i as int)[0] == rv[i as int]);
            }
            let hr = &self.host_rules[i];
            match scan_hosts(&hr.hosts, host) {
                Err(e) => {
                    return Err(e);
                },
                Ok(hit) => {
                    proof {
                        assert(rv.skip(i as int).drop_first() =~= rv.skip(i + 1));
                        assert(rv.take(i + 1).drop_last() =~= rv.take(i as int));
                        assert(rv.take(i + 1).last() == rv[i as int]);
                    }
                    if hit {
                        append_all(&mut hv.unwrap_params, &hr.unwrap_params);
                        append_all(&mut hv.remove_params, &hr.remove_params);
                        append_all(&mut hv.keep_params, &hr.keep_params);
                        append_all(&mut hv.remove_param_globs, &hr.remove_param_globs);
                        match hr.strip_all_params {
                            Some(true) => {
                                hv.strip_all_params = true;
                            },
                            _ => {},
                        }
                        proof {
                            assert(matched_rules(rv.take(i + 1), host@) == matched_rules(
                                rv.take(i as int),
                                host@,
                            ).push(rv[i as int]));
                            assert(matched_rules(rv.take(i + 1), host@).drop_last()
                                =~= matched_rules(rv.take(i as int), host@));
                        }
                    } else {
                        proof {
                            assert(matched_rules(rv.take(i + 1), host@) == matched_rules(
                                rv.take(i as int),
                                host@,
                            ));
                        }
                    }
                },
            }
            i = i + 1;
        }
        proof {
            assert(rv.skip(rv.len() as int) =~= Seq::<HostRule>::empty());
            assert(rv.take(rv.len() as int) =~= rv);
        }
        Ok(hv)
    }
}

} // verus!
