use cleanshare::cleaner::UrlCleaner;
use cleanshare::rules::{HostRule, RuleSet};
use cleanshare::CleanError;

fn host_rule(hosts: Vec<&str>) -> HostRule {
    HostRule {
        hosts: hosts.into_iter().map(|s| s.to_string()).collect(),
        unwrap_params: Vec::new(),
        remove_params: Vec::new(),
        remove_param_globs: Vec::new(),
        strip_all_params: None,
        keep_params: Vec::new(),
    }
}

fn empty_rules() -> RuleSet {
    RuleSet {
        remove_params: Vec::new(),
        remove_param_globs: Vec::new(),
        keep_params: Vec::new(),
        host_rules: Vec::new(),
    }
}

#[test]
fn test_strip_utm() {
    let c = UrlCleaner::new(RuleSet::builtin());
    let u = c.clean("https://example.com/?utm_source=a&x=1").unwrap();
    assert_eq!(u, "https://example.com/?x=1");
}

#[test]
fn test_unwrap_google() {
    let c = UrlCleaner::new(RuleSet::builtin());
    let u = c
        .clean("https://www.google.com/url?url=https%3A%2F%2Fexample.com%2Fa%3Futm_medium%3D1")
        .unwrap();
    assert_eq!(u, "https://example.com/a");
}

#[test]
fn test_clean_is_idempotent_on_its_output() {
    let c = UrlCleaner::new(RuleSet::builtin());
    for raw in [
        "https://example.com/?utm_source=a&x=1",
        "https://example.com/#xtor=AL-1",
        "https://www.google.com/url?url=https%3A%2F%2Fexample.com%2Fa%3Futm_medium%3D1",
        "https://example.com/path?alpha=1&beta=2#section1",
    ] {
        let once = c.clean(raw).unwrap();
        let twice = c.clean(&once).unwrap();
        assert_eq!(once, twice);
    }
}

#[test]
fn test_keep_overrides_remove_glob() {
    let mut rules = RuleSet::builtin();
    let mut extra = empty_rules();
    extra.keep_params.push("utm_keepme".to_string());
    rules.merge(extra);
    let c = UrlCleaner::new(rules);
    let u = c
        .clean("https://example.com/?utm_keepme=1&utm_source=2")
        .unwrap();
    assert_eq!(u, "https://example.com/?utm_keepme=1");
}

#[test]
fn test_strip_all_with_keep_override() {
    let mut rules = RuleSet::builtin();
    let mut hr = host_rule(vec!["host"]);
    hr.strip_all_params = Some(true);
    hr.keep_params.push("x".to_string());
    let mut extra = empty_rules();
    extra.host_rules.push(hr);
    rules.merge(extra);
    let c = UrlCleaner::new(rules);
    let u = c.clean("https://host/?x=1&y=2").unwrap();
    assert_eq!(u, "https://host/?x=1");
}

#[test]
fn test_case_insensitive_removal() {
    let c = UrlCleaner::new(RuleSet::builtin());
    let upper = c.clean("https://example.com/?UTM_SOURCE=a&x=1").unwrap();
    let lower = c.clean("https://example.com/?utm_source=a&x=1").unwrap();
    assert_eq!(upper, "https://example.com/?x=1");
    assert_eq!(upper, lower);
}

#[test]
fn test_exact_removal_is_case_insensitive() {
    let c = UrlCleaner::new(RuleSet::builtin());
    let u = c.clean("https://example.com/?GCLID=abc&x=1").unwrap();
    assert_eq!(u, "https://example.com/?x=1");
}

#[test]
fn test_fragment_with_equals_dropped() {
    let c = UrlCleaner::new(RuleSet::builtin());
    let u = c.clean("https://example.com/#xtor=AL-1").unwrap();
    assert_eq!(u, "https://example.com/");
}

#[test]
fn test_fragment_without_equals_kept() {
    let c = UrlCleaner::new(RuleSet::builtin());
    let u = c.clean("https://example.com/#section1").unwrap();
    assert_eq!(u, "https://example.com/#section1");
}

#[test]
fn test_invalid_url_carries_raw_text() {
    let c = UrlCleaner::new(RuleSet::builtin());
    match c.clean("not a url") {
        Err(CleanError::InvalidUrl(raw)) => assert_eq!(raw, "not a url"),
        other => panic!("expected InvalidUrl, got {:?}", other),
    }
    // A batch goes on after such an item.
    let u = c.clean("https://example.com/?x=1").unwrap();
    assert_eq!(u, "https://example.com/?x=1");
}

#[test]
fn test_no_matching_rule_preserves_query() {
    let c = UrlCleaner::new(RuleSet::builtin());
    let u = c.clean("https://example.com/path?alpha=1&beta=2").unwrap();
    assert_eq!(u, "https://example.com/path?alpha=1&beta=2");
}

#[test]
fn test_all_params_dropped_removes_query() {
    let c = UrlCleaner::new(RuleSet::builtin());
    let u = c.clean("https://example.com/?utm_source=a&utm_medium=b").unwrap();
    assert_eq!(u, "https://example.com/");
}

#[test]
fn test_trims_whitespace_and_brackets() {
    let c = UrlCleaner::new(RuleSet::builtin());
    let u = c.clean("  <https://example.com/?utm_source=a>  ").unwrap();
    assert_eq!(u, "https://example.com/");
}

#[test]
fn test_glob_prefix_removal() {
    let c = UrlCleaner::new(RuleSet::builtin());
    let u = c.clean("https://example.com/?affiliate=77&x=1").unwrap();
    assert_eq!(u, "https://example.com/?x=1");
}

#[test]
fn test_invalid_global_glob_is_fatal() {
    let mut rules = RuleSet::builtin();
    let mut extra = empty_rules();
    extra.remove_param_globs.push("[".to_string());
    rules.merge(extra);
    let c = UrlCleaner::new(rules);
    match c.clean("https://example.com/?x=1") {
        Err(CleanError::InvalidGlobPattern(p)) => assert_eq!(p, "["),
        other => panic!("expected InvalidGlobPattern, got {:?}", other),
    }
}

#[test]
fn test_invalid_host_glob_is_fatal() {
    let mut rules = RuleSet::builtin();
    let mut extra = empty_rules();
    extra.host_rules.push(host_rule(vec!["["]));
    rules.merge(extra);
    let c = UrlCleaner::new(rules);
    match c.clean("https://example.com/?x=1") {
        Err(CleanError::InvalidGlobPattern(p)) => assert_eq!(p, "["),
        other => panic!("expected InvalidGlobPattern, got {:?}", other),
    }
}

#[test]
fn test_redirect_chain_hits_hop_limit() {
    let mut rules = RuleSet::builtin();
    let mut hr = host_rule(vec!["loop.test"]);
    hr.unwrap_params.push("u".to_string());
    let mut extra = empty_rules();
    extra.host_rules.push(hr);
    rules.merge(extra);
    let c = UrlCleaner::new(rules);
    let mut s = String::from("https://example.org/");
    for _ in 0..40 {
        s = format!("https://loop.test/?u={}", s);
    }
    match c.clean(&s) {
        Err(CleanError::TooManyRedirects) => {}
        other => panic!("expected TooManyRedirects, got {:?}", other),
    }
}

#[test]
fn test_short_redirect_chain_unwraps() {
    let mut rules = RuleSet::builtin();
    let mut hr = host_rule(vec!["loop.test"]);
    hr.unwrap_params.push("u".to_string());
    let mut extra = empty_rules();
    extra.host_rules.push(hr);
    rules.merge(extra);
    let c = UrlCleaner::new(rules);
    let mut s = String::from("https://example.org/?utm_source=x");
    for _ in 0..3 {
        s = format!("https://loop.test/?u={}", s);
    }
    assert_eq!(c.clean(&s).unwrap(), "https://example.org/");
}

#[test]
fn test_merge_appends_in_order() {
    let mut a = empty_rules();
    a.remove_params.push("one".to_string());
    let mut b = empty_rules();
    b.remove_params.push("two".to_string());
    b.keep_params.push("keepme".to_string());
    a.merge(b);
    assert_eq!(a.remove_params, vec!["one".to_string(), "two".to_string()]);
    assert_eq!(a.keep_params, vec!["keepme".to_string()]);
    assert!(a.host_rules.is_empty());
}

#[test]
fn test_merged_remove_applies() {
    let mut rules = RuleSet::builtin();
    let mut extra = empty_rules();
    extra.remove_params.push("session".to_string());
    rules.merge(extra);
    let c = UrlCleaner::new(rules);
    let u = c.clean("https://example.com/?session=9&x=1").unwrap();
    assert_eq!(u, "https://example.com/?x=1");
}

#[test]
fn test_builtin_covers_known_trackers() {
    let rules = RuleSet::builtin();
    assert!(rules.remove_params.iter().any(|p| p == "gclid"));
    assert!(rules.remove_param_globs.iter().any(|p| p == "utm_*"));
    assert_eq!(rules.host_rules.len(), 4);
    let c = UrlCleaner::new(rules);
    let u = c.clean("https://example.com/?fbclid=abc&spm=1&x=1").unwrap();
    assert_eq!(u, "https://example.com/?x=1");
}

#[test]
fn test_unwrap_skips_non_url_candidate() {
    let c = UrlCleaner::new(RuleSet::builtin());
    // The first candidate (`q`) does not decode to a URL; the second (`url`)
    // does.
    let u = c
        .clean("https://www.google.com/url?q=hello&url=https%3A%2F%2Fexample.com%2Fb")
        .unwrap();
    assert_eq!(u, "https://example.com/b");
}

#[test]
fn test_matcher_for_aggregates_matching_rules() {
    let mut rules = empty_rules();
    let mut a = host_rule(vec!["*.example.com"]);
    a.remove_params.push("a".to_string());
    a.unwrap_params.push("u1".to_string());
    let mut b = host_rule(vec!["nope.test", "www.example.com"]);
    b.remove_params.push("b".to_string());
    b.strip_all_params = Some(true);
    let mut c = host_rule(vec!["other.com"]);
    c.remove_params.push("c".to_string());
    rules.host_rules = vec![a, b, c];
    let hv = rules.matcher_for("www.example.com").unwrap();
    assert_eq!(hv.remove_params, vec!["a".to_string(), "b".to_string()]);
    assert_eq!(hv.unwrap_params, vec!["u1".to_string()]);
    assert!(hv.strip_all_params);
    let hv2 = rules.matcher_for("other.com").unwrap();
    assert_eq!(hv2.remove_params, vec!["c".to_string()]);
    assert!(!hv2.strip_all_params);
}

#[test]
fn test_host_rule_applies_only_to_its_host() {
    let mut rules = RuleSet::builtin();
    let mut hr = host_rule(vec!["tracked.test"]);
    hr.remove_params.push("page".to_string());
    let mut extra = empty_rules();
    extra.host_rules.push(hr);
    rules.merge(extra);
    let c = UrlCleaner::new(rules);
    assert_eq!(
        c.clean("https://tracked.test/?page=1&x=2").unwrap(),
        "https://tracked.test/?x=2"
    );
    assert_eq!(
        c.clean("https://example.com/?page=1&x=2").unwrap(),
        "https://example.com/?page=1&x=2"
    );
}

#[test]
fn test_unwrap_skips_undecodable_candidate() {
    let c = UrlCleaner::new(RuleSet::builtin());
    // The first candidate (`q`) percent-decodes to a lone 0xFF byte, which
    // is not UTF-8; the scan goes on to the second candidate (`url`).
    let u = c
        .clean("https://www.google.com/url?q=%25FF&url=https%3A%2F%2Fexample.com%2Fc")
        .unwrap();
    assert_eq!(u, "https://example.com/c");
}

#[test]
fn test_oversized_glob_is_an_error_not_a_panic() {
    // Parses as a glob but its matcher does not compile (regex size limit):
    // a fatal error, like any other malformed pattern.
    let huge = format!("*{}*", "a".repeat(2_000_000));
    let mut rules = RuleSet::builtin();
    let mut extra = empty_rules();
    extra.remove_param_globs.push(huge.clone());
    rules.merge(extra);
    let c = UrlCleaner::new(rules);
    match c.clean("https://example.com/?x=1") {
        Err(CleanError::InvalidGlobPattern(p)) => assert_eq!(p, huge),
        other => panic!("expected InvalidGlobPattern, got {:?}", other),
    }
}
