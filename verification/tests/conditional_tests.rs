use file_range::conditional::{evaluate, ConditionalOutcome, IfRange, RequestConditions, ResourceMeta};
use file_range::etag::{derive_etag, parse_etag, parse_validator, EntityTag, Validator};

fn tag(value: &[u8]) -> EntityTag {
    EntityTag { weak: false, value: value.to_vec() }
}

fn no_conditions() -> RequestConditions {
    RequestConditions {
        if_match: None,
        if_unmodified_since: None,
        if_none_match: None,
        if_modified_since: None,
        if_range: None,
    }
}

#[test]
fn no_headers_proceed() {
    let meta = ResourceMeta { etag: Some(tag(b"abc")), last_modified: Some(1000) };
    let r = evaluate(&meta, &no_conditions(), true, false);
    assert_eq!(r, ConditionalOutcome::Proceed);
}

#[test]
fn if_none_match_hit_is_not_modified() {
    let meta = ResourceMeta { etag: Some(tag(b"abc")), last_modified: None };
    let mut cond = no_conditions();
    cond.if_none_match = Some(Validator::Tags(vec![tag(b"abc")]));
    let r = evaluate(&meta, &cond, true, true);
    assert_eq!(r, ConditionalOutcome::NotModified);
}

#[test]
fn if_none_match_hit_on_unsafe_method_fails_precondition() {
    let meta = ResourceMeta { etag: Some(tag(b"abc")), last_modified: None };
    let mut cond = no_conditions();
    cond.if_none_match = Some(Validator::Tags(vec![tag(b"abc")]));
    let r = evaluate(&meta, &cond, false, false);
    assert_eq!(r, ConditionalOutcome::PreconditionFailed);
}

#[test]
fn if_none_match_weakly_matches_weak_tag() {
    let meta = ResourceMeta { etag: Some(tag(b"abc")), last_modified: None };
    let mut cond = no_conditions();
    cond.if_none_match = Some(Validator::Tags(vec![EntityTag { weak: true, value: b"abc".to_vec() }]));
    let r = evaluate(&meta, &cond, true, false);
    assert_eq!(r, ConditionalOutcome::NotModified);
}

#[test]
fn if_match_miss_fails_precondition() {
    let meta = ResourceMeta { etag: Some(tag(b"abc")), last_modified: None };
    let mut cond = no_conditions();
    cond.if_match = Some(Validator::Tags(vec![tag(b"other")]));
    let r = evaluate(&meta, &cond, true, false);
    assert_eq!(r, ConditionalOutcome::PreconditionFailed);
}

#[test]
fn if_match_weak_tag_never_matches_strongly() {
    let meta = ResourceMeta { etag: Some(tag(b"abc")), last_modified: None };
    let mut cond = no_conditions();
    cond.if_match = Some(Validator::Tags(vec![EntityTag { weak: true, value: b"abc".to_vec() }]));
    let r = evaluate(&meta, &cond, true, false);
    assert_eq!(r, ConditionalOutcome::PreconditionFailed);
}

#[test]
fn if_match_wildcard_matches() {
    let meta = ResourceMeta { etag: None, last_modified: None };
    let mut cond = no_conditions();
    cond.if_match = Some(Validator::Any);
    let r = evaluate(&meta, &cond, true, false);
    assert_eq!(r, ConditionalOutcome::Proceed);
}

#[test]
fn if_match_failure_beats_if_none_match_hit() {
    let meta = ResourceMeta { etag: Some(tag(b"abc")), last_modified: None };
    let mut cond = no_conditions();
    cond.if_match = Some(Validator::Tags(vec![tag(b"stale")]));
    cond.if_none_match = Some(Validator::Tags(vec![tag(b"abc")]));
    let r = evaluate(&meta, &cond, true, false);
    assert_eq!(r, ConditionalOutcome::PreconditionFailed);
}

#[test]
fn if_unmodified_since_violated_fails_precondition() {
    let meta = ResourceMeta { etag: None, last_modified: Some(2000) };
    let mut cond = no_conditions();
    cond.if_unmodified_since = Some(1500);
    let r = evaluate(&meta, &cond, true, false);
    assert_eq!(r, ConditionalOutcome::PreconditionFailed);
}

#[test]
fn if_modified_since_not_newer_is_not_modified() {
    let meta = ResourceMeta { etag: None, last_modified: Some(1000) };
    let mut cond = no_conditions();
    cond.if_modified_since = Some(1000);
    let r = evaluate(&meta, &cond, true, false);
    assert_eq!(r, ConditionalOutcome::NotModified);
}

#[test]
fn if_modified_since_newer_proceeds() {
    let meta = ResourceMeta { etag: None, last_modified: Some(2000) };
    let mut cond = no_conditions();
    cond.if_modified_since = Some(1000);
    let r = evaluate(&meta, &cond, true, false);
    assert_eq!(r, ConditionalOutcome::Proceed);
}

#[test]
fn stale_if_range_with_range_ignores_the_range() {
    let meta = ResourceMeta { etag: Some(tag(b"fresh")), last_modified: None };
    let mut cond = no_conditions();
    cond.if_range = Some(IfRange::Tag(tag(b"stale")));
    let r = evaluate(&meta, &cond, true, true);
    assert_eq!(r, ConditionalOutcome::RangeIgnored);
}

#[test]
fn fresh_if_range_with_range_proceeds() {
    let meta = ResourceMeta { etag: Some(tag(b"fresh")), last_modified: None };
    let mut cond = no_conditions();
    cond.if_range = Some(IfRange::Tag(tag(b"fresh")));
    let r = evaluate(&meta, &cond, true, true);
    assert_eq!(r, ConditionalOutcome::Proceed);
}

#[test]
fn if_range_without_range_is_ignored() {
    let meta = ResourceMeta { etag: Some(tag(b"fresh")), last_modified: None };
    let mut cond = no_conditions();
    cond.if_range = Some(IfRange::Tag(tag(b"stale")));
    let r = evaluate(&meta, &cond, true, false);
    assert_eq!(r, ConditionalOutcome::Proceed);
}

#[test]
fn if_range_date_must_match_exactly() {
    let meta = ResourceMeta { etag: None, last_modified: Some(1000) };
    let mut cond = no_conditions();
    cond.if_range = Some(IfRange::Date(999));
    assert_eq!(evaluate(&meta, &cond, true, true), ConditionalOutcome::RangeIgnored);
    cond.if_range = Some(IfRange::Date(1000));
    assert_eq!(evaluate(&meta, &cond, true, true), ConditionalOutcome::Proceed);
}

#[test]
fn derived_etag_spells_size_and_mtime() {
    let t = derive_etag(1234, 99);
    assert!(!t.weak);
    assert_eq!(t.value, b"1234-99".to_vec());
    assert_eq!(t.wire(), b"\"1234-99\"".to_vec());
}

#[test]
fn weak_tag_wire_form_has_prefix() {
    let t = EntityTag { weak: true, value: b"xyz".to_vec() };
    assert_eq!(t.wire(), b"W/\"xyz\"".to_vec());
}

#[test]
fn strong_and_weak_comparison() {
    let a = tag(b"v1");
    let b = tag(b"v1");
    let w = EntityTag { weak: true, value: b"v1".to_vec() };
    let c = tag(b"v2");
    assert!(a.strong_eq(&b));
    assert!(!a.strong_eq(&w));
    assert!(a.weak_eq(&w));
    assert!(!a.strong_eq(&c));
    assert!(!a.weak_eq(&c));
}

#[test]
fn parse_single_strong_etag() {
    let h = b"\"abc\"".to_vec();
    let t = parse_etag(&h, 0, h.len()).unwrap();
    assert!(!t.weak);
    assert_eq!(t.value, b"abc".to_vec());
}

#[test]
fn parse_single_weak_etag() {
    let h = b"W/\"abc\"".to_vec();
    let t = parse_etag(&h, 0, h.len()).unwrap();
    assert!(t.weak);
    assert_eq!(t.value, b"abc".to_vec());
}

#[test]
fn parse_unquoted_etag_fails() {
    let h = b"abc".to_vec();
    assert!(parse_etag(&h, 0, h.len()).is_none());
}

#[test]
fn parse_validator_wildcard() {
    let v = parse_validator(&b"*".to_vec()).unwrap();
    assert!(matches!(v, Validator::Any));
}

#[test]
fn parse_validator_tag_list() {
    let v = parse_validator(&b"\"a\",W/\"b\"".to_vec()).unwrap();
    match v {
        Validator::Tags(ts) => {
            assert_eq!(ts.len(), 2);
            assert!(!ts[0].weak);
            assert_eq!(ts[0].value, b"a".to_vec());
            assert!(ts[1].weak);
            assert_eq!(ts[1].value, b"b".to_vec());
        }
        Validator::Any => panic!("expected a tag list"),
    }
}

#[test]
fn parse_validator_rejects_bad_item() {
    assert!(parse_validator(&b"\"a\",nope".to_vec()).is_none());
    assert!(parse_validator(&b"".to_vec()).is_none());
}
