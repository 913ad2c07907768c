use file_range::conditional::{ConditionalOutcome, IfRange, RequestConditions, ResourceMeta};
use file_range::etag::{EntityTag, Validator};
use file_range::range::RangeOutcome;
use file_range::response::{accept_ranges_value, assemble, content_type_value, plan_response};
use file_range::stream::collect_chunks;
use file_range::ByteWindow;

fn tag(value: &[u8]) -> EntityTag {
    EntityTag { weak: false, value: value.to_vec() }
}

fn no_conditions() -> RequestConditions {
    RequestConditions {
        if_match: None,
        if_unmodified_since: None,
        if_none_match: None,
        if_modified_since: None,
        if_range: None,
    }
}

fn bare_meta() -> ResourceMeta {
    ResourceMeta { etag: None, last_modified: None }
}

#[test]
fn first_half_range_gets_206_with_content_range() {
    let header = b"bytes=0-49".to_vec();
    let h = plan_response(&bare_meta(), &no_conditions(), true, Some(&header), 100, None, false);
    assert_eq!(h.status, 206);
    assert!(h.has_body);
    assert_eq!(h.window, Some(ByteWindow { start: 0, end: 50 }));
    assert_eq!(h.content_length, 50);
    assert_eq!(h.content_range, Some(b"bytes 0-49/100".to_vec()));

    let content: Vec<u8> = (0u32..100).map(|i| i as u8).collect();
    let chunks = collect_chunks(&content, h.window, 65534);
    let body: Vec<u8> = chunks.into_iter().flatten().collect();
    assert_eq!(body.len(), 50);
    assert_eq!(body, content[0..50].to_vec());
}

#[test]
fn out_of_bounds_range_gets_416_with_star_content_range() {
    let header = b"bytes=200-300".to_vec();
    let h = plan_response(&bare_meta(), &no_conditions(), true, Some(&header), 100, None, false);
    assert_eq!(h.status, 416);
    assert!(!h.has_body);
    assert_eq!(h.window, None);
    assert_eq!(h.content_range, Some(b"bytes */100".to_vec()));
}

#[test]
fn matching_if_none_match_gets_304_despite_range() {
    let meta = ResourceMeta { etag: Some(tag(b"abc")), last_modified: None };
    let mut cond = no_conditions();
    cond.if_none_match = Some(Validator::Tags(vec![tag(b"abc")]));
    let header = b"bytes=0-9".to_vec();
    let h = plan_response(&meta, &cond, true, Some(&header), 100, None, false);
    assert_eq!(h.status, 304);
    assert!(!h.has_body);
    assert_eq!(h.window, None);
    assert_eq!(h.content_range, None);
    assert_eq!(h.etag, Some(b"\"abc\"".to_vec()));
}

#[test]
fn stale_if_range_gets_200_full_body() {
    let meta = ResourceMeta { etag: Some(tag(b"fresh")), last_modified: None };
    let mut cond = no_conditions();
    cond.if_range = Some(IfRange::Tag(tag(b"stale")));
    let header = b"bytes=0-9".to_vec();
    let h = plan_response(&meta, &cond, true, Some(&header), 100, None, false);
    assert_eq!(h.status, 200);
    assert!(h.has_body);
    assert_eq!(h.window, None);
    assert_eq!(h.content_length, 100);
    assert_eq!(h.content_range, None);
}

#[test]
fn failed_precondition_gets_412() {
    let meta = ResourceMeta { etag: Some(tag(b"abc")), last_modified: None };
    let mut cond = no_conditions();
    cond.if_match = Some(Validator::Tags(vec![tag(b"old")]));
    let h = plan_response(&meta, &cond, true, None, 100, None, false);
    assert_eq!(h.status, 412);
    assert!(!h.has_body);
    assert_eq!(h.window, None);
}

#[test]
fn no_range_header_gets_200() {
    let h = plan_response(&bare_meta(), &no_conditions(), true, None, 321, None, false);
    assert_eq!(h.status, 200);
    assert!(h.has_body);
    assert_eq!(h.content_length, 321);
    assert_eq!(h.content_range, None);
}

#[test]
fn malformed_range_header_gets_200() {
    let header = b"bytes=zz".to_vec();
    let h = plan_response(&bare_meta(), &no_conditions(), true, Some(&header), 100, None, false);
    assert_eq!(h.status, 200);
    assert!(h.has_body);
    assert_eq!(h.content_length, 100);
    assert_eq!(h.content_range, None);
}

#[test]
fn content_type_prefers_given_mime() {
    let mime = b"image/png".to_vec();
    let v = content_type_value(Some(&mime), false);
    assert_eq!(v, b"image/png".to_vec());
}

#[test]
fn content_type_defaults_by_directory() {
    assert_eq!(content_type_value(None, true), b"text/html; charset=utf-8".to_vec());
    assert_eq!(content_type_value(None, false), b"text/plain; charset=utf-8".to_vec());
}

#[test]
fn accept_ranges_is_bytes() {
    assert_eq!(accept_ranges_value(), b"bytes".to_vec());
}

#[test]
fn assemble_directly_on_window_outcome() {
    let w = ByteWindow { start: 10, end: 20 };
    let h = assemble(
        ConditionalOutcome::Proceed,
        Some(RangeOutcome::Window(w)),
        50,
        None,
        false,
        None,
    );
    assert_eq!(h.status, 206);
    assert_eq!(h.content_length, 10);
    assert_eq!(h.content_range, Some(b"bytes 10-19/50".to_vec()));
    assert_eq!(h.etag, None);
}

#[test]
fn not_modified_outcome_overrides_any_range_outcome() {
    let w = ByteWindow { start: 0, end: 10 };
    let h = assemble(
        ConditionalOutcome::NotModified,
        Some(RangeOutcome::Window(w)),
        50,
        None,
        false,
        None,
    );
    assert_eq!(h.status, 304);
    assert!(!h.has_body);
    assert_eq!(h.window, None);
    assert_eq!(h.content_range, None);
}
