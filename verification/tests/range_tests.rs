use file_range::ByteWindow;
use file_range::range::{parse_range, RangeOutcome};

#[test]
fn first_fifty_bytes_of_hundred() {
    let r = parse_range(&b"bytes=0-49".to_vec(), 100);
    assert_eq!(r, RangeOutcome::Window(ByteWindow { start: 0, end: 50 }));
}

#[test]
fn fully_out_of_bounds_is_unsatisfiable() {
    let r = parse_range(&b"bytes=200-300".to_vec(), 100);
    assert_eq!(r, RangeOutcome::Unsatisfiable);
}

#[test]
fn open_ended_range_runs_to_size() {
    let r = parse_range(&b"bytes=10-".to_vec(), 100);
    assert_eq!(r, RangeOutcome::Window(ByteWindow { start: 10, end: 100 }));
}

#[test]
fn overlong_end_is_clamped_to_size() {
    let r = parse_range(&b"bytes=50-1000".to_vec(), 100);
    assert_eq!(r, RangeOutcome::Window(ByteWindow { start: 50, end: 100 }));
}

#[test]
fn suffix_range_takes_final_bytes() {
    let r = parse_range(&b"bytes=-20".to_vec(), 100);
    assert_eq!(r, RangeOutcome::Window(ByteWindow { start: 80, end: 100 }));
}

#[test]
fn suffix_longer_than_resource_covers_it_all() {
    let r = parse_range(&b"bytes=-500".to_vec(), 100);
    assert_eq!(r, RangeOutcome::Window(ByteWindow { start: 0, end: 100 }));
}

#[test]
fn zero_suffix_is_unsatisfiable() {
    let r = parse_range(&b"bytes=-0".to_vec(), 100);
    assert_eq!(r, RangeOutcome::Unsatisfiable);
}

#[test]
fn suffix_on_empty_resource_is_unsatisfiable() {
    let r = parse_range(&b"bytes=-5".to_vec(), 0);
    assert_eq!(r, RangeOutcome::Unsatisfiable);
}

#[test]
fn start_at_size_is_unsatisfiable() {
    let r = parse_range(&b"bytes=100-110".to_vec(), 100);
    assert_eq!(r, RangeOutcome::Unsatisfiable);
}

#[test]
fn missing_prefix_is_malformed() {
    let r = parse_range(&b"0-49".to_vec(), 100);
    assert_eq!(r, RangeOutcome::Malformed);
}

#[test]
fn wrong_unit_is_malformed() {
    let r = parse_range(&b"items=0-49".to_vec(), 100);
    assert_eq!(r, RangeOutcome::Malformed);
}

#[test]
fn non_numeric_bounds_are_malformed() {
    let r = parse_range(&b"bytes=a-b".to_vec(), 100);
    assert_eq!(r, RangeOutcome::Malformed);
}

#[test]
fn backwards_range_is_malformed() {
    let r = parse_range(&b"bytes=9-2".to_vec(), 100);
    assert_eq!(r, RangeOutcome::Malformed);
}

#[test]
fn empty_value_is_malformed() {
    let r = parse_range(&b"bytes=".to_vec(), 100);
    assert_eq!(r, RangeOutcome::Malformed);
}

#[test]
fn first_valid_item_of_list_wins() {
    let r = parse_range(&b"bytes=0-9,20-29".to_vec(), 100);
    assert_eq!(r, RangeOutcome::Window(ByteWindow { start: 0, end: 10 }));
}

#[test]
fn invalid_items_are_skipped_until_a_valid_one() {
    let r = parse_range(&b"bytes=oops,5-9".to_vec(), 100);
    assert_eq!(r, RangeOutcome::Window(ByteWindow { start: 5, end: 10 }));
}

#[test]
fn first_valid_item_decides_even_when_unsatisfiable() {
    let r = parse_range(&b"bytes=500-600,0-9".to_vec(), 100);
    assert_eq!(r, RangeOutcome::Unsatisfiable);
}

#[test]
fn oversized_number_is_malformed() {
    let r = parse_range(&b"bytes=99999999999999999999-".to_vec(), 100);
    assert_eq!(r, RangeOutcome::Malformed);
}

#[test]
fn single_byte_range() {
    let r = parse_range(&b"bytes=5-5".to_vec(), 100);
    assert_eq!(r, RangeOutcome::Window(ByteWindow { start: 5, end: 6 }));
}

#[test]
fn window_len_matches_bounds() {
    let w = ByteWindow { start: 10, end: 60 };
    assert_eq!(w.len(), 50);
}
