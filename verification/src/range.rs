//! `Range` request header parsing and validation.
//!
//! A header is parsed against the resource's size into one of three
//! outcomes: a single validated byte window, `Malformed` (the header is
//! advisory, so the caller serves the whole resource), or `Unsatisfiable`
//! (the caller must answer 416). Of a comma-separated list only the first
//! syntactically valid range is used; the rest are ignored. Whitespace is
//! not trimmed: a range item carrying blanks is syntactically invalid.

use vstd::prelude::*;

use crate::digits::{is_digit_seq, digits_val, parse_u64_digits};
use crate::window::ByteWindow;

verus! {

/// ASCII `'-'`.
pub const DASH: u8 = 45;

/// ASCII `','`.
pub const COMMA: u8 = 44;

/// The six bytes of the required prefix `bytes=`.
pub open spec fn bytes_eq_prefix() -> Seq<u8> {
    seq![98u8, 121u8, 116u8, 101u8, 115u8, 61u8]
}

/// What a `Range` header yields against a resource of known size.
#[derive(Clone, Copy, Debug, PartialEq, Eq, Structural)]
pub enum RangeOutcome {
    /// A satisfiable range: serve this byte window with status 206.
    Window(ByteWindow),
    /// Unusable syntax: ignore the header and serve the whole resource.
    Malformed,
    /// Valid syntax that no byte of the resource satisfies: answer 416.
    Unsatisfiable,
}

/// One syntactically valid byte-range-spec, before checking it against the
/// resource size.
pub enum RangeForm {
    /// `first-last`, both inclusive positions.
    FromTo(int, int),
    /// `first-`, open-ended.
    From(int),
    /// `-n`, the final `n` bytes.
    Suffix(int),
}

/// Index of the first occurrence of `b` in `s`, if any.
pub open spec fn find_byte(s: Seq<u8>, b: u8) -> Option<int>
    decreases s.len(),
{
    if s.len() == 0 {
        None
    } else if s[0] == b {
        Some(0)
    } else {
        match find_byte(s.drop_first(), b) {
            None => None,
            Some(i) => Some(i + 1),
        }
    }
}

/// `find_byte` returns exactly the first index holding `b`, and `None`
/// exactly when `b` does not occur.
pub proof fn lemma_find_byte(s: Seq<u8>, b: u8)
    ensures
        match find_byte(s, b) {
            None => forall|i: int| 0 <= i < s.len() ==> s[i] != b,
            Some(i) => 0 <= i < s.len() && s[i] == b
                && forall|j: int| 0 <= j < i ==> s[j] != b,
        },
    decreases s.len(),
{
    if s.len() > 0 && s[0] != b {
        lemma_find_byte(s.drop_first(), b);
        assert(forall|i: int| 1 <= i < s.len() ==> #[trigger] s[i] == s.drop_first()[i - 1]);
    }
}

/// Parses one byte-range-spec. `None` marks it syntactically invalid:
/// no dash, a non-digit or oversized number, both sides empty, or a range
/// running backwards.
pub open spec fn parse_item(item: Seq<u8>) -> Option<RangeForm> {
    match find_byte(item, DASH) {
        None => None,
        Some(d) => {
            let left = item.take(d);
            let right = item.skip(d + 1);
            if left.len() == 0 {
                if right.len() > 0 && is_digit_seq(right) && digits_val(right) <= u64::MAX {
                    Some(RangeForm::Suffix(digits_val(right)))
                } else {
                    None
                }
            } else if !(is_digit_seq(left) && digits_val(left) <= u64::MAX) {
                None
            } else if right.len() == 0 {
                Some(RangeForm::From(digits_val(left)))
            } else if is_digit_seq(right) && digits_val(right) <= u64::MAX
                && digits_val(left) <= digits_val(right) {
                Some(RangeForm::FromTo(digits_val(left), digits_val(right)))
            } else {
                None
            }
        },
    }
}

/// Validates a parsed form against the resource size: clamps an open or
/// overlong end to the size, and classifies a range no resource byte
/// satisfies as unsatisfiable.
pub open spec fn form_outcome(f: RangeForm, size: u64) -> RangeOutcome {
    match f {
        RangeForm::FromTo(a, b) => if a < size {
            RangeOutcome::Window(ByteWindow {
                start: a as u64,
                end: if b >= size { size } else { (b + 1) as u64 },
            })
        } else {
            RangeOutcome::Unsatisfiable
        },
        RangeForm::From(a) => if a < size {
            RangeOutcome::Window(ByteWindow { start: a as u64, end: size })
        } else {
            RangeOutcome::Unsatisfiable
        },
        RangeForm::Suffix(n) => if n > 0 && size > 0 {
            RangeOutcome::Window(ByteWindow {
                start: if n >= size { 0 } else { (size - n) as u64 },
                end: size,
            })
        } else {
            RangeOutcome::Unsatisfiable
        },
    }
}

/// Walks the comma-separated items after `bytes=` and applies the first
/// syntactically valid one; with none, the header is malformed.
pub open spec fn items_outcome(rest: Seq<u8>, size: u64) -> RangeOutcome
    decreases rest.len(),
{
    match find_byte(rest, COMMA) {
        None => match parse_item(rest) {
            Some(f) => form_outcome(f, size),
            None => RangeOutcome::Malformed,
        },
        Some(j) => match parse_item(rest.take(j)) {
            Some(f) => form_outcome(f, size),
            // `find_byte` only ever yields an index inside `rest`; the
            // final arm is never reached.
            None => if 0 <= j < rest.len() {
                items_outcome(rest.skip(j + 1), size)
            } else {
                RangeOutcome::Malformed
            },
        },
    }
}

/// The outcome of a whole `Range` header value against a resource size.
pub open spec fn range_outcome(header: Seq<u8>, size: u64) -> RangeOutcome {
    if header.len() >= 6 && header.take(6) == bytes_eq_prefix() {
        items_outcome(header.skip(6), size)
    } else {
        RangeOutcome::Malformed
    }
}

/// Any window a `Range` header yields is non-empty and lies inside the
/// resource: `start < end <= size`.
pub proof fn lemma_range_window_valid(header: Seq<u8>, size: u64)
    ensures
        range_outcome(header, size) matches RangeOutcome::Window(w)
            ==> w.start < w.end <= size,
{
    if header.len() >= 6 && header.take(6) == bytes_eq_prefix() {
        lemma_items_window_valid(header.skip(6), size);
    }
}

proof fn lemma_items_window_valid(rest: Seq<u8>, size: u64)
    ensures
        items_outcome(rest, size) matches RangeOutcome::Window(w)
            ==> w.start < w.end <= size,
    decreases rest.len(),
{
    match find_byte(rest, COMMA) {
        None => {
            lemma_form_outcome_valid(rest, size);
        },
        Some(j) => {
            lemma_find_byte(rest, COMMA);
            lemma_form_outcome_valid(rest.take(j), size);
            if parse_item(rest.take(j)) is None {
                lemma_items_window_valid(rest.skip(j + 1), size);
            }
        },
    }
}

/// A window built from a syntactically valid range item is non-empty and
/// lies inside the resource.
proof fn lemma_form_outcome_valid(item: Seq<u8>, size: u64)
    ensures
        parse_item(item) matches Some(f)
            ==> (form_outcome(f, size) matches RangeOutcome::Window(w)
                ==> w.start < w.end <= size),
{
    match find_byte(item, DASH) {
        None => {},
        Some(d) => {
            let left = item.take(d);
            let right = item.skip(d + 1);
            if is_digit_seq(left) {
                crate::digits::lemma_digits_val_nonneg(left);
            }
            if is_digit_seq(right) {
                crate::digits::lemma_digits_val_nonneg(right);
            }
        },
    }
}

/// Parses and validates a `Range` header value against the resource size,
/// as [`range_outcome`] describes.
pub fn parse_range(header: &Vec<u8>, size: u64) -> (r: RangeOutcome)
    ensures
        r == range_outcome(header@, size),
{
    if header.len() < 6 {
        return RangeOutcome::Malformed;
    }
    if !(header[0] == 98 && header[1] == 121 && header[2] == 116 && header[3] == 101
        && header[4] == 115 && header[5] == 61) {
        proof {
            assert(header@.take(6) != bytes_eq_prefix());
        }
        return RangeOutcome::Malformed;
    }
    proof {
        assert(header@.take(6) =~= bytes_eq_prefix());
    }
    let len = header.len();
    let mut i: usize = 6;
    loop
        invariant
            6 <= i <= len,
            len == header@.len(),
            header@.len() >= 6,
            header@.take(6) == bytes_eq_prefix(),
            items_outcome(header@.skip(6), size) == items_outcome(header@.skip(i as int), size),
        decreases len - i,
    {
        let ghost rest = header@.skip(i as int);
        // Find the end of the current item: the next comma, or the end.
        let mut j: usize = i;
        while j < len && header[j] != COMMA
            invariant
                i <= j <= len,
                len == header@.len(),
                forall|k: int| i <= k < j ==> header@[k] != COMMA,
            decreases len - j,
        {
            j = j + 1;
        }
        proof {
            lemma_find_byte(rest, COMMA);
            assert(forall|k: int| 0 <= k < rest.len() ==> rest[k] == #[trigger] header@[i + k]);
            if j == len {
                assert(find_byte(rest, COMMA) is None) by {
                    match find_byte(rest, COMMA) {
                        Some(c) => {
                            assert(header@[i + c] == COMMA);
                        },
                        None => {},
                    }
                }
            } else {
                assert(header@[j as int] == COMMA);
                assert(find_byte(rest, COMMA) == Some(j - i)) by {
                    match find_byte(rest, COMMA) {
                        None => {
                            assert(rest[j - i] != COMMA);
                        },
                        Some(c) => {
                            if c < j - i {
                                assert(header@[i + c] != COMMA);
                            } else if c > j - i {
                                assert(rest[j - i] != COMMA);
                            }
                        },
                    }
                }
            }
        }
        match parse_eval_item(header, i, j, size) {
            Some(outcome) => {
                proof {
                    assert(header@.subrange(i as int, j as int)
                        =~= if j == len { rest } else { rest.take(j - i) });
                }
                return outcome;
            },
            None => {
                proof {
                    assert(header@.subrange(i as int, j as int)
                        =~= if j == len { rest } else { rest.take(j - i) });
                }
                if j == len {
                    return RangeOutcome::Malformed;
                }
                proof {
                    assert(rest.skip(j - i + 1) =~= header@.skip(j + 1));
                }
                i = j + 1;
            },
        }
    }
}

/// Parses the item in `v[from..to]` and, when it is syntactically valid,
/// validates it against `size`.
fn parse_eval_item(v: &Vec<u8>, from: usize, to: usize, size: u64) -> (r: Option<RangeOutcome>)
    requires
        from <= to <= v.len(),
    ensures
        match parse_item(v@.subrange(from as int, to as int)) {
            None => r is None,
            Some(f) => r == Some(form_outcome(f, size)),
        },
{
    let ghost item = v@.subrange(from as int, to as int);
    // Find the first dash.
    let mut d: usize = from;
    while d < to && v[d] != DASH
        invariant
            from <= d <= to <= v@.len(),
            forall|k: int| from <= k < d ==> v@[k] != DASH,
        decreases to - d,
    {
        d = d + 1;
    }
    proof {
        lemma_find_byte(item, DASH);
        assert(forall|k: int| 0 <= k < item.len() ==> item[k] == #[trigger] v@[from + k]);
        if d == to {
            assert(find_byte(item, DASH) is None) by {
                match find_byte(item, DASH) {
                    Some(c) => {
                        assert(v@[from + c] == DASH);
                    },
                    None => {},
                }
            }
        } else {
            assert(v@[d as int] == DASH);
            assert(find_byte(item, DASH) == Some(d - from)) by {
                match find_byte(item, DASH) {
                    None => {
                        assert(item[d - from] != DASH);
                    },
                    Some(c) => {
                        if c < d - from {
                            assert(v@[from + c] != DASH);
                        } else if c > d - from {
                            assert(item[d - from] != DASH);
                        }
                    },
                }
            }
        }
    }
    if d == to {
        return None;
    }
    proof {
        assert(item.take(d - from) =~= v@.subrange(from as int, d as int));
        assert(item.skip(d - from + 1) =~= v@.subrange(d + 1, to as int));
    }
    let left = parse_u64_digits(v, from, d);
    let right = parse_u64_digits(v, d + 1, to);
    if from == d {
        // Suffix form `-n`.
        match right {
            Some(n) => {
                proof {
                    assert(item.take(d - from).len() == 0);
                }
                if n > 0 && size > 0 {
                    let start: u64 = if n >= size { 0 } else { size - n };
                    Some(RangeOutcome::Window(ByteWindow { start, end: size }))
                } else {
                    Some(RangeOutcome::Unsatisfiable)
                }
            },
            None => None,
        }
    } else {
        match left {
            None => None,
            Some(a) => {
                if d + 1 == to {
                    // Open-ended form `first-`.
                    if a < size {
                        Some(RangeOutcome::Window(ByteWindow { start: a, end: size }))
                    } else {
                        Some(RangeOutcome::Unsatisfiable)
                    }
                } else {
                    // Double-ended form `first-last`.
                    match right {
                        None => None,
                        Some(b) => {
                            if a > b {
                                None
                            } else if a < size {
                                let end: u64 = if b >= size { size } else { b + 1 };
                                Some(RangeOutcome::Window(ByteWindow { start: a, end }))
                            } else {
                                Some(RangeOutcome::Unsatisfiable)
                            }
                        },
                    }
                }
            },
        }
    }
}

} // verus!
