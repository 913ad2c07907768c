//! Response-head assembly: the decision table that turns a conditional
//! outcome and a range outcome into a status code, the headers this
//! library owns (`Content-Range`, `Content-Length`, `Content-Type`,
//! `ETag`, `Accept-Ranges`), and the byte window the body stream must be
//! bounded to.

use vstd::prelude::*;

use crate::conditional::ConditionalOutcome;
use crate::conditional::RequestConditions;
use crate::conditional::ResourceMeta;
use crate::conditional::spec_evaluate;
use crate::digits::dec_digits;
use crate::digits::render_u64;
use crate::etag::EntityTag;
use crate::etag::SLASH;
use crate::etag::STAR;
use crate::range::DASH;
use crate::range::RangeOutcome;
use crate::range::parse_range;
use crate::range::range_outcome;
use crate::window::ByteWindow;

verus! {

/// ASCII `' '`.
pub const SP: u8 = 32;

/// Everything the transport layer needs to emit the response, short of
/// the body bytes themselves.
pub struct ResponseHead {
    /// 200, 206, 304, 412 or 416.
    pub status: u16,
    /// The byte window the body stream must be bounded to (206 only).
    pub window: Option<ByteWindow>,
    /// Whether a body follows (200 and 206 only).
    pub has_body: bool,
    /// `Content-Length`: the window's length for 206, the full size
    /// otherwise.
    pub content_length: u64,
    /// `Content-Range` value, present for 206 and 416.
    pub content_range: Option<Vec<u8>>,
    /// `Content-Type` value.
    pub content_type: Vec<u8>,
    /// `ETag` value, when the resource has a validator.
    pub etag: Option<Vec<u8>>,
}

/// The status code the decision table selects.
pub open spec fn spec_status(outcome: ConditionalOutcome, range: Option<RangeOutcome>) -> u16 {
    match outcome {
        ConditionalOutcome::PreconditionFailed => 412,
        ConditionalOutcome::NotModified => 304,
        ConditionalOutcome::RangeIgnored => 200,
        ConditionalOutcome::Proceed => match range {
            Some(RangeOutcome::Window(w)) => 206,
            Some(RangeOutcome::Unsatisfiable) => 416,
            _ => 200,
        },
    }
}

/// The byte window the body is bounded to: only a satisfiable range
/// served with 206 has one.
pub open spec fn spec_body_window(
    outcome: ConditionalOutcome,
    range: Option<RangeOutcome>,
) -> Option<ByteWindow> {
    match (outcome, range) {
        (ConditionalOutcome::Proceed, Some(RangeOutcome::Window(w))) => Some(w),
        _ => None,
    }
}

/// The `Content-Length` value: the window's length for 206, the resource's
/// full size otherwise.
pub open spec fn spec_content_length(
    outcome: ConditionalOutcome,
    range: Option<RangeOutcome>,
    size: u64,
) -> int {
    match spec_body_window(outcome, range) {
        Some(w) => w.end - w.start,
        None => size as int,
    }
}

/// `Content-Range` for a 206 response:
/// `bytes {start}-{end-1}/{size}`.
pub open spec fn spec_content_range_window(w: ByteWindow, size: u64) -> Seq<u8> {
    seq![98u8, 121u8, 116u8, 101u8, 115u8, SP] + dec_digits(w.start as int) + seq![DASH]
        + dec_digits(w.end - 1) + seq![SLASH] + dec_digits(size as int)
}

/// `Content-Range` for a 416 response: `bytes */{size}`.
pub open spec fn spec_content_range_unsat(size: u64) -> Seq<u8> {
    seq![98u8, 121u8, 116u8, 101u8, 115u8, SP, STAR, SLASH] + dec_digits(size as int)
}

/// The `Content-Range` value, present exactly for 206 and 416.
pub open spec fn spec_content_range(
    outcome: ConditionalOutcome,
    range: Option<RangeOutcome>,
    size: u64,
) -> Option<Seq<u8>> {
    if outcome is Proceed {
        match range {
            Some(RangeOutcome::Window(w)) => Some(spec_content_range_window(w, size)),
            Some(RangeOutcome::Unsatisfiable) => Some(spec_content_range_unsat(size)),
            _ => None,
        }
    } else {
        None
    }
}

/// `text/html; charset=utf-8`.
pub open spec fn text_html_utf8() -> Seq<u8> {
    seq![116u8, 101u8, 120u8, 116u8, 47u8, 104u8, 116u8, 109u8, 108u8, 59u8, 32u8, 99u8, 104u8,
        97u8, 114u8, 115u8, 101u8, 116u8, 61u8, 117u8, 116u8, 102u8, 45u8, 56u8]
}

/// `text/plain; charset=utf-8`.
pub open spec fn text_plain_utf8() -> Seq<u8> {
    seq![116u8, 101u8, 120u8, 116u8, 47u8, 112u8, 108u8, 97u8, 105u8, 110u8, 59u8, 32u8, 99u8,
        104u8, 97u8, 114u8, 115u8, 101u8, 116u8, 61u8, 117u8, 116u8, 102u8, 45u8, 56u8]
}

/// `bytes`, the constant `Accept-Ranges` value.
pub open spec fn spec_accept_ranges() -> Seq<u8> {
    seq![98u8, 121u8, 116u8, 101u8, 115u8]
}

/// The view of an optional MIME value.
pub open spec fn mime_view(mime: Option<&Vec<u8>>) -> Option<Seq<u8>> {
    match mime {
        Some(m) => Some(m@),
        None => None,
    }
}

/// The `Content-Type` value: the resource's MIME type when one is known,
/// else `text/html` for a directory and `text/plain` for anything else,
/// both in UTF-8.
pub open spec fn spec_content_type(mime: Option<Seq<u8>>, is_dir: bool) -> Seq<u8> {
    match mime {
        Some(m) => m,
        None => if is_dir {
            text_html_utf8()
        } else {
            text_plain_utf8()
        },
    }
}

/// The constant `Accept-Ranges: bytes` value every response carries.
pub fn accept_ranges_value() -> (r: Vec<u8>)
    ensures
        r@ == spec_accept_ranges(),
{
    let mut r: Vec<u8> = Vec::new();
    r.push(98);
    r.push(121);
    r.push(116);
    r.push(101);
    r.push(115);
    proof {
        assert(r@ =~= spec_accept_ranges());
    }
    r
}

/// Appends all of `src` to `dst`.
fn push_all(dst: &mut Vec<u8>, src: &Vec<u8>)
    ensures
        final(dst)@ == old(dst)@ + src@,
{
    let mut k: usize = 0;
    while k < src.len()
        invariant
            k <= src@.len(),
            dst@ == old(dst)@ + src@.take(k as int),
        decreases src@.len() - k,
    {
        let b = src[k];
        dst.push(b);
        proof {
            assert(old(dst)@ + src@.take(k + 1)
                =~= (old(dst)@ + src@.take(k as int)).push(b));
        }
        k = k + 1;
    }
    proof {
        assert(old(dst)@ + src@.take(0) =~= old(dst)@);
        assert(src@.take(src@.len() as int) =~= src@);
    }
}

/// Builds the `Content-Range` value for a 206 response on window `w`.
fn content_range_window_value(w: ByteWindow, size: u64) -> (r: Vec<u8>)
    requires
        w.start < w.end,
    ensures
        r@ == spec_content_range_window(w, size),
{
    let mut r: Vec<u8> = Vec::new();
    r.push(98);
    r.push(121);
    r.push(116);
    r.push(101);
    r.push(115);
    r.push(SP);
    proof {
        assert(r@ =~= seq![98u8, 121u8, 116u8, 101u8, 115u8, SP]);
    }
    let start = render_u64(w.start);
    push_all(&mut r, &start);
    r.push(DASH);
    let last = render_u64(w.end - 1);
    push_all(&mut r, &last);
    r.push(SLASH);
    let total = render_u64(size);
    push_all(&mut r, &total);
    proof {
        assert(r@ =~= spec_content_range_window(w, size));
    }
    r
}

/// Builds the `Content-Range` value for a 416 response.
fn content_range_unsat_value(size: u64) -> (r: Vec<u8>)
    ensures
        r@ == spec_content_range_unsat(size),
{
    let mut r: Vec<u8> = Vec::new();
    r.push(98);
    r.push(121);
    r.push(116);
    r.push(101);
    r.push(115);
    r.push(SP);
    r.push(STAR);
    r.push(SLASH);
    let total = render_u64(size);
    push_all(&mut r, &total);
    proof {
        assert(r@ =~= spec_content_range_unsat(size));
    }
    r
}

/// Builds the `Content-Type` value.
pub fn content_type_value(mime: Option<&Vec<u8>>, is_dir: bool) -> (r: Vec<u8>)
    ensures
        r@ == spec_content_type(mime_view(mime), is_dir),
{
    match mime {
        Some(m) => {
            let mut r: Vec<u8> = Vec::new();
            push_all(&mut r, m);
            proof {
                assert(r@ =~= m@);
            }
            r
        },
        None => {
            let mut r: Vec<u8> = Vec::new();
            if is_dir {
                r.push(116);
                r.push(101);
                r.push(120);
                r.push(116);
                r.push(47);
                r.push(104);
                r.push(116);
                r.push(109);
                r.push(108);
                r.push(59);
                r.push(32);
                r.push(99);
                r.push(104);
                r.push(97);
                r.push(114);
                r.push(115);
                r.push(101);
                r.push(116);
                r.push(61);
                r.push(117);
                r.push(116);
                r.push(102);
                r.push(45);
                r.push(56);
                proof {
                    assert(r@ =~= text_html_utf8());
                }
            } else {
                r.push(116);
                r.push(101);
                r.push(120);
                r.push(116);
                r.push(47);
                r.push(112);
                r.push(108);
                r.push(97);
                r.push(105);
                r.push(110);
                r.push(59);
                r.push(32);
                r.push(99);
                r.push(104);
                r.push(97);
                r.push(114);
                r.push(115);
                r.push(101);
                r.push(116);
                r.push(61);
                r.push(117);
                r.push(116);
                r.push(102);
                r.push(45);
                r.push(56);
                proof {
                    assert(r@ =~= text_plain_utf8());
                }
            }
            r
        },
    }
}

/// Assembles the response head from the conditional outcome, the range
/// outcome (absent when the request carried no `Range` header), and the
/// resource's metadata, per the decision table: 200 full body, 206 window
/// body with `Content-Range`, 304/412 no body, 416 no body with
/// `Content-Range: bytes */size`.
pub fn assemble(
    outcome: ConditionalOutcome,
    range: Option<RangeOutcome>,
    size: u64,
    mime: Option<&Vec<u8>>,
    is_dir: bool,
    etag: Option<&EntityTag>,
) -> (h: ResponseHead)
    requires
        range matches Some(RangeOutcome::Window(w)) ==> w.start < w.end <= size,
    ensures
        h.status == spec_status(outcome, range),
        h.window == spec_body_window(outcome, range),
        h.has_body == (h.status == 200 || h.status == 206),
        h.content_length == spec_content_length(outcome, range, size),
        match spec_content_range(outcome, range, size) {
            Some(v) => (h.content_range matches Some(cr) && cr@ == v),
            None => h.content_range is None,
        },
        h.content_type@ == spec_content_type(mime_view(mime), is_dir),
        match etag {
            Some(t) => (h.etag matches Some(e) && e@ == t.spec_wire()),
            None => h.etag is None,
        },
{
    let content_type = content_type_value(mime, is_dir);
    let etag_value = match etag {
        Some(t) => Some(t.wire()),
        None => None,
    };
    let proceed_range = match outcome {
        ConditionalOutcome::Proceed => range,
        _ => None,
    };
    match proceed_range {
        Some(RangeOutcome::Window(w)) => ResponseHead {
            status: 206,
            window: Some(w),
            has_body: true,
            content_length: w.end - w.start,
            content_range: Some(content_range_window_value(w, size)),
            content_type,
            etag: etag_value,
        },
        Some(RangeOutcome::Unsatisfiable) => ResponseHead {
            status: 416,
            window: None,
            has_body: false,
            content_length: size,
            content_range: Some(content_range_unsat_value(size)),
            content_type,
            etag: etag_value,
        },
        _ => {
            let status: u16 = match outcome {
                ConditionalOutcome::PreconditionFailed => 412,
                ConditionalOutcome::NotModified => 304,
                _ => 200,
            };
            ResponseHead {
                status,
                window: None,
                has_body: status == 200,
                content_length: size,
                content_range: None,
                content_type,
                etag: etag_value,
            }
        },
    }
}

/// The range outcome of an optional `Range` header against the size.
pub open spec fn spec_range_of(header: Option<&Vec<u8>>, size: u64) -> Option<RangeOutcome> {
    match header {
        Some(h) => Some(range_outcome(h@, size)),
        None => None,
    }
}

/// The full decision for one request: evaluates the conditional headers,
/// parses and validates the `Range` header, and assembles the response
/// head, exactly as the composed specifications describe. The body, when
/// `has_body` holds, is the stream over `window` (or the whole resource).
pub fn plan_response(
    meta: &ResourceMeta,
    cond: &RequestConditions,
    method_is_safe: bool,
    range_header: Option<&Vec<u8>>,
    size: u64,
    mime: Option<&Vec<u8>>,
    is_dir: bool,
) -> (h: ResponseHead)
    ensures
        ({
            let range = spec_range_of(range_header, size);
            let outcome = spec_evaluate(*meta, *cond, method_is_safe, range_header is Some);
            &&& h.status == spec_status(outcome, range)
            &&& h.window == spec_body_window(outcome, range)
            &&& h.has_body == (h.status == 200 || h.status == 206)
            &&& h.content_length == spec_content_length(outcome, range, size)
            &&& match spec_content_range(outcome, range, size) {
                Some(v) => (h.content_range matches Some(cr) && cr@ == v),
                None => h.content_range is None,
            }
            &&& h.content_type@ == spec_content_type(mime_view(mime), is_dir)
            &&& match meta.etag {
                Some(t) => (h.etag matches Some(e) && e@ == t.spec_wire()),
                None => h.etag is None,
            }
        }),
{
    let range = match range_header {
        Some(rh) => {
            proof {
                crate::range::lemma_range_window_valid(rh@, size);
            }
            Some(parse_range(rh, size))
        },
        None => None,
    };
    let outcome = crate::conditional::evaluate(meta, cond, method_is_safe, range_header.is_some());
    let etag_ref = match &meta.etag {
        Some(t) => Some(t),
        None => None,
    };
    assemble(outcome, range, size, mime, is_dir, etag_ref)
}

} // verus!
