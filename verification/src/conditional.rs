//! Conditional-request evaluation.
//!
//! Given the resource's validators and the conditional headers a request
//! carries, decide how to answer, in the mandated precedence order:
//! `If-Match`, then `If-Unmodified-Since`, then `If-None-Match`, then
//! `If-Modified-Since`, then `If-Range`. The first condition that fires
//! short-circuits the rest; exactly one outcome is produced per request.

use vstd::prelude::*;

use crate::etag::EntityTag;
use crate::etag::Validator;

verus! {

/// How the request is to be answered.
#[derive(Clone, Copy, Debug, PartialEq, Eq, Structural)]
pub enum ConditionalOutcome {
    /// Serve as requested, honoring any byte window.
    Proceed,
    /// Answer 304 with no body.
    NotModified,
    /// Answer 412 with no body.
    PreconditionFailed,
    /// Serve the whole resource: the client's range rests on a stale
    /// validator.
    RangeIgnored,
}

/// The resource's validator state: its current entity tag, if one is
/// available, and its last modification time, if known (any monotonic
/// encoding, such as seconds since an epoch).
#[derive(Clone, Debug)]
pub struct ResourceMeta {
    pub etag: Option<EntityTag>,
    pub last_modified: Option<u64>,
}

/// The validator an `If-Range` header carries: an entity tag or a
/// modification date.
#[derive(Clone, Debug)]
pub enum IfRange {
    Tag(EntityTag),
    Date(u64),
}

/// The conditional headers of one request, already parsed; `None` stands
/// for an absent (or ignored, unparsable) header.
#[derive(Clone, Debug)]
pub struct RequestConditions {
    pub if_match: Option<Validator>,
    pub if_unmodified_since: Option<u64>,
    pub if_none_match: Option<Validator>,
    pub if_modified_since: Option<u64>,
    pub if_range: Option<IfRange>,
}

/// Some tag of the list strongly matches `c`.
pub open spec fn spec_any_strong_eq(ts: Seq<EntityTag>, c: EntityTag) -> bool {
    exists|i: int| 0 <= i < ts.len() && (#[trigger] ts[i]).spec_strong_eq(c)
}

/// Some tag of the list weakly matches `c`.
pub open spec fn spec_any_weak_eq(ts: Seq<EntityTag>, c: EntityTag) -> bool {
    exists|i: int| 0 <= i < ts.len() && (#[trigger] ts[i]).spec_weak_eq(c)
}

/// Some listed tag strongly matches the current one; `*` matches whenever
/// a current representation exists (it always does here: the resource is
/// being served).
pub open spec fn spec_strong_matches(v: Validator, current: Option<EntityTag>) -> bool {
    match v {
        Validator::Any => true,
        Validator::Tags(ts) => match current {
            Some(c) => spec_any_strong_eq(ts@, c),
            None => false,
        },
    }
}

/// Some listed tag weakly matches the current one, or the list is `*`.
pub open spec fn spec_weak_matches(v: Validator, current: Option<EntityTag>) -> bool {
    match v {
        Validator::Any => true,
        Validator::Tags(ts) => match current {
            Some(c) => spec_any_weak_eq(ts@, c),
            None => false,
        },
    }
}

/// The `If-Range` validator matches the resource's current state: a tag
/// must strongly match; a date must equal the modification time exactly.
pub open spec fn spec_if_range_matches(ir: IfRange, meta: ResourceMeta) -> bool {
    match ir {
        IfRange::Tag(t) => match meta.etag {
            Some(c) => t.spec_strong_eq(c),
            None => false,
        },
        IfRange::Date(d) => meta.last_modified == Some(d),
    }
}

/// The single outcome of a request's conditional headers against the
/// resource's validators, in precedence order. `method_is_safe` tells
/// whether the request method is safe (GET or HEAD); `has_range` whether
/// a `Range` header accompanies the request.
pub open spec fn spec_evaluate(
    meta: ResourceMeta,
    cond: RequestConditions,
    method_is_safe: bool,
    has_range: bool,
) -> ConditionalOutcome {
    if cond.if_match matches Some(v) && !spec_strong_matches(v, meta.etag) {
        ConditionalOutcome::PreconditionFailed
    } else if cond.if_unmodified_since matches Some(t)
        && (meta.last_modified matches Some(lm) && lm > t) {
        ConditionalOutcome::PreconditionFailed
    } else if cond.if_none_match matches Some(v) && spec_weak_matches(v, meta.etag) {
        if method_is_safe {
            ConditionalOutcome::NotModified
        } else {
            ConditionalOutcome::PreconditionFailed
        }
    } else if cond.if_modified_since matches Some(t)
        && (meta.last_modified matches Some(lm) && lm <= t) {
        ConditionalOutcome::NotModified
    } else if has_range && (cond.if_range matches Some(ir)
        && !spec_if_range_matches(ir, meta)) {
        ConditionalOutcome::RangeIgnored
    } else {
        ConditionalOutcome::Proceed
    }
}

/// Some listed tag strongly matches the current one.
fn strong_matches(v: &Validator, current: &Option<EntityTag>) -> (r: bool)
    ensures
        r == spec_strong_matches(*v, *current),
{
    match v {
        Validator::Any => true,
        Validator::Tags(ts) => match current {
            Some(c) => {
                let mut k: usize = 0;
                while k < ts.len()
                    invariant
                        k <= ts@.len(),
                        *v == Validator::Tags(*ts),
                        *current == Some(*c),
                        forall|i: int| 0 <= i < k ==> !(#[trigger] ts@[i]).spec_strong_eq(*c),
                    decreases ts@.len() - k,
                {
                    if ts[k].strong_eq(c) {
                        proof {
                            assert((ts@[k as int]).spec_strong_eq(*c));
                            assert(spec_any_strong_eq(ts@, *c));
                        }
                        return true;
                    }
                    k = k + 1;
                }
                false
            },
            None => false,
        },
    }
}

/// Some listed tag weakly matches the current one.
fn weak_matches(v: &Validator, current: &Option<EntityTag>) -> (r: bool)
    ensures
        r == spec_weak_matches(*v, *current),
{
    match v {
        Validator::Any => true,
        Validator::Tags(ts) => match current {
            Some(c) => {
                let mut k: usize = 0;
                while k < ts.len()
                    invariant
                        k <= ts@.len(),
                        *v == Validator::Tags(*ts),
                        *current == Some(*c),
                        forall|i: int| 0 <= i < k ==> !(#[trigger] ts@[i]).spec_weak_eq(*c),
                    decreases ts@.len() - k,
                {
                    if ts[k].weak_eq(c) {
                        proof {
                            assert((ts@[k as int]).spec_weak_eq(*c));
                            assert(spec_any_weak_eq(ts@, *c));
                        }
                        return true;
                    }
                    k = k + 1;
                }
                false
            },
            None => false,
        },
    }
}

/// The `If-Range` validator matches the resource's current state.
fn if_range_matches(ir: &IfRange, meta: &ResourceMeta) -> (r: bool)
    ensures
        r == spec_if_range_matches(*ir, *meta),
{
    match ir {
        IfRange::Tag(t) => match &meta.etag {
            Some(c) => t.strong_eq(c),
            None => false,
        },
        IfRange::Date(d) => match &meta.last_modified {
            Some(lm) => *lm == *d,
            None => false,
        },
    }
}

/// Evaluates the request's conditional headers against the resource's
/// validators, exactly as [`spec_evaluate`] describes: the first condition
/// that fires decides, and nothing after it is consulted.
pub fn evaluate(
    meta: &ResourceMeta,
    cond: &RequestConditions,
    method_is_safe: bool,
    has_range: bool,
) -> (r: ConditionalOutcome)
    ensures
        r == spec_evaluate(*meta, *cond, method_is_safe, has_range),
{
    if let Some(v) = &cond.if_match {
        if !strong_matches(v, &meta.etag) {
            return ConditionalOutcome::PreconditionFailed;
        }
    }
    if let Some(t) = &cond.if_unmodified_since {
        if let Some(lm) = &meta.last_modified {
            if *lm > *t {
                return ConditionalOutcome::PreconditionFailed;
            }
        }
    }
    if let Some(v) = &cond.if_none_match {
        if weak_matches(v, &meta.etag) {
            return if method_is_safe {
                ConditionalOutcome::NotModified
            } else {
                ConditionalOutcome::PreconditionFailed
            };
        }
    }
    if let Some(t) = &cond.if_modified_since {
        if let Some(lm) = &meta.last_modified {
            if *lm <= *t {
                return ConditionalOutcome::NotModified;
            }
        }
    }
    if has_range {
        if let Some(ir) = &cond.if_range {
            if !if_range_matches(ir, meta) {
                return ConditionalOutcome::RangeIgnored;
            }
        }
    }
    ConditionalOutcome::Proceed
}

} // verus!
