//! Entity tags: derivation from resource identity, strong and weak
//! comparison, and parsing of the validator lists carried by conditional
//! request headers.

use vstd::prelude::*;

use crate::digits::dec_digits;
use crate::digits::render_u64;
use crate::range::COMMA;
use crate::range::DASH;

verus! {

/// ASCII `'"'`.
pub const DQUOTE: u8 = 34;

/// ASCII `'W'`.
pub const UPPER_W: u8 = 87;

/// ASCII `'/'`.
pub const SLASH: u8 = 47;

/// ASCII `'*'`.
pub const STAR: u8 = 42;

/// An entity tag: an opaque validator, weak or strong.
///
/// `value` holds the bytes between the quotes; the quotes and any `W/`
/// prefix belong to the wire form, not to the value.
#[derive(Clone, Debug)]
pub struct EntityTag {
    pub weak: bool,
    pub value: Vec<u8>,
}

impl EntityTag {
    /// Strong comparison: both tags strong and byte-identical values.
    pub open spec fn spec_strong_eq(self, other: EntityTag) -> bool {
        !self.weak && !other.weak && self.value@ == other.value@
    }

    /// Weak comparison: byte-identical values, weakness ignored. Every
    /// strong match is also a weak match.
    pub open spec fn spec_weak_eq(self, other: EntityTag) -> bool {
        self.value@ == other.value@
    }

    /// Strong comparison: both tags strong and byte-identical values.
    pub fn strong_eq(&self, other: &EntityTag) -> (r: bool)
        ensures
            r == self.spec_strong_eq(*other),
    {
        !self.weak && !other.weak && bytes_eq(&self.value, &other.value)
    }

    /// Weak comparison: byte-identical values, weakness ignored.
    pub fn weak_eq(&self, other: &EntityTag) -> (r: bool)
        ensures
            r == self.spec_weak_eq(*other),
    {
        bytes_eq(&self.value, &other.value)
    }

    /// The wire form of the tag: `"value"`, with `W/` in front when weak.
    pub open spec fn spec_wire(self) -> Seq<u8> {
        (if self.weak {
            seq![UPPER_W, SLASH]
        } else {
            Seq::<u8>::empty()
        }) + seq![DQUOTE] + self.value@ + seq![DQUOTE]
    }

    /// Renders the tag as an `ETag` (or `If-*`) header value.
    pub fn wire(&self) -> (r: Vec<u8>)
        ensures
            r@ == self.spec_wire(),
    {
        let mut r: Vec<u8> = Vec::new();
        if self.weak {
            r.push(UPPER_W);
            r.push(SLASH);
        }
        r.push(DQUOTE);
        let mut k: usize = 0;
        while k < self.value.len()
            invariant
                k <= self.value@.len(),
                r@ == (if self.weak { seq![UPPER_W, SLASH] } else { Seq::<u8>::empty() })
                    + seq![DQUOTE] + self.value@.take(k as int),
            decreases self.value@.len() - k,
        {
            let b = self.value[k];
            r.push(b);
            proof {
                assert(self.value@.take(k + 1) =~= self.value@.take(k as int).push(b));
                assert((if self.weak { seq![UPPER_W, SLASH] } else { Seq::<u8>::empty() })
                    + seq![DQUOTE] + self.value@.take(k + 1)
                    =~= ((if self.weak { seq![UPPER_W, SLASH] } else { Seq::<u8>::empty() })
                        + seq![DQUOTE] + self.value@.take(k as int)).push(b));
            }
            k = k + 1;
        }
        r.push(DQUOTE);
        proof {
            assert(self.value@.take(self.value@.len() as int) =~= self.value@);
            assert(r@ =~= self.spec_wire());
        }
        r
    }
}

/// Byte-for-byte equality of two byte vectors.
pub fn bytes_eq(a: &Vec<u8>, b: &Vec<u8>) -> (r: bool)
    ensures
        r == (a@ == b@),
{
    if a.len() != b.len() {
        return false;
    }
    let mut k: usize = 0;
    while k < a.len()
        invariant
            k <= a@.len(),
            a@.len() == b@.len(),
            forall|i: int| 0 <= i < k ==> a@[i] == b@[i],
        decreases a@.len() - k,
    {
        if a[k] != b[k] {
            return false;
        }
        k = k + 1;
    }
    proof {
        assert(a@ =~= b@);
    }
    true
}

/// The strong tag this library derives from a resource's identity:
/// `"size-mtime"`, both numbers in decimal.
pub open spec fn spec_etag_value(size: u64, mtime: u64) -> Seq<u8> {
    dec_digits(size as int) + seq![DASH] + dec_digits(mtime as int)
}

/// Derives the resource's entity tag from its size and its modification
/// time (any monotonic encoding of it, such as seconds since an epoch).
pub fn derive_etag(size: u64, mtime: u64) -> (t: EntityTag)
    ensures
        !t.weak,
        t.value@ == spec_etag_value(size, mtime),
{
    let mut value = render_u64(size);
    value.push(DASH);
    let rest = render_u64(mtime);
    let mut k: usize = 0;
    while k < rest.len()
        invariant
            k <= rest@.len(),
            rest@ == dec_digits(mtime as int),
            value@ == dec_digits(size as int) + seq![DASH] + rest@.take(k as int),
        decreases rest@.len() - k,
    {
        let b = rest[k];
        value.push(b);
        proof {
            assert(rest@.take(k + 1) =~= rest@.take(k as int).push(b));
            assert(dec_digits(size as int) + seq![DASH] + rest@.take(k + 1)
                =~= (dec_digits(size as int) + seq![DASH] + rest@.take(k as int)).push(b));
        }
        k = k + 1;
    }
    proof {
        assert(rest@.take(rest@.len() as int) =~= rest@);
        assert(dec_digits(size as int) + seq![DASH]
            =~= (dec_digits(size as int)).push(DASH));
    }
    EntityTag { weak: false, value }
}

/// Parses one entity tag: `"value"` or `W/"value"`, where the value holds
/// no double quote. `None` marks anything else.
pub open spec fn spec_parse_etag(s: Seq<u8>) -> Option<(bool, Seq<u8>)> {
    if s.len() >= 2 && s[0] == UPPER_W && s[1] == SLASH {
        match spec_parse_quoted(s.skip(2)) {
            Some(v) => Some((true, v)),
            None => None,
        }
    } else {
        match spec_parse_quoted(s) {
            Some(v) => Some((false, v)),
            None => None,
        }
    }
}

/// A quoted string `"..."` whose interior holds no double quote.
pub open spec fn spec_parse_quoted(s: Seq<u8>) -> Option<Seq<u8>> {
    if s.len() >= 2 && s[0] == DQUOTE && s.last() == DQUOTE
        && (forall|i: int| 1 <= i < s.len() - 1 ==> s[i] != DQUOTE) {
        Some(s.subrange(1, s.len() - 1))
    } else {
        None
    }
}

/// Parses the entity tag in `v[from..to]`.
pub fn parse_etag(v: &Vec<u8>, from: usize, to: usize) -> (r: Option<EntityTag>)
    requires
        from <= to <= v.len(),
    ensures
        match spec_parse_etag(v@.subrange(from as int, to as int)) {
            None => r is None,
            Some((w, val)) => r matches Some(t) && t.weak == w && t.value@ == val,
        },
{
    let ghost s = v@.subrange(from as int, to as int);
    if to - from >= 2 && v[from] == UPPER_W && v[from + 1] == SLASH {
        proof {
            assert(s.skip(2) =~= v@.subrange(from + 2, to as int));
        }
        match parse_quoted(v, from + 2, to) {
            Some(value) => Some(EntityTag { weak: true, value }),
            None => None,
        }
    } else {
        match parse_quoted(v, from, to) {
            Some(value) => Some(EntityTag { weak: false, value }),
            None => None,
        }
    }
}

/// Parses the quoted string in `v[from..to]`.
fn parse_quoted(v: &Vec<u8>, from: usize, to: usize) -> (r: Option<Vec<u8>>)
    requires
        from <= to <= v.len(),
    ensures
        match spec_parse_quoted(v@.subrange(from as int, to as int)) {
            None => r is None,
            Some(val) => r matches Some(rv) && rv@ == val,
        },
{
    let ghost s = v@.subrange(from as int, to as int);
    if to - from < 2 {
        return None;
    }
    if v[from] != DQUOTE || v[to - 1] != DQUOTE {
        return None;
    }
    let mut out: Vec<u8> = Vec::new();
    let mut k: usize = from + 1;
    while k < to - 1
        invariant
            from + 1 <= k <= to - 1,
            to <= v@.len(),
            s == v@.subrange(from as int, to as int),
            s.len() == to - from,
            out@ == v@.subrange(from + 1, k as int),
            forall|i: int| from + 1 <= i < k ==> v@[i] != DQUOTE,
        decreases to - k,
    {
        let b = v[k];
        if b == DQUOTE {
            proof {
                assert(s[k - from] == DQUOTE);
            }
            return None;
        }
        out.push(b);
        proof {
            assert(v@.subrange(from + 1, k + 1)
                =~= v@.subrange(from + 1, k as int).push(b));
        }
        k = k + 1;
    }
    proof {
        assert(forall|i: int| 1 <= i < s.len() - 1 ==> #[trigger] s[i] == v@[from + i]);
        assert(out@ =~= s.subrange(1, s.len() - 1));
    }
    Some(out)
}

/// A validator set from `If-Match` or `If-None-Match`: the wildcard `*`,
/// or a comma-separated list of entity tags.
#[derive(Clone, Debug)]
pub enum Validator {
    /// `*`: matches any current representation.
    Any,
    /// An explicit list of entity tags.
    Tags(Vec<EntityTag>),
}

/// The tag list a well-formed validator header denotes, as `(weak, value)`
/// pairs; `None` for `*`-free input that does not parse.
pub open spec fn spec_parse_tag_list(s: Seq<u8>) -> Option<Seq<(bool, Seq<u8>)>>
    decreases s.len(),
{
    match crate::range::find_byte(s, COMMA) {
        None => match spec_parse_etag(s) {
            Some(t) => Some(seq![t]),
            None => None,
        },
        Some(j) => match spec_parse_etag(s.take(j)) {
            Some(t) => if 0 <= j < s.len() {
                match spec_parse_tag_list(s.skip(j + 1)) {
                    Some(rest) => Some(seq![t] + rest),
                    None => None,
                }
            } else {
                None
            },
            None => None,
        },
    }
}

/// The `(weak, value)` pairs of a tag list.
pub open spec fn tag_views(ts: Seq<EntityTag>) -> Seq<(bool, Seq<u8>)> {
    ts.map_values(|t: EntityTag| (t.weak, t.value@))
}

/// Parses an `If-Match` / `If-None-Match` header value: `*`, or a
/// comma-separated list of entity tags.
pub fn parse_validator(header: &Vec<u8>) -> (r: Option<Validator>)
    ensures
        r is Some <==> (header@ == seq![STAR] || spec_parse_tag_list(header@) is Some),
        header@ == seq![STAR] ==> (r matches Some(v) && v is Any),
        header@ != seq![STAR] ==> match spec_parse_tag_list(header@) {
            Some(pairs) => (r matches Some(v)
                && (v matches Validator::Tags(ts) && tag_views(ts@) == pairs)),
            None => r is None,
        },
{
    if header.len() == 1 && header[0] == STAR {
        proof {
            assert(header@ =~= seq![STAR]);
        }
        return Some(Validator::Any);
    }
    proof {
        if header@.len() == 1 {
            assert(header@[0] != STAR);
        }
        assert(header@ != seq![STAR]);
    }
    let len = header.len();
    let mut tags: Vec<EntityTag> = Vec::new();
    let mut i: usize = 0;
    proof {
        assert(header@.skip(0) =~= header@);
        assert(tag_views(tags@) =~= Seq::<(bool, Seq<u8>)>::empty());
        match spec_parse_tag_list(header@) {
            Some(pairs) => {
                assert(pairs =~= tag_views(tags@) + pairs);
            },
            None => {},
        }
    }
    loop
        invariant
            0 <= i <= len,
            len == header@.len(),
            header@ != seq![STAR],
            match spec_parse_tag_list(header@) {
                Some(pairs) => spec_parse_tag_list(header@.skip(i as int)) matches Some(rest)
                    && pairs == tag_views(tags@) + rest,
                None => spec_parse_tag_list(header@.skip(i as int)) is None,
            },
        decreases len - i,
    {
        let ghost rest = header@.skip(i as int);
        let mut j: usize = i;
        while j < len && header[j] != COMMA
            invariant
                i <= j <= len,
                len == header@.len(),
                forall|k: int| i <= k < j ==> header@[k] != COMMA,
            decreases len - j,
        {
            j = j + 1;
        }
        proof {
            crate::range::lemma_find_byte(rest, COMMA);
            assert(forall|k: int| 0 <= k < rest.len() ==> rest[k] == #[trigger] header@[i + k]);
            if j == len {
                assert(crate::range::find_byte(rest, COMMA) is None) by {
                    match crate::range::find_byte(rest, COMMA) {
                        Some(c) => {
                            assert(header@[i + c] == COMMA);
                        },
                        None => {},
                    }
                }
            } else {
                assert(header@[j as int] == COMMA);
                assert(crate::range::find_byte(rest, COMMA) == Some(j - i)) by {
                    match crate::range::find_byte(rest, COMMA) {
                        None => {
                            assert(rest[j - i] != COMMA);
                        },
                        Some(c) => {
                            if c < j - i {
                                assert(header@[i + c] != COMMA);
                            } else if c > j - i {
                                assert(rest[j - i] != COMMA);
                            }
                        },
                    }
                }
            }
            assert(header@.subrange(i as int, j as int)
                =~= if j == len { rest } else { rest.take(j - i) });
        }
        match parse_etag(header, i, j) {
            None => {
                return None;
            },
            Some(t) => {
                let ghost old_tags = tags@;
                tags.push(t);
                proof {
                    assert(tag_views(tags@)
                        =~= tag_views(old_tags).push((t.weak, t.value@)));
                }
                if j == len {
                    proof {
                        assert(spec_parse_tag_list(rest) matches Some(p)
                            && p =~= seq![(t.weak, t.value@)]);
                        match spec_parse_tag_list(header@) {
                            Some(pairs) => {
                                assert(pairs =~= tag_views(tags@));
                            },
                            None => {},
                        }
                    }
                    return Some(Validator::Tags(tags));
                }
                proof {
                    assert(rest.skip(j - i + 1) =~= header@.skip(j + 1));
                    match spec_parse_tag_list(header@) {
                        Some(pairs) => {
                            assert(spec_parse_tag_list(rest) matches Some(r2)
                                ==> pairs =~= tag_views(tags@)
                                    + (match spec_parse_tag_list(header@.skip(j + 1)) {
                                        Some(r3) => r3,
                                        None => Seq::empty(),
                                    }));
                        },
                        None => {},
                    }
                }
                i = j + 1;
            },
        }
    }
}

} // verus!
