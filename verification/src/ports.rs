//! Validated port ranges.  A range expression is two `u16` fields joined by
//! a single dash, as in `"80-443"`.  A field follows the usual unsigned
//! decimal syntax: an optional leading plus sign, then digits, denoting at
//! most 65535; leading zeros are allowed.

use vstd::prelude::*;

use crate::bytes::find_byte;
use crate::bytes::scan_bounded_dec;
use crate::digits::all_digits;
use crate::digits::dec_value;
use crate::errors::ValidationError;
use vstd::string::StringSliceAdditionalSpecFns;

verus! {

/// The digit part of a `u16` field: everything after an optional leading
/// plus sign.
pub open spec fn u16_field_digits(t: Seq<u8>) -> Seq<u8> {
    if t.len() >= 1 && t[0] == 43 {
        t.drop_first()
    } else {
        t
    }
}

/// Is `t` a well-formed `u16` field?
pub open spec fn is_u16_field(t: Seq<u8>) -> bool {
    let d = u16_field_digits(t);
    d.len() >= 1 && all_digits(d) && dec_value(d) <= 65535
}

/// The number a well-formed `u16` field denotes.
pub open spec fn u16_field_val(t: Seq<u8>) -> int {
    dec_value(u16_field_digits(t))
}

/// `s` carries its only dash at `i`.
pub open spec fn range_split_at(s: Seq<u8>, i: int) -> bool {
    &&& 0 <= i < s.len()
    &&& s[i] == 45
    &&& forall|m: int| 0 <= m < s.len() && m != i ==> s[m] != 45
}

/// Is `s` a well-formed range expression: one dash, a `u16` field on each
/// side?
pub open spec fn is_port_range_str(s: Seq<u8>) -> bool {
    exists|i: int|
        {
            &&& #[trigger] range_split_at(s, i)
            &&& is_u16_field(s.subrange(0, i))
            &&& is_u16_field(s.subrange(i + 1, s.len() as int))
        }
}

/// Is `s` a well-formed range expression that runs backwards (its first
/// field above its second)?
pub open spec fn reversed_range_str(s: Seq<u8>) -> bool {
    &&& is_port_range_str(s)
    &&& forall|i: int| #[trigger]
        range_split_at(s, i) ==> u16_field_val(s.subrange(0, i)) > u16_field_val(
            s.subrange(i + 1, s.len() as int),
        )
}

/// An inclusive range of ports.  A value of this type always satisfies
/// `wf`: the range never runs backwards, so it holds at least one port.
#[derive(Clone, Copy, Debug, PartialEq, Eq, Structural)]
pub struct PortRange {
    pub start: u16,
    pub end: u16,
}

impl PortRange {
    /// The range's invariant: it runs forwards.
    pub open spec fn wf(self) -> bool {
        self.start <= self.end
    }

    /// How many ports the range covers.
    pub open spec fn port_count(self) -> int {
        self.end - self.start + 1
    }

    /// Every port of the range, in ascending order, one entry each.
    pub fn ports(&self) -> (r: Vec<u16>)
        requires
            self.wf(),
        ensures
            r@.len() == self.port_count(),
            forall|i: int| 0 <= i < r@.len() ==> r@[i] == self.start + i,
    {
        let count: usize = (self.end - self.start) as usize + 1;
        let mut out: Vec<u16> = Vec::new();
        let mut i: usize = 0;
        while i < count
            invariant
                self.wf(),
                count == self.port_count(),
                i <= count,
                out@.len() == i,
                forall|m: int| 0 <= m < i ==> out@[m] == self.start + m,
            decreases count - i,
        {
            out.push(self.start + i as u16);
            i = i + 1;
        }
        out
    }
}

/// A range of a single port (start equal to end) covers exactly one port,
/// so exactly one probe is scheduled for it.
pub proof fn lemma_single_port_range(range: PortRange)
    requires
        range.wf(),
        range.start == range.end,
    ensures
        range.port_count() == 1,
{
}

/// Reads the `u16` field `s[start..end]`.  Succeeds exactly on a
/// well-formed field, returning the number it denotes.
fn parse_u16_field(s: &[u8], start: usize, end: usize) -> (r: Option<u16>)
    requires
        start <= end <= s@.len(),
    ensures
        ({
            let t = s@.subrange(start as int, end as int);
            match r {
                Some(v) => is_u16_field(t) && u16_field_val(t) == v,
                None => !is_u16_field(t),
            }
        }),
{
    let ghost t = s@.subrange(start as int, end as int);
    let mut dstart = start;
    if start < end && s[start] == 43 {
        dstart = start + 1;
    }
    proof {
        assert(u16_field_digits(t) =~= s@.subrange(dstart as int, end as int));
    }
    match scan_bounded_dec(s, dstart, end, 65535) {
        Option::None => Option::None,
        Option::Some(v) => Option::Some(v as u16),
    }
}

/// Parses a range expression.  Succeeds exactly when `s` is two `u16`
/// fields joined by a single dash and the first is at most the second;
/// a backwards range is `ReversedRange`, anything else malformed is
/// `InvalidPortRange`.
pub fn parse_port_range(s: &str) -> (r: Result<PortRange, ValidationError>)
    ensures
        ({
            let b = s.spec_bytes();
            match r {
                Ok(pr) => {
                    &&& is_port_range_str(b)
                    &&& !reversed_range_str(b)
                    &&& pr.wf()
                    &&& forall|i: int| #[trigger]
                        range_split_at(b, i) ==> pr.start == u16_field_val(b.subrange(0, i))
                            && pr.end == u16_field_val(b.subrange(i + 1, b.len() as int))
                },
                Err(e) => {
                    &&& (e == ValidationError::InvalidPortRange <==> !is_port_range_str(b))
                    &&& (e == ValidationError::ReversedRange <==> reversed_range_str(b))
                    &&& (e == ValidationError::InvalidPortRange || e
                        == ValidationError::ReversedRange)
                },
            }
        }),
{
    let b = s.as_bytes();
    let n = b.len();
    let found1 = find_byte(b, 0, 45);
    let i = match found1 {
        Option::Some(i) => i,
        Option::None => {
            proof {
                if is_port_range_str(b@) {
                    let i2 = choose|i2: int|
                        {
                            &&& #[trigger] range_split_at(b@, i2)
                            &&& is_u16_field(b@.subrange(0, i2))
                            &&& is_u16_field(b@.subrange(i2 + 1, b@.len() as int))
                        };
                    assert(b@[i2] == 45);
                }
            }
            return Err(ValidationError::InvalidPortRange);
        },
    };
    let found2 = find_byte(b, i + 1, 45);
    if found2.is_some() {
        proof {
            if is_port_range_str(b@) {
                let i2 = choose|i2: int|
                    {
                        &&& #[trigger] range_split_at(b@, i2)
                        &&& is_u16_field(b@.subrange(0, i2))
                        &&& is_u16_field(b@.subrange(i2 + 1, b@.len() as int))
                    };
                assert(b@[i as int] == 45 && range_split_at(b@, i2));
            }
        }
        return Err(ValidationError::InvalidPortRange);
    }
    let left = parse_u16_field(b, 0, i);
    let right = parse_u16_field(b, i + 1, n);
    proof {
        assert(range_split_at(b@, i as int));
    }
    match (left, right) {
        (Option::Some(x), Option::Some(y)) => {
            if x <= y {
                proof {
                    assert(is_port_range_str(b@));
                    assert(!reversed_range_str(b@)) by {
                        if reversed_range_str(b@) {
                            assert(range_split_at(b@, i as int));
                        }
                    }
                    assert forall|i2: int| #[trigger] range_split_at(b@, i2) implies i2
                        == i as int by {
                        assert(b@[i as int] == 45);
                    }
                }
                Ok(PortRange { start: x, end: y })
            } else {
                proof {
                    assert(is_port_range_str(b@));
                    assert forall|i2: int| #[trigger] range_split_at(b@, i2) implies u16_field_val(
                        b@.subrange(0, i2),
                    ) > u16_field_val(b@.subrange(i2 + 1, b@.len() as int)) by {
                        assert(b@[i as int] == 45);
                        assert(i2 == i as int);
                    }
                }
                Err(ValidationError::ReversedRange)
            }
        },
        _ => {
            proof {
                if is_port_range_str(b@) {
                    let i2 = choose|i2: int|
                        {
                            &&& #[trigger] range_split_at(b@, i2)
                            &&& is_u16_field(b@.subrange(0, i2))
                            &&& is_u16_field(b@.subrange(i2 + 1, b@.len() as int))
                        };
                    assert(b@[i as int] == 45);
                    assert(i2 == i as int);
                }
            }
            Err(ValidationError::InvalidPortRange)
        },
    }
}

} // verus!
