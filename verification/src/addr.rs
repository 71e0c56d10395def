//! Validated IPv4 addresses.  An address string is accepted exactly when it
//! is the canonical dotted-quad rendering of four octets: four decimal
//! fields joined by dots, each of at most 255, with no leading zero.

use vstd::prelude::*;

use crate::bytes::find_byte;
use crate::bytes::scan_bounded_dec;
use crate::digits::all_digits;
use crate::digits::dec_repr;
use crate::digits::dec_value;
use crate::digits::is_digit_byte;
use crate::digits::lemma_dec_repr_of_value;
use crate::digits::lemma_dec_repr_wf;
use crate::digits::lemma_dec_value_nonneg;
use crate::digits::lemma_dec_value_of_repr;
use crate::errors::ValidationError;
use vstd::string::StringSliceAdditionalSpecFns;

verus! {

/// A syntactically valid IPv4 address: four octets, most significant first.
/// Construction goes through `parse_ipv4`, so a value of this type always
/// came from a well-formed dotted quad.
#[derive(Clone, Copy, Debug, PartialEq, Eq, Structural)]
pub struct Ipv4 {
    pub a: u8,
    pub b: u8,
    pub c: u8,
    pub d: u8,
}

/// The dotted-quad rendering of `ip`: the canonical decimal form of each
/// octet, joined by dots.
pub open spec fn ipv4_repr(ip: Ipv4) -> Seq<u8> {
    dec_repr(ip.a as int) + seq![46u8] + dec_repr(ip.b as int) + seq![46u8] + dec_repr(
        ip.c as int,
    ) + seq![46u8] + dec_repr(ip.d as int)
}

/// One dotted-quad field: decimal digits with no leading zero, denoting at
/// most 255.
pub open spec fn is_octet_token(t: Seq<u8>) -> bool {
    t.len() >= 1 && all_digits(t) && (t.len() > 1 ==> t[0] != 48) && dec_value(t) <= 255
}

/// `s` splits at dots `i < j < k` into four octet fields and has no other dot.
pub open spec fn valid_quad_at(s: Seq<u8>, i: int, j: int, k: int) -> bool {
    &&& 0 <= i < j < k < s.len()
    &&& s[i] == 46 && s[j] == 46 && s[k] == 46
    &&& forall|m: int| 0 <= m < s.len() && s[m] == 46 ==> m == i || m == j || m == k
    &&& is_octet_token(s.subrange(0, i))
    &&& is_octet_token(s.subrange(i + 1, j))
    &&& is_octet_token(s.subrange(j + 1, k))
    &&& is_octet_token(s.subrange(k + 1, s.len() as int))
}

/// An octet field is the canonical rendering of the octet it denotes.
pub proof fn lemma_octet_token_canonical(t: Seq<u8>)
    requires
        is_octet_token(t),
    ensures
        0 <= dec_value(t) <= 255,
        t == dec_repr(dec_value(t)),
{
    lemma_dec_value_nonneg(t);
    lemma_dec_repr_of_value(t);
}

/// The canonical rendering of an octet is an octet field.
pub proof fn lemma_octet_repr_token(v: int)
    requires
        0 <= v <= 255,
    ensures
        is_octet_token(dec_repr(v)),
        dec_value(dec_repr(v)) == v,
{
    lemma_dec_repr_wf(v);
    lemma_dec_value_of_repr(v);
}

/// A string that splits into four octet fields is the rendering of the
/// address those fields denote.
pub proof fn lemma_quad_at_repr(s: Seq<u8>, i: int, j: int, k: int)
    requires
        valid_quad_at(s, i, j, k),
    ensures
        s == ipv4_repr(
            Ipv4 {
                a: dec_value(s.subrange(0, i)) as u8,
                b: dec_value(s.subrange(i + 1, j)) as u8,
                c: dec_value(s.subrange(j + 1, k)) as u8,
                d: dec_value(s.subrange(k + 1, s.len() as int)) as u8,
            },
        ),
{
    let t1 = s.subrange(0, i);
    let t2 = s.subrange(i + 1, j);
    let t3 = s.subrange(j + 1, k);
    let t4 = s.subrange(k + 1, s.len() as int);
    lemma_octet_token_canonical(t1);
    lemma_octet_token_canonical(t2);
    lemma_octet_token_canonical(t3);
    lemma_octet_token_canonical(t4);
    let ip = Ipv4 {
        a: dec_value(t1) as u8,
        b: dec_value(t2) as u8,
        c: dec_value(t3) as u8,
        d: dec_value(t4) as u8,
    };
    assert(dec_repr(ip.a as int) == t1);
    assert(dec_repr(ip.b as int) == t2);
    assert(dec_repr(ip.c as int) == t3);
    assert(dec_repr(ip.d as int) == t4);
    assert(s =~= t1 + seq![46u8] + t2 + seq![46u8] + t3 + seq![46u8] + t4);
}

/// The rendering of an address splits at its three dots into the four
/// octet fields, and nowhere else.
pub proof fn lemma_repr_quad_at(s: Seq<u8>, ip: Ipv4)
    requires
        s == ipv4_repr(ip),
    ensures
        valid_quad_at(
            s,
            dec_repr(ip.a as int).len() as int,
            dec_repr(ip.a as int).len() + dec_repr(ip.b as int).len() + 1 as int,
            dec_repr(ip.a as int).len() + dec_repr(ip.b as int).len() + dec_repr(
                ip.c as int,
            ).len() + 2 as int,
        ),
{
    let ra = dec_repr(ip.a as int);
    let rb = dec_repr(ip.b as int);
    let rc = dec_repr(ip.c as int);
    let rd = dec_repr(ip.d as int);
    lemma_octet_repr_token(ip.a as int);
    lemma_octet_repr_token(ip.b as int);
    lemma_octet_repr_token(ip.c as int);
    lemma_octet_repr_token(ip.d as int);
    let i = ra.len() as int;
    let j = i + rb.len() + 1;
    let k = j + rc.len() + 1;
    assert(s.len() == i + rb.len() + rc.len() + rd.len() + 3);
    assert(s.subrange(0, i) =~= ra);
    assert(s.subrange(i + 1, j) =~= rb);
    assert(s.subrange(j + 1, k) =~= rc);
    assert(s.subrange(k + 1, s.len() as int) =~= rd);
    assert(s[i] == 46 && s[j] == 46 && s[k] == 46);
    assert forall|m: int| 0 <= m < s.len() && s[m] == 46 implies m == i || m == j || m == k by {
        if m < i {
            assert(s[m] == ra[m]);
            assert(is_digit_byte(ra[m]));
        } else if i < m < j {
            assert(s[m] == rb[m - i - 1]);
            assert(is_digit_byte(rb[m - i - 1]));
        } else if j < m < k {
            assert(s[m] == rc[m - j - 1]);
            assert(is_digit_byte(rc[m - j - 1]));
        } else if k < m {
            assert(s[m] == rd[m - k - 1]);
            assert(is_digit_byte(rd[m - k - 1]));
        }
    }
}

/// Reads one octet field out of `s[start..end]`.  Succeeds exactly on a
/// field of decimal digits with no leading zero denoting at most 255.
fn parse_octet(s: &[u8], start: usize, end: usize) -> (r: Option<u8>)
    requires
        start <= end <= s@.len(),
    ensures
        ({
            let t = s@.subrange(start as int, end as int);
            match r {
                Some(v) => t == dec_repr(v as int) && dec_value(t) == v,
                None => !is_octet_token(t),
            }
        }),
{
    let ghost t = s@.subrange(start as int, end as int);
    match scan_bounded_dec(s, start, end, 255) {
        Option::None => Option::None,
        Option::Some(v) => {
            if end - start > 1 && s[start] == 48 {
                proof {
                    assert(t[0] == s@[start as int]);
                }
                Option::None
            } else {
                proof {
                    lemma_dec_repr_of_value(t);
                }
                Option::Some(v as u8)
            }
        },
    }
}

/// Parses a dotted-quad IPv4 address.  Succeeds exactly when `s` is the
/// dotted-quad rendering of some address; every other string is rejected
/// as `InvalidAddress`.
pub fn parse_ipv4(s: &str) -> (r: Result<Ipv4, ValidationError>)
    ensures
        match r {
            Ok(ip) => s.spec_bytes() == ipv4_repr(ip),
            Err(e) => e == ValidationError::InvalidAddress && forall|ip: Ipv4|
                s.spec_bytes() != ipv4_repr(ip),
        },
{
    let b = s.as_bytes();
    let n = b.len();
    let found1 = find_byte(b, 0, 46);
    let i = match found1 {
        Option::Some(i) => i,
        Option::None => {
            proof {
                assert forall|ip: Ipv4| b@ != ipv4_repr(ip) by {
                    if b@ == ipv4_repr(ip) {
                        lemma_repr_quad_at(b@, ip);
                        let qi = dec_repr(ip.a as int).len() as int;
                        let qj = qi + dec_repr(ip.b as int).len() + 1;
                        let qk = qj + dec_repr(ip.c as int).len() + 1;
                        assert(valid_quad_at(b@, qi, qj, qk));
                        assert(b@[qi] == 46);
                    }
                }
            }
            return Err(ValidationError::InvalidAddress);
        },
    };
    let found2 = find_byte(b, i + 1, 46);
    let j = match found2 {
        Option::Some(j) => j,
        Option::None => {
            proof {
                assert forall|ip: Ipv4| b@ != ipv4_repr(ip) by {
                    if b@ == ipv4_repr(ip) {
                        lemma_repr_quad_at(b@, ip);
                        let qi = dec_repr(ip.a as int).len() as int;
                        let qj = qi + dec_repr(ip.b as int).len() + 1;
                        let qk = qj + dec_repr(ip.c as int).len() + 1;
                        assert(valid_quad_at(b@, qi, qj, qk));
                        assert(b@[qj] == 46 && b@[qk] == 46);
                        assert(qk <= i);
                    }
                }
            }
            return Err(ValidationError::InvalidAddress);
        },
    };
    let found3 = find_byte(b, j + 1, 46);
    let k = match found3 {
        Option::Some(k) => k,
        Option::None => {
            proof {
                assert forall|ip: Ipv4| b@ != ipv4_repr(ip) by {
                    if b@ == ipv4_repr(ip) {
                        lemma_repr_quad_at(b@, ip);
                        let qi = dec_repr(ip.a as int).len() as int;
                        let qj = qi + dec_repr(ip.b as int).len() + 1;
                        let qk = qj + dec_repr(ip.c as int).len() + 1;
                        assert(valid_quad_at(b@, qi, qj, qk));
                        assert(b@[qi] == 46 && b@[qj] == 46 && b@[qk] == 46);
                    }
                }
            }
            return Err(ValidationError::InvalidAddress);
        },
    };
    let found4 = find_byte(b, k + 1, 46);
    if found4.is_some() {
        proof {
            assert forall|ip: Ipv4| b@ != ipv4_repr(ip) by {
                if b@ == ipv4_repr(ip) {
                    lemma_repr_quad_at(b@, ip);
                    let qi = dec_repr(ip.a as int).len() as int;
                    let qj = qi + dec_repr(ip.b as int).len() + 1;
                    let qk = qj + dec_repr(ip.c as int).len() + 1;
                    assert(valid_quad_at(b@, qi, qj, qk));
                }
            }
        }
        return Err(ValidationError::InvalidAddress);
    }
    let o1 = parse_octet(b, 0, i);
    let o2 = parse_octet(b, i + 1, j);
    let o3 = parse_octet(b, j + 1, k);
    let o4 = parse_octet(b, k + 1, n);
    match (o1, o2, o3, o4) {
        (Option::Some(a), Option::Some(v2), Option::Some(c), Option::Some(d)) => {
            let ip = Ipv4 { a, b: v2, c, d };
            proof {
                lemma_octet_repr_token(a as int);
                lemma_octet_repr_token(v2 as int);
                lemma_octet_repr_token(c as int);
                lemma_octet_repr_token(d as int);
                assert(valid_quad_at(b@, i as int, j as int, k as int));
                lemma_quad_at_repr(b@, i as int, j as int, k as int);
            }
            Ok(ip)
        },
        _ => {
            proof {
                assert forall|ip: Ipv4| b@ != ipv4_repr(ip) by {
                    if b@ == ipv4_repr(ip) {
                        lemma_repr_quad_at(b@, ip);
                        let qi = dec_repr(ip.a as int).len() as int;
                        let qj = qi + dec_repr(ip.b as int).len() + 1;
                        let qk = qj + dec_repr(ip.c as int).len() + 1;
                        assert(valid_quad_at(b@, qi, qj, qk));
                        assert(qi == i && qj == j && qk == k);
                    }
                }
            }
            Err(ValidationError::InvalidAddress)
        },
    }
}

} // verus!
