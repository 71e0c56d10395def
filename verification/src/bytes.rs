//! Executable scanners over byte slices: finding a separator and reading a
//! bounded decimal number.  Both text parsers are built from these.

use vstd::prelude::*;

use crate::digits::all_digits;
use crate::digits::dec_value;
use crate::digits::lemma_dec_value_prefix_le;

verus! {

/// The first occurrence of `target` in `s` at or after `start`, if any.
pub fn find_byte(s: &[u8], start: usize, target: u8) -> (r: Option<usize>)
    requires
        start <= s@.len(),
    ensures
        match r {
            Some(i) => start <= i < s@.len() && s@[i as int] == target && forall|m: int|
                start <= m < i ==> s@[m] != target,
            None => forall|m: int| start <= m < s@.len() ==> s@[m] != target,
        },
{
    let mut i: usize = start;
    while i < s.len()
        invariant
            start <= i <= s@.len(),
            forall|m: int| start <= m < i ==> s@[m] != target,
        decreases s@.len() - i,
    {
        if s[i] == target {
            return Some(i);
        }
        i = i + 1;
    }
    None
}

/// Reads `s[start..end]` as a decimal number of at most `bound`.  Returns the
/// denoted value when the run is nonempty, consists of digits only, and
/// denotes at most `bound`; returns `None` in every other case.
pub fn scan_bounded_dec(s: &[u8], start: usize, end: usize, bound: u32) -> (r: Option<u32>)
    requires
        start <= end <= s@.len(),
        bound <= 65535,
    ensures
        ({
            let t = s@.subrange(start as int, end as int);
            match r {
                Some(v) => t.len() >= 1 && all_digits(t) && dec_value(t) == v && v <= bound,
                None => !(t.len() >= 1 && all_digits(t) && dec_value(t) <= bound),
            }
        }),
{
    let ghost t = s@.subrange(start as int, end as int);
    if start == end {
        return None;
    }
    let mut v: u32 = 0;
    let mut i: usize = start;
    while i < end
        invariant
            start <= i <= end <= s@.len(),
            bound <= 65535,
            v <= bound,
            t == s@.subrange(start as int, end as int),
            all_digits(t.take(i - start)),
            dec_value(t.take(i - start)) == v,
        decreases end - i,
    {
        let b = s[i];
        if b < 48 || b > 57 {
            proof {
                assert(t[i - start] == s@[i as int]);
            }
            return None;
        }
        let d: u32 = (b - 48) as u32;
        let v2: u32 = v * 10 + d;
        proof {
            let k = i - start;
            assert(t.take(k + 1).drop_last() =~= t.take(k));
            assert(t.take(k + 1).last() == t[k]);
            assert(t[k] == s@[i as int]);
            assert(dec_value(t.take(k + 1)) == v * 10 + d);
            assert(all_digits(t.take(k + 1))) by {
                assert(forall|m: int| 0 <= m < k + 1 ==> t.take(k + 1)[m] == t[m]);
            }
        }
        if v2 > bound {
            proof {
                if all_digits(t) && dec_value(t) <= bound {
                    lemma_dec_value_prefix_le(t, i - start + 1);
                }
            }
            return None;
        }
        v = v2;
        i = i + 1;
    }
    proof {
        assert(t.take(i - start) =~= t);
    }
    Some(v)
}

} // verus!
