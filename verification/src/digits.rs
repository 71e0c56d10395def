//! Decimal notation over ASCII bytes: what a run of digit bytes denotes, and
//! the canonical (no leading zero) rendering of a number.  Both the address
//! and port-range parsers and the report renderer state their contracts in
//! these terms.

use vstd::prelude::*;

verus! {

/// ASCII code of the digit `d` (meaningful for `0 <= d <= 9`).
pub open spec fn digit_byte(d: int) -> u8 {
    (48 + d) as u8
}

/// Is `b` the ASCII code of a decimal digit?
pub open spec fn is_digit_byte(b: u8) -> bool {
    48 <= b <= 57
}

/// The digit denoted by the ASCII byte `b` (meaningful when `is_digit_byte(b)`).
pub open spec fn digit_val(b: u8) -> int {
    b - 48
}

/// Is every byte of `s` an ASCII digit?
pub open spec fn all_digits(s: Seq<u8>) -> bool {
    forall|i: int| 0 <= i < s.len() ==> is_digit_byte(#[trigger] s[i])
}

/// The number denoted by a run of ASCII digit bytes, most significant first.
/// Leading zeros carry no weight: `dec_value("007") == 7`.
pub open spec fn dec_value(s: Seq<u8>) -> int
    decreases s.len(),
{
    if s.len() == 0 {
        0
    } else {
        dec_value(s.drop_last()) * 10 + digit_val(s.last())
    }
}

/// The canonical decimal rendering of `n`: no leading zero, a single `"0"`
/// for zero (meaningful for `n >= 0`).
pub open spec fn dec_repr(n: int) -> Seq<u8>
    decreases n,
{
    if n < 10 {
        seq![digit_byte(n)]
    } else {
        dec_repr(n / 10).push(digit_byte(n % 10))
    }
}

/// A single digit byte denotes its digit.
pub proof fn lemma_dec_value_singleton(s: Seq<u8>)
    requires
        s.len() == 1,
    ensures
        dec_value(s) == digit_val(s[0]),
{
    assert(s.drop_last() =~= Seq::<u8>::empty());
    assert(dec_value(Seq::<u8>::empty()) == 0);
    assert(s.last() == s[0]);
}

/// A canonical rendering is nonempty, consists of digits, and never starts
/// with a zero unless it is exactly `"0"`.
pub proof fn lemma_dec_repr_wf(n: int)
    requires
        0 <= n,
    ensures
        dec_repr(n).len() >= 1,
        all_digits(dec_repr(n)),
        dec_repr(n).len() > 1 ==> dec_repr(n)[0] != 48,
        n >= 1 ==> dec_repr(n)[0] != 48,
    decreases n,
{
    if n < 10 {
        assert(dec_repr(n) == seq![digit_byte(n)]);
    } else {
        lemma_dec_repr_wf(n / 10);
        let prefix = dec_repr(n / 10);
        assert(dec_repr(n) == prefix.push(digit_byte(n % 10)));
        assert(n / 10 >= 1);
        assert forall|i: int| 0 <= i < dec_repr(n).len() implies is_digit_byte(
            #[trigger] dec_repr(n)[i],
        ) by {
            if i < prefix.len() {
                assert(dec_repr(n)[i] == prefix[i]);
            } else {
                assert(dec_repr(n)[i] == digit_byte(n % 10));
            }
        }
        assert(dec_repr(n)[0] == prefix[0]);
    }
}

/// Rendering then reading back gives the number itself.
pub proof fn lemma_dec_value_of_repr(n: int)
    requires
        0 <= n,
    ensures
        dec_value(dec_repr(n)) == n,
    decreases n,
{
    if n < 10 {
        let s = seq![digit_byte(n)];
        lemma_dec_value_singleton(s);
        assert(dec_value(s) == digit_val(digit_byte(n)));
    } else {
        lemma_dec_value_of_repr(n / 10);
        let s = dec_repr(n);
        assert(s.drop_last() =~= dec_repr(n / 10));
        assert(s.last() == digit_byte(n % 10));
        assert(digit_val(digit_byte(n % 10)) == n % 10);
        assert(dec_value(s) == (n / 10) * 10 + n % 10);
    }
}

/// A run of digits denotes a number that is not negative.
pub proof fn lemma_dec_value_nonneg(s: Seq<u8>)
    requires
        all_digits(s),
    ensures
        dec_value(s) >= 0,
    decreases s.len(),
{
    if s.len() > 0 {
        assert(all_digits(s.drop_last())) by {
            assert(forall|i: int|
                0 <= i < s.len() - 1 ==> #[trigger] s.drop_last()[i] == s[i]);
        }
        lemma_dec_value_nonneg(s.drop_last());
    }
}

/// A run of digits that starts with a nonzero digit denotes a number of at
/// least one.
pub proof fn lemma_dec_value_pos(s: Seq<u8>)
    requires
        all_digits(s),
        s.len() >= 1,
        s[0] != 48,
    ensures
        dec_value(s) >= 1,
    decreases s.len(),
{
    if s.len() == 1 {
        lemma_dec_value_singleton(s);
    } else {
        assert(all_digits(s.drop_last()) && s.drop_last()[0] == s[0]) by {
            assert(forall|i: int|
                0 <= i < s.len() - 1 ==> #[trigger] s.drop_last()[i] == s[i]);
        }
        lemma_dec_value_pos(s.drop_last());
    }
}

/// A nonempty run of digits with no leading zero is exactly the canonical
/// rendering of the number it denotes.
pub proof fn lemma_dec_repr_of_value(s: Seq<u8>)
    requires
        all_digits(s),
        s.len() >= 1,
        s.len() > 1 ==> s[0] != 48,
    ensures
        dec_repr(dec_value(s)) == s,
    decreases s.len(),
{
    lemma_dec_value_nonneg(s);
    let v = dec_value(s);
    if s.len() == 1 {
        lemma_dec_value_singleton(s);
        assert(v == digit_val(s[0]));
        assert(dec_repr(v) =~= s);
    } else {
        let prefix = s.drop_last();
        assert(all_digits(prefix) && prefix[0] == s[0]) by {
            assert(forall|i: int|
                0 <= i < s.len() - 1 ==> #[trigger] s.drop_last()[i] == s[i]);
        }
        lemma_dec_value_pos(prefix);
        lemma_dec_repr_of_value(prefix);
        let vp = dec_value(prefix);
        let d = digit_val(s.last());
        assert(v == vp * 10 + d);
        assert(v >= 10);
        assert(v / 10 == vp && v % 10 == d) by (nonlinear_arith)
            requires
                v == vp * 10 + d,
                vp >= 1,
                0 <= d <= 9,
        ;
        assert(digit_byte(digit_val(s.last())) == s.last());
        assert(dec_repr(v) =~= prefix.push(s.last()));
        assert(prefix.push(s.last()) =~= s);
    }
}

/// Reading a longer run of the same digits never yields a smaller number:
/// every prefix denotes at most what the whole run denotes.
pub proof fn lemma_dec_value_prefix_le(s: Seq<u8>, i: int)
    requires
        all_digits(s),
        0 <= i <= s.len(),
    ensures
        dec_value(s.take(i)) <= dec_value(s),
    decreases s.len(),
{
    if i == s.len() {
        assert(s.take(i) =~= s);
    } else {
        let prefix = s.drop_last();
        assert(all_digits(prefix)) by {
            assert(forall|j: int|
                0 <= j < s.len() - 1 ==> #[trigger] s.drop_last()[j] == s[j]);
        }
        lemma_dec_value_prefix_le(prefix, i);
        assert(s.take(i) =~= prefix.take(i));
        lemma_dec_value_nonneg(prefix);
        assert(dec_value(prefix) <= dec_value(prefix) * 10 + digit_val(s.last()));
    }
}

} // verus!
