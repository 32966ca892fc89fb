//! The wire codec: a timestamp is sent as its base-10 ASCII text.
//!
//! The server encodes the current Unix-epoch second count as a decimal byte
//! string with no leading zeros, no terminator and no units; the client reads
//! the bytes back and parses them as an integer. Encoding is pure, total and
//! deterministic; encoding a value and then parsing yields it back.

use vstd::prelude::*;
use vstd::arithmetic::div_mod::lemma_fundamental_div_mod;

verus! {

/// The base-10 digit string of `n`, most significant digit first, with no
/// leading zeros.
pub open spec fn dec_digits(n: nat) -> Seq<u8>
    decreases n,
{
    if n < 10 {
        seq![(n + 48) as u8]
    } else {
        dec_digits(n / 10).push((n % 10 + 48) as u8)
    }
}

/// `b` is the ASCII code of a decimal digit.
pub open spec fn is_dec_digit(b: u8) -> bool {
    48 <= b <= 57
}

/// `s` is a nonempty string of decimal digits.
pub open spec fn is_dec_string(s: Seq<u8>) -> bool {
    s.len() > 0 && forall|i: int| 0 <= i < s.len() ==> is_dec_digit(s[i])
}

/// `s` is a digit string with no leading zero: the unique base-10 rendering
/// of its value.
pub open spec fn is_canonical_dec(s: Seq<u8>) -> bool {
    is_dec_string(s) && (s.len() > 1 ==> s[0] != 48)
}

/// The numeric value of a digit string.
pub open spec fn dec_value(s: Seq<u8>) -> nat
    decreases s.len(),
{
    if s.len() == 0 {
        0
    } else {
        (dec_value(s.drop_last()) * 10 + (s.last() - 48)) as nat
    }
}

/// The digit string of any value is a canonical decimal.
pub proof fn lemma_dec_digits_wf(n: nat)
    ensures
        is_canonical_dec(dec_digits(n)),
        dec_digits(n).len() >= 1,
        n >= 1 ==> dec_digits(n)[0] != 48,
        n < 10 ==> dec_digits(n) == seq![(n + 48) as u8],
    decreases n,
{
    if n < 10 {
    } else {
        lemma_dec_digits_wf(n / 10);
        let s = dec_digits(n / 10);
        let d = (n % 10 + 48) as u8;
        assert(dec_digits(n) == s.push(d));
        assert forall|i: int| 0 <= i < s.push(d).len() implies is_dec_digit(s.push(d)[i]) by {
            if i < s.len() {
                assert(s.push(d)[i] == s[i]);
            }
        }
    }
}

/// Parsing the digit string of `n` yields `n` back: the codec's round trip.
pub proof fn lemma_dec_value_of_digits(n: nat)
    ensures
        dec_value(dec_digits(n)) == n,
    decreases n,
{
    if n < 10 {
        let s = dec_digits(n);
        assert(s == seq![(n + 48) as u8]);
        assert(s.drop_last() =~= Seq::<u8>::empty());
        assert(dec_value(Seq::<u8>::empty()) == 0);
        assert(s.last() == (n + 48) as u8);
        assert((n + 48) as u8 == n + 48);
        assert(dec_value(s) == (0 * 10 + ((n + 48) as u8 - 48)) as nat);
    } else {
        lemma_dec_value_of_digits(n / 10);
        lemma_fundamental_div_mod(n as int, 10);
        let s = dec_digits(n / 10);
        let d = (n % 10 + 48) as u8;
        assert(d == n % 10 + 48);
        assert(dec_digits(n) == s.push(d));
        assert(s.push(d).drop_last() =~= s);
        assert(s.push(d).last() == d);
        assert(dec_value(s.push(d)) == (dec_value(s) * 10 + (d - 48)) as nat);
        assert(dec_value(s) * 10 + (n % 10) == n);
    }
}

/// One parsing step: the value of a prefix grows by one digit.
pub proof fn lemma_dec_value_step(s: Seq<u8>, i: int)
    requires
        0 <= i < s.len(),
        is_dec_digit(s[i]),
    ensures
        dec_value(s.take(i + 1)) == dec_value(s.take(i)) * 10 + (s[i] - 48),
{
    assert(s.take(i + 1).drop_last() =~= s.take(i));
    assert(s.take(i + 1).last() == s[i]);
}

/// Over digits, the value of a prefix never shrinks as the prefix grows.
pub proof fn lemma_dec_value_take_monotonic(s: Seq<u8>, i: int, j: int)
    requires
        0 <= i <= j <= s.len(),
        forall|k: int| 0 <= k < s.len() ==> is_dec_digit(s[k]),
    ensures
        dec_value(s.take(i)) <= dec_value(s.take(j)),
    decreases j - i,
{
    if i < j {
        lemma_dec_value_take_monotonic(s, i, j - 1);
        lemma_dec_value_step(s, j - 1);
    }
}

/// A digit string that does not start with a zero has a positive value.
pub proof fn lemma_no_leading_zero_value_positive(s: Seq<u8>)
    requires
        is_dec_string(s),
        s[0] != 48,
    ensures
        dec_value(s) >= 1,
    decreases s.len(),
{
    if s.len() == 1 {
        assert(s.drop_last() =~= Seq::<u8>::empty());
        assert(dec_value(Seq::<u8>::empty()) == 0);
        assert(dec_value(s) == (0 * 10 + (s.last() - 48)) as nat);
    } else {
        let s0 = s.drop_last();
        assert(s0[0] == s[0]);
        assert forall|i: int| 0 <= i < s0.len() implies is_dec_digit(s0[i]) by {
            assert(s0[i] == s[i]);
        }
        lemma_no_leading_zero_value_positive(s0);
    }
}

/// A canonical digit string is the digit string of its own value: values
/// have a unique rendering with no leading zeros.
pub proof fn lemma_digits_of_value(s: Seq<u8>)
    requires
        is_canonical_dec(s),
    ensures
        dec_digits(dec_value(s)) == s,
    decreases s.len(),
{
    if s.len() == 1 {
        assert(s.drop_last() =~= Seq::<u8>::empty());
        assert(dec_value(Seq::<u8>::empty()) == 0);
        let v = dec_value(s);
        assert(v == (0 * 10 + (s.last() - 48)) as nat);
        assert(v < 10);
        assert(dec_digits(v) == seq![(v + 48) as u8]);
        assert(dec_digits(v) =~= s);
    } else {
        let s0 = s.drop_last();
        let d = s.last();
        assert(s0[0] == s[0]);
        assert forall|i: int| 0 <= i < s0.len() implies is_dec_digit(s0[i]) by {
            assert(s0[i] == s[i]);
        }
        lemma_digits_of_value(s0);
        lemma_no_leading_zero_value_positive(s0);
        let v0 = dec_value(s0);
        let v = dec_value(s);
        assert(v == (v0 * 10 + (d - 48)) as nat);
        assert(v == v0 * 10 + (d - 48));
        vstd::arithmetic::div_mod::lemma_fundamental_div_mod_converse(
            v as int,
            10,
            v0 as int,
            (d - 48) as int,
        );
        assert(v / 10 == v0 && v % 10 == d - 48);
        assert(v >= 10);
        assert(dec_digits(v) == dec_digits(v0).push((v % 10 + 48) as u8));
        assert(dec_digits(v) =~= s);
    }
}

/// Encode a timestamp as its base-10 digit string.
pub fn encode_u64(t: u64) -> (r: Vec<u8>)
    ensures
        r@ == dec_digits(t as nat),
{
    let mut digits: Vec<u8> = Vec::new();
    let mut n: u64 = t;
    let d0: u8 = (n % 10) as u8 + 48;
    digits.push(d0);
    proof {
        assert(seq![d0].reverse() =~= seq![d0]);
        if t >= 10 {
            assert(dec_digits(t as nat) == dec_digits((t as nat) / 10).push(d0));
            assert(dec_digits((t as nat) / 10).push(d0) =~= dec_digits((t as nat) / 10)
                + seq![d0].reverse());
        }
    }
    n = n / 10;
    while n > 0
        invariant
            digits@.len() >= 1,
            n == 0 ==> dec_digits(t as nat) == digits@.reverse(),
            n > 0 ==> dec_digits(t as nat) == dec_digits(n as nat) + digits@.reverse(),
        decreases n,
    {
        let d: u8 = (n % 10) as u8 + 48;
        proof {
            let rev = digits@.reverse();
            assert(digits@.push(d).reverse() =~= seq![d] + rev);
            if n < 10 {
                assert(dec_digits(n as nat) == seq![d]);
                assert(dec_digits(t as nat) =~= seq![d] + rev);
            } else {
                assert(dec_digits(n as nat) == dec_digits((n as nat) / 10).push(d));
                assert(dec_digits((n as nat) / 10).push(d) + rev =~= dec_digits((n as nat) / 10)
                    + (seq![d] + rev));
            }
        }
        digits.push(d);
        n = n / 10;
    }
    let mut r: Vec<u8> = Vec::new();
    let mut i: usize = digits.len();
    while i > 0
        invariant
            i <= digits@.len(),
            dec_digits(t as nat) == digits@.reverse(),
            r@ == digits@.subrange(i as int, digits@.len() as int).reverse(),
        decreases i,
    {
        i = i - 1;
        proof {
            assert(digits@.subrange(i as int, digits@.len() as int).reverse() =~= digits@.subrange(
                i + 1,
                digits@.len() as int,
            ).reverse().push(digits@[i as int]));
        }
        let b = digits[i];
        r.push(b);
    }
    proof {
        assert(digits@.subrange(0, digits@.len() as int) =~= digits@);
    }
    r
}

/// Parse a byte string as a base-10 integer, as the load client does with a
/// received response. Returns the value exactly when the bytes are a
/// nonempty digit string whose value fits in 64 bits; leading zeros are
/// accepted, as a standard integer parse accepts them.
pub fn parse_u64(bytes: &[u8]) -> (r: Option<u64>)
    ensures
        match r {
            Some(v) => is_dec_string(bytes@) && v as nat == dec_value(bytes@),
            None => !is_dec_string(bytes@) || dec_value(bytes@) > u64::MAX,
        },
{
    if bytes.len() == 0 {
        return None;
    }
    let ghost s = bytes@;
    let mut acc: u64 = 0;
    let mut i: usize = 0;
    while i < bytes.len()
        invariant
            bytes@ == s,
            0 < s.len(),
            i <= s.len(),
            forall|k: int| 0 <= k < i ==> is_dec_digit(s[k]),
            acc as nat == dec_value(s.take(i as int)),
        decreases s.len() - i,
    {
        let b = bytes[i];
        if b < 48 || b > 57 {
            return None;
        }
        let d: u64 = (b - 48) as u64;
        proof {
            lemma_dec_value_step(s, i as int);
        }
        let next: u64 = match acc.checked_mul(10) {
            Some(m) => match m.checked_add(d) {
                Some(sum) => sum,
                None => {
                    proof {
                        lemma_parse_overflow(s, i as int, (acc * 10 + d) as nat);
                    }
                    return None;
                },
            },
            None => {
                proof {
                    lemma_parse_overflow(s, i as int, (acc * 10 + d) as nat);
                }
                return None;
            },
        };
        acc = next;
        i = i + 1;
    }
    proof {
        assert(s.take(s.len() as int) =~= s);
    }
    Some(acc)
}

/// If the value of some digit prefix already exceeds `u64::MAX`, the whole
/// string's value does too, wherever the string is all digits.
proof fn lemma_parse_overflow(s: Seq<u8>, i: int, prefix_value: nat)
    requires
        0 <= i < s.len(),
        prefix_value == dec_value(s.take(i + 1)),
        prefix_value > u64::MAX,
    ensures
        !is_dec_string(s) || dec_value(s) > u64::MAX,
{
    if is_dec_string(s) {
        lemma_dec_value_take_monotonic(s, i + 1, s.len() as int);
        assert(s.take(s.len() as int) =~= s);
    }
}

/// Round-trip law: for every timestamp `t`, the encoder's output is the
/// exact base-10 string of `t` with no leading zeros, and its value parses
/// back to `t`.
pub proof fn lemma_encode_round_trip(t: u64)
    ensures
        is_canonical_dec(dec_digits(t as nat)),
        dec_value(dec_digits(t as nat)) == t as nat,
{
    lemma_dec_digits_wf(t as nat);
    lemma_dec_value_of_digits(t as nat);
}

} // verus!
