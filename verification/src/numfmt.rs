//! Decimal rendering and parsing of unsigned integers, used for worker ids,
//! trial counters, durations and the times tagged into crash file names.

use vstd::prelude::*;

verus! {

/// The decimal digits of `n`, most significant first.
pub open spec fn dec_of(n: nat) -> Seq<u8>
    decreases n,
{
    if n < 10 {
        seq![(0x30 + n) as u8]
    } else {
        dec_of(n / 10).push((0x30 + n % 10) as u8)
    }
}

/// Renders `n` in decimal.
pub fn to_decimal(n: u64) -> (r: Vec<u8>)
    ensures
        r@ == dec_of(n as nat),
    decreases n,
{
    if n < 10 {
        let mut v: Vec<u8> = Vec::new();
        v.push(0x30 + (n as u8));
        proof {
            assert(v@ =~= dec_of(n as nat));
        }
        v
    } else {
        let mut v = to_decimal(n / 10);
        v.push(0x30 + ((n % 10) as u8));
        v
    }
}

/// A decimal rendering is a non-empty digit string.
pub proof fn lemma_dec_of_digits(n: nat)
    ensures
        is_digits(dec_of(n)),
        dec_of(n).len() >= 1,
    decreases n,
{
    if n >= 10 {
        lemma_dec_of_digits(n / 10);
        assert(dec_of(n) == dec_of(n / 10).push((0x30 + n % 10) as u8));
    }
}

/// Whether every byte of `s` is an ASCII digit.
pub open spec fn is_digits(s: Seq<u8>) -> bool {
    forall|i: int| 0 <= i < s.len() ==> 0x30 <= #[trigger] s[i] <= 0x39
}

/// The value of a digit string, most significant first.
pub open spec fn val_of(s: Seq<u8>) -> nat
    decreases s.len(),
{
    if s.len() == 0 {
        0
    } else {
        val_of(s.drop_last()) * 10 + (s.last() - 0x30) as nat
    }
}

/// Whether `b` is an ASCII digit.
pub fn is_digit_byte(b: u8) -> (r: bool)
    ensures
        r <==> 0x30 <= b <= 0x39,
{
    0x30 <= b && b <= 0x39
}

/// Parses a decimal digit string into a `u64`: the whole string must be
/// digits, be non-empty, and fit.
#[verifier::loop_isolation(false)]
pub fn parse_u64(s: &[u8]) -> (r: Option<u64>)
    ensures
        match r {
            Some(v) => s@.len() > 0 && is_digits(s@) && v as nat == val_of(s@),
            None => s@.len() == 0 || !is_digits(s@) || val_of(s@) > u64::MAX,
        },
{
    if s.len() == 0 {
        return None;
    }
    let mut acc: u64 = 0;
    let n = s.len();
    let mut i: usize = 0;
    while i < n
        invariant
            0 <= i <= n,
            is_digits(s@.subrange(0, i as int)),
            acc as nat == val_of(s@.subrange(0, i as int)),
        decreases n - i,
    {
        let b = s[i];
        if !is_digit_byte(b) {
            proof {
                assert(!is_digits(s@));
            }
            return None;
        }
        let d = (b - 0x30) as u64;
        let ghost prefix = s@.subrange(0, i as int);
        proof {
            assert(s@.subrange(0, i + 1).drop_last() =~= prefix);
            assert(s@.subrange(0, i + 1).last() == b);
        }
        acc = match acc.checked_mul(10) {
            Some(m) => match m.checked_add(d) {
                Some(v) => v,
                None => {
                    proof {
                        lemma_val_monotone(s@, i + 1);
                    }
                    return None;
                },
            },
            None => {
                proof {
                    lemma_val_monotone(s@, i + 1);
                }
                return None;
            },
        };
        i += 1;
    }
    proof {
        assert(s@.subrange(0, n as int) =~= s@);
    }
    Some(acc)
}

/// The value of a digit string is at least the value of any of its prefixes.
proof fn lemma_val_monotone(s: Seq<u8>, i: int)
    requires
        0 <= i <= s.len(),
    ensures
        val_of(s) >= val_of(s.subrange(0, i)),
    decreases s.len() - i,
{
    if i < s.len() {
        lemma_val_monotone(s, i + 1);
        assert(s.subrange(0, i + 1).drop_last() =~= s.subrange(0, i));
        assert(val_of(s.subrange(0, i + 1)) >= val_of(s.subrange(0, i)));
    } else {
        assert(s.subrange(0, i) =~= s);
    }
}

} // verus!
