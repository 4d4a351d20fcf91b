//! Durations as users write them (`24h`, `90min`, `0.5hours`) and as logs
//! print them.

use vstd::prelude::*;
use crate::numfmt::{is_digits, val_of, dec_of, to_decimal};
use crate::afl::{spec_ends_with, ends_with};
use crate::vars::{find_from, find_byte_from, lemma_find_from, vecs_view};

verus! {

/// Ten to the `k`.
pub open spec fn pow10(k: nat) -> nat
    decreases k,
{
    if k == 0 {
        1
    } else {
        10 * pow10((k - 1) as nat)
    }
}

/// The value in milliseconds of a decimal number times a unit, truncating
/// below a millisecond: `val(int).unit + val(frac).unit/10^k`.  None when
/// digits are missing or malformed, or any intermediate leaves `u64` (so
/// at most nineteen fractional digits are accepted).
pub open spec fn spec_decimal_ms(s: Seq<u8>, unit_ms: u64) -> Option<u64> {
    match find_from(s, 0x2e, 0) {
        None => if s.len() > 0 && is_digits(s) && val_of(s) * unit_ms <= u64::MAX {
            Some((val_of(s) * unit_ms) as u64)
        } else {
            None
        },
        Some(p) => {
            let ip = s.subrange(0, p);
            let fp = s.subrange(p + 1, s.len() as int);
            if ip.len() > 0 && is_digits(ip) && (fp.len() == 0 || is_digits(fp)) && val_of(ip)
                * unit_ms <= u64::MAX && val_of(fp) * unit_ms <= u64::MAX && pow10(fp.len())
                <= u64::MAX && val_of(ip) * unit_ms + ((val_of(fp) * unit_ms) as int) / (pow10(fp.len()) as int)
                <= u64::MAX {
                Some((val_of(ip) * unit_ms + ((val_of(fp) * unit_ms) as int) / (pow10(fp.len()) as int)) as u64)
            } else {
                None
            }
        },
    }
}

/// A value beyond `u64` times a positive unit stays beyond `u64`.
proof fn lemma_overflow_times_unit(v: nat, unit: u64)
    requires
        v > u64::MAX,
        unit >= 1,
    ensures
        v * unit > u64::MAX,
{
    assert(v * unit >= v) by (nonlinear_arith)
        requires
            unit >= 1,
            v >= 0,
    ;
}

/// Parses a decimal number with an optional fraction into milliseconds of
/// the given unit.
pub fn parse_decimal_ms(s: &[u8], unit_ms: u64) -> (r: Option<u64>)
    requires
        unit_ms >= 1,
    ensures
        r == spec_decimal_ms(s@, unit_ms),
{
    match find_byte_from(s, 0x2e, 0) {
        None => {
            let whole = match crate::numfmt::parse_u64(s) {
                Some(v) => v,
                None => {
                    proof {
                        if s@.len() > 0 && is_digits(s@) {
                            lemma_overflow_times_unit(val_of(s@), unit_ms);
                        }
                    }
                    return None;
                },
            };
            whole.checked_mul(unit_ms)
        },
        Some(p) => {
            proof {
                lemma_find_from(s@, 0x2e, 0);
                assert(p < s@.len() && s@.len() == s.len());
            }
            let ipart = vstd::slice::slice_subrange(s, 0, p);
            let fpart = vstd::slice::slice_subrange(s, p + 1, s.len());
            let iv = match crate::numfmt::parse_u64(ipart) {
                Some(v) => v,
                None => {
                    proof {
                        if ipart@.len() > 0 && is_digits(ipart@) {
                            lemma_overflow_times_unit(val_of(ipart@), unit_ms);
                        }
                    }
                    return None;
                },
            };
            if fpart.len() == 0 {
                proof {
                    let fpv = s@.subrange(p + 1, s@.len() as int);
                    assert(fpart@ == fpv);
                    assert(val_of(fpv) == 0);
                    assert(pow10(fpv.len()) == 1);
                    assert(val_of(fpv) * unit_ms == 0) by (nonlinear_arith)
                        requires
                            val_of(fpv) == 0,
                    ;
                    assert(((val_of(fpv) * unit_ms) as int) / (pow10(fpv.len()) as int) == 0);
                }
                return iv.checked_mul(unit_ms);
            }
            let fv = match crate::numfmt::parse_u64(fpart) {
                Some(v) => v,
                None => {
                    proof {
                        if is_digits(fpart@) {
                            lemma_overflow_times_unit(val_of(fpart@), unit_ms);
                        }
                    }
                    return None;
                },
            };
            let scale = match pow10_exec(fpart.len()) {
                Some(sc) => sc,
                None => {
                    return None;
                },
            };
            let im = match iv.checked_mul(unit_ms) {
                Some(v) => v,
                None => {
                    return None;
                },
            };
            let fm = match fv.checked_mul(unit_ms) {
                Some(v) => v,
                None => {
                    return None;
                },
            };
            proof {
                assert(scale >= 1) by {
                    lemma_pow10_pos(fpart@.len());
                }
            }
            im.checked_add(fm / scale)
        },
    }
}

proof fn lemma_pow10_pos(k: nat)
    ensures
        pow10(k) >= 1,
    decreases k,
{
    if k > 0 {
        lemma_pow10_pos((k - 1) as nat);
    }
}

/// Ten to the `k`, or None when it leaves `u64`.
fn pow10_exec(k: usize) -> (r: Option<u64>)
    ensures
        match r {
            Some(v) => v as nat == pow10(k as nat),
            None => pow10(k as nat) > u64::MAX,
        },
    decreases k,
{
    if k == 0 {
        return Some(1);
    }
    match pow10_exec(k - 1) {
        Some(v) => v.checked_mul(10),
        None => {
            proof {
                lemma_pow10_pos((k - 1) as nat);
                assert(pow10(k as nat) == 10 * pow10((k - 1) as nat));
                assert(10 * pow10((k - 1) as nat) >= pow10((k - 1) as nat)) by (nonlinear_arith)
                    requires
                        pow10((k - 1) as nat) >= 1,
                ;
            }
            None
        },
    }
}

pub const MS_PER_HOUR: u64 = 3600000;

pub const MS_PER_MINUTE: u64 = 60000;

pub const MS_PER_SECOND: u64 = 1000;

/// The head before the first suffix of `sfxs` that ends `s`.
pub open spec fn spec_strip_any(s: Seq<u8>, sfxs: Seq<Seq<u8>>) -> Option<Seq<u8>>
    decreases sfxs.len(),
{
    if sfxs.len() == 0 {
        None
    } else if spec_ends_with(s, sfxs[0]) {
        Some(s.subrange(0, s.len() - sfxs[0].len()))
    } else {
        spec_strip_any(s, sfxs.drop_first())
    }
}

/// Strips the first matching suffix of a family.
#[verifier::loop_isolation(false)]
fn strip_first_suffix(s: &[u8], suffixes: &Vec<Vec<u8>>) -> (r: Option<Vec<u8>>)
    ensures
        match r {
            Some(head) => spec_strip_any(s@, vecs_view(suffixes@)) == Some(head@),
            None => spec_strip_any(s@, vecs_view(suffixes@)) is None,
        },
{
    let ghost sv = vecs_view(suffixes@);
    let n = suffixes.len();
    proof {
        assert(sv.subrange(0, n as int) =~= sv);
    }
    let mut i: usize = 0;
    while i < n
        invariant
            0 <= i <= n == suffixes@.len(),
            spec_strip_any(s@, sv) == spec_strip_any(s@, sv.subrange(i as int, n as int)),
        decreases n - i,
    {
        proof {
            let sub = sv.subrange(i as int, n as int);
            assert(sub[0] == sv[i as int]);
            assert(sub.drop_first() =~= sv.subrange(i + 1, n as int));
        }
        let sfx = &suffixes[i];
        if ends_with(s, sfx.as_slice()) {
            return Some(
                vstd::slice::slice_to_vec(
                    vstd::slice::slice_subrange(s, 0, s.len() - sfx.len()),
                ),
            );
        }
        i += 1;
    }
    proof {
        assert(sv.subrange(n as int, n as int) =~= Seq::<Seq<u8>>::empty());
    }
    None
}

/// The hour suffixes, longest first.
pub open spec fn spec_hour_suffixes() -> Seq<Seq<u8>> {
    seq![
        seq![0x68u8, 0x6fu8, 0x75u8, 0x72u8, 0x73u8],
        seq![0x68u8, 0x6fu8, 0x75u8, 0x72u8],
        seq![0x68u8, 0x72u8, 0x73u8],
        seq![0x68u8, 0x72u8],
        seq![0x68u8],
    ]
}

pub open spec fn spec_minute_suffixes() -> Seq<Seq<u8>> {
    seq![
        seq![0x6du8, 0x69u8, 0x6eu8, 0x75u8, 0x74u8, 0x65u8, 0x73u8],
        seq![0x6du8, 0x69u8, 0x6eu8, 0x75u8, 0x74u8, 0x65u8],
        seq![0x6du8, 0x69u8, 0x6eu8, 0x73u8],
        seq![0x6du8, 0x69u8, 0x6eu8],
        seq![0x6du8],
    ]
}

pub open spec fn spec_second_suffixes() -> Seq<Seq<u8>> {
    seq![
        seq![0x73u8, 0x65u8, 0x63u8, 0x6fu8, 0x6eu8, 0x64u8, 0x73u8],
        seq![0x73u8, 0x65u8, 0x63u8, 0x6fu8, 0x6eu8, 0x64u8],
        seq![0x73u8, 0x65u8, 0x63u8, 0x73u8],
        seq![0x73u8, 0x65u8, 0x63u8],
        seq![0x73u8],
    ]
}

fn hour_suffixes() -> (r: Vec<Vec<u8>>)
    ensures
        vecs_view(r@) == spec_hour_suffixes(),
{
    let mut r: Vec<Vec<u8>> = Vec::new();
    r.push(vec![0x68u8, 0x6fu8, 0x75u8, 0x72u8, 0x73u8]);
    r.push(vec![0x68u8, 0x6fu8, 0x75u8, 0x72u8]);
    r.push(vec![0x68u8, 0x72u8, 0x73u8]);
    r.push(vec![0x68u8, 0x72u8]);
    r.push(vec![0x68u8]);
    proof {
        assert(vecs_view(r@) =~~= spec_hour_suffixes());
    }
    r
}

fn minute_suffixes() -> (r: Vec<Vec<u8>>)
    ensures
        vecs_view(r@) == spec_minute_suffixes(),
{
    let mut r: Vec<Vec<u8>> = Vec::new();
    r.push(vec![0x6du8, 0x69u8, 0x6eu8, 0x75u8, 0x74u8, 0x65u8, 0x73u8]);
    r.push(vec![0x6du8, 0x69u8, 0x6eu8, 0x75u8, 0x74u8, 0x65u8]);
    r.push(vec![0x6du8, 0x69u8, 0x6eu8, 0x73u8]);
    r.push(vec![0x6du8, 0x69u8, 0x6eu8]);
    r.push(vec![0x6du8]);
    proof {
        assert(vecs_view(r@) =~~= spec_minute_suffixes());
    }
    r
}

fn second_suffixes() -> (r: Vec<Vec<u8>>)
    ensures
        vecs_view(r@) == spec_second_suffixes(),
{
    let mut r: Vec<Vec<u8>> = Vec::new();
    r.push(vec![0x73u8, 0x65u8, 0x63u8, 0x6fu8, 0x6eu8, 0x64u8, 0x73u8]);
    r.push(vec![0x73u8, 0x65u8, 0x63u8, 0x6fu8, 0x6eu8, 0x64u8]);
    r.push(vec![0x73u8, 0x65u8, 0x63u8, 0x73u8]);
    r.push(vec![0x73u8, 0x65u8, 0x63u8]);
    r.push(vec![0x73u8]);
    proof {
        assert(vecs_view(r@) =~~= spec_second_suffixes());
    }
    r
}

/// What a duration string parses to: the first matching suffix family
/// (hours, then minutes, then seconds) fixes the unit and the head must be
/// a decimal number.
pub open spec fn spec_parse_duration(s: Seq<u8>) -> Option<u64> {
    match spec_strip_any(s, spec_hour_suffixes()) {
        Some(head) => spec_decimal_ms(head, MS_PER_HOUR),
        None => match spec_strip_any(s, spec_minute_suffixes()) {
            Some(head) => spec_decimal_ms(head, MS_PER_MINUTE),
            None => match spec_strip_any(s, spec_second_suffixes()) {
                Some(head) => spec_decimal_ms(head, MS_PER_SECOND),
                None => None,
            },
        },
    }
}

/// Parses a duration like `24h`, `1.5hours`, `90min` or `30s` into
/// milliseconds.
pub fn parse_duration_str(name: &[u8]) -> (r: Option<u64>)
    ensures
        r == spec_parse_duration(name@),
{
    let hs = hour_suffixes();
    match strip_first_suffix(name, &hs) {
        Some(head) => {
            return parse_decimal_ms(head.as_slice(), MS_PER_HOUR);
        },
        None => {},
    }
    let ms = minute_suffixes();
    match strip_first_suffix(name, &ms) {
        Some(head) => {
            return parse_decimal_ms(head.as_slice(), MS_PER_MINUTE);
        },
        None => {},
    }
    let ss = second_suffixes();
    match strip_first_suffix(name, &ss) {
        Some(head) => {
            return parse_decimal_ms(head.as_slice(), MS_PER_SECOND);
        },
        None => {},
    }
    None
}

/// A duration rendered for people: days, hours, minutes and seconds, each
/// omitted when zero.
pub struct HumanReadableDuration {
    pub total_secs: u64,
}

/// The rendering: `{d} days {h} hours {m} mins {s} seconds`, each part
/// present only when non-zero, with the unit words and spacing of the
/// logs.
pub open spec fn spec_human_duration(total: u64) -> Seq<u8> {
    let days = total / 86400;
    let hours = (total / 3600) % 24;
    let mins = (total / 60) % 60;
    let secs = total % 60;
    (if days != 0 {
        dec_of(days as nat) + seq![0x20u8, 0x64u8, 0x61u8, 0x79u8, 0x73u8, 0x20u8]
    } else {
        Seq::empty()
    }) + (if hours != 0 {
        dec_of(hours as nat) + seq![0x20u8, 0x68u8, 0x6fu8, 0x75u8, 0x72u8, 0x73u8, 0x20u8]
    } else {
        Seq::empty()
    }) + (if mins != 0 {
        dec_of(mins as nat) + seq![0x20u8, 0x6du8, 0x69u8, 0x6eu8, 0x73u8, 0x20u8]
    } else {
        Seq::empty()
    }) + (if secs != 0 {
        dec_of(secs as nat) + seq![0x20u8, 0x73u8, 0x65u8, 0x63u8, 0x6fu8, 0x6eu8, 0x64u8, 0x73u8]
    } else {
        Seq::empty()
    })
}

impl HumanReadableDuration {
    pub fn new(total_secs: u64) -> (r: Self)
        ensures
            r.total_secs == total_secs,
    {
        HumanReadableDuration { total_secs }
    }

    /// Renders the duration as the logs print it.
    #[verifier::rlimit(60)]
    pub fn render(&self) -> (r: Vec<u8>)
        ensures
            r@ == spec_human_duration(self.total_secs),
    {
        let total = self.total_secs;
        let days = total / 86400;
        let hours = (total / 3600) % 24;
        let mins = (total / 60) % 60;
        let secs = total % 60;
        let mut out: Vec<u8> = Vec::new();
        if days != 0 {
            let mut d = to_decimal(days);
            out.append(&mut d);
            let w: [u8; 6] = [0x20, 0x64, 0x61, 0x79, 0x73, 0x20];
            out.extend_from_slice(w.as_slice());
        }
        if hours != 0 {
            let mut d = to_decimal(hours);
            out.append(&mut d);
            let w: [u8; 7] = [0x20, 0x68, 0x6f, 0x75, 0x72, 0x73, 0x20];
            out.extend_from_slice(w.as_slice());
        }
        if mins != 0 {
            let mut d = to_decimal(mins);
            out.append(&mut d);
            let w: [u8; 6] = [0x20, 0x6d, 0x69, 0x6e, 0x73, 0x20];
            out.extend_from_slice(w.as_slice());
        }
        if secs != 0 {
            let mut d = to_decimal(secs);
            out.append(&mut d);
            let w: [u8; 8] = [0x20, 0x73, 0x65, 0x63, 0x6f, 0x6e, 0x64, 0x73];
            out.extend_from_slice(w.as_slice());
        }
        proof {
            assert(out@ =~= spec_human_duration(self.total_secs));
        }
        out
    }
}

/// One day, in milliseconds: the default data-source duration.
pub fn one_day() -> (r: u64)
    ensures
        r == 86400000,
{
    86400000
}

} // verus!
