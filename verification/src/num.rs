//! Lenient numeric field parsing for probe output: an unsigned integer
//! field, a fixed-point decimal field read in centi-units, and the
//! mebibyte-to-byte conversion. A field that does not parse maps to
//! zero at the caller, never to an error.

use crate::bytestr::{find_first, first_match};
use vstd::prelude::*;

verus! {

/// An ASCII decimal digit.
pub open spec fn is_digit(b: u8) -> bool {
    '0' as u8 <= b && b <= '9' as u8
}

/// True when every byte of `s` is a digit.
pub open spec fn all_digits(s: Seq<u8>) -> bool {
    forall|i: int| 0 <= i < s.len() ==> is_digit(#[trigger] s[i])
}

/// The value of a digit string read in base ten.
pub open spec fn digits_value(s: Seq<u8>) -> int
    decreases s.len(),
{
    if s.len() == 0 {
        0
    } else {
        digits_value(s.take(s.len() - 1)) * 10 + (s.last() - '0' as u8)
    }
}

/// What parsing an unsigned integer field returns: an optional leading
/// `+`, then one or more digits, valued in range; anything else fails.
pub open spec fn parse_u64_spec(s: Seq<u8>) -> Option<u64> {
    let ds = if s.len() >= 1 && s[0] == '+' as u8 {
        s.skip(1)
    } else {
        s
    };
    if ds.len() >= 1 && all_digits(ds) && digits_value(ds) <= u64::MAX {
        Some(digits_value(ds) as u64)
    } else {
        None
    }
}

/// The decimal point.
pub open spec fn dot() -> Seq<u8> {
    seq!['.' as u8]
}

/// The value, in hundredths, of the first two fractional digits; later
/// digits are truncated away.
pub open spec fn frac_centi(fp: Seq<u8>) -> int {
    (if fp.len() >= 1 {
        (fp[0] - '0' as u8) * 10
    } else {
        0
    }) + (if fp.len() >= 2 {
        fp[1] - '0' as u8
    } else {
        0
    })
}

/// The value of `ip.fp` in centi-units.
pub open spec fn centi_total(ip: Seq<u8>, fp: Seq<u8>) -> int {
    digits_value(ip) * 100 + frac_centi(fp)
}

/// What parsing a decimal field in centi-units returns: one or more
/// integer digits, optionally a point and fractional digits, valued in
/// range; anything else fails.
pub open spec fn parse_centi_spec(s: Seq<u8>) -> Option<u64> {
    let k = first_match(s, dot());
    let ip = s.take(k);
    let fp = if k == s.len() {
        Seq::<u8>::empty()
    } else {
        s.skip(k + 1)
    };
    if ip.len() >= 1 && all_digits(ip) && all_digits(fp) && centi_total(ip, fp) <= u64::MAX {
        Some(centi_total(ip, fp) as u64)
    } else {
        None
    }
}

/// The exact mebibyte-to-byte factor, 1024 times 1024.
pub open spec fn mib() -> u64 {
    1048576
}

/// What the memory field of a probe record yields in bytes: the parsed
/// mebibyte count times 1,048,576 exactly; a field that does not parse,
/// or whose byte count would not fit, yields zero.
pub open spec fn mib_field_bytes(s: Seq<u8>) -> u64 {
    match parse_u64_spec(s) {
        Some(v) => if v <= 17592186044415 {
            (v * mib()) as u64
        } else {
            0
        },
        None => 0,
    }
}

/// A digit string has a non-negative value.
pub proof fn lemma_digits_value_nonneg(s: Seq<u8>)
    requires
        all_digits(s),
    ensures
        digits_value(s) >= 0,
    decreases s.len(),
{
    if s.len() > 0 {
        let pre = s.take(s.len() - 1);
        assert(forall|i: int| 0 <= i < pre.len() ==> pre[i] == s[i]);
        lemma_digits_value_nonneg(pre);
    }
}

/// Reading one more digit multiplies the prefix value by ten and adds
/// the digit.
pub proof fn lemma_digits_value_snoc(s: Seq<u8>, k: int)
    requires
        0 <= k < s.len(),
    ensures
        digits_value(s.take(k + 1)) == digits_value(s.take(k)) * 10 + (s[k] - '0' as u8),
{
    assert(s.take(k + 1).last() == s[k]);
    assert(s.take(k + 1).take(k) =~= s.take(k));
}

/// A prefix of a digit string never exceeds the whole string's value.
pub proof fn lemma_digits_value_mono(s: Seq<u8>, k: int)
    requires
        all_digits(s),
        0 <= k <= s.len(),
    ensures
        digits_value(s.take(k)) <= digits_value(s),
    decreases s.len() - k,
{
    if k == s.len() {
        assert(s.take(k) =~= s);
    } else {
        lemma_digits_value_snoc(s, k);
        let pre = s.take(k);
        assert(forall|i: int| 0 <= i < pre.len() ==> pre[i] == s[i]);
        lemma_digits_value_nonneg(pre);
        lemma_digits_value_mono(s, k + 1);
    }
}

/// Parses an unsigned integer field: an optional `+`, then digits.
#[verifier::loop_isolation(false)]
pub fn parse_u64(s: &Vec<u8>) -> (r: Option<u64>)
    ensures
        r == parse_u64_spec(s@),
{
    let n = s.len();
    let start: usize = if n >= 1 && s[0] == 43 {
        1
    } else {
        0
    };
    let ghost ds = if s@.len() >= 1 && s@[0] == '+' as u8 {
        s@.skip(1)
    } else {
        s@
    };
    assert(ds =~= s@.subrange(start as int, n as int));
    if n == start {
        return None;
    }
    let mut acc: u64 = 0;
    let mut i: usize = start;
    proof {
        assert(ds.take(0) =~= Seq::<u8>::empty());
    }
    while i < n
        invariant
            n == s@.len(),
            start <= i <= n,
            ds == s@.subrange(start as int, n as int),
            all_digits(ds.take(i - start)),
            acc == digits_value(ds.take(i - start)),
        decreases n - i,
    {
        let b = s[i];
        proof {
            assert(ds[i - start] == s@[i as int]);
        }
        if !(48 <= b && b <= 57) {
            assert(!all_digits(ds));
            return None;
        }
        let d = (b - 48) as u64;
        proof {
            lemma_digits_value_snoc(ds, i - start);
        }
        if acc > 1844674407370955161 || (acc == 1844674407370955161 && d > 5) {
            proof {
                if all_digits(ds) {
                    lemma_digits_value_mono(ds, i - start + 1);
                }
            }
            return None;
        }
        acc = acc * 10 + d;
        i = i + 1;
    }
    proof {
        assert(ds.take(n - start) =~= ds);
    }
    Some(acc)
}

/// Parses a decimal field in centi-units: digits, then optionally a
/// point and fractional digits, of which the first two are kept.
#[verifier::loop_isolation(false)]
pub fn parse_centi(s: &Vec<u8>) -> (r: Option<u64>)
    ensures
        r == parse_centi_spec(s@),
{
    let n = s.len();
    let dot_v: Vec<u8> = vec!['.' as u8];
    proof {
        assert(dot_v@ =~= dot());
    }
    let ip_end: usize = match find_first(s, &dot_v) {
        Some(i) => i,
        None => n,
    };
    let ghost k = first_match(s@, dot());
    assert(ip_end == k);
    let ghost ip = s@.take(k);
    let ghost fp = if k == s@.len() {
        Seq::<u8>::empty()
    } else {
        s@.skip(k + 1)
    };
    if ip_end == 0 {
        return None;
    }
    // Integer part.
    let mut acc: u64 = 0;
    let mut i: usize = 0;
    proof {
        assert(ip.take(0) =~= Seq::<u8>::empty());
    }
    while i < ip_end
        invariant
            n == s@.len(),
            ip_end <= n,
            i <= ip_end,
            k == ip_end,
            ip == s@.take(k),
            all_digits(ip.take(i as int)),
            acc == digits_value(ip.take(i as int)),
        decreases ip_end - i,
    {
        let b = s[i];
        proof {
            assert(ip[i as int] == s@[i as int]);
        }
        if !(48 <= b && b <= 57) {
            assert(!all_digits(ip));
            return None;
        }
        let d = (b - 48) as u64;
        proof {
            lemma_digits_value_snoc(ip, i as int);
        }
        if acc > 1844674407370955161 || (acc == 1844674407370955161 && d > 5) {
            proof {
                if all_digits(ip) {
                    lemma_digits_value_mono(ip, i + 1);
                    if all_digits(fp) {
                        lemma_frac_centi_nonneg(fp);
                    }
                }
            }
            return None;
        }
        acc = acc * 10 + d;
        i = i + 1;
    }
    proof {
        assert(ip.take(ip_end as int) =~= ip);
    }
    // Fractional part: every byte must be a digit; the first two carry
    // value.
    let mut frac: u64 = 0;
    if ip_end < n {
        let fp_start = ip_end + 1;
        let mut j: usize = fp_start;
        while j < n
            invariant
                n == s@.len(),
                ip_end < n,
                fp_start == ip_end + 1,
                fp_start <= j <= n,
                k == ip_end,
                fp == s@.skip(k + 1),
                all_digits(fp.take(j - fp_start)),
            decreases n - j,
        {
            let b = s[j];
            proof {
                assert(fp[j - fp_start] == s@[j as int]);
            }
            if !(48 <= b && b <= 57) {
                assert(!all_digits(fp));
                return None;
            }
            j = j + 1;
        }
        proof {
            assert(fp.take(n - fp_start) =~= fp);
        }
        let d1: u64 = if fp_start < n {
            ((s[fp_start] - 48) as u64) * 10
        } else {
            0
        };
        let d2: u64 = if n - fp_start >= 2 {
            (s[fp_start + 1] - 48) as u64
        } else {
            0
        };
        frac = d1 + d2;
        proof {
            if fp.len() >= 1 {
                assert(fp[0] == s@[fp_start as int]);
            }
            if fp.len() >= 2 {
                assert(fp[1] == s@[fp_start + 1]);
            }
        }
    }
    assert(frac == frac_centi(fp));
    if acc > 184467440737095516 || (acc == 184467440737095516 && frac > 15) {
        return None;
    }
    Some(acc * 100 + frac)
}

/// The kept fractional digits are worth at most 99 hundredths.
proof fn lemma_frac_centi_nonneg(fp: Seq<u8>)
    requires
        all_digits(fp),
    ensures
        0 <= frac_centi(fp) <= 99,
{
}

/// Converts a probe memory field, reported in mebibytes, to bytes.
pub fn mib_to_bytes(s: &Vec<u8>) -> (r: u64)
    ensures
        r == mib_field_bytes(s@),
{
    match parse_u64(s) {
        Some(v) => if v <= 17592186044415 {
            v * 1048576
        } else {
            0
        },
        None => 0,
    }
}

} // verus!
