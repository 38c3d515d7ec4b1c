//! Byte-text helpers: appending, comparison, and decimal rendering and
//! parsing of the language's 32-bit numbers. All diagnostic and printed text
//! in this crate is a sequence of bytes; the host decides how to show it.

use vstd::prelude::*;
use vstd::string::StringSliceAdditionalSpecFns;

verus! {

/// Appends every byte of `s` to `out`.
pub fn extend_bytes(out: &mut Vec<u8>, s: &[u8])
    ensures
        final(out)@ == old(out)@ + s@,
{
    let mut i: usize = 0;
    while i < s.len()
        invariant
            i <= s@.len(),
            out@ == old(out)@ + s@.subrange(0, i as int),
        decreases s@.len() - i,
    {
        proof {
            assert(s@.subrange(0, i + 1 as int) =~= s@.subrange(0, i as int).push(s@[i as int]));
        }
        out.push(s[i]);
        i += 1;
    }
    proof {
        assert(s@.subrange(0, s@.len() as int) =~= s@);
    }
}

/// Appends the bytes of a string slice to `out`.
pub fn extend_str(out: &mut Vec<u8>, s: &str)
    ensures
        final(out)@ == old(out)@ + s.spec_bytes(),
{
    extend_bytes(out, s.as_bytes());
}

/// Whether two byte sequences hold the same bytes.
pub fn bytes_eq(a: &[u8], b: &[u8]) -> (r: bool)
    ensures
        r <==> a@ == b@,
{
    if a.len() != b.len() {
        proof {
            assert(a@ != b@);
        }
        return false;
    }
    let mut i: usize = 0;
    while i < a.len()
        invariant
            i <= a@.len(),
            a@.len() == b@.len(),
            forall|j: int| 0 <= j < i ==> a@[j] == b@[j],
        decreases a@.len() - i,
    {
        if a[i] != b[i] {
            proof {
                assert(a@[i as int] != b@[i as int]);
            }
            return false;
        }
        i += 1;
    }
    proof {
        assert(a@ =~= b@);
    }
    true
}

/// The decimal digit sequence of a natural number, most significant first.
pub open spec fn spec_dec_nat(n: nat) -> Seq<u8>
    decreases n,
{
    if n < 10 {
        seq![(48 + n) as u8]
    } else {
        spec_dec_nat(n / 10).push((48 + n % 10) as u8)
    }
}

/// The decimal form of a (possibly negative) integer: an optional minus sign
/// followed by the digits of its magnitude.
pub open spec fn spec_dec_int(n: int) -> Seq<u8> {
    if n < 0 {
        seq![45u8] + spec_dec_nat((-n) as nat)
    } else {
        spec_dec_nat(n as nat)
    }
}

/// Reverses a byte vector into a fresh one.
fn reversed(v: &Vec<u8>) -> (r: Vec<u8>)
    ensures
        r@ == v@.reverse(),
{
    let mut out: Vec<u8> = Vec::new();
    let mut i: usize = 0;
    while i < v.len()
        invariant
            i <= v@.len(),
            out@.len() == i,
            forall|j: int| 0 <= j < i ==> out@[j] == v@[v@.len() - 1 - j],
        decreases v@.len() - i,
    {
        out.push(v[v.len() - 1 - i]);
        i += 1;
    }
    proof {
        assert(out@ =~= v@.reverse());
    }
    out
}

/// Renders a `u64` in decimal.
pub fn dec_u64(n: u64) -> (r: Vec<u8>)
    ensures
        r@ == spec_dec_nat(n as nat),
{
    if n < 10 {
        let mut out: Vec<u8> = Vec::new();
        out.push(48 + (n as u8));
        proof {
            assert(out@ =~= spec_dec_nat(n as nat));
        }
        return out;
    }
    let mut digits: Vec<u8> = Vec::new();
    let mut m: u64 = n;
    while m > 0
        invariant
            m > 0 ==> spec_dec_nat(n as nat) == spec_dec_nat(m as nat) + digits@.reverse(),
            m == 0 ==> spec_dec_nat(n as nat) == digits@.reverse(),
        decreases m,
    {
        let ghost pre = digits@;
        let d: u8 = (m % 10) as u8;
        digits.push(48 + d);
        proof {
            assert(digits@.reverse() =~= seq![(48 + (m as nat) % 10) as u8] + pre.reverse());
            if m >= 10 {
                assert(spec_dec_nat(m as nat) == spec_dec_nat((m as nat) / 10).push(
                    (48 + (m as nat) % 10) as u8,
                ));
                assert(spec_dec_nat((m as nat) / 10) + digits@.reverse() =~= spec_dec_nat(
                    m as nat,
                ) + pre.reverse());
            } else {
                assert(spec_dec_nat(m as nat) =~= seq![(48 + (m as nat) % 10) as u8]);
                assert(digits@.reverse() =~= spec_dec_nat(m as nat) + pre.reverse());
            }
        }
        m = m / 10;
    }
    reversed(&digits)
}

/// Renders a language number (`i32`) in decimal, with a leading minus sign
/// when negative.
pub fn dec_i32(n: i32) -> (r: Vec<u8>)
    ensures
        r@ == spec_dec_int(n as int),
{
    if n >= 0 {
        dec_u64(n as u64)
    } else {
        let mag: u64 = (-(n as i64)) as u64;
        let mut out: Vec<u8> = Vec::new();
        out.push(45);
        let digits = dec_u64(mag);
        extend_bytes(&mut out, digits.as_slice());
        proof {
            assert(out@ =~= spec_dec_int(n as int));
        }
        out
    }
}

/// The numeric value of a digit string (most significant first); digits
/// beyond `0`..`9` contribute their byte value minus 48.
pub open spec fn spec_dec_val(s: Seq<u8>) -> int
    decreases s.len(),
{
    if s.len() == 0 {
        0
    } else {
        spec_dec_val(s.drop_last()) * 10 + (s.last() - 48)
    }
}

/// Whether every byte of `s` is an ASCII decimal digit.
pub open spec fn spec_all_digits(s: Seq<u8>) -> bool {
    forall|i: int| 0 <= i < s.len() ==> 48 <= #[trigger] s[i] <= 57
}

/// Parses a run of ASCII digits as a 32-bit number. Returns `None` exactly
/// when the value does not fit (exceeds `i32::MAX`).
pub fn parse_i32(s: &[u8]) -> (r: Option<i32>)
    requires
        s@.len() > 0,
        spec_all_digits(s@),
    ensures
        match r {
            Some(v) => v == spec_dec_val(s@) && spec_dec_val(s@) <= i32::MAX,
            None => spec_dec_val(s@) > i32::MAX,
        },
{
    let mut acc: u64 = 0;
    let mut i: usize = 0;
    let mut over: bool = false;
    while i < s.len()
        invariant
            i <= s@.len(),
            spec_all_digits(s@),
            !over ==> acc == spec_dec_val(s@.subrange(0, i as int)) && acc <= i32::MAX,
            over ==> spec_dec_val(s@.subrange(0, i as int)) > i32::MAX,
        decreases s@.len() - i,
    {
        let d: u8 = s[i] - 48;
        proof {
            assert(s@.subrange(0, i + 1 as int).drop_last() =~= s@.subrange(0, i as int));
            assert(s@.subrange(0, i + 1 as int).last() == s@[i as int]);
        }
        if over {
            proof {
                let pre = spec_dec_val(s@.subrange(0, i as int));
                assert(pre * 10 >= pre) by (nonlinear_arith)
                    requires
                        pre > 0,
                ;
            }
        } else {
            let next: u64 = acc * 10 + (d as u64);
            if next > 2147483647 {
                over = true;
            } else {
                acc = next;
            }
        }
        i += 1;
    }
    proof {
        assert(s@.subrange(0, s@.len() as int) =~= s@);
    }
    if over {
        None
    } else {
        Some(acc as i32)
    }
}

} // verus!
