use vstd::prelude::*;
use crate::lexer::{is_digit, is_hex_digit, is_bin_digit};

verus! {

/// Value of one digit character: `0`-`9`, `a`-`f`, or `A`-`F`.
pub open spec fn digit_val(c: char) -> int {
    if is_digit(c) {
        c as int - 48
    } else if 'a' <= c && c <= 'f' {
        c as int - 87
    } else {
        c as int - 55
    }
}

/// Value of a digit string read in the given base, most significant
/// digit first.
pub open spec fn base_val(s: Seq<char>, base: int) -> int
    decreases s.len(),
{
    if s.len() == 0 {
        0
    } else {
        base_val(s.drop_last(), base) * base + digit_val(s.last())
    }
}

/// Every character is a digit character (`0`-`9`, `a`-`f`, `A`-`F`).
pub open spec fn hex_digits(s: Seq<char>) -> bool {
    forall|k: int| 0 <= k < s.len() ==> is_hex_digit(#[trigger] s[k])
}

/// Digits admitted in the given base sit below it in value.
pub open spec fn digits_for(s: Seq<char>, base: int) -> bool {
    forall|k: int| 0 <= k < s.len() ==> 0 <= digit_val(#[trigger] s[k]) < base
}

pub proof fn lemma_base_val_nonneg(s: Seq<char>, base: int)
    requires
        base >= 2,
        digits_for(s, base),
    ensures
        base_val(s, base) >= 0,
    decreases s.len(),
{
    if s.len() > 0 {
        assert(digits_for(s.drop_last(), base));
        lemma_base_val_nonneg(s.drop_last(), base);
    }
}

/// A prefix of a digit string never reads as more than the whole string.
pub proof fn lemma_base_val_prefix(s: Seq<char>, base: int, i: int)
    requires
        base >= 2,
        digits_for(s, base),
        0 <= i <= s.len(),
    ensures
        base_val(s.take(i), base) <= base_val(s, base),
    decreases s.len() - i,
{
    if i < s.len() {
        lemma_base_val_prefix(s, base, i + 1);
        let p = s.take(i);
        let q = s.take(i + 1);
        assert(q.drop_last() =~= p);
        assert(base_val(q, base) == base_val(p, base) * base + digit_val(s[i]));
        assert(digits_for(p, base));
        lemma_base_val_nonneg(p, base);
        assert(base_val(p, base) <= base_val(p, base) * base) by (nonlinear_arith)
            requires
                base >= 2,
                base_val(p, base) >= 0,
        ;
    } else {
        assert(s.take(i) =~= s);
    }
}

/// Reads the digits of `s` from offset `start` on in the given base.
/// Returns the value when it is at most `limit`, and nothing when the
/// literal is too large.
pub fn base_value_of(s: &str, start: usize, base: u32, limit: u32) -> (r: Option<u32>)
    requires
        start <= s@.len() <= usize::MAX,
        2 <= base <= 16,
        hex_digits(s@.skip(start as int)),
        digits_for(s@.skip(start as int), base as int),
    ensures
        base_val(s@.skip(start as int), base as int) <= limit ==> r == Some(
            base_val(s@.skip(start as int), base as int) as u32,
        ),
        base_val(s@.skip(start as int), base as int) > limit ==> r is None,
{
    let ghost digits = s@.skip(start as int);
    let n: usize = s.unicode_len();
    let mut acc: u64 = 0;
    let mut i: usize = start;
    proof {
        assert(digits.take(0) =~= Seq::<char>::empty());
    }
    while i < n
        invariant
            start <= i <= n,
            n == s@.len() <= usize::MAX,
            2 <= base <= 16,
            digits == s@.skip(start as int),
            hex_digits(digits),
            digits_for(digits, base as int),
            acc == base_val(digits.take(i - start), base as int),
            acc <= limit,
        decreases n - i,
    {
        let c = s.get_char(i);
        proof {
            assert(digits[i - start] == c);
            assert(is_hex_digit(c));
            assert(0 <= digit_val(c) < base);
        }
        let cv: u32 = c as u32;
        let d: u32 = if cv >= 97 {
            cv - 87
        } else if cv >= 65 {
            cv - 55
        } else {
            cv - 48
        };
        proof {
            assert(d == digit_val(c));
            assert(acc * (base as u64) + (d as u64) <= 0xffff_ffffu64 * 16 + 15)
                by (nonlinear_arith)
                requires
                    acc <= 0xffff_ffffu64,
                    base <= 16,
                    d <= 15,
            ;
        }
        let next: u64 = acc * (base as u64) + (d as u64);
        proof {
            let pre = digits.take(i - start);
            let cur = digits.take(i + 1 - start);
            assert(cur.drop_last() =~= pre);
            assert(cur.last() == c);
            assert(base_val(cur, base as int) == base_val(pre, base as int) * base + digit_val(c));
        }
        if next > limit as u64 {
            proof {
                lemma_base_val_prefix(digits, base as int, i + 1 - start);
            }
            return None;
        }
        acc = next;
        i = i + 1;
    }
    proof {
        assert(digits.take(n - start) =~= digits);
    }
    Some(acc as u32)
}

/// The characters of a decimal, hexadecimal or binary literal are
/// digits of their base.
pub proof fn lemma_digit_classes(c: char)
    ensures
        is_digit(c) ==> 0 <= digit_val(c) < 10,
        is_hex_digit(c) ==> 0 <= digit_val(c) < 16,
        is_bin_digit(c) ==> 0 <= digit_val(c) < 2,
{
}

} // verus!
