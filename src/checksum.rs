//! The Internet checksum: a one's-complement sum of big-endian 16-bit words.
use vstd::prelude::*;

verus! {

/// The one's-complement sum of a plain sum `x`: zero for zero, otherwise the
/// value in `1..=0xffff` that is congruent to `x` modulo `0xffff`.
pub open spec fn ones_sum(x: nat) -> nat {
    if x == 0 {
        0
    } else {
        ((x - 1) as nat % 0xffff) + 1
    }
}

/// The byte at `i`, or zero past the end (the padding of an odd length).
pub open spec fn byte_or_zero(s: Seq<u8>, i: int) -> nat {
    if 0 <= i < s.len() {
        s[i] as nat
    } else {
        0
    }
}

/// The `k`-th big-endian 16-bit word of `s`.
pub open spec fn word_at(s: Seq<u8>, k: int) -> nat {
    byte_or_zero(s, 2 * k) * 256 + byte_or_zero(s, 2 * k + 1)
}

/// The plain sum of the first `n` words of `s`.
pub open spec fn words_sum_upto(s: Seq<u8>, n: nat) -> nat
    decreases n,
{
    if n == 0 {
        0
    } else {
        words_sum_upto(s, (n - 1) as nat) + word_at(s, n - 1)
    }
}

/// The number of 16-bit words in `s`, an odd trailing byte counting as one.
pub open spec fn word_count(s: Seq<u8>) -> nat {
    ((s.len() + 1) / 2) as nat
}

/// The plain sum of all words of `s`, padded with a zero byte if its length is odd.
pub open spec fn words_sum(s: Seq<u8>) -> nat {
    words_sum_upto(s, word_count(s))
}

/// The checksum that makes a sum valid: the complement of its one's-complement sum.
pub open spec fn checksum_of(x: nat) -> nat {
    (0xffff - ones_sum(x)) as nat
}

/// A sum that includes its checksum field is valid when its one's-complement sum is all ones.
pub open spec fn sum_is_valid(x: nat) -> bool {
    ones_sum(x) == 0xffff
}

pub proof fn lemma_ones_sum_basics(x: nat)
    ensures
        ones_sum(x) <= 0xffff,
        ones_sum(x) % 0xffff == x % 0xffff,
        ones_sum(x) == 0 <==> x == 0,
        x <= 0xffff ==> ones_sum(x) == x,
{
    if x > 0 {
        let y = (x - 1) as nat;
        assert(ones_sum(x) == y % 0xffff + 1);
        assert((y % 0xffff + 1) % 0xffff == (y + 1) % 0xffff) by {
            vstd::arithmetic::div_mod::lemma_add_mod_noop(y as int, 1, 0xffff);
            vstd::arithmetic::div_mod::lemma_mod_twice(y as int, 0xffff);
        }
    }
}

/// The one's-complement sum depends only on whether the sum is zero and on its
/// residue modulo `0xffff`.
pub proof fn lemma_ones_sum_congruent(x: nat, y: nat)
    requires
        x == 0 <==> y == 0,
        x % 0xffff == y % 0xffff,
    ensures
        ones_sum(x) == ones_sum(y),
{
    if x > 0 {
        vstd::arithmetic::div_mod::lemma_sub_mod_noop(x as int, 1, 0xffff);
        vstd::arithmetic::div_mod::lemma_sub_mod_noop(y as int, 1, 0xffff);
    }
}

/// Folding partial sums into one's-complement form before adding them changes nothing.
pub proof fn lemma_ones_sum_add(a: nat, b: nat)
    ensures
        ones_sum(ones_sum(a) + ones_sum(b)) == ones_sum(a + b),
{
    lemma_ones_sum_basics(a);
    lemma_ones_sum_basics(b);
    vstd::arithmetic::div_mod::lemma_add_mod_noop(a as int, b as int, 0xffff);
    vstd::arithmetic::div_mod::lemma_add_mod_noop(
        ones_sum(a) as int,
        ones_sum(b) as int,
        0xffff,
    );
    lemma_ones_sum_congruent(ones_sum(a) + ones_sum(b), a + b);
}

/// Adding the checksum of a sum to that sum gives a valid sum.
pub proof fn lemma_checksum_completes(x: nat)
    ensures
        sum_is_valid(x + checksum_of(x)),
{
    lemma_ones_sum_basics(x);
    let y = x + checksum_of(x);
    if x == 0 {
        assert(y == 0xffff);
        lemma_ones_sum_basics(y);
    } else {
        assert(y > 0);
        assert((x + 0xffff - ones_sum(x)) % 0xffff == 0int) by {
            vstd::arithmetic::div_mod::lemma_sub_mod_noop(
                (x + 0xffff) as int,
                ones_sum(x) as int,
                0xffff,
            );
            vstd::arithmetic::div_mod::lemma_add_mod_noop(x as int, 0xffff, 0xffff);
            vstd::arithmetic::div_mod::lemma_mod_self_0(0xffff);
            vstd::arithmetic::div_mod::lemma_small_mod(0, 0xffff);
        }
        lemma_ones_sum_basics(0xffff);
        lemma_ones_sum_congruent(y, 0xffff);
    }
}

/// Adds a word to a running sum with the end-around carry folded back in.
pub fn add_carry(sum: u32, w: u16) -> (r: u32)
    requires
        sum + w <= u32::MAX,
    ensures
        r == (sum + w) % 0x10000 + (sum + w) / 0x10000,
        sum <= 0xffff ==> r == ones_sum((sum + w) as nat) && r <= 0xffff,
{
    let s: u32 = sum + w as u32;
    assert(s & 0xffff == s % 0x10000 && s >> 16 == s / 0x10000) by (bit_vector);
    let r = (s & 0xffff) + (s >> 16);
    proof {
        if sum <= 0xffff {
            lemma_ones_sum_basics(s as nat);
            if s >= 0x10000 {
                assert(s / 0x10000 == 1);
                assert(s % 0x10000 == s - 0x10000);
                let y = (s - 1) as nat;
                assert(y % 0xffff == y - 0xffff) by {
                    vstd::arithmetic::div_mod::lemma_fundamental_div_mod_converse(
                        y as int,
                        0xffff,
                        1,
                        y - 0xffff,
                    );
                }
            } else {
                assert(s / 0x10000 == 0);
                assert(s % 0x10000 == s);
            }
        }
    }
    r
}

/// Folds a 32-bit sum into 16 bits and complements it: the checksum of `csum`.
pub fn fold_csum(csum: u32) -> (r: u16)
    ensures
        r == checksum_of(csum as nat),
{
    assert(csum & 0xffff == csum % 0x10000 && csum >> 16 == csum / 0x10000) by (bit_vector);
    let c1: u32 = (csum & 0xffff) + (csum >> 16);
    assert(c1 & 0xffff == c1 % 0x10000 && c1 >> 16 == c1 / 0x10000) by (bit_vector);
    let c2: u32 = (c1 & 0xffff) + (c1 >> 16);
    proof {
        lemma_fold_step(csum as nat);
        lemma_fold_step(c1 as nat);
        assert(c1 <= 0x1fffe);
        assert(c2 <= 0xffff) by {
            if c1 >= 0x10000 {
                assert(c1 / 0x10000 == 1);
            } else {
                assert(c1 / 0x10000 == 0);
            }
        }
        lemma_ones_sum_basics(c2 as nat);
    }
    let r = !(c2 as u16);
    assert(c2 <= 0xffff ==> !(c2 as u16) == 0xffff - c2) by (bit_vector);
    r
}

/// One fold keeps the one's-complement sum.
proof fn lemma_fold_step(x: nat)
    ensures
        ones_sum(x % 0x10000 + x / 0x10000) == ones_sum(x),
        x <= 0xffff_ffff ==> x % 0x10000 + x / 0x10000 <= 0x1fffe,
{
    let y = x % 0x10000 + x / 0x10000;
    vstd::arithmetic::div_mod::lemma_fundamental_div_mod(x as int, 0x10000);
    // x == 0x10000 * q + m == 0xffff * q + (q + m)
    let q = x / 0x10000;
    let m = x % 0x10000;
    assert(x == 0xffff * q + y) by (nonlinear_arith)
        requires x == 0x10000 * q + m, y == m + q;
    assert(x % 0xffff == y % 0xffff) by {
        vstd::arithmetic::div_mod::lemma_mod_multiples_vanish(q as int, y as int, 0xffff);
    }
    assert(x == 0 <==> y == 0);
    lemma_ones_sum_congruent(y, x);
    if x <= 0xffff_ffff {
        vstd::arithmetic::div_mod::lemma_div_is_ordered(x as int, 0xffff_ffff, 0x10000);
    }
}

/// Replacing one word of a sequence moves its word sum by the difference of
/// the two words.
pub proof fn lemma_words_sum_one_word(s: Seq<u8>, t: Seq<u8>, k: int, n: nat)
    requires
        0 <= k,
        forall|j: int| 0 <= j < n && j != k ==> word_at(s, j) == word_at(t, j),
    ensures
        words_sum_upto(t, n) + (if k < n { word_at(s, k) } else { 0 }) == words_sum_upto(s, n) + (
        if k < n {
            word_at(t, k)
        } else {
            0
        }),
    decreases n,
{
    if n > 0 {
        lemma_words_sum_one_word(s, t, k, (n - 1) as nat);
    }
}

/// Sums the words of `buf[start..start + len]` in one's-complement form.
pub fn sum_words(buf: &Vec<u8>, start: usize, len: usize) -> (r: u32)
    requires
        start + len <= buf@.len(),
    ensures
        r == ones_sum(words_sum(buf@.subrange(start as int, start + len))),
        r <= 0xffff,
{
    let ghost seg = buf@.subrange(start as int, start + len);
    let mut acc: u32 = 0;
    let mut i: usize = 0;
    let ghost mut k: nat = 0;
    let total = buf.len();
    while i < len
        invariant
            start + len <= buf@.len(),
            buf@.len() == total,
            seg == buf@.subrange(start as int, start + len),
            i <= len,
            i == 2 * k || (i == len && 2 * k == len + 1),
            acc <= 0xffff,
            acc == ones_sum(words_sum_upto(seg, k)),
        decreases len - i,
    {
        let hi = buf[start + i] as u16;
        let (lo, step): (u16, usize) = if i + 1 < len {
            (buf[start + i + 1] as u16, 2)
        } else {
            (0, 1)
        };
        let w: u16 = hi * 256 + lo;
        proof {
            assert(w == word_at(seg, k as int));
            lemma_ones_sum_basics(acc as nat);
            lemma_ones_sum_basics(w as nat);
            lemma_ones_sum_add(words_sum_upto(seg, k), w as nat);
        }
        acc = add_carry(acc, w);
        i = i + step;
        proof {
            k = k + 1;
        }
    }
    acc
}

} // verus!
