//! A 64-bit set of squares and the bit operations on it.
use core::ops::{BitAnd, BitOr, BitXor, Mul, Not, Shl, Shr};
use vstd::prelude::*;
use vstd::std_specs::bits::{axiom_u64_trailing_zeros, u64_trailing_zeros};
use vstd::std_specs::ops::{
    BitAndSpecImpl, BitOrSpecImpl, BitXorSpecImpl, MulSpecImpl, NotSpecImpl, ShlSpecImpl,
    ShrSpecImpl,
};

verus! {

/// Whether bit `i` of `x` is set.
pub open spec fn bit(x: u64, i: int) -> bool {
    0 <= i < 64 && (x >> (i as u64)) & 1 == 1
}

/// Number of set bits of `x`.
pub open spec fn popcount(x: u64) -> nat
    decreases x,
{
    if x == 0 {
        0
    } else {
        ((x % 2) + popcount(x / 2)) as nat
    }
}

/// Index of the lowest set bit of `x`, and 64 where `x` is zero.
pub open spec fn lowest(x: u64) -> int {
    u64_trailing_zeros(x) as int
}

/// `x` without its lowest set bit.
pub open spec fn without_lowest(x: u64) -> u64 {
    if x == 0 {
        0
    } else {
        x & ((x - 1) as u64)
    }
}

/// Taken on trust of `u64::count_ones`: it returns the number of ones in the binary
/// representation of its argument, which is what `popcount` counts, and so at most 64.
pub assume_specification[ u64::count_ones ](x: u64) -> (r: u32)
    ensures
        r == popcount(x),
        r <= 64,
;

/// The lowest set bit of a nonzero word is set, and no bit below it is.
pub proof fn lemma_lowest(x: u64)
    requires
        x != 0,
    ensures
        0 <= lowest(x) < 64,
        bit(x, lowest(x)),
        forall|j: int| 0 <= j < lowest(x) ==> !bit(x, j),
{
    axiom_u64_trailing_zeros(x);
    let t = u64_trailing_zeros(x);
    assert forall|j: int| 0 <= j < lowest(x) implies !bit(x, j) by {
        let ju = j as u64;
        assert((x >> ju) & 1u64 == 0u64);
    }
}

/// Dropping the lowest set bit of `x`, seen bit by bit; `t` is the index of that bit and `s`
/// counts the bits above it.
proof fn lemma_without_lowest_bits(x: u64, m: u64, y: u64, t: u64, s: u64, j: u64)
    by (bit_vector)
    requires
        x != 0,
        m == x - 1,
        y == x & m,
        t < 64,
        s + t == 64,
        j < 64,
        (x >> t) & 1 == 1,
        x << s == 0,
    ensures
        y < x,
        (y >> j) & 1 == (if j == t {
            0
        } else {
            (x >> j) & 1
        }),
{
}

/// Dropping the lowest set bit clears that bit, keeps the others and makes the word smaller.
pub proof fn lemma_without_lowest(x: u64)
    requires
        x != 0,
    ensures
        without_lowest(x) < x,
        !bit(without_lowest(x), lowest(x)),
        forall|j: int| j != lowest(x) ==> bit(without_lowest(x), j) == bit(x, j),
{
    axiom_u64_trailing_zeros(x);
    let t = u64_trailing_zeros(x) as u64;
    let y = without_lowest(x);
    let m: u64 = (x - 1) as u64;
    let s: u64 = (64 - t) as u64;
    assert(x << s == 0);
    lemma_without_lowest_bits(x, m, y, t, s, 0);
    assert forall|j: int| 0 <= j < 64 implies ((j == t ==> !bit(y, j)) && (j != t ==> bit(y, j)
        == bit(x, j))) by {
        lemma_without_lowest_bits(x, m, y, t, s, j as u64);
    }
}

/// How dropping the lowest set bit acts on an odd word and on an even one.
proof fn lemma_without_lowest_halves(x: u64, m: u64, y: u64, h: u64, hm: u64)
    by (bit_vector)
    requires
        x != 0,
        m == x - 1,
        y == x & m,
        h == x / 2,
        h != 0 ==> hm == h - 1,
    ensures
        x % 2 == 1 ==> y == x - 1,
        x % 2 == 0 ==> h != 0 && y == 2 * (h & hm),
{
}

/// A nonzero word has one set bit more than what is left without its lowest set bit.
pub proof fn lemma_popcount_without_lowest(x: u64)
    requires
        x != 0,
    ensures
        popcount(x) == 1 + popcount(without_lowest(x)),
    decreases x,
{
    let m: u64 = (x - 1) as u64;
    let y = without_lowest(x);
    let h: u64 = x / 2;
    let hm: u64 = if h != 0 {
        (h - 1) as u64
    } else {
        0
    };
    lemma_without_lowest_halves(x, m, y, h, hm);
    if x % 2 == 1 {
        assert(y / 2 == x / 2);
        assert(y % 2 == 0);
    } else {
        lemma_popcount_without_lowest(h);
        let z = without_lowest(h);
        assert(y == 2 * z);
        assert(y / 2 == z);
        assert(y % 2 == 0);
    }
}

/// A word has at most 64 set bits, and none only if it is zero.
pub proof fn lemma_popcount_bounds(x: u64)
    ensures
        popcount(x) <= 64,
        x != 0 ==> popcount(x) >= 1,
        x == 0 ==> popcount(x) == 0,
{
    vstd::arithmetic::power2::lemma2_to64();
    vstd::arithmetic::power2::lemma2_to64_rest();
    lemma_popcount_below(x, 64);
    if x != 0 {
        lemma_popcount_without_lowest(x);
    }
}

/// A word below `2^n` has at most `n` set bits.
proof fn lemma_popcount_below(x: u64, n: nat)
    requires
        n <= 64,
        x < vstd::arithmetic::power2::pow2(n),
    ensures
        popcount(x) <= n,
    decreases n,
{
    vstd::arithmetic::power2::lemma2_to64();
    if n == 0 {
    } else if x != 0 {
        vstd::arithmetic::power2::lemma_pow2_unfold(n);
        lemma_popcount_below(x / 2, (n - 1) as nat);
    }
}

/// A word whose set bits are all named in a list has no more set bits than the list has
/// entries.
pub proof fn lemma_popcount_listed(x: u64, list: Seq<int>)
    requires
        forall|i: int| 0 <= i < 64 && bit(x, i) ==> list.contains(i),
    ensures
        popcount(x) <= list.len(),
    decreases list.len(),
{
    if x != 0 {
        lemma_lowest(x);
        lemma_without_lowest(x);
        lemma_popcount_without_lowest(x);
        let low = lowest(x);
        let rest = without_lowest(x);
        assert(list.contains(low));
        let k = choose|k: int| 0 <= k < list.len() && list[k] == low;
        let shorter = list.remove(k);
        assert forall|i: int| 0 <= i < 64 && bit(rest, i) implies shorter.contains(i) by {
            assert(bit(x, i) && i != low);
            let j = choose|j: int| 0 <= j < list.len() && list[j] == i;
            if j < k {
                assert(shorter[j] == i);
            } else {
                assert(shorter[j - 1] == i);
            }
        }
        lemma_popcount_listed(rest, shorter);
    }
}

/// A word is a single square exactly when it is not zero and nothing is left of it without
/// its lowest set bit.
pub proof fn lemma_single(x: u64)
    ensures
        (exists|i: int| 0 <= i < 64 && x == #[trigger] one(i)) == (x != 0 && without_lowest(x) == 0),
{
    if x != 0 && without_lowest(x) == 0 {
        lemma_lowest(x);
        lemma_without_lowest(x);
        let i = lowest(x);
        assert forall|j: int| 0 <= j < 64 implies bit(x, j) == bit(one(i), j) by {
            lemma_bit_one(i, j);
            lemma_bit_ops(0, 0, j);
        }
        lemma_bits_equal(x, one(i));
        assert(x == one(i));
    }
    if exists|i: int| 0 <= i < 64 && x == #[trigger] one(i) {
        let i = choose|i: int| 0 <= i < 64 && x == #[trigger] one(i);
        lemma_bit_one(i, i);
        lemma_lowest(x);
        lemma_without_lowest(x);
        lemma_bit_one(i, lowest(x));
        assert forall|j: int| 0 <= j < 64 implies !bit(without_lowest(x), j) by {
            lemma_bit_one(i, j);
        }
        lemma_bit_nonzero(without_lowest(x));
    }
}

/// Whether every square of `x` is a square of `mask`.
pub open spec fn subset_of(x: u64, mask: u64) -> bool {
    forall|i: int| 0 <= i < 64 ==> (#[trigger] bit(x, i) ==> bit(mask, i))
}

/// The word whose set bits are the indices below `n` that satisfy `p`.
pub open spec fn squares_below(p: spec_fn(int) -> bool, n: nat) -> u64
    decreases n,
{
    if n == 0 {
        0
    } else {
        let rest = squares_below(p, (n - 1) as nat);
        if p(n - 1) {
            rest | (1u64 << ((n - 1) as u64))
        } else {
            rest
        }
    }
}

/// The set of the squares that satisfy `p`, as a word.
pub open spec fn squares(p: spec_fn(int) -> bool) -> u64 {
    squares_below(p, 64)
}

/// The single-square word of index `k`.
pub open spec fn one(k: int) -> u64 {
    1u64 << (k as u64)
}

/// Bit `i` of a union, an intersection, a difference and a complement, and of zero.
proof fn lemma_bit_ops_word(x: u64, y: u64, i: u64)
    by (bit_vector)
    requires
        i < 64,
    ensures
        (((x | y) >> i) & 1 == 1) == ((x >> i) & 1 == 1 || (y >> i) & 1 == 1),
        (((x & y) >> i) & 1 == 1) == ((x >> i) & 1 == 1 && (y >> i) & 1 == 1),
        (((x ^ y) >> i) & 1 == 1) == (((x >> i) & 1 == 1) != ((y >> i) & 1 == 1)),
        (((!x) >> i) & 1 == 1) == !((x >> i) & 1 == 1),
        (0u64 >> i) & 1 == 0,
{
}

/// Bits of a union, an intersection and a complement.
pub proof fn lemma_bit_ops(x: u64, y: u64, i: int)
    requires
        0 <= i < 64,
    ensures
        bit(x | y, i) == (bit(x, i) || bit(y, i)),
        bit(x & y, i) == (bit(x, i) && bit(y, i)),
        bit(x ^ y, i) == (bit(x, i) != bit(y, i)),
        bit(!x, i) == !bit(x, i),
        !bit(0, i),
{
    lemma_bit_ops_word(x, y, i as u64);
}

/// Bit `i` of the single-square word of `k`.
proof fn lemma_bit_one_word(k: u64, i: u64)
    by (bit_vector)
    requires
        k < 64,
        i < 64,
    ensures
        (((1u64 << k) >> i) & 1 == 1) == (i == k),
        (1u64 << k) != 0,
{
}

/// The single-square word of `k` holds `k` and nothing else.
pub proof fn lemma_bit_one(k: int, i: int)
    requires
        0 <= k < 64,
    ensures
        bit(one(k), i) == (i == k),
        one(k) != 0,
{
    lemma_bit_one_word(k as u64, 0);
    if 0 <= i < 64 {
        lemma_bit_one_word(k as u64, i as u64);
    }
}

/// Bit `t` of a word shifted by `k`, and the test of one bit by a single-square word.
proof fn lemma_bit_shift_word(x: u64, k: u64, t: u64)
    by (bit_vector)
    requires
        k < 64,
        t < 64,
    ensures
        (((x << k) >> t) & 1 == 1) == (t >= k && (x >> ((t - k) as u64)) & 1 == 1),
        (((x >> k) >> t) & 1 == 1) == (t + k < 64 && (x >> ((t + k) as u64)) & 1 == 1),
        ((x & (1u64 << t)) != 0) == ((x >> t) & 1 == 1),
{
}

/// Bit `t` of a word shifted left by `k`: bit `t - k` of the word.
pub proof fn lemma_bit_shl(x: u64, k: int, t: int)
    requires
        0 <= k < 64,
        0 <= t < 64,
    ensures
        bit(x << (k as u64), t) == (t >= k && bit(x, t - k)),
{
    lemma_bit_shift_word(x, k as u64, t as u64);
}

/// Bit `t` of a word shifted right by `k`: bit `t + k` of the word.
pub proof fn lemma_bit_shr(x: u64, k: int, t: int)
    requires
        0 <= k < 64,
        0 <= t < 64,
    ensures
        bit(x >> (k as u64), t) == (t + k < 64 && bit(x, t + k)),
{
    lemma_bit_shift_word(x, k as u64, t as u64);
}

/// A word meets the single-square word of `t` exactly when it holds `t`.
pub proof fn lemma_bit_test(x: u64, t: int)
    requires
        0 <= t < 64,
    ensures
        (x & one(t) != 0) == bit(x, t),
{
    lemma_bit_shift_word(x, 0, t as u64);
}

/// A word with a set bit is not zero, and a nonzero word has a set bit.
pub proof fn lemma_bit_nonzero(x: u64)
    ensures
        (x != 0) == (exists|i: int| 0 <= i < 64 && bit(x, i)),
{
    if x != 0 {
        lemma_lowest(x);
        assert(bit(x, lowest(x)));
    } else {
        assert forall|i: int| 0 <= i < 64 implies !bit(x, i) by {
            lemma_bit_ops(x, x, i);
        }
    }
}

/// The `n` lowest bits of `x`.
pub open spec fn low_bits(x: u64, n: nat) -> u64 {
    if n >= 64 {
        x
    } else {
        x & !(0xffff_ffff_ffff_ffffu64 << (n as u64))
    }
}

/// Words that agree below bit `k` and on bit `k` agree below bit `k + 1`.
proof fn lemma_low_bits_step(a: u64, b: u64, k: u64)
    by (bit_vector)
    requires
        k < 64,
        a & !(0xffff_ffff_ffff_ffffu64 << k) == b & !(0xffff_ffff_ffff_ffffu64 << k),
        ((a >> k) & 1 == 1) == ((b >> k) & 1 == 1),
    ensures
        k == 63 ==> a == b,
        k < 63 ==> a & !(0xffff_ffff_ffff_ffffu64 << ((k + 1) as u64)) == b & !(
        0xffff_ffff_ffff_ffffu64 << ((k + 1) as u64)),
        a & !(0xffff_ffff_ffff_ffffu64 << 0) == 0,
{
}

/// Two words that agree on their `n` lowest bits have the same `n` lowest bits.
pub proof fn lemma_low_bits_equal(a: u64, b: u64, n: nat)
    requires
        n <= 64,
        forall|i: int| 0 <= i < n ==> bit(a, i) == bit(b, i),
    ensures
        low_bits(a, n) == low_bits(b, n),
    decreases n,
{
    if n == 0 {
        lemma_low_bits_step(a, a, 0);
        lemma_low_bits_step(b, b, 0);
    } else {
        let k = (n - 1) as u64;
        lemma_low_bits_equal(a, b, (n - 1) as nat);
        assert(bit(a, k as int) == bit(b, k as int));
        lemma_low_bits_step(a, b, k);
    }
}

/// Two words with the same bits are equal.
pub proof fn lemma_bits_equal(a: u64, b: u64)
    requires
        forall|i: int| 0 <= i < 64 ==> bit(a, i) == bit(b, i),
    ensures
        a == b,
{
    lemma_low_bits_equal(a, b, 64);
}

/// The bits of `squares_below(p, n)`.
pub proof fn lemma_squares_below(p: spec_fn(int) -> bool, n: nat, i: int)
    requires
        n <= 64,
    ensures
        bit(squares_below(p, n), i) == (0 <= i < n && p(i)),
    decreases n,
{
    if n == 0 {
        if 0 <= i < 64 {
            lemma_bit_ops(0, 0, i);
        }
    } else {
        let rest = squares_below(p, (n - 1) as nat);
        lemma_squares_below(p, (n - 1) as nat, i);
        if 0 <= i < 64 {
            lemma_bit_ops(rest, one(n - 1), i);
            lemma_bit_one(n - 1, i);
        }
    }
}

/// A square is in `squares(p)` exactly when it satisfies `p`.
pub proof fn lemma_squares(p: spec_fn(int) -> bool)
    ensures
        forall|i: int| #[trigger] bit(squares(p), i) == (0 <= i < 64 && p(i)),
{
    assert forall|i: int| #[trigger] bit(squares(p), i) == (0 <= i < 64 && p(i)) by {
        lemma_squares_below(p, 64, i);
    }
}

/// A word whose bits are those that satisfy `p` is `squares(p)`.
pub proof fn lemma_is_squares(x: u64, p: spec_fn(int) -> bool)
    requires
        forall|i: int| 0 <= i < 64 ==> bit(x, i) == p(i),
    ensures
        x == squares(p),
{
    lemma_squares(p);
    lemma_bits_equal(x, squares(p));
}

/// A set of squares: bit `8 * rank + file` stands for the square, bit 0 for a1, bit 63 for h8.
#[derive(Copy, Clone, Debug, Eq, Hash)]
pub struct Bitboard(pub u64);

impl PartialEq for Bitboard {
    fn eq(&self, other: &Bitboard) -> (r: bool) {
        self.0 == other.0
    }
}

impl vstd::std_specs::cmp::PartialEqSpecImpl for Bitboard {
    open spec fn obeys_eq_spec() -> bool {
        true
    }

    open spec fn eq_spec(&self, other: &Bitboard) -> bool {
        self.0 == other.0
    }
}

impl PartialEq<u64> for Bitboard {
    fn eq(&self, other: &u64) -> (r: bool) {
        self.0 == *other
    }
}

impl vstd::std_specs::cmp::PartialEqSpecImpl<u64> for Bitboard {
    open spec fn obeys_eq_spec() -> bool {
        true
    }

    open spec fn eq_spec(&self, other: &u64) -> bool {
        self.0 == *other
    }
}

impl PartialEq<Bitboard> for u64 {
    fn eq(&self, other: &Bitboard) -> (r: bool) {
        *self == other.0
    }
}

impl vstd::std_specs::cmp::PartialEqSpecImpl<Bitboard> for u64 {
    open spec fn obeys_eq_spec() -> bool {
        true
    }

    open spec fn eq_spec(&self, other: &Bitboard) -> bool {
        *self == other.0
    }
}

impl BitAnd for Bitboard {
    type Output = Bitboard;

    fn bitand(self, rhs: Bitboard) -> (r: Bitboard) {
        Bitboard(self.0 & rhs.0)
    }
}

impl BitAndSpecImpl for Bitboard {
    open spec fn obeys_bitand_spec() -> bool {
        true
    }

    open spec fn bitand_req(self, rhs: Bitboard) -> bool {
        true
    }

    open spec fn bitand_spec(self, rhs: Bitboard) -> Bitboard {
        Bitboard(self.0 & rhs.0)
    }
}

impl BitOr for Bitboard {
    type Output = Bitboard;

    fn bitor(self, rhs: Bitboard) -> (r: Bitboard) {
        Bitboard(self.0 | rhs.0)
    }
}

impl BitOrSpecImpl for Bitboard {
    open spec fn obeys_bitor_spec() -> bool {
        true
    }

    open spec fn bitor_req(self, rhs: Bitboard) -> bool {
        true
    }

    open spec fn bitor_spec(self, rhs: Bitboard) -> Bitboard {
        Bitboard(self.0 | rhs.0)
    }
}

impl BitXor for Bitboard {
    type Output = Bitboard;

    fn bitxor(self, rhs: Bitboard) -> (r: Bitboard) {
        Bitboard(self.0 ^ rhs.0)
    }
}

impl BitXorSpecImpl for Bitboard {
    open spec fn obeys_bitxor_spec() -> bool {
        true
    }

    open spec fn bitxor_req(self, rhs: Bitboard) -> bool {
        true
    }

    open spec fn bitxor_spec(self, rhs: Bitboard) -> Bitboard {
        Bitboard(self.0 ^ rhs.0)
    }
}

impl Not for Bitboard {
    type Output = Bitboard;

    fn not(self) -> (r: Bitboard) {
        Bitboard(!self.0)
    }
}

impl NotSpecImpl for Bitboard {
    open spec fn obeys_not_spec() -> bool {
        true
    }

    open spec fn not_req(self) -> bool {
        true
    }

    open spec fn not_spec(self) -> Bitboard {
        Bitboard(!self.0)
    }
}

impl Shl<usize> for Bitboard {
    type Output = Bitboard;

    fn shl(self, rhs: usize) -> (r: Bitboard) {
        Bitboard(self.0 << rhs)
    }
}

impl ShlSpecImpl<usize> for Bitboard {
    open spec fn obeys_shl_spec() -> bool {
        true
    }

    open spec fn shl_req(self, rhs: usize) -> bool {
        rhs < 64
    }

    open spec fn shl_spec(self, rhs: usize) -> Bitboard {
        Bitboard(self.0 << rhs)
    }
}

impl Shr<usize> for Bitboard {
    type Output = Bitboard;

    fn shr(self, rhs: usize) -> (r: Bitboard) {
        Bitboard(self.0 >> rhs)
    }
}

impl ShrSpecImpl<usize> for Bitboard {
    open spec fn obeys_shr_spec() -> bool {
        true
    }

    open spec fn shr_req(self, rhs: usize) -> bool {
        rhs < 64
    }

    open spec fn shr_spec(self, rhs: usize) -> Bitboard {
        Bitboard(self.0 >> rhs)
    }
}

impl Mul<u64> for Bitboard {
    type Output = u64;

    fn mul(self, rhs: u64) -> (r: u64) {
        self.0 * rhs
    }
}

impl MulSpecImpl<u64> for Bitboard {
    open spec fn obeys_mul_spec() -> bool {
        true
    }

    open spec fn mul_req(self, rhs: u64) -> bool {
        self.0 * rhs <= u64::MAX
    }

    open spec fn mul_spec(self, rhs: u64) -> u64 {
        (self.0 * rhs) as u64
    }
}

impl BitAnd<u8> for Bitboard {
    type Output = Bitboard;

    fn bitand(self, rhs: u8) -> (r: Bitboard) {
        Bitboard(self.0 & (rhs as u64))
    }
}

impl BitAndSpecImpl<u8> for Bitboard {
    open spec fn obeys_bitand_spec() -> bool {
        true
    }

    open spec fn bitand_req(self, rhs: u8) -> bool {
        true
    }

    open spec fn bitand_spec(self, rhs: u8) -> Bitboard {
        Bitboard(self.0 & (rhs as u64))
    }
}

impl Bitboard {
    /// Whether the square with index `i` is in the set.
    pub open spec fn contains(self, i: int) -> bool {
        bit(self.0, i)
    }

    /// Number of squares in the set.
    pub fn count_ones(self) -> (r: u32)
        ensures
            r == popcount(self.0),
            r <= 64,
    {
        self.0.count_ones()
    }

    /// The product with `n`, reduced modulo 2^64.
    pub fn wrapping_mul(self, n: u64) -> (r: u64)
        ensures
            r == (self.0 * n) % 0x1_0000_0000_0000_0000,
    {
        self.0.wrapping_mul(n)
    }

    /// Takes the lowest square out of the set and returns its index; `None`, and no change,
    /// on the empty set.
    pub fn pop_lsb(&mut self) -> (r: Option<usize>)
        ensures
            old(self).0 == 0 ==> r.is_none() && final(self).0 == 0,
            old(self).0 != 0 ==> r == Some(lowest(old(self).0) as usize),
            final(self).0 == without_lowest(old(self).0),
    {
        if self.0 == 0 {
            return None;
        }
        proof {
            axiom_u64_trailing_zeros(self.0);
        }
        let lsb_index = self.0.trailing_zeros() as usize;
        self.0 &= self.0 - 1;
        Some(lsb_index)
    }
}

} // verus!
