//! Sliding attacks: the ray walk that defines them and the magic tables that look them up.
use crate::bitboard::{
    bit, lemma_bit_one, lemma_bit_ops, lemma_bits_equal, lemma_is_squares, lemma_lowest,
    lemma_popcount_bounds, lemma_popcount_without_lowest, lemma_squares, lemma_without_lowest,
    lowest, one, popcount, squares, subset_of, without_lowest, Bitboard,
};
use crate::geometry::{
    inner_ray, lemma_attack_relevant, lemma_mask_size, ray_sees, relevant, relevant_dir,
    relevant_mask, slider_attack, slider_sees, walk_ray, Direction,
};
use crate::utils::{Kind, Square};
use rustc_hash::{FxBuildHasher, FxHashMap};
use vstd::arithmetic::power2::{lemma2_to64, lemma_pow2_strictly_increases, lemma_pow2_unfold, pow2};
use vstd::prelude::*;

verus! {

/// The attack set of a rook or bishop on `square` by walking its four rays: each ray runs
/// up to and including the first square that `blockers` holds.
pub fn compute_attack(square: Square, blockers: Bitboard, kind: Kind) -> (r: Bitboard)
    requires
        kind == Kind::Rook || kind == Kind::Bishop,
    ensures
        r.0 == slider_attack(kind, square.index(), blockers.0),
{
    let ghost s = square.index();
    let ghost occ = blockers.0;
    let diagonal = match kind {
        Kind::Bishop => true,
        _ => false,
    };
    let (a, b, c, d) = if diagonal {
        (
            walk_ray(square, blockers, 1, 1),
            walk_ray(square, blockers, 1, -1),
            walk_ray(square, blockers, -1, 1),
            walk_ray(square, blockers, -1, -1),
        )
    } else {
        (
            walk_ray(square, blockers, 1, 0),
            walk_ray(square, blockers, -1, 0),
            walk_ray(square, blockers, 0, 1),
            walk_ray(square, blockers, 0, -1),
        )
    };
    let attacks = a.0 | b.0 | c.0 | d.0;
    proof {
        let p = |t: int| slider_sees(kind, occ, s, t);
        assert forall|t: int| 0 <= t < 64 implies bit(attacks, t) == p(t) by {
            lemma_bit_ops(a.0 | b.0 | c.0, d.0, t);
            lemma_bit_ops(a.0 | b.0, c.0, t);
            lemma_bit_ops(a.0, b.0, t);
            if diagonal {
                lemma_squares(|t: int| ray_sees(occ, s, t, 1, 1));
                lemma_squares(|t: int| ray_sees(occ, s, t, 1, -1));
                lemma_squares(|t: int| ray_sees(occ, s, t, -1, 1));
                lemma_squares(|t: int| ray_sees(occ, s, t, -1, -1));
            } else {
                lemma_squares(|t: int| ray_sees(occ, s, t, 1, 0));
                lemma_squares(|t: int| ray_sees(occ, s, t, -1, 0));
                lemma_squares(|t: int| ray_sees(occ, s, t, 0, 1));
                lemma_squares(|t: int| ray_sees(occ, s, t, 0, -1));
            }
        }
        lemma_is_squares(attacks, p);
    }
    Bitboard(attacks)
}

/// The squares whose occupancy can change what a rook on `square` attacks: its four rays,
/// each without its last square.
pub fn generate_rook_attack_mask(square: Square) -> (r: Bitboard)
    ensures
        r.0 == relevant_mask(Kind::Rook, square.index()),
{
    let a = inner_ray(square, Direction::North);
    let b = inner_ray(square, Direction::South);
    let c = inner_ray(square, Direction::East);
    let d = inner_ray(square, Direction::West);
    let mask = a.0 | b.0 | c.0 | d.0;
    proof {
        let s = square.index();
        let p = |t: int| relevant(Kind::Rook, s, t);
        lemma_squares(|t: int| relevant_dir(s, t, 1, 0));
        lemma_squares(|t: int| relevant_dir(s, t, -1, 0));
        lemma_squares(|t: int| relevant_dir(s, t, 0, 1));
        lemma_squares(|t: int| relevant_dir(s, t, 0, -1));
        assert forall|t: int| 0 <= t < 64 implies bit(mask, t) == p(t) by {
            lemma_bit_ops(a.0 | b.0 | c.0, d.0, t);
            lemma_bit_ops(a.0 | b.0, c.0, t);
            lemma_bit_ops(a.0, b.0, t);
        }
        lemma_is_squares(mask, p);
    }
    Bitboard(mask)
}

/// The squares whose occupancy can change what a bishop on `square` attacks: its four
/// diagonal rays, each without its last square.
pub fn generate_bishop_attack_mask(square: Square) -> (r: Bitboard)
    ensures
        r.0 == relevant_mask(Kind::Bishop, square.index()),
{
    let a = inner_ray(square, Direction::NorthEast);
    let b = inner_ray(square, Direction::NorthWest);
    let c = inner_ray(square, Direction::SouthEast);
    let d = inner_ray(square, Direction::SouthWest);
    let mask = a.0 | b.0 | c.0 | d.0;
    proof {
        let s = square.index();
        let p = |t: int| relevant(Kind::Bishop, s, t);
        lemma_squares(|t: int| relevant_dir(s, t, 1, 1));
        lemma_squares(|t: int| relevant_dir(s, t, 1, -1));
        lemma_squares(|t: int| relevant_dir(s, t, -1, 1));
        lemma_squares(|t: int| relevant_dir(s, t, -1, -1));
        assert forall|t: int| 0 <= t < 64 implies bit(mask, t) == p(t) by {
            lemma_bit_ops(a.0 | b.0 | c.0, d.0, t);
            lemma_bit_ops(a.0 | b.0, c.0, t);
            lemma_bit_ops(a.0, b.0, t);
        }
        lemma_is_squares(mask, p);
    }
    Bitboard(mask)
}

/// Whether `list` names every subset of `mask` exactly once.
pub open spec fn lists_subsets(list: Seq<Bitboard>, mask: u64) -> bool {
    &&& forall|k: int| 0 <= k < list.len() ==> subset_of(#[trigger] list[k].0, mask)
    &&& forall|x: u64| subset_of(x, mask) ==> exists|k: int| 0 <= k < list.len() && #[trigger] list[k].0 == x
    &&& forall|j: int, k: int| 0 <= j < k < list.len() ==> #[trigger] list[j].0 != #[trigger] list[k].0
}

/// Every subset of `mask`, each once, the empty one first: as many as two to the number of
/// squares in `mask`.
pub fn enumerate_blockers(mask: Bitboard) -> (r: Vec<Bitboard>)
    requires
        popcount(mask.0) < 32,
    ensures
        r.len() == pow2(popcount(mask.0)),
        lists_subsets(r@, mask.0),
        r[0].0 == 0,
{
    let mut out: Vec<Bitboard> = Vec::new();
    out.push(Bitboard(0));
    let mut rest: u64 = mask.0;
    let ghost mut done: u64 = 0;
    proof {
        lemma2_to64();
        lemma_popcount_bounds(mask.0);
        assert forall|i: int| 0 <= i < 64 implies !bit(0, i) by {
            lemma_bit_ops(0, 0, i);
        }
        assert forall|x: u64| subset_of(x, done) implies exists|k: int|
            0 <= k < out@.len() && #[trigger] out@[k].0 == x by {
            lemma_bits_equal(x, 0);
            assert(out@[0].0 == x);
        }
    }
    while rest != 0
        invariant
            popcount(mask.0) < 32,
            popcount(rest) <= popcount(mask.0),
            out.len() == pow2((popcount(mask.0) - popcount(rest)) as nat),
            forall|i: int| 0 <= i < 64 ==> (bit(done, i) <==> bit(mask.0, i) && !bit(rest, i)),
            forall|i: int| 0 <= i < 64 ==> (bit(rest, i) ==> bit(mask.0, i)),
            lists_subsets(out@, done),
            out.len() >= 1,
            out[0].0 == 0,
        decreases rest,
    {
        let p: u32 = rest.trailing_zeros();
        let n: usize = out.len();
        let ghost before = out@;
        let ghost old_done = done;
        let ghost old_rest = rest;
        proof {
            lemma_lowest(rest);
            lemma_without_lowest(rest);
            lemma_popcount_without_lowest(rest);
            lemma_popcount_bounds(without_lowest(rest));
            let e = (popcount(mask.0) - popcount(rest)) as nat;
            lemma2_to64();
            lemma_pow2_unfold(e + 1);
            if e + 1 < 31 {
                lemma_pow2_strictly_increases(e + 1, 31);
            }
            lemma_bit_one(p as int, 0);
        }
        let b: u64 = 1u64 << p;
        let mut i: usize = 0;
        while i < n
            invariant
                n == before.len(),
                2 * n <= 0x8000_0000,
                i <= n,
                out.len() == n + i,
                forall|k: int| 0 <= k < n ==> out[k] == before[k],
                forall|k: int| 0 <= k < i ==> #[trigger] out[n + k].0 == before[k].0 | b,
            decreases n - i,
        {
            let v = out[i].0 | b;
            out.push(Bitboard(v));
            i += 1;
        }
        rest = rest & (rest - 1);
        proof {
            done = old_done | b;
            assert(rest == without_lowest(old_rest));
            assert forall|j: int| 0 <= j < 64 && bit(rest, j) implies bit(mask.0, j) by {
                assert(bit(old_rest, j));
            }
            assert forall|j: int| 0 <= j < 64 implies (bit(done, j) <==> bit(mask.0, j) && !bit(
                rest,
                j,
            )) by {
                lemma_bit_ops(old_done, b, j);
                lemma_bit_one(p as int, j);
            }
            assert forall|k: int| 0 <= k < out@.len() implies subset_of(
                #[trigger] out@[k].0,
                done,
            ) by {
                let v = out@[k].0;
                if k < n {
                    assert(subset_of(before[k].0, old_done));
                    assert forall|j: int| 0 <= j < 64 && bit(v, j) implies bit(done, j) by {
                        lemma_bit_ops(old_done, b, j);
                    }
                } else {
                    let k0 = k - n;
                    assert(out@[n + k0].0 == before[k0].0 | b);
                    assert(subset_of(before[k0].0, old_done));
                    assert forall|j: int| 0 <= j < 64 && bit(v, j) implies bit(done, j) by {
                        lemma_bit_ops(old_done, b, j);
                        lemma_bit_ops(before[k0].0, b, j);
                    }
                }
            }
            assert forall|x: u64| subset_of(x, done) implies exists|k: int|
                0 <= k < out@.len() && #[trigger] out@[k].0 == x by {
                let x0 = x & !b;
                assert forall|j: int| 0 <= j < 64 implies (bit(x0, j) <==> bit(x, j) && j
                    != p) by {
                    lemma_bit_ops(x, !b, j);
                    lemma_bit_ops(b, b, j);
                    lemma_bit_one(p as int, j);
                }
                assert forall|j: int| 0 <= j < 64 && bit(x0, j) implies bit(old_done, j) by {
                    lemma_bit_ops(old_done, b, j);
                    lemma_bit_one(p as int, j);
                }
                assert(subset_of(x0, old_done));
                let k0 = choose|k: int| 0 <= k < before.len() && #[trigger] before[k].0 == x0;
                if bit(x, p as int) {
                    assert(out@[n + k0].0 == before[k0].0 | b);
                    assert forall|j: int| 0 <= j < 64 implies bit(x0 | b, j) == bit(x, j) by {
                        lemma_bit_ops(x0, b, j);
                        lemma_bit_one(p as int, j);
                    }
                    lemma_bits_equal(x0 | b, x);
                } else {
                    lemma_bits_equal(x0, x);
                    assert(out@[k0].0 == x);
                }
            }
            assert forall|j: int, k: int| 0 <= j < k < out@.len() implies #[trigger] out@[j].0
                != #[trigger] out@[k].0 by {
                if k < n {
                    assert(before[j].0 != before[k].0);
                } else if j < n {
                    let k0 = k - n;
                    assert(out@[n + k0].0 == before[k0].0 | b);
                    lemma_bit_ops(before[k0].0, b, p as int);
                    lemma_bit_one(p as int, p as int);
                    assert(subset_of(before[j].0, old_done));
                    assert(!bit(before[j].0, p as int));
                } else {
                    let j0 = j - n;
                    let k0 = k - n;
                    assert(out@[n + j0].0 == before[j0].0 | b);
                    assert(out@[n + k0].0 == before[k0].0 | b);
                    assert(before[j0].0 != before[k0].0);
                    if before[j0].0 | b == before[k0].0 | b {
                        assert(subset_of(before[j0].0, old_done));
                        assert(subset_of(before[k0].0, old_done));
                        assert forall|q: int| 0 <= q < 64 implies bit(before[j0].0, q) == bit(
                            before[k0].0,
                            q,
                        ) by {
                            lemma_bit_ops(before[j0].0, b, q);
                            lemma_bit_ops(before[k0].0, b, q);
                            lemma_bit_one(p as int, q);
                        }
                        lemma_bits_equal(before[j0].0, before[k0].0);
                    }
                }
            }
        }
    }
    proof {
        lemma_popcount_bounds(rest);
        assert forall|i: int| 0 <= i < 64 implies bit(done, i) == bit(mask.0, i) by {
            lemma_bit_ops(0, 0, i);
        }
        lemma_bits_equal(done, mask.0);
    }
    out
}

/// `rustc_hash::FxBuildHasher`, declared so that a map hashed by it can stand in a field or a
/// signature. The type carries no state; nothing is read of its values.
#[verifier::external_type_specification]
#[verifier::external_body]
pub struct ExFxBuildHasher(FxBuildHasher);

/// Calls `FxHashMap::default`. Taken on trust: the map it makes holds no key.
#[verifier::external_body]
fn table_new() -> (t: FxHashMap<u16, Bitboard>)
    ensures
        forall|key: u16| !t@.contains_key(key),
{
    FxHashMap::default()
}

/// Calls `HashMap::get` on a map hashed by `FxBuildHasher`. Taken on trust: it finds the
/// value stored under `key` if the map holds the key, and nothing otherwise. This rests on
/// the hasher giving equal keys equal hashes, which `FxHasher` does: it has no seed.
#[verifier::external_body]
fn table_get(t: &FxHashMap<u16, Bitboard>, key: u16) -> (r: Option<Bitboard>)
    ensures
        r == (if t@.contains_key(key) {
            Some(t@[key])
        } else {
            None
        }),
{
    t.get(&key).copied()
}

/// Calls `HashMap::insert` on a map hashed by `FxBuildHasher`. Taken on trust: afterwards
/// `key` maps to `value` and every other key to what it mapped to before.
#[verifier::external_body]
fn table_insert(t: &mut FxHashMap<u16, Bitboard>, key: u16, value: Bitboard)
    ensures
        final(t)@ == old(t)@.insert(key, value),
{
    t.insert(key, value);
}

/// Calls `rand::random::<u64>`, which draws from the generator of the thread. Nothing is
/// claimed of the value: two calls may give any two values.
#[verifier::external_body]
fn random_u64() -> u64 {
    rand::random::<u64>()
}

/// The table index of a blocker set: the product with the magic number, reduced modulo
/// 2^64 and shifted right, in its 16 lowest bits.
pub open spec fn magic_index(blockers: u64, magic: u64, shift: u8) -> u16 {
    (blockers.wrapping_mul(magic) >> (shift as u64)) as u16
}

/// The table index of a blocker set.
pub fn index_of(blockers: Bitboard, magic: u64, shift: u8) -> (r: u16)
    requires
        shift < 64,
    ensures
        r == magic_index(blockers.0, magic, shift),
{
    #[verifier::truncate]
    ((blockers.0.wrapping_mul(magic) >> shift) as u16)
}

/// Whether `table` holds, for every blocker set of `blockers`, the attack set at the same
/// position of `attacks`, under the index that `magic` and `shift` give the blocker set.
pub open spec fn table_matches(
    table: Map<u16, Bitboard>,
    blockers: Seq<Bitboard>,
    attacks: Seq<Bitboard>,
    magic: u64,
    shift: u8,
) -> bool {
    forall|i: int|
        0 <= i < blockers.len() ==> {
            let key = magic_index(#[trigger] blockers[i].0, magic, shift);
            table.contains_key(key) && table[key] == attacks[i]
        }
}

/// Whether two of the blocker sets get the same index but have different attack sets.
pub open spec fn collides(
    blockers: Seq<Bitboard>,
    attacks: Seq<Bitboard>,
    magic: u64,
    shift: u8,
) -> bool {
    exists|i: int, j: int|
        0 <= i < j < blockers.len() && magic_index(#[trigger] blockers[i].0, magic, shift)
            == magic_index(#[trigger] blockers[j].0, magic, shift) && attacks[i] != attacks[j]
}

/// Tries `magic` as the multiplier: fills a table with the attack set of each blocker set
/// under its index. Two blocker sets may share an index where their attack sets are equal;
/// where they differ the candidate fails.
pub fn build_table(blockers: &Vec<Bitboard>, attacks: &Vec<Bitboard>, magic: u64, shift: u8) -> (r:
    Option<FxHashMap<u16, Bitboard>>)
    requires
        shift < 64,
        attacks.len() == blockers.len(),
    ensures
        r is None <==> collides(blockers@, attacks@, magic, shift),
        r matches Some(t) ==> table_matches(t@, blockers@, attacks@, magic, shift),
{
    let mut table = table_new();
    let mut i: usize = 0;
    while i < blockers.len()
        invariant
            shift < 64,
            attacks.len() == blockers.len(),
            i <= blockers.len(),
            table_matches(table@, blockers@.take(i as int), attacks@.take(i as int), magic, shift),
            forall|key: u16| #[trigger]
                table@.contains_key(key) ==> exists|k: int|
                    0 <= k < i && magic_index(#[trigger] blockers[k].0, magic, shift) == key,
            !collides(blockers@.take(i as int), attacks@.take(i as int), magic, shift),
        decreases blockers.len() - i,
    {
        let key = index_of(blockers[i], magic, shift);
        let attack = attacks[i];
        let ghost before = table@;
        let ghost head = blockers@.take(i as int);
        let ghost head_attacks = attacks@.take(i as int);
        let ghost next = blockers@.take(i + 1);
        let ghost next_attacks = attacks@.take(i + 1);
        match table_get(&table, key) {
            Some(existing) => {
                if existing.0 != attack.0 {
                    proof {
                        let k = choose|k: int|
                            0 <= k < i && magic_index(#[trigger] blockers[k].0, magic, shift)
                                == key;
                        assert(head[k] == blockers[k]);
                        assert(before[key] == head_attacks[k]);
                        assert(magic_index(blockers@[k].0, magic, shift) == magic_index(
                            blockers@[i as int].0,
                            magic,
                            shift,
                        ));
                    }
                    return None;
                }
            },
            None => {
                table_insert(&mut table, key, attack);
            },
        }
        proof {
            assert forall|k: int| 0 <= k < next.len() implies ({
                let kk = magic_index(#[trigger] next[k].0, magic, shift);
                table@.contains_key(kk) && table@[kk] == next_attacks[k]
            }) by {
                if k < i {
                    assert(head[k] == next[k]);
                    assert(head_attacks[k] == next_attacks[k]);
                    let kk = magic_index(head[k].0, magic, shift);
                    assert(before.contains_key(kk) && before[kk] == head_attacks[k]);
                }
            }
            assert forall|a: int, b: int|
                0 <= a < b < next.len() && magic_index(#[trigger] next[a].0, magic, shift)
                    == magic_index(#[trigger] next[b].0, magic, shift) implies next_attacks[a]
                == next_attacks[b] by {
                assert(head[a] == next[a]);
                assert(head_attacks[a] == next_attacks[a]);
                if b < i {
                    assert(head[b] == next[b]);
                    assert(head_attacks[b] == next_attacks[b]);
                } else {
                    let kk = magic_index(head[a].0, magic, shift);
                    assert(before.contains_key(kk) && before[kk] == head_attacks[a]);
                }
            }
        }
        i += 1;
    }
    proof {
        assert(blockers@.take(i as int) == blockers@);
        assert(attacks@.take(i as int) == attacks@);
    }
    Some(table)
}

/// Working space for trying multipliers: for every index the attack set last recorded
/// under it, and the number of the trial that recorded it.
pub struct Scratch {
    pub attacks: Vec<u64>,
    pub stamps: Vec<u64>,
    pub trial: u64,
}

impl Scratch {
    /// Whether there is room for every index and no record of a trial not yet made.
    pub open spec fn wf(&self) -> bool {
        &&& self.attacks.len() == 0x1_0000
        &&& self.stamps.len() == 0x1_0000
        &&& forall|key: int| 0 <= key < 0x1_0000 ==> #[trigger] self.stamps[key] <= self.trial
    }

    /// Working space without records.
    pub fn new() -> (r: Scratch)
        ensures
            r.wf(),
            r.trial == 0,
    {
        let mut attacks: Vec<u64> = Vec::new();
        let mut stamps: Vec<u64> = Vec::new();
        let mut i: usize = 0;
        while i < 0x1_0000
            invariant
                i <= 0x1_0000,
                attacks.len() == i,
                stamps.len() == i,
                forall|key: int| 0 <= key < i ==> #[trigger] stamps[key] == 0,
            decreases 0x1_0000 - i,
        {
            attacks.push(0);
            stamps.push(0);
            i += 1;
        }
        Scratch { attacks, stamps, trial: 0 }
    }
}

/// Whether `magic` gives no two blocker sets with different attack sets the same index.
/// The records of earlier trials in `scratch` are overwritten.
pub fn hashes_cleanly(
    blockers: &Vec<Bitboard>,
    attacks: &Vec<Bitboard>,
    magic: u64,
    shift: u8,
    scratch: &mut Scratch,
) -> (r: bool)
    requires
        shift < 64,
        attacks.len() == blockers.len(),
        old(scratch).wf(),
        old(scratch).trial < u64::MAX,
    ensures
        r == !collides(blockers@, attacks@, magic, shift),
        final(scratch).wf(),
        final(scratch).trial == old(scratch).trial + 1,
{
    scratch.trial = scratch.trial + 1;
    let trial = scratch.trial;
    let mut i: usize = 0;
    while i < blockers.len()
        invariant
            shift < 64,
            attacks.len() == blockers.len(),
            i <= blockers.len(),
            scratch.wf(),
            scratch.trial == trial,
            trial == old(scratch).trial + 1,
            forall|key: int|
                0 <= key < 0x1_0000 && #[trigger] scratch.stamps[key] == trial ==> exists|k: int|
                    0 <= k < i && magic_index(#[trigger] blockers[k].0, magic, shift) == key,
            forall|k: int|
                0 <= k < i ==> {
                    let key = magic_index(#[trigger] blockers[k].0, magic, shift) as int;
                    scratch.stamps[key] == trial && scratch.attacks[key] == attacks[k].0
                },
        decreases blockers.len() - i,
    {
        let key = index_of(blockers[i], magic, shift) as usize;
        let attack = attacks[i].0;
        if scratch.stamps[key] == trial {
            if scratch.attacks[key] != attack {
                proof {
                    let k = choose|k: int|
                        0 <= k < i && magic_index(#[trigger] blockers[k].0, magic, shift) == key;
                    assert(attacks[k].0 == scratch.attacks[key as int]);
                    assert(magic_index(blockers@[k].0, magic, shift) == magic_index(
                        blockers@[i as int].0,
                        magic,
                        shift,
                    ));
                    assert(attacks@[k] != attacks@[i as int]);
                }
                return false;
            }
        } else {
            scratch.stamps[key] = trial;
            scratch.attacks[key] = attack;
        }
        i += 1;
    }
    proof {
        assert forall|a: int, b: int|
            0 <= a < b < blockers.len() && magic_index(#[trigger] blockers@[a].0, magic, shift)
                == magic_index(#[trigger] blockers@[b].0, magic, shift) implies attacks@[a]
            == attacks@[b] by {
            let key = magic_index(blockers[a].0, magic, shift) as int;
            assert(scratch.attacks[key] == attacks[a].0);
            assert(scratch.attacks[key] == attacks[b].0);
        }
    }
    true
}

/// Whether `magic` hashes the blocker sets of a `kind` on `s` without a harmful collision:
/// two subsets of the mask with the same index have the same attack set.
pub open spec fn is_magic(kind: Kind, s: int, magic: u64) -> bool {
    let mask = relevant_mask(kind, s);
    let n = popcount(mask);
    forall|a: u64, b: u64|
        subset_of(a, mask) && subset_of(b, mask) && #[trigger] magic_index(
            a,
            magic,
            (64 - n) as u8,
        ) == #[trigger] magic_index(b, magic, (64 - n) as u8) ==> slider_attack(kind, s, a)
            == slider_attack(kind, s, b)
}

/// The magic-bitboard entry of one square and one sliding kind.
#[derive(Clone, Debug)]
pub struct MagicEntry {
    /// Maps table indices to attack sets.
    pub attack_set: FxHashMap<u16, Bitboard>,
    /// The attack set on an otherwise empty board, given where the table holds no entry.
    pub default_attack: Bitboard,
    /// The relevant blocker squares.
    pub mask: Bitboard,
    /// The multiplier that hashes blocker sets.
    pub magic: u64,
    /// The right shift applied after multiplying.
    pub shift: u8,
}

impl MagicEntry {
    /// What the entry gives for the occupancy `blockers`: the table's value under the index
    /// of the relevant part of `blockers`, and the default where the table has none.
    pub open spec fn spec_find(&self, blockers: u64) -> u64 {
        let key = magic_index(blockers & self.mask.0, self.magic, self.shift);
        if self.attack_set@.contains_key(key) {
            self.attack_set@[key].0
        } else {
            self.default_attack.0
        }
    }

    /// Whether this is an entry for a `kind` on square `s`: mask, shift and default are those
    /// of the square, and for every occupancy the entry gives the attack set of the ray walk.
    pub open spec fn valid(&self, kind: Kind, s: int) -> bool {
        &&& kind == Kind::Rook || kind == Kind::Bishop
        &&& 0 <= s < 64
        &&& self.mask.0 == relevant_mask(kind, s)
        &&& self.shift == 64 - popcount(self.mask.0)
        &&& self.default_attack.0 == slider_attack(kind, s, 0)
        &&& forall|b: u64| #[trigger] self.spec_find(b) == slider_attack(kind, s, b)
    }

    /// The multiplier of a valid entry hashes without a harmful collision.
    pub proof fn lemma_valid_is_magic(&self, kind: Kind, s: int)
        requires
            self.valid(kind, s),
        ensures
            is_magic(kind, s, self.magic),
    {
        let mask = self.mask.0;
        assert forall|a: u64, b: u64|
            subset_of(a, mask) && subset_of(b, mask) && #[trigger] magic_index(
                a,
                self.magic,
                self.shift,
            ) == #[trigger] magic_index(b, self.magic, self.shift) implies slider_attack(
            kind,
            s,
            a,
        ) == slider_attack(kind, s, b) by {
            lemma_subset_masked(a, mask);
            lemma_subset_masked(b, mask);
            assert(self.spec_find(a) == self.spec_find(b));
        }
    }

    /// The attack set of the piece of this entry when the squares of `blockers` are occupied,
    /// friendly squares included; squares of `blockers` outside the mask are ignored.
    pub fn find_attack(&self, blockers: Bitboard) -> (r: Bitboard)
        requires
            self.shift < 64,
        ensures
            r.0 == self.spec_find(blockers.0),
            forall|kind: Kind, s: int| self.valid(kind, s) ==> r.0 == slider_attack(kind, s, blockers.0),
    {
        let key = index_of(Bitboard(blockers.0 & self.mask.0), self.magic, self.shift);
        let found = match table_get(&self.attack_set, key) {
            Some(attack) => attack,
            None => self.default_attack,
        };
        proof {
            assert(found.0 == self.spec_find(blockers.0));
            assert forall|kind: Kind, s: int| self.valid(kind, s) implies found.0 == slider_attack(
                kind,
                s,
                blockers.0,
            ) by {
                assert(self.spec_find(blockers.0) == slider_attack(kind, s, blockers.0));
            }
        }
        found
    }

    /// Whether this is a valid entry for a `kind` on `square`, found by comparing it with
    /// the ray walk on every subset of the mask.
    pub fn is_valid_for(&self, square: Square, kind: Kind) -> (r: bool)
        ensures
            r == self.valid(kind, square.index()),
    {
        let ghost s = square.index();
        match kind {
            Kind::Rook | Kind::Bishop => {},
            _ => {
                return false;
            },
        }
        let reference = Reference::new(square, kind);
        if self.mask.0 != reference.mask.0 || self.shift != reference.shift
            || self.default_attack.0 != reference.attacks[0].0 {
            return false;
        }
        let mut i: usize = 0;
        while i < reference.blockers.len()
            invariant
                s == square.index(),
                reference.wf(kind, s),
                self.mask == reference.mask,
                self.shift == reference.shift,
                i <= reference.blockers.len(),
                forall|k: int|
                    0 <= k < i ==> self.spec_find(#[trigger] reference.blockers[k].0)
                        == reference.attacks[k].0,
            decreases reference.blockers.len() - i,
        {
            let found = self.find_attack(reference.blockers[i]);
            if found.0 != reference.attacks[i].0 {
                proof {
                    let b = reference.blockers[i as int].0;
                    assert(self.spec_find(b) != slider_attack(kind, s, b));
                    if self.valid(kind, s) {
                        assert(self.spec_find(b) == slider_attack(kind, s, b));
                    }
                }
                return false;
            }
            i += 1;
        }
        proof {
            assert forall|b: u64| #[trigger] self.spec_find(b) == slider_attack(kind, s, b) by {
                reference.lemma_covers(kind, s, b);
                let k = choose|k: int|
                    0 <= k < reference.blockers.len() && #[trigger] reference.blockers[k].0 == b
                        & reference.mask.0;
                lemma_subset_masked(b & self.mask.0, self.mask.0);
                assert(self.spec_find(b) == self.spec_find(reference.blockers[k].0));
                lemma_attack_relevant(kind, s, b);
            }
        }
        true
    }

    /// The entry of `kind` on `square` with the multiplier `magic`, if `magic` hashes the
    /// blocker sets of the square without a harmful collision.
    pub fn with_magic(square: Square, kind: Kind, magic: u64) -> (r: Option<MagicEntry>)
        requires
            kind == Kind::Rook || kind == Kind::Bishop,
        ensures
            r is Some <==> is_magic(kind, square.index(), magic),
            r matches Some(entry) ==> entry.valid(kind, square.index()) && entry.magic == magic,
    {
        Reference::new(square, kind).entry(square, kind, magic)
    }

    /// Searches for a multiplier among the candidates that follow `seed`: tries up to
    /// `attempts` of them and gives the entry of the first that spreads the mask and hashes
    /// without a harmful collision.
    pub fn search(square: Square, kind: Kind, seed: u64, attempts: u64) -> (r: Option<MagicEntry>)
        requires
            kind == Kind::Rook || kind == Kind::Bishop,
        ensures
            found_from(kind, square.index(), seed, attempts, r),
    {
        let ghost s = square.index();
        let reference = Reference::new(square, kind);
        let mut scratch = Scratch::new();
        let mut state = if seed == 0 {
            0x9e37_79b9_7f4a_7c15
        } else {
            seed
        };
        let mut left = attempts;
        while left > 0
            invariant
                s == square.index(),
                reference.wf(kind, s),
                scratch.wf(),
                scratch.trial + left <= u64::MAX,
                first_magic(kind, s, start_state(seed), attempts as nat) == first_magic(
                    kind,
                    s,
                    state,
                    left as nat,
                ),
            decreases left,
        {
            let a = xorshift(state);
            let b = xorshift(a);
            let c = xorshift(b);
            let magic = scramble(a) & scramble(b) & scramble(c);
            state = c;
            let spread = (reference.mask.0.wrapping_mul(magic) >> 56).count_ones();
            if spread >= 6 && hashes_cleanly(
                &reference.blockers,
                &reference.attacks,
                magic,
                reference.shift,
                &mut scratch,
            ) {
                return reference.entry(square, kind, magic);
            }
            proof {
                if spread >= 6 {
                    reference.lemma_collision_spoils(kind, s, magic);
                }
            }
            left -= 1;
        }
        None
    }

    /// Draws a random seed and searches from it as `search` does: the result is the entry
    /// of the first of the `attempts` candidates after the seed that works, and `None` if
    /// none of them does. Which seed is drawn is not known beforehand.
    pub fn generate(square: Square, kind: Kind, attempts: u64) -> (r: Option<MagicEntry>)
        requires
            kind == Kind::Rook || kind == Kind::Bishop,
        ensures
            exists|seed: u64| found_from(kind, square.index(), seed, attempts, r),
            r matches Some(entry) ==> entry.valid(kind, square.index()) && is_magic(
                kind,
                square.index(),
                entry.magic,
            ),
    {
        let seed = random_u64();
        let found = MagicEntry::search(square, kind, seed, attempts);
        proof {
            assert(found_from(kind, square.index(), seed, attempts, found));
            if found.is_some() {
                found.unwrap().lemma_valid_is_magic(kind, square.index());
            }
        }
        found
    }
}

/// One step of the xorshift generator: the state that follows `x`.
pub open spec fn spec_xorshift(x: u64) -> u64 {
    let a = x ^ (x >> 12);
    let b = a ^ (a << 25);
    b ^ (b >> 27)
}

/// The output that the generator gives in state `x`.
pub open spec fn spec_scramble(x: u64) -> u64 {
    x.wrapping_mul(0x2545_f491_4f6c_dd1d)
}

/// The state in which the generator starts from `seed`; zero, which xorshift never leaves,
/// is replaced.
pub open spec fn start_state(seed: u64) -> u64 {
    if seed == 0 {
        0x9e37_79b9_7f4a_7c15
    } else {
        seed
    }
}

/// The candidate drawn from `state`: three outputs met, so that few bits are set.
pub open spec fn candidate(state: u64) -> u64 {
    let a = spec_xorshift(state);
    let b = spec_xorshift(a);
    let c = spec_xorshift(b);
    spec_scramble(a) & spec_scramble(b) & spec_scramble(c)
}

/// The state after a candidate was drawn from `state`.
pub open spec fn after_candidate(state: u64) -> u64 {
    spec_xorshift(spec_xorshift(spec_xorshift(state)))
}

/// Whether `magic` carries the mask of a `kind` on `s` into six or more of the eight highest
/// bits.
pub open spec fn spreads(kind: Kind, s: int, magic: u64) -> bool {
    popcount(relevant_mask(kind, s).wrapping_mul(magic) >> 56) >= 6
}

/// Whether `r` is what the search for a `kind` on `s` gives from `seed`: the valid entry with
/// the first of the `attempts` candidates after the seed that works, and nothing if none of
/// them works.
pub open spec fn found_from(
    kind: Kind,
    s: int,
    seed: u64,
    attempts: u64,
    r: Option<MagicEntry>,
) -> bool {
    match first_magic(kind, s, start_state(seed), attempts as nat) {
        Some(magic) => r matches Some(entry) && entry.valid(kind, s) && entry.magic == magic,
        None => r is None,
    }
}

/// Whether the search from the seed of each of the 64 squares finds a multiplier.
pub open spec fn all_found(kind: Kind, seeds: Seq<u64>, attempts: u64) -> bool {
    forall|s: int|
        0 <= s < 64 ==> (#[trigger] first_magic(
            kind,
            s,
            start_state(seeds[s]),
            attempts as nat,
        )).is_some()
}

/// Whether `table` holds for each of the 64 squares the valid entry with the multiplier
/// that the search from the seed of the square finds.
pub open spec fn table_found(
    kind: Kind,
    seeds: Seq<u64>,
    attempts: u64,
    table: Seq<MagicEntry>,
) -> bool {
    &&& table.len() == 64
    &&& forall|s: int|
        0 <= s < 64 ==> (#[trigger] table[s]).valid(kind, s) && Some(table[s].magic)
            == first_magic(kind, s, start_state(seeds[s]), attempts as nat)
}

/// Whether `r` is the table that the searches from 64 seeds give, one seed for each square:
/// the table of what they find if each of them finds a multiplier, and nothing otherwise.
pub open spec fn table_from(
    kind: Kind,
    seeds: Seq<u64>,
    attempts: u64,
    r: Option<Vec<MagicEntry>>,
) -> bool {
    &&& seeds.len() == 64
    &&& if all_found(kind, seeds, attempts) {
        r matches Some(table) && table_found(kind, seeds, attempts, table@)
    } else {
        r is None
    }
}

/// Whether `r` holds the rook and bishop tables that the searches from two times 64 seeds
/// give, each search of up to 2^64 - 1 candidates: both tables if every search finds a
/// multiplier, and nothing otherwise.
pub open spec fn magics_from(rook: Seq<u64>, bishop: Seq<u64>, r: Option<Magics>) -> bool {
    &&& rook.len() == 64
    &&& bishop.len() == 64
    &&& if all_found(Kind::Rook, rook, u64::MAX) && all_found(Kind::Bishop, bishop, u64::MAX) {
        r matches Some(magics) && table_found(Kind::Rook, rook, u64::MAX, magics.rook@)
            && table_found(Kind::Bishop, bishop, u64::MAX, magics.bishop@)
    } else {
        r is None
    }
}

/// The first of the `attempts` candidates drawn from `state` on that spreads the mask and
/// hashes the blocker sets of a `kind` on `s` without a harmful collision.
pub open spec fn first_magic(kind: Kind, s: int, state: u64, attempts: nat) -> Option<u64>
    decreases attempts,
{
    if attempts == 0 {
        None
    } else {
        let magic = candidate(state);
        if spreads(kind, s, magic) && is_magic(kind, s, magic) {
            Some(magic)
        } else {
            first_magic(kind, s, after_candidate(state), (attempts - 1) as nat)
        }
    }
}

/// The state that follows `x`.
pub fn xorshift(x: u64) -> (r: u64)
    ensures
        r == spec_xorshift(x),
{
    let a = x ^ (x >> 12);
    let b = a ^ (a << 25);
    b ^ (b >> 27)
}

/// The output of the generator in state `x`.
pub fn scramble(x: u64) -> (r: u64)
    ensures
        r == spec_scramble(x),
{
    x.wrapping_mul(0x2545_f491_4f6c_dd1d)
}

/// A word already inside `mask` is unchanged by masking.
pub proof fn lemma_subset_masked(x: u64, mask: u64)
    ensures
        subset_of(x & mask, mask),
        subset_of(x, mask) ==> x & mask == x,
{
    assert forall|i: int| 0 <= i < 64 implies (bit(x & mask, i) ==> bit(mask, i)) by {
        lemma_bit_ops(x, mask, i);
    }
    if subset_of(x, mask) {
        assert forall|i: int| 0 <= i < 64 implies bit(x & mask, i) == bit(x, i) by {
            lemma_bit_ops(x, mask, i);
        }
        lemma_bits_equal(x & mask, x);
    }
}

/// What the ray walk gives for one square and kind: the mask, the shift, every subset of the
/// mask and the attack set of each.
pub struct Reference {
    pub mask: Bitboard,
    pub shift: u8,
    pub blockers: Vec<Bitboard>,
    pub attacks: Vec<Bitboard>,
}

impl Reference {
    /// Whether this is the reference of a `kind` on square `s`.
    pub open spec fn wf(&self, kind: Kind, s: int) -> bool {
        &&& kind == Kind::Rook || kind == Kind::Bishop
        &&& 0 <= s < 64
        &&& self.mask.0 == relevant_mask(kind, s)
        &&& self.shift == 64 - popcount(self.mask.0)
        &&& self.shift < 64
        &&& lists_subsets(self.blockers@, self.mask.0)
        &&& self.blockers.len() == pow2(popcount(self.mask.0))
        &&& self.attacks.len() == self.blockers.len()
        &&& self.blockers.len() >= 1
        &&& self.blockers[0].0 == 0
        &&& forall|i: int|
            0 <= i < self.blockers.len() ==> (#[trigger] self.attacks[i]).0 == slider_attack(
                kind,
                s,
                self.blockers[i].0,
            )
    }

    /// The relevant part of any occupancy is one of the listed blocker sets.
    pub proof fn lemma_covers(&self, kind: Kind, s: int, b: u64)
        requires
            self.wf(kind, s),
        ensures
            exists|k: int|
                0 <= k < self.blockers.len() && #[trigger] self.blockers[k].0 == b & self.mask.0,
    {
        lemma_subset_masked(b, self.mask.0);
    }

    /// A multiplier under which two listed blocker sets collide harmfully is no magic.
    pub proof fn lemma_collision_spoils(&self, kind: Kind, s: int, magic: u64)
        requires
            self.wf(kind, s),
            collides(self.blockers@, self.attacks@, magic, self.shift),
        ensures
            !is_magic(kind, s, magic),
    {
        let (i, j) = choose|i: int, j: int|
            0 <= i < j < self.blockers.len() && magic_index(
                #[trigger] self.blockers[i].0,
                magic,
                self.shift,
            ) == magic_index(#[trigger] self.blockers[j].0, magic, self.shift) && self.attacks[i]
                != self.attacks[j];
        let a = self.blockers[i].0;
        let b = self.blockers[j].0;
        assert(subset_of(a, self.mask.0) && subset_of(b, self.mask.0));
        assert(slider_attack(kind, s, a) != slider_attack(kind, s, b));
        let n = popcount(relevant_mask(kind, s));
        let sh = (64 - n) as u8;
        assert(sh == self.shift);
        if is_magic(kind, s, magic) {
            assert(magic_index(a, magic, sh) == magic_index(b, magic, sh));
            assert(false);
        }
    }

    /// Walks the rays of a `kind` on `square` for every subset of its mask.
    pub fn new(square: Square, kind: Kind) -> (r: Reference)
        requires
            kind == Kind::Rook || kind == Kind::Bishop,
        ensures
            r.wf(kind, square.index()),
    {
        let ghost s = square.index();
        let mask = match kind {
            Kind::Rook => generate_rook_attack_mask(square),
            _ => generate_bishop_attack_mask(square),
        };
        proof {
            square.lemma_index();
            lemma_mask_size(kind, s);
        }
        let n = mask.count_ones();
        let shift: u8 = (64 - n) as u8;
        let blockers = enumerate_blockers(mask);
        let mut attacks: Vec<Bitboard> = Vec::new();
        let mut i: usize = 0;
        while i < blockers.len()
            invariant
                kind == Kind::Rook || kind == Kind::Bishop,
                s == square.index(),
                i <= blockers.len(),
                attacks.len() == i,
                forall|k: int|
                    0 <= k < i ==> (#[trigger] attacks[k]).0 == slider_attack(
                        kind,
                        s,
                        blockers[k].0,
                    ),
            decreases blockers.len() - i,
        {
            attacks.push(compute_attack(square, blockers[i], kind));
            i += 1;
        }
        proof {
            square.lemma_index();
            vstd::arithmetic::power2::lemma_pow2_pos(popcount(mask.0));
        }
        Reference { mask, shift, blockers, attacks }
    }

    /// The entry with the multiplier `magic`, if `magic` hashes the blocker sets without a
    /// harmful collision.
    pub fn entry(&self, square: Square, kind: Kind, magic: u64) -> (r: Option<MagicEntry>)
        requires
            self.wf(kind, square.index()),
        ensures
            r is Some <==> is_magic(kind, square.index(), magic),
            r matches Some(entry) ==> entry.valid(kind, square.index()) && entry.magic == magic,
    {
        let ghost s = square.index();
        match build_table(&self.blockers, &self.attacks, magic, self.shift) {
            Some(table) => {
                let entry = MagicEntry {
                    attack_set: table,
                    default_attack: self.attacks[0],
                    mask: self.mask,
                    magic,
                    shift: self.shift,
                };
                proof {
                    assert forall|b: u64| #[trigger]
                        entry.spec_find(b) == slider_attack(kind, s, b) by {
                        self.lemma_covers(kind, s, b);
                        let k = choose|k: int|
                            0 <= k < self.blockers.len() && #[trigger] self.blockers[k].0 == b
                                & self.mask.0;
                        let key = magic_index(self.blockers[k].0, magic, self.shift);
                        assert(table@.contains_key(key) && table@[key] == self.attacks[k]);
                        assert(self.attacks[k].0 == slider_attack(kind, s, b & self.mask.0));
                        lemma_attack_relevant(kind, s, b);
                    }
                    assert(self.attacks[0].0 == slider_attack(kind, s, 0));
                    assert(entry.valid(kind, s));
                    entry.lemma_valid_is_magic(kind, s);
                }
                Some(entry)
            },
            None => {
                proof {
                    self.lemma_collision_spoils(kind, s, magic);
                }
                None
            },
        }
    }
}

/// The magic entries of all 64 squares, for rooks and for bishops.
#[derive(Clone, Debug)]
pub struct Magics {
    pub rook: Vec<MagicEntry>,
    pub bishop: Vec<MagicEntry>,
}

impl Magics {
    /// Whether both tables hold a valid entry for each of the 64 squares.
    pub open spec fn valid(&self) -> bool {
        &&& self.rook.len() == 64
        &&& self.bishop.len() == 64
        &&& forall|s: int| 0 <= s < 64 ==> (#[trigger] self.rook[s]).valid(Kind::Rook, s)
        &&& forall|s: int| 0 <= s < 64 ==> (#[trigger] self.bishop[s]).valid(Kind::Bishop, s)
    }

    /// Whether both tables hold a valid entry for each of the 64 squares, found by comparing
    /// every entry with the ray walk.
    pub fn is_valid(&self) -> (r: bool)
        ensures
            r == self.valid(),
    {
        if self.rook.len() != 64 || self.bishop.len() != 64 {
            return false;
        }
        let mut sq: usize = 0;
        while sq < 64
            invariant
                self.rook.len() == 64,
                self.bishop.len() == 64,
                sq <= 64,
                forall|s: int| 0 <= s < sq ==> (#[trigger] self.rook[s]).valid(Kind::Rook, s),
                forall|s: int| 0 <= s < sq ==> (#[trigger] self.bishop[s]).valid(Kind::Bishop, s),
            decreases 64 - sq,
        {
            let square = Square::from_usize(sq);
            if !self.rook[sq].is_valid_for(square, Kind::Rook) {
                return false;
            }
            if !self.bishop[sq].is_valid_for(square, Kind::Bishop) {
                return false;
            }
            sq += 1;
        }
        true
    }

    /// The rook attacks from square `s` with the squares of `occupancy` occupied.
    pub fn rook_attack(&self, s: usize, occupancy: Bitboard) -> (r: Bitboard)
        requires
            self.valid(),
            s < 64,
        ensures
            r.0 == slider_attack(Kind::Rook, s as int, occupancy.0),
    {
        proof {
            lemma_mask_size(Kind::Rook, s as int);
        }
        self.rook[s].find_attack(occupancy)
    }

    /// The bishop attacks from square `s` with the squares of `occupancy` occupied.
    pub fn bishop_attack(&self, s: usize, occupancy: Bitboard) -> (r: Bitboard)
        requires
            self.valid(),
            s < 64,
        ensures
            r.0 == slider_attack(Kind::Bishop, s as int, occupancy.0),
    {
        proof {
            lemma_mask_size(Kind::Bishop, s as int);
        }
        self.bishop[s].find_attack(occupancy)
    }
}

/// One table of 64 entries for `kind`. For one square after the other a random seed is drawn
/// and searched from as `search` does, with at most `attempts` candidates; the table holds
/// what the searches find, and the result is `None` as soon as one of them finds nothing.
pub fn generate_table(kind: Kind, attempts: u64) -> (r: Option<Vec<MagicEntry>>)
    requires
        kind == Kind::Rook || kind == Kind::Bishop,
    ensures
        exists|seeds: Seq<u64>| table_from(kind, seeds, attempts, r),
        r matches Some(table) ==> table.len() == 64 && forall|s: int|
            0 <= s < 64 ==> (#[trigger] table[s]).valid(kind, s),
{
    let mut table: Vec<MagicEntry> = Vec::new();
    let mut sq: usize = 0;
    let ghost mut seeds: Seq<u64> = Seq::empty();
    while sq < 64
        invariant
            kind == Kind::Rook || kind == Kind::Bishop,
            sq <= 64,
            table.len() == sq,
            seeds.len() == sq,
            forall|s: int|
                0 <= s < sq ==> (#[trigger] table[s]).valid(kind, s) && Some(table[s].magic)
                    == first_magic(kind, s, start_state(seeds[s]), attempts as nat),
        decreases 64 - sq,
    {
        let found = MagicEntry::generate(Square::from_usize(sq), kind, attempts);
        let ghost seed = choose|seed: u64| found_from(kind, sq as int, seed, attempts, found);
        match found {
            Some(entry) => {
                table.push(entry);
                proof {
                    seeds = seeds.push(seed);
                }
            },
            None => {
                proof {
                    let drawn = seeds.push(seed) + Seq::new((63 - sq) as nat, |i: int| 0u64);
                    assert(drawn[sq as int] == seed);
                    assert(first_magic(
                        kind,
                        sq as int,
                        start_state(drawn[sq as int]),
                        attempts as nat,
                    ).is_none());
                    assert(table_from(kind, drawn, attempts, None));
                }
                return None;
            },
        }
        sq += 1;
    }
    proof {
        assert(table_found(kind, seeds, attempts, table@));
        lemma_table_found(kind, seeds, attempts, table@);
        assert(table_from(kind, seeds, attempts, Some(table)));
    }
    Some(table)
}

/// `table_found` says of every square what it says.
proof fn lemma_table_found(kind: Kind, seeds: Seq<u64>, attempts: u64, table: Seq<MagicEntry>)
    requires
        table_found(kind, seeds, attempts, table),
    ensures
        all_found(kind, seeds, attempts),
        forall|s: int| 0 <= s < 64 ==> (#[trigger] table[s]).valid(kind, s),
{
    assert forall|s: int| 0 <= s < 64 implies (#[trigger] first_magic(
        kind,
        s,
        start_state(seeds[s]),
        attempts as nat,
    )).is_some() by {
        assert(table[s].valid(kind, s));
    }
}

/// Builds the rook table and then the bishop table as `generate_table` does, each search
/// with up to 2^64 - 1 candidates. The result holds both tables, and is `None` as soon as a
/// search finds nothing.
pub fn load_magics() -> (r: Option<Magics>)
    ensures
        exists|rook: Seq<u64>, bishop: Seq<u64>| magics_from(rook, bishop, r),
        r matches Some(magics) ==> magics.valid(),
{
    let rooks = generate_table(Kind::Rook, u64::MAX);
    let ghost rook_seeds = choose|seeds: Seq<u64>| table_from(Kind::Rook, seeds, u64::MAX, rooks);
    let rook = match rooks {
        Some(table) => table,
        None => {
            proof {
                let none = Seq::new(64, |i: int| 0u64);
                assert(magics_from(rook_seeds, none, None));
            }
            return None;
        },
    };
    let bishops = generate_table(Kind::Bishop, u64::MAX);
    let ghost bishop_seeds = choose|seeds: Seq<u64>|
        table_from(Kind::Bishop, seeds, u64::MAX, bishops);
    let bishop = match bishops {
        Some(table) => table,
        None => {
            proof {
                assert(magics_from(rook_seeds, bishop_seeds, None));
            }
            return None;
        },
    };
    let magics = Magics { rook, bishop };
    proof {
        if !all_found(Kind::Rook, rook_seeds, u64::MAX) {
            assert(rooks is None);
        }
        if !all_found(Kind::Bishop, bishop_seeds, u64::MAX) {
            assert(bishops is None);
        }
        lemma_table_found(Kind::Rook, rook_seeds, u64::MAX, magics.rook@);
        lemma_table_found(Kind::Bishop, bishop_seeds, u64::MAX, magics.bishop@);
        assert(magics_from(rook_seeds, bishop_seeds, Some(magics)));
    }
    Some(magics)
}

} // verus!
