//! Weighted reservoir sampling without replacement.
//!
//! Every offered item draws a random priority key; the `k` items with the
//! smallest keys stay.  A key stands for `-log2(u) / (w + 1)` with `u` uniform
//! in `(0, 1]`: the numerator is a fixed-point integer, the division is never
//! carried out, and two keys are compared by cross-multiplying, so heavier
//! items tend to draw smaller keys and win.  Ties compare as equal.

use vstd::prelude::*;

use vstd::arithmetic::div_mod::lemma_multiply_divide_lt;
use vstd::arithmetic::mul::lemma_mul_strict_inequality;
use vstd::arithmetic::power2::lemma_pow2_strictly_increases;
use vstd::arithmetic::power2::lemma_pow2_unfold;
use vstd::arithmetic::power2::pow2;

use crate::states::bump_weight;

verus! {

/// Relies on `rand::random`: a value drawn from the thread-local generator;
/// nothing is promised of it.
pub assume_specification<T>[ rand::random::<T> ]() -> (r: T)
    where
        rand::distributions::Standard: rand::distributions::Distribution<T>,
;

/// Relies on `rand::Rng::gen_range`: the result lies in the given range,
/// which `0..=max` makes nonempty.
#[verifier::external_body]
pub(crate) fn random_shard_id(max: u64) -> (r: u64)
    ensures
        r <= max,
{
    rand::Rng::gen_range(&mut rand::thread_rng(), 0..=max)
}

/// One item of the reservoir together with its priority key
/// `key_num / key_den`.
struct SampledItem<T> {
    item: T,
    key_num: u64,
    key_den: u64,
}

/// The key of `a` is at most the key of `b`, by cross-multiplication.
spec fn key_le(an: u64, ad: u64, bn: u64, bd: u64) -> bool {
    an * bd <= bn * ad
}

/// The key of `a` is strictly below the key of `b`.
spec fn key_lt(an: u64, ad: u64, bn: u64, bd: u64) -> bool {
    an * bd < bn * ad
}

/// Compare two keys without dividing: the products fit in 128 bits.
fn key_lt_exec(an: u64, ad: u64, bn: u64, bd: u64) -> (r: bool)
    ensures
        r == key_lt(an, ad, bn, bd),
{
    proof {
        vstd::arithmetic::mul::lemma_mul_upper_bound(
            an as int,
            u64::MAX as int,
            bd as int,
            u64::MAX as int,
        );
        vstd::arithmetic::mul::lemma_mul_upper_bound(
            bn as int,
            u64::MAX as int,
            ad as int,
            u64::MAX as int,
        );
    }
    (an as u128) * (bd as u128) < (bn as u128) * (ad as u128)
}

/// Over positive denominators the cross-multiplied order is transitive.
proof fn lemma_key_le_lt_trans(an: u64, ad: u64, bn: u64, bd: u64, cn: u64, cd: u64)
    requires
        ad >= 1,
        bd >= 1,
        cd >= 1,
        key_le(an, ad, bn, bd),
        key_lt(bn, bd, cn, cd),
    ensures
        key_lt(an, ad, cn, cd),
{
    assert((an * cd) * bd < (cn * ad) * bd) by (nonlinear_arith)
        requires
            ad >= 1,
            bd >= 1,
            cd >= 1,
            an * bd <= bn * ad,
            bn * cd < cn * bd,
    ;
    assert(an * cd < cn * ad) by (nonlinear_arith)
        requires
            bd >= 1,
            (an * cd) * bd < (cn * ad) * bd,
    ;
}

/// A fresh priority numerator: a fixed-point form of `-log2(u)` for a uniform
/// draw `u` in `(0, 1]`, scaled by `2^32`.
fn fresh_key_num() -> (e: u64)
    ensures
        e <= 64 * 0x1_0000_0000,
{
    let r: u64 = rand::random();
    if r == u64::MAX {
        // u == 1, so the key is 0: the largest possible draw wins everywhere.
        return 0;
    }
    let z: u64 = r + 1;
    // Find p == 2^m with p <= z < 2 * p.
    let mut p: u64 = 1;
    let mut m: u64 = 0;
    proof {
        vstd::arithmetic::power2::lemma2_to64();
    }
    while z / 2 >= p
        invariant
            1 <= z,
            1 <= p,
            p as nat == pow2(m as nat),
            p <= z,
            m <= 63,
        decreases z - p,
    {
        proof {
            vstd::arithmetic::power2::lemma2_to64();
            vstd::arithmetic::power2::lemma2_to64_rest();
            if m >= 63 {
                if m > 63 {
                    lemma_pow2_strictly_increases(63, m as nat);
                }
                assert(false);
            }
            lemma_pow2_unfold((m + 1) as nat);
        }
        p = p * 2;
        m = m + 1;
    }
    // The fractional part of log2(z) in 32 fixed-point bits.
    let frac128: u128 = ((z - p) as u128) * 0x1_0000_0000u128 / (p as u128);
    proof {
        assert((z - p) * 0x1_0000_0000 < p * 0x1_0000_0000) by {
            lemma_mul_strict_inequality((z - p) as int, p as int, 0x1_0000_0000);
        }
        lemma_multiply_divide_lt((z - p) as int * 0x1_0000_0000, p as int, 0x1_0000_0000);
    }
    let frac: u64 = frac128 as u64;
    let l: u64 = m * 0x1_0000_0000 + frac;
    64 * 0x1_0000_0000 - l
}

/// `r` holds items drawn from pairwise distinct positions of `items`; `src`
/// names those positions.
pub open spec fn picks_from<T>(r: Seq<T>, items: Seq<(T, u64)>, src: Seq<int>) -> bool {
    &&& src.len() == r.len()
    &&& src.no_duplicates()
    &&& forall|i: int|
        0 <= i < r.len() ==> 0 <= #[trigger] src[i] < items.len() && r[i] == items[src[i]].0
}

/// Index of an item whose key is greatest; every other key is at most it.
fn argmax<T>(v: &Vec<SampledItem<T>>) -> (mx: usize)
    requires
        v@.len() > 0,
        forall|j: int| 0 <= j < v@.len() ==> #[trigger] v@[j].key_den >= 1,
    ensures
        0 <= mx < v@.len(),
        forall|j: int|
            0 <= j < v@.len() ==> key_le(
                #[trigger] v@[j].key_num,
                v@[j].key_den,
                v@[mx as int].key_num,
                v@[mx as int].key_den,
            ),
{
    let mut mx: usize = 0;
    let mut i: usize = 1;
    while i < v.len()
        invariant
            forall|j: int| 0 <= j < v@.len() ==> #[trigger] v@[j].key_den >= 1,
            0 <= mx < i <= v@.len(),
            forall|j: int|
                0 <= j < i ==> key_le(
                    #[trigger] v@[j].key_num,
                    v@[j].key_den,
                    v@[mx as int].key_num,
                    v@[mx as int].key_den,
                ),
        decreases v@.len() - i,
    {
        if key_lt_exec(v[mx].key_num, v[mx].key_den, v[i].key_num, v[i].key_den) {
            proof {
                assert forall|j: int| 0 <= j < i + 1 implies key_le(
                    #[trigger] v@[j].key_num,
                    v@[j].key_den,
                    v@[i as int].key_num,
                    v@[i as int].key_den,
                ) by {
                    if j < i {
                        lemma_key_le_lt_trans(
                            v@[j].key_num,
                            v@[j].key_den,
                            v@[mx as int].key_num,
                            v@[mx as int].key_den,
                            v@[i as int].key_num,
                            v@[i as int].key_den,
                        );
                    }
                }
            }
            mx = i;
        }
        i = i + 1;
    }
    mx
}

/// Draw up to `num_items` of the offered items, without replacement, each
/// with probability growing in its weight.  Exactly `min(num_items, |items|)`
/// items come back, each taken from a distinct offered position; their order
/// is unspecified.
pub fn weighted_sample<T>(items: Vec<(T, u64)>, num_items: usize) -> (r: Vec<T>)
    ensures
        r@.len() == if num_items as int <= items@.len() {
            num_items as int
        } else {
            items@.len() as int
        },
        exists|src: Seq<int>| picks_from(r@, items@, src),
{
    let ghost items0 = items@;
    let mut items = items;
    let mut sampled: Vec<SampledItem<T>> = Vec::new();
    let ghost mut src: Seq<int> = Seq::empty();
    while items.len() > 0
        invariant
            items@ == items0.take(items@.len() as int),
            items@.len() <= items0.len(),
            sampled@.len() == if num_items as int <= items0.len() - items@.len() {
                num_items as int
            } else {
                items0.len() - items@.len()
            },
            src.len() == sampled@.len(),
            src.no_duplicates(),
            forall|i: int|
                0 <= i < src.len() ==> items@.len() <= #[trigger] src[i] < items0.len()
                    && sampled@[i].item == items0[src[i]].0,
            forall|j: int| 0 <= j < sampled@.len() ==> #[trigger] sampled@[j].key_den >= 1,
        decreases items@.len(),
    {
        proof {
            assert(items@.take(items@.len() - 1) =~= items0.take(items@.len() - 1));
        }
        let (item, w) = items.pop().unwrap();
        let ghost idx = items@.len() as int;
        let key_num = fresh_key_num();
        let key_den = bump_weight(w);
        if sampled.len() < num_items {
            sampled.push(SampledItem { item, key_num, key_den });
            proof {
                src = src.push(idx);
                assert(src.drop_last() =~= src.subrange(0, src.len() - 1));
            }
        } else if num_items > 0 {
            let mx = argmax(&sampled);
            if key_lt_exec(key_num, key_den, sampled[mx].key_num, sampled[mx].key_den) {
                sampled[mx] = SampledItem { item, key_num, key_den };
                proof {
                    src = src.update(mx as int, idx);
                }
            }
        }
    }
    let ghost full_src = src;
    let ghost n_out = sampled@.len() as int;
    let ghost sampled0 = sampled@;
    let mut out: Vec<T> = Vec::new();
    while sampled.len() > 0
        invariant
            sampled@ == sampled0.take(sampled@.len() as int),
            out@.len() + sampled@.len() == n_out,
            n_out == sampled0.len(),
            forall|i: int|
                0 <= i < out@.len() ==> out@[i] == #[trigger] sampled0[n_out - 1 - i].item,
        decreases sampled@.len(),
    {
        proof {
            assert(sampled@.take(sampled@.len() - 1) =~= sampled0.take(sampled@.len() - 1));
        }
        let s = sampled.pop().unwrap();
        out.push(s.item);
    }
    proof {
        let rev = Seq::new(full_src.len() as nat, |i: int| full_src[full_src.len() - 1 - i]);
        assert forall|i: int, j: int| 0 <= i < j < rev.len() implies rev[i] != rev[j] by {
            let a = full_src.len() - 1 - i;
            let b = full_src.len() - 1 - j;
            assert(full_src[b] != full_src[a]);
        }
        assert(picks_from(out@, items0, rev));
    }
    out
}

} // verus!
