//! The split/shuffle stage: a Fisher-Yates shuffle of the sample
//! indices, driven by the seeded generator, followed by a partition at
//! `floor(ratio * n_samples)`.
//!
//! The permutation is a pure function of the seed (`perm_of`), so equal
//! seeds give identical train/test membership; and it holds every index
//! exactly once, so the two partitions are disjoint and together cover
//! all samples.

use vstd::prelude::*;
use vstd::seq_lib::group_to_multiset_ensures;
use vstd::seq_lib::to_multiset_update;

use crate::dataset::Dataset;
use crate::errors::SplitError;
use crate::rng::{draw_at, SeededRng};

verus! {

/// The identity permutation of `0 .. n`.
pub open spec fn ident_perm(n: nat) -> Seq<usize> {
    Seq::new(n, |i: int| i as usize)
}

/// The index sequence after `k` Fisher-Yates steps on `0 .. n`: step
/// `k` swaps position `n - k` with a drawn position at or below it.
pub open spec fn fy(seed: u64, n: nat, k: nat) -> Seq<usize>
    decreases k,
{
    if k == 0 {
        ident_perm(n)
    } else {
        let prev = fy(seed, n, (k - 1) as nat);
        let i = n - k;
        let j = draw_at(seed, (k - 1) as nat) % ((i + 1) as u64);
        prev.update(i as int, prev[j as int]).update(j as int, prev[i as int])
    }
}

/// The shuffled order of `0 .. n` under the given seed.
pub open spec fn perm_of(seed: u64, n: nat) -> Seq<usize> {
    if n == 0 {
        ident_perm(0)
    } else {
        fy(seed, n, (n - 1) as nat)
    }
}

/// The train partition size: `floor(ratio * n)` for ratio `num / den`.
pub open spec fn train_count(n: nat, num: nat, den: nat) -> int {
    ((n * num) as int) / (den as int)
}

/// Each value occurs in the identity permutation exactly once below
/// `n`, and never at or above it.
proof fn lemma_ident_count(n: nat, x: usize)
    requires
        n <= usize::MAX,
    ensures
        ident_perm(n).to_multiset().count(x) == if (x as nat) < n {
            1nat
        } else {
            0nat
        },
    decreases n,
{
    broadcast use group_to_multiset_ensures;

    if n == 0 {
        assert(ident_perm(0) =~= Seq::<usize>::empty());
    } else {
        lemma_ident_count((n - 1) as nat, x);
        assert(ident_perm(n) =~= ident_perm((n - 1) as nat).push((n - 1) as usize));
    }
}

/// A Fisher-Yates prefix keeps the length, the bounds, and the
/// multiset of the identity permutation.
proof fn lemma_fy_props(seed: u64, n: nat, k: nat)
    requires
        n <= usize::MAX,
        k < n || k == 0,
    ensures
        fy(seed, n, k).len() == n,
        forall|i: int| 0 <= i < n ==> (#[trigger] fy(seed, n, k)[i] as nat) < n,
        fy(seed, n, k).to_multiset() == ident_perm(n).to_multiset(),
    decreases k,
{
    broadcast use group_to_multiset_ensures;
    broadcast use to_multiset_update;

    if k == 0 {
        assert forall|i: int| 0 <= i < n implies (#[trigger] fy(seed, n, 0)[i] as nat) < n by {
            assert(ident_perm(n)[i] == i as usize);
        }
    } else {
        lemma_fy_props(seed, n, (k - 1) as nat);
        let prev = fy(seed, n, (k - 1) as nat);
        let i = n - k;
        let j = (draw_at(seed, (k - 1) as nat) % ((i + 1) as u64)) as int;
        assert(0 <= j <= i);
        let s1 = prev.update(i as int, prev[j]);
        let s2 = s1.update(j, prev[i as int]);
        assert(fy(seed, n, k) == s2);
        assert(s1[j] == prev[j]);
        assert(prev.to_multiset().count(prev[i as int]) > 0) by {
            assert(prev.contains(prev[i as int]));
        }
        assert(s2.to_multiset() =~= prev.to_multiset()) by {
            assert(s1.to_multiset() == prev.to_multiset().insert(prev[j]).remove(
                prev[i as int],
            ));
            assert(s2.to_multiset() == s1.to_multiset().insert(prev[i as int]).remove(prev[j]));
            assert forall|x: usize| true implies s2.to_multiset().count(x)
                == prev.to_multiset().count(x) by {
                if x == prev[i as int] || x == prev[j] {
                    assert(prev.to_multiset().count(prev[i as int]) > 0);
                    assert(prev.to_multiset().count(prev[j]) > 0) by {
                        assert(prev.contains(prev[j]));
                    }
                }
            }
        }
        assert forall|m: int| 0 <= m < n implies (#[trigger] s2[m] as nat) < n by {
            if m == j {
            } else if m == i as int {
            }
        }
    }
}

/// Every value below `n` occurs in the shuffled order exactly once,
/// and no other value occurs.
pub proof fn lemma_perm_count(seed: u64, n: nat, x: usize)
    requires
        n <= usize::MAX,
    ensures
        perm_of(seed, n).len() == n,
        perm_of(seed, n).to_multiset().count(x) == if (x as nat) < n {
            1nat
        } else {
            0nat
        },
{
    if n == 0 {
        lemma_fy_props(seed, n, 0);
    } else {
        lemma_fy_props(seed, n, (n - 1) as nat);
    }
    lemma_ident_count(n, x);
}

/// Law: however the ratio cuts the shuffled order, the two index sets
/// partition the samples: their sizes sum to `n`, every index below `n`
/// lies in exactly one of them, and no other index lies in either.
pub proof fn lemma_split_partition(seed: u64, n: nat, t: int)
    requires
        n <= usize::MAX,
        0 <= t <= n,
    ensures
        perm_of(seed, n).take(t).len() + perm_of(seed, n).skip(t).len() == n,
        forall|x: usize|
            (x as nat) < n ==> (perm_of(seed, n).take(t).contains(x) <==> !perm_of(
                seed,
                n,
            ).skip(t).contains(x)),
        forall|x: usize|
            (x as nat) >= n ==> (!perm_of(seed, n).take(t).contains(x) && !perm_of(
                seed,
                n,
            ).skip(t).contains(x)),
{
    broadcast use group_to_multiset_ensures;

    let p = perm_of(seed, n);
    assert forall|x: usize| true implies p.to_multiset().count(x) == if (x as nat) < n {
        1nat
    } else {
        0nat
    } by {
        lemma_perm_count(seed, n, x);
    }
    lemma_perm_count(seed, n, 0);
    p.lemma_multiset_has_no_duplicates_conv();
    assert forall|x: usize| (x as nat) < n implies (p.take(t).contains(x) <==> !p.skip(
        t,
    ).contains(x)) by {
        assert(p.to_multiset().count(x) == 1);
        assert(p.contains(x));
        let idx = choose|idx: int| 0 <= idx < p.len() && p[idx] == x;
        if idx < t {
            assert(p.take(t)[idx] == x);
            assert(p.take(t).contains(x));
        } else {
            assert(p.skip(t)[idx - t] == x);
            assert(p.skip(t).contains(x));
        }
        if p.take(t).contains(x) && p.skip(t).contains(x) {
            let i1 = choose|i1: int| 0 <= i1 < t && p.take(t)[i1] == x;
            let i2 = choose|i2: int| 0 <= i2 < p.skip(t).len() && p.skip(t)[i2] == x;
            assert(p[i1] == x);
            assert(p[i2 + t] == x);
            assert(false);
        }
    }
    assert forall|x: usize| (x as nat) >= n implies (!p.take(t).contains(x) && !p.skip(
        t,
    ).contains(x)) by {
        assert(p.to_multiset().count(x) == 0);
        if p.take(t).contains(x) {
            let i1 = choose|i1: int| 0 <= i1 < t && p.take(t)[i1] == x;
            assert(p[i1] == x);
            assert(p.contains(x));
        }
        if p.skip(t).contains(x) {
            let i2 = choose|i2: int| 0 <= i2 < p.skip(t).len() && p.skip(t)[i2] == x;
            assert(p[i2 + t] == x);
            assert(p.contains(x));
        }
    }
}

/// Law: the shuffle order is a function of the seed and the size
/// alone, so two independent runs with the same seed place every
/// sample in the same partition.
pub proof fn lemma_same_seed_same_order(seed: u64, n: nat, r1: Seq<usize>, r2: Seq<usize>)
    requires
        r1 == perm_of(seed, n),
        r2 == perm_of(seed, n),
    ensures
        r1 == r2,
{
}

/// The shuffled sample indices for the given size and seed: exactly
/// `perm_of(seed, n)`, so equal seeds give equal orders.
pub fn shuffled_indices(n: usize, seed: u64) -> (r: Vec<usize>)
    ensures
        r@ == perm_of(seed, n as nat),
{
    let mut v: Vec<usize> = Vec::new();
    let mut idx: usize = 0;
    while idx < n
        invariant
            idx <= n,
            v@ =~= ident_perm(idx as nat),
        decreases n - idx,
    {
        v.push(idx);
        proof {
            assert(v@ =~= ident_perm(idx as nat + 1));
        }
        idx = idx + 1;
    }
    proof {
        assert(v@ =~= ident_perm(n as nat));
    }
    if n == 0 {
        return v;
    }
    let mut rng = SeededRng::new(seed);
    let mut k: usize = 1;
    while k < n
        invariant
            1 <= k <= n,
            rng.wf(),
            rng.seed() == seed,
            rng.drawn() == k - 1,
            v@ == fy(seed, n as nat, (k - 1) as nat),
        decreases n - k,
    {
        proof {
            lemma_fy_props(seed, n as nat, (k - 1) as nat);
        }
        let i = n - k;
        let j64 = rng.next_below((i as u64) + 1);
        let j = j64 as usize;
        let vi = v[i];
        let vj = v[j];
        v[i] = vj;
        v[j] = vi;
        proof {
            assert(v@ =~= fy(seed, n as nat, k as nat));
        }
        k = k + 1;
    }
    v
}

/// Copy one feature row.
fn copy_row(row: &Vec<Vec<u8>>) -> (r: Vec<Vec<u8>>)
    ensures
        r.deep_view() == row.deep_view(),
{
    let mut r: Vec<Vec<u8>> = Vec::new();
    let mut j: usize = 0;
    while j < row.len()
        invariant
            j <= row@.len(),
            r@.len() == j,
            forall|k: int| 0 <= k < j ==> #[trigger] r@[k]@ == row@[k]@,
        decreases row@.len() - j,
    {
        let mut cell: Vec<u8> = Vec::new();
        let mut b: usize = 0;
        while b < row[j].len()
            invariant
                j < row@.len(),
                b <= row@[j as int]@.len(),
                cell@ =~= row@[j as int]@.take(b as int),
            decreases row@[j as int]@.len() - b,
        {
            cell.push(row[j][b]);
            proof {
                assert(cell@ =~= row@[j as int]@.take(b as int + 1));
            }
            b = b + 1;
        }
        proof {
            assert(cell@ =~= row@[j as int]@);
        }
        r.push(cell);
        j = j + 1;
    }
    proof {
        assert(r.deep_view() =~~= row.deep_view());
    }
    r
}

/// Copy the feature names.
fn copy_names(names: &Vec<String>) -> (r: Vec<String>)
    ensures
        r.deep_view() == names.deep_view(),
{
    let mut r: Vec<String> = Vec::new();
    let mut j: usize = 0;
    while j < names.len()
        invariant
            j <= names@.len(),
            r@.len() == j,
            forall|k: int| 0 <= k < j ==> #[trigger] r@[k]@ == names@[k]@,
        decreases names@.len() - j,
    {
        r.push(names[j].clone());
        j = j + 1;
    }
    proof {
        assert(r.deep_view() =~~= names.deep_view());
    }
    r
}

/// Gather the dataset rows at the positions `perm[from .. to]`.
fn gather(ds: &Dataset, perm: &Vec<usize>, from: usize, to: usize) -> (r: (
    Vec<Vec<Vec<u8>>>,
    Vec<usize>,
))
    requires
        ds.wf(),
        from <= to <= perm@.len(),
        forall|i: int| 0 <= i < perm@.len() ==> (#[trigger] perm@[i] as nat) < ds.recs().len(),
    ensures
        r.0.deep_view() == Seq::new((to - from) as nat, |i: int| ds.recs()[perm@[from + i] as int]),
        r.1@ == Seq::new((to - from) as nat, |i: int| ds.tgts()[perm@[from + i] as int]),
{
    let mut recs: Vec<Vec<Vec<u8>>> = Vec::new();
    let mut tgts: Vec<usize> = Vec::new();
    let mut i: usize = from;
    while i < to
        invariant
            from <= i <= to <= perm@.len(),
            ds.wf(),
            forall|k: int| 0 <= k < perm@.len() ==> (#[trigger] perm@[k] as nat) < ds.recs().len(),
            recs@.len() == i - from,
            tgts@.len() == i - from,
            forall|k: int|
                0 <= k < i - from ==> #[trigger] recs@[k].deep_view() == ds.recs()[perm@[from + k] as int],
            forall|k: int|
                0 <= k < i - from ==> #[trigger] tgts@[k] == ds.tgts()[perm@[from + k] as int],
        decreases to - i,
    {
        let p = perm[i];
        proof {
            assert(ds.recs()[p as int] == ds.records@[p as int].deep_view());
        }
        recs.push(copy_row(&ds.records[p]));
        tgts.push(ds.targets[p]);
        i = i + 1;
    }
    proof {
        assert(recs.deep_view() =~~= Seq::new(
            (to - from) as nat,
            |k: int| ds.recs()[perm@[from + k] as int],
        ));
        assert(tgts@ =~= Seq::new((to - from) as nat, |k: int| ds.tgts()[perm@[from + k] as int]));
    }
    (recs, tgts)
}

/// Shuffle the dataset under the seed and split it at
/// `floor(num/den * n)`: the train partition takes the first
/// `train_count` shuffled indices, the test partition the rest, names
/// copied unchanged into both. Fails on a ratio outside (0, 1) or an
/// empty dataset, and on nothing else.
#[verifier::rlimit(40)]
pub fn shuffle_split(ds: &Dataset, seed: u64, ratio_num: usize, ratio_den: usize) -> (r: Result<
    (Dataset, Dataset),
    SplitError,
>)
    requires
        ds.wf(),
    ensures
        match r {
            Ok(parts) => {
                let n = ds.recs().len();
                let t = train_count(n, ratio_num as nat, ratio_den as nat);
                let p = perm_of(seed, n);
                &&& 0 < ratio_num < ratio_den
                &&& n > 0
                &&& parts.0.wf()
                &&& parts.1.wf()
                &&& parts.0.recs().len() == t
                &&& parts.0.recs().len() + parts.1.recs().len() == n
                &&& parts.0.names() == ds.names()
                &&& parts.1.names() == ds.names()
                &&& forall|i: int|
                    0 <= i < t ==> #[trigger] parts.0.recs()[i] == ds.recs()[p[i] as int]
                        && parts.0.tgts()[i] == ds.tgts()[p[i] as int]
                &&& forall|i: int|
                    0 <= i < n - t ==> #[trigger] parts.1.recs()[i] == ds.recs()[p[t + i] as int]
                        && parts.1.tgts()[i] == ds.tgts()[p[t + i] as int]
            },
            Err(SplitError::InvalidRatio) => !(0 < ratio_num < ratio_den),
            Err(SplitError::InsufficientSamples) => 0 < ratio_num < ratio_den && ds.recs().len()
                == 0,
        },
{
    if !(0 < ratio_num && ratio_num < ratio_den) {
        return Err(SplitError::InvalidRatio);
    }
    let n = ds.n_samples();
    if n == 0 {
        return Err(SplitError::InsufficientSamples);
    }
    proof {
        assert((n as int) * (ratio_num as int) <= 0xffffffffffffffff * 0xffffffffffffffff)
            by (nonlinear_arith)
            requires
                0 <= n <= 0xffffffffffffffff,
                0 <= ratio_num <= 0xffffffffffffffff,
        ;
        assert((n as int) * (ratio_num as int) / (ratio_den as int) <= n) by (nonlinear_arith)
            requires
                n >= 1,
                0 < ratio_num < ratio_den,
        ;
    }
    let t128 = (n as u128) * (ratio_num as u128) / (ratio_den as u128);
    let t = t128 as usize;
    proof {
        assert(t == train_count(n as nat, ratio_num as nat, ratio_den as nat));
    }
    let perm = shuffled_indices(n, seed);
    proof {
        broadcast use group_to_multiset_ensures;

        lemma_perm_count(seed, n as nat, 0);
        assert(perm@.len() == n);
        assert forall|i: int| 0 <= i < perm@.len() implies (#[trigger] perm@[i] as nat)
            < ds.recs().len() by {
            lemma_perm_count(seed, n as nat, perm@[i]);
            assert(perm@.contains(perm@[i]));
        }
    }
    let (train_recs, train_tgts) = gather(ds, &perm, 0, t);
    let (test_recs, test_tgts) = gather(ds, &perm, t, n);
    let train = Dataset {
        records: train_recs,
        targets: train_tgts,
        feature_names: copy_names(&ds.feature_names),
    };
    let test = Dataset {
        records: test_recs,
        targets: test_tgts,
        feature_names: copy_names(&ds.feature_names),
    };
    proof {
        let p = perm_of(seed, n as nat);
        assert forall|i: int| 0 <= i < train.recs().len() implies #[trigger] train.recs()[i].len()
            == train.names().len() by {
            assert(train.recs()[i] == ds.recs()[p[i] as int]);
        }
        assert forall|i: int, j: int|
            0 <= i < train.recs().len() && 0 <= j < train.recs()[i].len() implies crate::decode::is_numeric(
            #[trigger] train.recs()[i][j],
        ) by {
            assert(train.recs()[i] == ds.recs()[p[i] as int]);
        }
        assert(train.wf());
        assert forall|i: int| 0 <= i < test.recs().len() implies #[trigger] test.recs()[i].len()
            == test.names().len() by {
            assert(test.recs()[i] == ds.recs()[p[t as int + i] as int]);
        }
        assert forall|i: int, j: int|
            0 <= i < test.recs().len() && 0 <= j < test.recs()[i].len() implies crate::decode::is_numeric(
            #[trigger] test.recs()[i][j],
        ) by {
            assert(test.recs()[i] == ds.recs()[p[t as int + i] as int]);
        }
        assert(test.wf());
    }
    Ok((train, test))
}

} // verus!
