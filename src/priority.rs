//! Ordering of candidate devices by a ranked list of vendors.
use crate::gpu::{views, GpuView, GPU};
use crate::vendor::Vendor;
use vstd::prelude::*;

verus! {

/// The position of the first occurrence of `v` in `list`, or the length of
/// `list` when `v` is absent: an absent vendor ranks after every listed one.
pub open spec fn rank_of(list: Seq<Vendor>, v: Vendor) -> nat
    decreases list.len(),
{
    if list.len() == 0 {
        0
    } else if list[0] == v {
        0
    } else {
        rank_of(list.drop_first(), v) + 1
    }
}

/// The records of `s` whose vendor has rank `r`, in their order in `s`.
pub open spec fn with_rank(s: Seq<GpuView>, list: Seq<Vendor>, r: nat) -> Seq<GpuView>
    decreases s.len(),
{
    if s.len() == 0 {
        Seq::empty()
    } else {
        let p = with_rank(s.drop_last(), list, r);
        if rank_of(list, s.last().vendor) == r {
            p.push(s.last())
        } else {
            p
        }
    }
}

/// The records of `s` whose vendor does not have rank `r`, in their order.
pub open spec fn without_rank(s: Seq<GpuView>, list: Seq<Vendor>, r: nat) -> Seq<GpuView>
    decreases s.len(),
{
    if s.len() == 0 {
        Seq::empty()
    } else {
        let p = without_rank(s.drop_last(), list, r);
        if rank_of(list, s.last().vendor) == r {
            p
        } else {
            p.push(s.last())
        }
    }
}

/// The records of `s` whose rank is at least `r`, rank by rank, each rank in
/// the order of `s`.
pub open spec fn ranked(s: Seq<GpuView>, list: Seq<Vendor>, r: nat) -> Seq<GpuView>
    decreases list.len() + 1 - r,
{
    if r > list.len() {
        Seq::empty()
    } else {
        with_rank(s, list, r) + ranked(s, list, r + 1)
    }
}

/// The rank of a vendor in a priority list.
pub fn rank(list: &Vec<Vendor>, v: Vendor) -> (r: usize)
    ensures
        r == rank_of(list@, v),
{
    let n = list.len();
    let mut i: usize = 0;
    assert(list@.subrange(0, n as int) =~= list@);
    while i < n
        invariant
            n == list@.len(),
            i <= n,
            rank_of(list@, v) == i + rank_of(list@.subrange(i as int, n as int), v),
        decreases n - i,
    {
        assert(list@.subrange(i as int, n as int)[0] == list@[i as int]);
        if list[i] == v {
            return i;
        }
        assert(list@.subrange(i as int, n as int).drop_first() =~= list@.subrange(
            i + 1,
            n as int,
        ));
        i = i + 1;
    }
    i
}

proof fn lemma_with_rank_add(a: Seq<GpuView>, b: Seq<GpuView>, list: Seq<Vendor>, r: nat)
    ensures
        with_rank(a + b, list, r) == with_rank(a, list, r) + with_rank(b, list, r),
    decreases b.len(),
{
    if b.len() == 0 {
        assert(a + b =~= a);
        assert(with_rank(a, list, r) + with_rank(b, list, r) =~= with_rank(a, list, r));
    } else {
        assert((a + b).drop_last() =~= a + b.drop_last());
        lemma_with_rank_add(a, b.drop_last(), list, r);
        assert((a + b).last() == b.last());
        if rank_of(list, b.last().vendor) == r {
            assert(with_rank(a + b, list, r) =~= with_rank(a, list, r) + with_rank(b, list, r));
        } else {
            assert(with_rank(a + b, list, r) =~= with_rank(a, list, r) + with_rank(b, list, r));
        }
    }
}

proof fn lemma_with_rank_ranks(s: Seq<GpuView>, list: Seq<Vendor>, r: nat)
    ensures
        forall|i: int|
            0 <= i < with_rank(s, list, r).len() ==> rank_of(list, #[trigger] with_rank(
                s,
                list,
                r,
            )[i].vendor) == r,
    decreases s.len(),
{
    if s.len() > 0 {
        lemma_with_rank_ranks(s.drop_last(), list, r);
    }
}

proof fn lemma_with_rank_twice(s: Seq<GpuView>, list: Seq<Vendor>, r: nat, q: nat)
    ensures
        with_rank(with_rank(s, list, r), list, q) == if q == r {
            with_rank(s, list, r)
        } else {
            Seq::empty()
        },
    decreases s.len(),
{
    if s.len() > 0 {
        lemma_with_rank_twice(s.drop_last(), list, r, q);
        let p = with_rank(s.drop_last(), list, r);
        if rank_of(list, s.last().vendor) == r {
            assert(with_rank(s, list, r).drop_last() =~= p);
        }
    }
}

proof fn lemma_rank_bound(list: Seq<Vendor>, v: Vendor)
    ensures
        rank_of(list, v) <= list.len(),
        rank_of(list, v) < list.len() <==> list.contains(v),
    decreases list.len(),
{
    if list.len() > 0 {
        lemma_rank_bound(list.drop_first(), v);
        if list[0] != v {
            if list.contains(v) {
                let k = choose|k: int| 0 <= k < list.len() && list[k] == v;
                assert(list.drop_first()[k - 1] == v);
            }
            if list.drop_first().contains(v) {
                let k = choose|k: int| 0 <= k < list.drop_first().len() && list.drop_first()[k] == v;
                assert(list[k + 1] == v);
            }
        } else {
            assert(list[0] == v);
        }
    }
}

proof fn lemma_with_rank_beyond(s: Seq<GpuView>, list: Seq<Vendor>, q: nat)
    requires
        q > list.len(),
    ensures
        with_rank(s, list, q) == Seq::<GpuView>::empty(),
    decreases s.len(),
{
    if s.len() > 0 {
        lemma_with_rank_beyond(s.drop_last(), list, q);
        lemma_rank_bound(list, s.last().vendor);
    }
}

proof fn lemma_ranked_class(s: Seq<GpuView>, list: Seq<Vendor>, r: nat, q: nat)
    ensures
        with_rank(ranked(s, list, r), list, q) == if r <= q {
            with_rank(s, list, q)
        } else {
            Seq::empty()
        },
    decreases list.len() + 1 - r,
{
    if r > list.len() {
        assert(with_rank(Seq::<GpuView>::empty(), list, q) == Seq::<GpuView>::empty());
        if r <= q {
            lemma_with_rank_beyond(s, list, q);
        }
    } else {
        lemma_ranked_class(s, list, r + 1, q);
        lemma_with_rank_add(with_rank(s, list, r), ranked(s, list, r + 1), list, q);
        lemma_with_rank_twice(s, list, r, q);
        if q == r {
            assert(with_rank(s, list, q) + Seq::<GpuView>::empty() =~= with_rank(s, list, q));
        } else {
            assert(Seq::<GpuView>::empty() + with_rank(ranked(s, list, r + 1), list, q)
                =~= with_rank(ranked(s, list, r + 1), list, q));
        }
    }
}

proof fn lemma_ranked_sorted(s: Seq<GpuView>, list: Seq<Vendor>, r: nat)
    ensures
        forall|i: int|
            0 <= i < ranked(s, list, r).len() ==> r <= rank_of(
                list,
                #[trigger] ranked(s, list, r)[i].vendor,
            ),
        forall|i: int, j: int|
            0 <= i < j < ranked(s, list, r).len() ==> rank_of(
                list,
                #[trigger] ranked(s, list, r)[i].vendor,
            ) <= rank_of(list, #[trigger] ranked(s, list, r)[j].vendor),
    decreases list.len() + 1 - r,
{
    if r <= list.len() {
        lemma_ranked_sorted(s, list, r + 1);
        lemma_with_rank_ranks(s, list, r);
        let a = with_rank(s, list, r);
        let b = ranked(s, list, r + 1);
        let t = ranked(s, list, r);
        assert(t == a + b);
        assert forall|i: int| 0 <= i < t.len() implies r <= rank_of(list, #[trigger] t[i].vendor) by {
            if i < a.len() {
                assert(t[i] == a[i]);
            } else {
                assert(t[i] == b[i - a.len()]);
            }
        }
        assert forall|i: int, j: int| 0 <= i < j < t.len() implies rank_of(
            list,
            #[trigger] t[i].vendor,
        ) <= rank_of(list, #[trigger] t[j].vendor) by {
            if j < a.len() {
                assert(t[i] == a[i]);
                assert(t[j] == a[j]);
            } else if i < a.len() {
                assert(t[i] == a[i]);
                assert(t[j] == b[j - a.len()]);
            } else {
                assert(t[i] == b[i - a.len()]);
                assert(t[j] == b[j - a.len()]);
            }
        }
    }
}

proof fn lemma_without_class(s: Seq<GpuView>, list: Seq<Vendor>, r: nat, q: nat)
    requires
        q != r,
    ensures
        with_rank(without_rank(s, list, r), list, q) == with_rank(s, list, q),
    decreases s.len(),
{
    if s.len() > 0 {
        lemma_without_class(s.drop_last(), list, r, q);
        let p = without_rank(s.drop_last(), list, r);
        if rank_of(list, s.last().vendor) != r {
            assert(without_rank(s, list, r).drop_last() =~= p);
        }
    }
}

proof fn lemma_ranked_without(s: Seq<GpuView>, list: Seq<Vendor>, r: nat, q: nat)
    requires
        r < q,
    ensures
        ranked(without_rank(s, list, r), list, q) == ranked(s, list, q),
    decreases list.len() + 1 - q,
{
    if q <= list.len() {
        lemma_ranked_without(s, list, r, q + 1);
        lemma_without_class(s, list, r, q);
    }
}

proof fn lemma_split_pass(s: Seq<GpuView>, list: Seq<Vendor>, r: nat)
    requires
        r <= list.len(),
    ensures
        ranked(s, list, r) == with_rank(s, list, r) + ranked(without_rank(s, list, r), list, r + 1),
{
    lemma_ranked_without(s, list, r, r + 1);
}

proof fn lemma_with_rank_nonempty(s: Seq<GpuView>, list: Seq<Vendor>, i: int)
    requires
        0 <= i < s.len(),
    ensures
        with_rank(s, list, rank_of(list, s[i].vendor)).len() > 0,
    decreases s.len(),
{
    if i < s.len() - 1 {
        lemma_with_rank_nonempty(s.drop_last(), list, i);
        assert(s.drop_last()[i] == s[i]);
    }
}

proof fn lemma_with_rank_len(s: Seq<GpuView>, list: Seq<Vendor>, r: nat)
    ensures
        with_rank(s, list, r).len() <= s.len(),
    decreases s.len(),
{
    if s.len() > 0 {
        lemma_with_rank_len(s.drop_last(), list, r);
    }
}

/// Ordering a non-empty set of candidates leaves it non-empty.
pub proof fn lemma_ranked_nonempty(c: Seq<GpuView>, list: Seq<Vendor>)
    requires
        c.len() > 0,
    ensures
        ranked(c, list, 0).len() > 0,
{
    let q = rank_of(list, c[0].vendor);
    lemma_with_rank_nonempty(c, list, 0);
    lemma_order_stable(c, list, q);
    lemma_with_rank_len(ranked(c, list, 0), list, q);
}

/// Ordering is stable: the records of every rank come out in the order in
/// which they came in.
pub proof fn lemma_order_stable(c: Seq<GpuView>, list: Seq<Vendor>, q: nat)
    ensures
        with_rank(ranked(c, list, 0), list, q) == with_rank(c, list, q),
{
    lemma_ranked_class(c, list, 0, q);
}

/// Ordering sorts by rank: no record comes before one of a lower rank.
pub proof fn lemma_order_sorted(c: Seq<GpuView>, list: Seq<Vendor>, i: int, j: int)
    requires
        0 <= i < j < ranked(c, list, 0).len(),
    ensures
        rank_of(list, ranked(c, list, 0)[i].vendor) <= rank_of(list, ranked(c, list, 0)[j].vendor),
{
    lemma_ranked_sorted(c, list, 0);
}

/// A record whose vendor is absent from the list comes after every record
/// whose vendor is in it, whatever the length of the list.
pub proof fn lemma_absent_last(c: Seq<GpuView>, list: Seq<Vendor>, i: int, j: int)
    requires
        0 <= i < ranked(c, list, 0).len(),
        0 <= j < ranked(c, list, 0).len(),
        list.contains(ranked(c, list, 0)[i].vendor),
        !list.contains(ranked(c, list, 0)[j].vendor),
    ensures
        i < j,
{
    let t = ranked(c, list, 0);
    lemma_rank_bound(list, t[i].vendor);
    lemma_rank_bound(list, t[j].vendor);
    lemma_ranked_sorted(c, list, 0);
    if j < i {
        assert(rank_of(list, t[j].vendor) <= rank_of(list, t[i].vendor));
    }
}

/// Orders the candidates by the rank of their vendor in `list`; candidates
/// of equal rank keep their order.
pub fn order_by_priority(gpus: Vec<GPU>, list: &Vec<Vendor>) -> (r: Vec<GPU>)
    ensures
        views(r@) == ranked(views(gpus@), list@, 0),
{
    let ghost all = views(gpus@);
    let n = list.len();
    let mut out: Vec<GPU> = Vec::new();
    let mut rest = gpus;
    let mut r: usize = 0;
    assert(views(out@) + ranked(views(rest@), list@, 0) =~= ranked(all, list@, 0));
    loop
        invariant
            n == list@.len(),
            r <= n,
            all == views(gpus@),
            views(out@) + ranked(views(rest@), list@, r as nat) == ranked(all, list@, 0),
        decreases n - r,
    {
        let ghost before = views(out@);
        let ghost pool = views(rest@);
        let mut keep: Vec<GPU> = Vec::new();
        let ghost mut k: int = 0;
        while rest.len() > 0
            invariant
                n == list@.len(),
                r <= n,
                before + ranked(pool, list@, r as nat) == ranked(all, list@, 0),
                0 <= k <= pool.len(),
                views(rest@) == pool.subrange(k, pool.len() as int),
                views(out@) == before + with_rank(pool.subrange(0, k), list@, r as nat),
                views(keep@) == without_rank(pool.subrange(0, k), list@, r as nat),
            decreases rest@.len(),
        {
            assert(views(rest@)[0] == rest@[0]@);
            assert(views(rest@).len() == rest@.len());
            let ghost old_rest = rest@;
            let g = rest.remove(0);
            assert(rest@ =~= old_rest.subrange(1, old_rest.len() as int));
            assert(g@ == pool[k]);
            assert(pool.subrange(0, k + 1).drop_last() =~= pool.subrange(0, k));
            let ghost o = views(out@);
            let ghost kp = views(keep@);
            if rank(list, g.vendor) == r {
                out.push(g);
                assert(views(out@) =~= o.push(pool[k]));
            } else {
                keep.push(g);
                assert(views(keep@) =~= kp.push(pool[k]));
            }
            proof {
                k = k + 1;
            }
            assert forall|m: int| 0 <= m < views(rest@).len() implies views(rest@)[m] == pool.subrange(k, pool.len() as int)[m] by {
                assert(views(rest@)[m] == rest@[m]@);
                assert(rest@[m] == old_rest[m + 1]);
                assert(views(old_rest)[m + 1] == old_rest[m + 1]@);
            }
            assert(views(rest@) =~= pool.subrange(k, pool.len() as int));
        }
        assert(pool.subrange(0, k) =~= pool);
        rest = keep;
        proof {
            lemma_split_pass(pool, list@, r as nat);
            assert(views(out@) + ranked(views(rest@), list@, (r + 1) as nat) =~= before + ranked(
                pool,
                list@,
                r as nat,
            ));
        }
        if r == n {
            assert(ranked(views(rest@), list@, (r + 1) as nat) =~= Seq::<GpuView>::empty());
            assert(views(out@) =~= views(out@) + ranked(views(rest@), list@, (r + 1) as nat));
            return out;
        }
        r = r + 1;
    }
}

} // verus!
