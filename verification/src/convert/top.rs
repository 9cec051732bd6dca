//! Selection of the entries with the highest counts, in the order that a
//! stable sort by descending count followed by a truncation gives.

use vstd::prelude::*;

verus! {

/// Position `i` of `c` comes before position `j` when its count is larger,
/// or when the counts are equal and `i` is the earlier position.
pub open spec fn ranks_before(c: Seq<u32>, i: int, j: int) -> bool {
    c[i] > c[j] || (c[i] == c[j] && i < j)
}

/// `ord` lists, in order, the first `min(n, limit)` of the positions
/// `0..n` of `c` when they are ordered by [`ranks_before`].
pub open spec fn is_top_prefix(c: Seq<u32>, n: int, limit: int, ord: Seq<usize>) -> bool {
    &&& ord.len() == (if n < limit { n } else { limit })
    &&& forall|q: int| 0 <= q < ord.len() ==> #[trigger] ord[q] < n
    &&& forall|p: int, q: int|
        0 <= p < q < ord.len() ==> ranks_before(c, #[trigger] ord[p] as int, #[trigger] ord[q] as int)
    &&& forall|i: int, q: int|
        #![trigger ranks_before(c, ord[q] as int, i)]
        0 <= i < n && !ord.contains(i as usize) && 0 <= q < ord.len() ==> ranks_before(
            c,
            ord[q] as int,
            i,
        )
}

/// `ord` lists the positions of the `limit` highest counts of `c`,
/// highest first, earlier positions first among equal counts.
pub open spec fn is_top_order(c: Seq<u32>, limit: int, ord: Seq<usize>) -> bool {
    is_top_prefix(c, c.len() as int, limit, ord)
}

/// While fewer than `limit` positions are listed, every position is listed.
spec fn lists_all_below(n: int, limit: int, ord: Seq<usize>) -> bool {
    ord.len() < limit ==> forall|i: int| 0 <= i < n ==> #[trigger] ord.contains(i as usize)
}

/// The entries of `items` at the positions `ord`, in that order.
pub open spec fn pick<T>(items: Seq<T>, ord: Seq<usize>) -> Seq<T> {
    ord.map_values(|i: usize| items[i as int])
}

proof fn lemma_top_step(c: Seq<u32>, k: int, limit: int, ord: Seq<usize>, p: int)
    requires
        0 <= k < c.len(),
        k < usize::MAX,
        0 <= limit,
        is_top_prefix(c, k, limit, ord),
        lists_all_below(k, limit, ord),
        0 <= p <= ord.len(),
        forall|q: int| 0 <= q < p ==> c[#[trigger] ord[q] as int] >= c[k],
        p < ord.len() ==> c[ord[p] as int] < c[k],
    ensures
        p < limit ==> {
            let ins = ord.insert(p, k as usize);
            let new = if ins.len() > limit {
                ins.drop_last()
            } else {
                ins
            };
            is_top_prefix(c, k + 1, limit, new) && lists_all_below(k + 1, limit, new)
        },
        p >= limit ==> is_top_prefix(c, k + 1, limit, ord) && lists_all_below(k + 1, limit, ord),
{
    assert forall|q: int| p <= q < ord.len() implies c[#[trigger] ord[q] as int] < c[k] by {
        if q > p {
            assert(ranks_before(c, ord[p] as int, ord[q] as int));
        }
    }
    if p < limit {
        let ins = ord.insert(p, k as usize);
        let new = if ins.len() > limit {
            ins.drop_last()
        } else {
            ins
        };
        assert forall|a: int| 0 <= a < new.len() implies #[trigger] new[a] == ins[a] by {}
        assert forall|a: int| 0 <= a < ins.len() implies #[trigger] ins[a] == (if a < p {
            ord[a]
        } else if a == p {
            k as usize
        } else {
            ord[a - 1]
        }) by {}
        assert forall|a: int, b: int| 0 <= a < b < new.len() implies ranks_before(
            c,
            #[trigger] new[a] as int,
            #[trigger] new[b] as int,
        ) by {
            assert(new[a] == ins[a]);
            assert(new[b] == ins[b]);
            if a < p && b > p {
                assert(ranks_before(c, ord[a] as int, ord[b - 1] as int));
            } else if a > p {
                assert(ranks_before(c, ord[a - 1] as int, ord[b - 1] as int));
            }
        }
        assert forall|i: int, q: int|
            0 <= i < k + 1 && !new.contains(i as usize) && 0 <= q < new.len() implies #[trigger] ranks_before(
            c,
            new[q] as int,
            i,
        ) by {
            assert(new[q] == ins[q]);
            if i == k {
                // only dropped when ord was full; k sits at p < limit
                assert(new[p] == k as usize);
            } else {
                if ord.contains(i as usize) {
                    // i was the dropped last element
                    let r = choose|r: int| 0 <= r < ord.len() && ord[r] == i as usize;
                    if r < p {
                        assert(new[r] == i as usize);
                    } else {
                        assert(ins[r + 1] == i as usize);
                        if r + 1 < new.len() {
                            assert(new[r + 1] == i as usize);
                        }
                        assert(r + 1 == ins.len() - 1);
                        if q < p {
                            assert(ranks_before(c, ord[q] as int, ord[r] as int));
                        } else if q > p {
                            assert(ranks_before(c, ord[q - 1] as int, ord[r] as int));
                        }
                    }
                } else {
                    if q < p {
                        assert(ranks_before(c, ord[q] as int, i));
                    } else if q > p {
                        assert(ranks_before(c, ord[q - 1] as int, i));
                    } else {
                        // ord is full here, so i sits after ord's last element,
                        // which in turn sits after k
                        assert(ord.len() > 0);
                        let last = ord.len() - 1;
                        assert(ranks_before(c, ord[last] as int, i));
                        assert(p <= last);
                        assert(c[ord[last] as int] < c[k]);
                    }
                }
            }
        }
        assert forall|q: int| 0 <= q < new.len() implies #[trigger] new[q] < k + 1 by {
            assert(new[q] == ins[q]);
        }
        if new.len() < limit {
            assert forall|i: int| 0 <= i < k + 1 implies #[trigger] new.contains(i as usize) by {
                if i == k {
                    assert(new[p] == k as usize);
                } else {
                    assert(ord.len() < limit);
                    assert(ord.contains(i as usize));
                    let r = choose|r: int| 0 <= r < ord.len() && ord[r] == i as usize;
                    if r < p {
                        assert(new[r] == i as usize);
                    } else {
                        assert(new[r + 1] == i as usize);
                    }
                }
            }
        }
    } else {
        assert forall|i: int, q: int|
            0 <= i < k + 1 && !ord.contains(i as usize) && 0 <= q < ord.len() implies #[trigger] ranks_before(
            c,
            ord[q] as int,
            i,
        ) by {
            if i == k {
                assert(c[ord[q] as int] >= c[k]);
            }
        }
    }
}

/// Positions of the `limit` highest counts of `counts`, highest first;
/// among equal counts the earlier position comes first.
pub fn top_order(counts: &Vec<u32>, limit: usize) -> (ord: Vec<usize>)
    ensures
        is_top_order(counts@, limit as int, ord@),
{
    let n = counts.len();
    let mut ord: Vec<usize> = Vec::new();
    let mut k: usize = 0;
    while k < n
        invariant
            n == counts.len(),
            k <= n,
            is_top_prefix(counts@, k as int, limit as int, ord@),
            lists_all_below(k as int, limit as int, ord@),
        decreases n - k,
    {
        let ck = counts[k];
        let mut p: usize = 0;
        while p < ord.len() && counts[ord[p]] >= ck
            invariant
                n == counts.len(),
                k < n,
                ck == counts@[k as int],
                is_top_prefix(counts@, k as int, limit as int, ord@),
                lists_all_below(k as int, limit as int, ord@),
                p <= ord.len(),
                forall|q: int| 0 <= q < p ==> counts@[#[trigger] ord@[q] as int] >= ck,
            decreases ord.len() - p,
        {
            p = p + 1;
        }
        proof {
            lemma_top_step(counts@, k as int, limit as int, ord@, p as int);
        }
        if p < limit {
            ord.insert(p, k);
            if ord.len() > limit {
                ord.pop();
            }
        }
        k = k + 1;
    }
    ord
}

proof fn lemma_top_order_same_at(c: Seq<u32>, limit: int, o1: Seq<usize>, o2: Seq<usize>, q: int)
    requires
        is_top_order(c, limit, o1),
        is_top_order(c, limit, o2),
        0 <= q < o1.len(),
    ensures
        o1[q] == o2[q],
    decreases q,
{
    assert forall|r: int| 0 <= r < q implies #[trigger] o1[r] == o2[r] by {
        lemma_top_order_same_at(c, limit, o1, o2, r);
    }
    let a = o1[q] as int;
    let b = o2[q] as int;
    if a != b {
        if ranks_before(c, a, b) {
            lemma_not_before_earlier(c, limit, o1, o2, q);
        } else {
            assert forall|r: int| 0 <= r < q implies #[trigger] o2[r] == o1[r] by {}
            lemma_not_before_earlier(c, limit, o2, o1, q);
        }
    }
}

proof fn lemma_not_before_earlier(c: Seq<u32>, limit: int, o1: Seq<usize>, o2: Seq<usize>, q: int)
    requires
        is_top_order(c, limit, o1),
        is_top_order(c, limit, o2),
        0 <= q < o1.len(),
        forall|r: int| 0 <= r < q ==> #[trigger] o1[r] == o2[r],
        o1[q] != o2[q],
    ensures
        !ranks_before(c, o1[q] as int, o2[q] as int),
{
    let a = o1[q];
    let b = o2[q];
    if ranks_before(c, a as int, b as int) {
        if o2.contains(a) {
            let r = choose|r: int| 0 <= r < o2.len() && o2[r] == a;
            if r < q {
                assert(o1[r] == a);
                assert(ranks_before(c, o1[r] as int, o1[q] as int));
            } else if r > q {
                assert(ranks_before(c, o2[q] as int, o2[r] as int));
            }
        } else {
            assert(ranks_before(c, o2[q] as int, a as int));
        }
    }
}

/// There is only one order of the highest counts: two results of the
/// selection on the same counts and limit are equal.
pub proof fn lemma_top_order_unique(c: Seq<u32>, limit: int, o1: Seq<usize>, o2: Seq<usize>)
    requires
        is_top_order(c, limit, o1),
        is_top_order(c, limit, o2),
    ensures
        o1 == o2,
{
    assert forall|q: int| 0 <= q < o1.len() implies #[trigger] o1[q] == o2[q] by {
        lemma_top_order_same_at(c, limit, o1, o2, q);
    }
    assert(o1 =~= o2);
}

/// A smaller limit selects a prefix of what a larger limit selects.
pub proof fn lemma_top_order_prefix(c: Seq<u32>, k1: int, k2: int, o1: Seq<usize>, o2: Seq<usize>)
    requires
        c.len() <= usize::MAX,
        0 <= k1 <= k2,
        is_top_order(c, k1, o1),
        is_top_order(c, k2, o2),
    ensures
        o1.len() <= o2.len(),
        o1 == o2.take(o1.len() as int),
{
    assert(o1.len() <= o2.len());
    let p = o2.take(o1.len() as int);
    assert(p.len() == o1.len());
    assert forall|q: int| 0 <= q < p.len() implies #[trigger] p[q] < c.len() by {
        assert(p[q] == o2[q]);
    }
    assert forall|a: int, b: int| 0 <= a < b < p.len() implies ranks_before(
        c,
        #[trigger] p[a] as int,
        #[trigger] p[b] as int,
    ) by {
        assert(p[a] == o2[a] && p[b] == o2[b]);
    }
    assert forall|i: int, q: int|
        0 <= i < c.len() && !p.contains(i as usize) && 0 <= q < p.len() implies #[trigger] ranks_before(
        c,
        p[q] as int,
        i,
    ) by {
        assert(p[q] == o2[q]);
        if o2.contains(i as usize) {
            let r = choose|r: int| 0 <= r < o2.len() && o2[r] == i as usize;
            if r < p.len() {
                assert(p[r] == i as usize);
            } else {
                assert(q < r);
                assert(ranks_before(c, o2[q] as int, o2[r] as int));
            }
        } else {
            assert(ranks_before(c, o2[q] as int, i));
        }
    }
    assert(is_top_order(c, k1, p));
    lemma_top_order_unique(c, k1, o1, p);
}

} // verus!
