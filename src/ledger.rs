use vstd::prelude::*;
use crate::schedule::{one_fn, sum_all, sum_of};
use crate::entities::Order;

verus! {

pub proof fn lemma_sum_of_push(q: Seq<Order>, o: Order, f: spec_fn(Order) -> int)
    ensures
        sum_of(q.push(o), f) == sum_of(q, f) + f(o),
{
    assert(q.push(o).drop_last() =~= q);
}

pub proof fn lemma_sum_of_remove(q: Seq<Order>, i: int, f: spec_fn(Order) -> int)
    requires
        0 <= i < q.len(),
    ensures
        sum_of(q.remove(i), f) == sum_of(q, f) - f(q[i]),
    decreases q.len(),
{
    if i == q.len() - 1 {
        assert(q.remove(i) =~= q.drop_last());
    } else {
        let r = q.remove(i);
        assert(r.drop_last() =~= q.drop_last().remove(i));
        assert(r.last() == q.last());
        lemma_sum_of_remove(q.drop_last(), i, f);
    }
}

pub proof fn lemma_sum_all_update(qs: Seq<Seq<Order>>, p: int, q: Seq<Order>, f: spec_fn(Order) -> int)
    requires
        0 <= p < qs.len(),
    ensures
        sum_all(qs.update(p, q), f) == sum_all(qs, f) - sum_of(qs[p], f) + sum_of(q, f),
    decreases qs.len(),
{
    let u = qs.update(p, q);
    if p == qs.len() - 1 {
        assert(u.drop_last() =~= qs.drop_last());
    } else {
        assert(u.drop_last() =~= qs.drop_last().update(p, q));
        lemma_sum_all_update(qs.drop_last(), p, q, f);
    }
}

pub proof fn lemma_sum_of_frame(q: Seq<Order>, f: spec_fn(Order) -> int, g: spec_fn(Order) -> int)
    requires
        forall|j: int| 0 <= j < q.len() ==> f(#[trigger] q[j]) == g(q[j]),
    ensures
        sum_of(q, f) == sum_of(q, g),
    decreases q.len(),
{
    if q.len() > 0 {
        let d = q.drop_last();
        assert forall|j: int| 0 <= j < d.len() implies f(#[trigger] d[j]) == g(d[j]) by {
            assert(d[j] == q[j]);
        }
        lemma_sum_of_frame(d, f, g);
        assert(q.last() == q[q.len() - 1]);
    }
}

pub proof fn lemma_sum_all_frame(qs: Seq<Seq<Order>>, f: spec_fn(Order) -> int, g: spec_fn(Order) -> int)
    requires
        forall|p: int, j: int| 0 <= p < qs.len() && 0 <= j < qs[p].len() ==> f(#[trigger] qs[p][j]) == g(qs[p][j]),
    ensures
        sum_all(qs, f) == sum_all(qs, g),
    decreases qs.len(),
{
    if qs.len() > 0 {
        let d = qs.drop_last();
        assert forall|p: int, j: int| 0 <= p < d.len() && 0 <= j < d[p].len() implies f(#[trigger] d[p][j]) == g(d[p][j]) by {
            assert(d[p] == qs[p]);
        }
        lemma_sum_all_frame(d, f, g);
        let l = qs.last();
        assert forall|j: int| 0 <= j < l.len() implies f(#[trigger] l[j]) == g(l[j]) by {
            assert(l == qs[qs.len() - 1]);
        }
        lemma_sum_of_frame(l, f, g);
    }
}

pub proof fn lemma_sum_of_nonneg(q: Seq<Order>, f: spec_fn(Order) -> int)
    requires
        forall|o: Order| #[trigger] f(o) >= 0,
    ensures
        sum_of(q, f) >= 0,
    decreases q.len(),
{
    if q.len() > 0 {
        lemma_sum_of_nonneg(q.drop_last(), f);
    }
}

pub proof fn lemma_sum_all_nonneg(qs: Seq<Seq<Order>>, f: spec_fn(Order) -> int)
    requires
        forall|o: Order| #[trigger] f(o) >= 0,
    ensures
        sum_all(qs, f) >= 0,
    decreases qs.len(),
{
    if qs.len() > 0 {
        lemma_sum_all_nonneg(qs.drop_last(), f);
        lemma_sum_of_nonneg(qs.last(), f);
    }
}

/// Removing entry `i` of backlog `p` takes exactly that entry's part out of a sum.
pub proof fn lemma_sum_all_remove(qs: Seq<Seq<Order>>, p: int, i: int, f: spec_fn(Order) -> int)
    requires
        0 <= p < qs.len(),
        0 <= i < qs[p].len(),
    ensures
        sum_all(qs.update(p, qs[p].remove(i)), f) == sum_all(qs, f) - f(qs[p][i]),
{
    lemma_sum_all_update(qs, p, qs[p].remove(i), f);
    lemma_sum_of_remove(qs[p], i, f);
}

/// Appending `o` to backlog `p` adds exactly its part to a sum.
pub proof fn lemma_sum_all_push(qs: Seq<Seq<Order>>, p: int, o: Order, f: spec_fn(Order) -> int)
    requires
        0 <= p < qs.len(),
    ensures
        sum_all(qs.update(p, qs[p].push(o)), f) == sum_all(qs, f) + f(o),
{
    lemma_sum_all_update(qs, p, qs[p].push(o), f);
    lemma_sum_of_push(qs[p], o, f);
}

pub proof fn lemma_sum_all_zero(qs: Seq<Seq<Order>>, f: spec_fn(Order) -> int)
    requires
        forall|p: int, j: int| 0 <= p < qs.len() && 0 <= j < qs[p].len() ==> f(#[trigger] qs[p][j]) == 0,
    ensures
        sum_all(qs, f) == 0,
    decreases qs.len(),
{
    if qs.len() > 0 {
        let d = qs.drop_last();
        assert forall|p: int, j: int| 0 <= p < d.len() && 0 <= j < d[p].len() implies f(#[trigger] d[p][j]) == 0 by {
            assert(d[p] == qs[p]);
        }
        lemma_sum_all_zero(d, f);
        let l = qs.last();
        assert forall|j: int| 0 <= j < l.len() implies f(#[trigger] l[j]) == 0int by {
            assert(l == qs[qs.len() - 1]);
        }
        lemma_sum_of_frame(l, f, |o: Order| 0int);
        lemma_sum_of_zero_fn(l);
    }
}

proof fn lemma_sum_of_zero_fn(q: Seq<Order>)
    ensures
        sum_of(q, |o: Order| 0int) == 0,
    decreases q.len(),
{
    if q.len() > 0 {
        lemma_sum_of_zero_fn(q.drop_last());
    }
}

pub proof fn lemma_sum_all_prefix(qs: Seq<Seq<Order>>, k: int, f: spec_fn(Order) -> int)
    requires
        0 <= k <= qs.len(),
        forall|o: Order| #[trigger] f(o) >= 0,
    ensures
        sum_all(qs.take(k), f) <= sum_all(qs, f),
    decreases qs.len(),
{
    if k == qs.len() {
        assert(qs.take(k) =~= qs);
    } else {
        lemma_sum_all_prefix(qs.drop_last(), k, f);
        assert(qs.drop_last().take(k) =~= qs.take(k));
        lemma_sum_of_nonneg(qs.last(), f);
    }
}

pub proof fn lemma_sum_of_count(q: Seq<Order>)
    ensures
        sum_of(q, one_fn()) == q.len(),
    decreases q.len(),
{
    if q.len() > 0 {
        lemma_sum_of_count(q.drop_last());
    }
}

} // verus!
