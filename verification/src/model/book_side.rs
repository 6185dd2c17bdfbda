//! One side of an order book: a sequence of price levels kept in price order,
//! best price first. Bids are kept with the highest price first, asks with the
//! lowest price first; `desc` below says which.
use vstd::multiset::Multiset;
use vstd::prelude::*;

use crate::model::orderbook::OrderBookLevel;

verus! {

/// Whether level `a` may stand before level `b` on a side in the given order:
/// a higher-or-equal price on a bid side, a lower-or-equal price on an ask side.
pub open spec fn ranks_before(a: OrderBookLevel, b: OrderBookLevel, desc: bool) -> bool {
    if desc {
        a.price >= b.price
    } else {
        a.price <= b.price
    }
}

/// Whether price `p` is strictly better than price `q` in the given order.
pub open spec fn strictly_better(p: u64, q: u64, desc: bool) -> bool {
    if desc {
        p > q
    } else {
        p < q
    }
}

/// Whether a side is in price order, best first (equal prices allowed).
pub open spec fn side_sorted(s: Seq<OrderBookLevel>, desc: bool) -> bool {
    forall|i: int, j: int| 0 <= i < j < s.len() ==> ranks_before(#[trigger] s[i], #[trigger] s[j], desc)
}

/// Whether a side is in strict price order: best first, no price twice.
pub open spec fn side_strictly_sorted(s: Seq<OrderBookLevel>, desc: bool) -> bool {
    forall|i: int, j: int|
        0 <= i < j < s.len() ==> strictly_better(#[trigger] s[i].price, #[trigger] s[j].price, desc)
}

/// Inserts `x` into a sorted side after every level that ranks before it, so that
/// among equal prices the level inserted later stands later (a stable insertion).
pub open spec fn insert_sorted(s: Seq<OrderBookLevel>, x: OrderBookLevel, desc: bool) -> Seq<
    OrderBookLevel,
>
    decreases s.len(),
{
    if s.len() == 0 {
        seq![x]
    } else if ranks_before(s.last(), x, desc) {
        s.push(x)
    } else {
        insert_sorted(s.drop_last(), x, desc).push(s.last())
    }
}

/// Inserts the levels of `rest`, in order, into the sorted side `acc`.
pub open spec fn insert_all(acc: Seq<OrderBookLevel>, rest: Seq<OrderBookLevel>, desc: bool) -> Seq<
    OrderBookLevel,
>
    decreases rest.len(),
{
    if rest.len() == 0 {
        acc
    } else {
        insert_all(insert_sorted(acc, rest[0], desc), rest.drop_first(), desc)
    }
}

/// The stable sort of `s` by price, best first: what `sort_by` with the price
/// comparison gives.
pub open spec fn sort_side(s: Seq<OrderBookLevel>, desc: bool) -> Seq<OrderBookLevel> {
    insert_all(Seq::empty(), s, desc)
}

/// Index of the first level whose price is not strictly better than `p`
/// (the length of `s` when there is none).
pub open spec fn first_not_better(s: Seq<OrderBookLevel>, p: u64, desc: bool) -> nat
    decreases s.len(),
{
    if s.len() == 0 {
        0
    } else if !strictly_better(s[0].price, p, desc) {
        0
    } else {
        1 + first_not_better(s.drop_first(), p, desc)
    }
}

/// What an incremental update does to a side: a level worse than the worst is
/// appended; otherwise, at the first level not strictly better than it, a level
/// at the same price is replaced (or, for a zero quantity, removed), and a level
/// at a new price is inserted before it.
pub open spec fn apply_update(s: Seq<OrderBookLevel>, l: OrderBookLevel, desc: bool) -> Seq<
    OrderBookLevel,
> {
    if s.len() == 0 || strictly_better(s.last().price, l.price, desc) {
        s.push(l)
    } else {
        let i = first_not_better(s, l.price, desc) as int;
        if i >= s.len() {
            s
        } else if s[i].price == l.price {
            if l.quantity == 0 {
                s.remove(i)
            } else {
                s.update(i, l)
            }
        } else {
            s.insert(i, l)
        }
    }
}

/// The level a strictly sorted side holds at price `p`, if any.
pub open spec fn level_at(s: Seq<OrderBookLevel>, p: u64) -> Option<OrderBookLevel> {
    if exists|i: int| 0 <= i < s.len() && #[trigger] s[i].price == p {
        Some(s[choose|i: int| 0 <= i < s.len() && #[trigger] s[i].price == p])
    } else {
        None
    }
}

// ---------------------------------------------------------------------------
// Proofs about sorting
// ---------------------------------------------------------------------------

proof fn lemma_ranks_total(a: OrderBookLevel, b: OrderBookLevel, desc: bool)
    ensures
        ranks_before(a, b, desc) || ranks_before(b, a, desc),
{
}

/// Inserting into a sorted side keeps it sorted and adds exactly the new level.
pub proof fn lemma_insert_sorted(s: Seq<OrderBookLevel>, x: OrderBookLevel, desc: bool)
    requires
        side_sorted(s, desc),
    ensures
        side_sorted(insert_sorted(s, x, desc), desc),
        insert_sorted(s, x, desc).to_multiset() =~= s.to_multiset().insert(x),
        insert_sorted(s, x, desc).len() == s.len() + 1,
    decreases s.len(),
{
    broadcast use vstd::seq_lib::group_to_multiset_ensures;

    if s.len() == 0 {
        assert(seq![x] =~= Seq::<OrderBookLevel>::empty().push(x));
    } else if ranks_before(s.last(), x, desc) {
        let r = s.push(x);
        assert forall|i: int, j: int| 0 <= i < j < r.len() implies ranks_before(
            #[trigger] r[i],
            #[trigger] r[j],
            desc,
        ) by {
            if j == s.len() {
                if i < s.len() - 1 {
                    assert(ranks_before(s[i], s[s.len() - 1], desc));
                }
            }
        }
    } else {
        let p = s.drop_last();
        let y = s.last();
        assert(side_sorted(p, desc)) by {
            assert forall|i: int, j: int| 0 <= i < j < p.len() implies ranks_before(
                #[trigger] p[i],
                #[trigger] p[j],
                desc,
            ) by {
                assert(p[i] == s[i] && p[j] == s[j]);
            }
        }
        lemma_insert_sorted(p, x, desc);
        let q = insert_sorted(p, x, desc);
        let r = q.push(y);
        // every level of q ranks before y: levels of p do, and so does x
        assert forall|k: int| 0 <= k < q.len() implies ranks_before(#[trigger] q[k], y, desc) by {
            assert(q.to_multiset().count(q[k]) > 0);
            assert(q.to_multiset() =~= p.to_multiset().insert(x));
            if q[k] != x {
                assert(p.to_multiset().count(q[k]) > 0);
                assert(p.contains(q[k]));
                let m = choose|m: int| 0 <= m < p.len() && p[m] == q[k];
                assert(s[m] == p[m]);
                assert(ranks_before(s[m], s[s.len() - 1], desc));
            } else {
                lemma_ranks_total(y, x, desc);
            }
        }
        assert forall|i: int, j: int| 0 <= i < j < r.len() implies ranks_before(
            #[trigger] r[i],
            #[trigger] r[j],
            desc,
        ) by {
            if j == q.len() {
                assert(r[i] == q[i]);
            } else {
                assert(r[i] == q[i] && r[j] == q[j]);
            }
        }
        assert(s =~= p.push(y));
    }
}

/// Inserting a whole sequence keeps the side sorted and adds exactly its levels.
pub proof fn lemma_insert_all(acc: Seq<OrderBookLevel>, rest: Seq<OrderBookLevel>, desc: bool)
    requires
        side_sorted(acc, desc),
    ensures
        side_sorted(insert_all(acc, rest, desc), desc),
        insert_all(acc, rest, desc).to_multiset() =~= acc.to_multiset().add(rest.to_multiset()),
    decreases rest.len(),
{
    broadcast use vstd::seq_lib::group_to_multiset_ensures;

    if rest.len() == 0 {
    } else {
        lemma_insert_sorted(acc, rest[0], desc);
        lemma_insert_all(insert_sorted(acc, rest[0], desc), rest.drop_first(), desc);
        assert(rest =~= seq![rest[0]] + rest.drop_first());
        assert(rest.drop_first().push(rest[0]).to_multiset() =~= rest.to_multiset()) by {
            vstd::seq_lib::lemma_multiset_commutative(seq![rest[0]], rest.drop_first());
            assert(seq![rest[0]].to_multiset() =~= Multiset::empty().insert(rest[0])) by {
                assert(seq![rest[0]] =~= Seq::<OrderBookLevel>::empty().push(rest[0]));
            }
            assert(rest.drop_first().push(rest[0]) =~= rest.drop_first() + seq![rest[0]]);
        }
    }
}

/// Sorting a side gives a side in price order holding exactly the given levels.
pub proof fn lemma_sort_side(s: Seq<OrderBookLevel>, desc: bool)
    ensures
        side_sorted(sort_side(s, desc), desc),
        sort_side(s, desc).to_multiset() =~= s.to_multiset(),
{
    broadcast use vstd::seq_lib::group_to_multiset_ensures;

    lemma_insert_all(Seq::empty(), s, desc);
}

/// The first index from the end before which a level must go: the levels after
/// it all rank after `x`, the level before it ranks before `x`.
pub proof fn lemma_insert_sorted_at(s: Seq<OrderBookLevel>, x: OrderBookLevel, desc: bool, j: int)
    requires
        0 <= j <= s.len(),
        j > 0 ==> ranks_before(s[j - 1], x, desc),
        forall|k: int| j <= k < s.len() ==> !ranks_before(#[trigger] s[k], x, desc),
    ensures
        insert_sorted(s, x, desc) == s.insert(j, x),
    decreases s.len(),
{
    if s.len() == 0 {
        assert(seq![x] =~= s.insert(0, x));
    } else if ranks_before(s.last(), x, desc) {
        assert(j == s.len());
        assert(s.push(x) =~= s.insert(j, x));
    } else {
        let p = s.drop_last();
        assert(j < s.len());
        assert forall|k: int| j <= k < p.len() implies !ranks_before(#[trigger] p[k], x, desc) by {
            assert(p[k] == s[k]);
        }
        lemma_insert_sorted_at(p, x, desc, j);
        assert(p.insert(j, x).push(s.last()) =~= s.insert(j, x));
    }
}

// ---------------------------------------------------------------------------
// Proofs about updates
// ---------------------------------------------------------------------------

proof fn lemma_first_not_better_props(s: Seq<OrderBookLevel>, p: u64, desc: bool)
    ensures
        first_not_better(s, p, desc) <= s.len(),
        forall|k: int|
            0 <= k < first_not_better(s, p, desc) ==> strictly_better(#[trigger] s[k].price, p, desc),
        first_not_better(s, p, desc) < s.len() ==> !strictly_better(
            s[first_not_better(s, p, desc) as int].price,
            p,
            desc,
        ),
    decreases s.len(),
{
    if s.len() > 0 && strictly_better(s[0].price, p, desc) {
        lemma_first_not_better_props(s.drop_first(), p, desc);
        assert forall|k: int| 0 <= k < first_not_better(s, p, desc) implies strictly_better(
            #[trigger] s[k].price,
            p,
            desc,
        ) by {
            if k > 0 {
                assert(s[k] == s.drop_first()[k - 1]);
            }
        }
    }
}

/// The index scan that finds where an update lands agrees with `first_not_better`.
pub proof fn lemma_first_not_better_at(s: Seq<OrderBookLevel>, p: u64, desc: bool, i: int)
    requires
        0 <= i <= s.len(),
        forall|k: int| 0 <= k < i ==> strictly_better(#[trigger] s[k].price, p, desc),
        i < s.len() ==> !strictly_better(s[i].price, p, desc),
    ensures
        first_not_better(s, p, desc) == i,
    decreases s.len(),
{
    if s.len() > 0 && i > 0 {
        assert forall|k: int| 0 <= k < i - 1 implies strictly_better(
            #[trigger] s.drop_first()[k].price,
            p,
            desc,
        ) by {
            assert(s.drop_first()[k] == s[k + 1]);
        }
        lemma_first_not_better_at(s.drop_first(), p, desc, i - 1);
    }
}

/// An update keeps a side in price order.
pub proof fn lemma_update_sorted(s: Seq<OrderBookLevel>, l: OrderBookLevel, desc: bool)
    requires
        side_sorted(s, desc),
    ensures
        side_sorted(apply_update(s, l, desc), desc),
{
    let r = apply_update(s, l, desc);
    if s.len() == 0 || strictly_better(s.last().price, l.price, desc) {
        assert forall|i: int, j: int| 0 <= i < j < r.len() implies ranks_before(
            #[trigger] r[i],
            #[trigger] r[j],
            desc,
        ) by {
            if j == s.len() && i < s.len() - 1 {
                assert(ranks_before(s[i], s[s.len() - 1], desc));
            }
        }
    } else {
        lemma_first_not_better_props(s, l.price, desc);
        let i = first_not_better(s, l.price, desc) as int;
        if i < s.len() {
            if s[i].price == l.price {
                if l.quantity == 0 {
                    assert forall|a: int, b: int| 0 <= a < b < r.len() implies ranks_before(
                        #[trigger] r[a],
                        #[trigger] r[b],
                        desc,
                    ) by {
                        let oa = if a < i { a } else { a + 1 };
                        let ob = if b < i { b } else { b + 1 };
                        assert(r[a] == s[oa] && r[b] == s[ob]);
                    }
                } else {
                    assert forall|a: int, b: int| 0 <= a < b < r.len() implies ranks_before(
                        #[trigger] r[a],
                        #[trigger] r[b],
                        desc,
                    ) by {
                        if a == i {
                            assert(ranks_before(s[i], s[b], desc));
                        } else if b == i {
                            assert(ranks_before(s[a], s[i], desc));
                        }
                    }
                }
            } else {
                assert forall|a: int, b: int| 0 <= a < b < r.len() implies ranks_before(
                    #[trigger] r[a],
                    #[trigger] r[b],
                    desc,
                ) by {
                    if a == i {
                        assert(r[b] == s[b - 1]);
                        assert(ranks_before(s[i], s[b - 1], desc));
                    } else if b == i {
                        assert(r[a] == s[a]);
                    } else {
                        let oa = if a < i { a } else { a - 1 };
                        let ob = if b < i { b } else { b - 1 };
                        assert(r[a] == s[oa] && r[b] == s[ob]);
                    }
                }
            }
        }
    }
}

/// An update keeps a side in strict price order.
pub proof fn lemma_update_strictly_sorted(s: Seq<OrderBookLevel>, l: OrderBookLevel, desc: bool)
    requires
        side_strictly_sorted(s, desc),
    ensures
        side_strictly_sorted(apply_update(s, l, desc), desc),
{
    let r = apply_update(s, l, desc);
    if s.len() == 0 || strictly_better(s.last().price, l.price, desc) {
        assert forall|i: int, j: int| 0 <= i < j < r.len() implies strictly_better(
            #[trigger] r[i].price,
            #[trigger] r[j].price,
            desc,
        ) by {
            if j == s.len() && i < s.len() - 1 {
                assert(strictly_better(s[i].price, s[s.len() - 1].price, desc));
            }
        }
    } else {
        lemma_first_not_better_props(s, l.price, desc);
        let i = first_not_better(s, l.price, desc) as int;
        if i < s.len() {
            if s[i].price == l.price {
                if l.quantity == 0 {
                    assert forall|a: int, b: int| 0 <= a < b < r.len() implies strictly_better(
                        #[trigger] r[a].price,
                        #[trigger] r[b].price,
                        desc,
                    ) by {
                        let oa = if a < i { a } else { a + 1 };
                        let ob = if b < i { b } else { b + 1 };
                        assert(r[a] == s[oa] && r[b] == s[ob]);
                    }
                } else {
                    assert forall|a: int, b: int| 0 <= a < b < r.len() implies strictly_better(
                        #[trigger] r[a].price,
                        #[trigger] r[b].price,
                        desc,
                    ) by {
                        if a == i {
                            assert(strictly_better(s[i].price, s[b].price, desc));
                        } else if b == i {
                            assert(strictly_better(s[a].price, s[i].price, desc));
                        }
                    }
                }
            } else {
                assert forall|a: int, b: int| 0 <= a < b < r.len() implies strictly_better(
                    #[trigger] r[a].price,
                    #[trigger] r[b].price,
                    desc,
                ) by {
                    if a == i {
                        assert(r[b] == s[b - 1]);
                        if b - 1 > i {
                            assert(strictly_better(s[i].price, s[b - 1].price, desc));
                        }
                    } else if b == i {
                        assert(r[a] == s[a]);
                    } else {
                        let oa = if a < i { a } else { a - 1 };
                        let ob = if b < i { b } else { b - 1 };
                        assert(r[a] == s[oa] && r[b] == s[ob]);
                    }
                }
            }
        }
    }
}


// ---------------------------------------------------------------------------
// Reading a side as a map from price to level
// ---------------------------------------------------------------------------

proof fn lemma_better_transitive(a: u64, b: u64, c: u64, desc: bool)
    requires
        strictly_better(a, b, desc),
        strictly_better(b, c, desc),
    ensures
        strictly_better(a, c, desc),
{
}

/// On a strictly sorted side, the level read at the price of index `i` is the level at `i`.
pub proof fn lemma_level_at_index(s: Seq<OrderBookLevel>, desc: bool, i: int)
    requires
        side_strictly_sorted(s, desc),
        0 <= i < s.len(),
    ensures
        level_at(s, s[i].price) == Some(s[i]),
{
    let p = s[i].price;
    assert(s[i].price == p);
    let j = choose|j: int| 0 <= j < s.len() && #[trigger] s[j].price == p;
    if j < i {
        assert(strictly_better(s[j].price, s[i].price, desc));
    } else if i < j {
        assert(strictly_better(s[i].price, s[j].price, desc));
    }
}

/// When no level of `s` has price `p`, nothing is read at `p`.
pub proof fn lemma_level_at_absent(s: Seq<OrderBookLevel>, p: u64)
    requires
        forall|k: int| 0 <= k < s.len() ==> #[trigger] s[k].price != p,
    ensures
        level_at(s, p) == None::<OrderBookLevel>,
{
}

/// Reading `r` at `p` gives what reading `s` gives when the levels of `s` at
/// price `p` stand in `r` too (at index `to_new(k)`) and every level of `r` at
/// price `p` comes from `s` (from index `to_old(j)`).
proof fn lemma_level_at_same(
    r: Seq<OrderBookLevel>,
    s: Seq<OrderBookLevel>,
    desc: bool,
    p: u64,
    to_new: spec_fn(int) -> int,
    to_old: spec_fn(int) -> int,
)
    requires
        side_strictly_sorted(r, desc),
        side_strictly_sorted(s, desc),
        forall|k: int|
            0 <= k < s.len() && s[k].price == p ==> 0 <= #[trigger] to_new(k) < r.len() && r[to_new(
                k,
            )] == s[k],
        forall|j: int|
            0 <= j < r.len() && r[j].price == p ==> 0 <= #[trigger] to_old(j) < s.len() && s[to_old(
                j,
            )] == r[j],
    ensures
        level_at(r, p) == level_at(s, p),
{
    if exists|k: int| 0 <= k < s.len() && #[trigger] s[k].price == p {
        let k = choose|k: int| 0 <= k < s.len() && #[trigger] s[k].price == p;
        let j = to_new(k);
        lemma_level_at_index(r, desc, j);
        lemma_level_at_index(s, desc, k);
    } else {
        assert forall|j: int| 0 <= j < r.len() implies #[trigger] r[j].price != p by {
            if r[j].price == p {
                let k = to_old(j);
                assert(s[k].price == p);
            }
        }
    }
}

/// Read after write: on a side in strict price order, after an update with
/// level `l`, the price of `l` reads `l` (or nothing, when `l` has quantity zero
/// and removed a level standing at its price), and every other price reads
/// what it read before.
#[verifier::rlimit(40)]
pub proof fn lemma_update_level_at(s: Seq<OrderBookLevel>, l: OrderBookLevel, desc: bool, p: u64)
    requires
        side_strictly_sorted(s, desc),
    ensures
        level_at(apply_update(s, l, desc), p) == (if p == l.price {
            if l.quantity == 0 && level_at(s, p) is Some {
                None
            } else {
                Some(l)
            }
        } else {
            level_at(s, p)
        }),
{
    let r = apply_update(s, l, desc);
    lemma_update_strictly_sorted(s, l, desc);
    if s.len() == 0 || strictly_better(s.last().price, l.price, desc) {
        // appended after every level, all of which are strictly better than l
        assert forall|k: int| 0 <= k < s.len() implies #[trigger] s[k].price != l.price by {
            if k < s.len() - 1 {
                lemma_better_transitive(s[k].price, s[s.len() - 1].price, l.price, desc);
            }
        }
        assert(r[s.len() as int] == l);
        if p == l.price {
            lemma_level_at_index(r, desc, s.len() as int);
            lemma_level_at_absent(s, p);
        } else {
            let to_new = |k: int| k;
            let to_old = |j: int| j;
            assert forall|j: int| 0 <= j < r.len() && r[j].price == p implies 0 <= #[trigger] to_old(
                j,
            ) < s.len() && s[to_old(j)] == r[j] by {
                if j == s.len() {
                    assert(r[j] == l);
                }
            }
            lemma_level_at_same(r, s, desc, p, to_new, to_old);
        }
    } else {
        lemma_first_not_better_props(s, l.price, desc);
        let i = first_not_better(s, l.price, desc) as int;
        assert(i < s.len());
        if s[i].price == l.price {
            if l.quantity == 0 {
                // removed
                if p == l.price {
                    lemma_level_at_index(s, desc, i);
                    assert forall|j: int| 0 <= j < r.len() implies #[trigger] r[j].price != p by {
                        if j < i {
                            assert(r[j] == s[j]);
                            assert(strictly_better(s[j].price, s[i].price, desc));
                        } else {
                            assert(r[j] == s[j + 1]);
                            assert(strictly_better(s[i].price, s[j + 1].price, desc));
                        }
                    }
                    lemma_level_at_absent(r, p);
                } else {
                    let to_new = |k: int|
                        if k < i {
                            k
                        } else {
                            k - 1
                        };
                    let to_old = |j: int|
                        if j < i {
                            j
                        } else {
                            j + 1
                        };
                    assert forall|k: int| 0 <= k < s.len() && s[k].price == p implies 0
                        <= #[trigger] to_new(k) < r.len() && r[to_new(k)] == s[k] by {
                        assert(k != i);
                    }
                    lemma_level_at_same(r, s, desc, p, to_new, to_old);
                }
            } else {
                // replaced
                if p == l.price {
                    lemma_level_at_index(r, desc, i);
                } else {
                    let to_new = |k: int| k;
                    let to_old = |j: int| j;
                    lemma_level_at_same(r, s, desc, p, to_new, to_old);
                }
            }
        } else {
            // inserted before index i; no level of s has l's price
            assert forall|k: int| 0 <= k < s.len() implies #[trigger] s[k].price != l.price by {
                if k < i {
                    assert(strictly_better(s[k].price, l.price, desc));
                } else if k > i {
                    assert(strictly_better(s[i].price, s[k].price, desc));
                }
            }
            assert(r[i] == l);
            if p == l.price {
                lemma_level_at_index(r, desc, i);
                lemma_level_at_absent(s, p);
            } else {
                let to_new = |k: int|
                    if k < i {
                        k
                    } else {
                        k + 1
                    };
                let to_old = |j: int|
                    if j < i {
                        j
                    } else {
                        j - 1
                    };
                assert forall|j: int| 0 <= j < r.len() && r[j].price == p implies 0
                    <= #[trigger] to_old(j) < s.len() && s[to_old(j)] == r[j] by {
                    assert(j != i);
                }
                lemma_level_at_same(r, s, desc, p, to_new, to_old);
            }
        }
    }
}

/// The first level of a side in price order is its best: no level ranks before it.
pub proof fn lemma_first_is_best(s: Seq<OrderBookLevel>, desc: bool)
    requires
        side_sorted(s, desc),
        s.len() > 0,
    ensures
        forall|i: int| 0 <= i < s.len() ==> ranks_before(s[0], #[trigger] s[i], desc),
{
    assert forall|i: int| 0 <= i < s.len() implies ranks_before(s[0], #[trigger] s[i], desc) by {
        if i > 0 {
            assert(ranks_before(s[0], s[i], desc));
        }
    }
}

/// Sorting a side of one level gives that level.
pub proof fn lemma_single_sorted(x: OrderBookLevel, desc: bool)
    ensures
        sort_side(seq![x], desc) == seq![x],
{
    assert(seq![x].drop_first() =~= Seq::<OrderBookLevel>::empty());
    reveal_with_fuel(insert_all, 2);
    reveal_with_fuel(insert_sorted, 1);
}

} // verus!
