//! A per-side circular book of the orders a strategy has sent: each side keeps
//! the most recent orders up to a fixed number, oldest first, together with an
//! index from reference id to order; filled reference ids are listed apart.
use std::collections::VecDeque;
use vstd::prelude::*;
use vstd::seq_lib::group_seq_properties;

verus! {

/// An order sent to the exchange, known by its reference id.
#[derive(Debug)]
pub struct ExchangeOrder {
    pub ref_id: String,
}

impl Clone for ExchangeOrder {
    fn clone(&self) -> (r: Self)
        ensures
            r == *self,
    {
        ExchangeOrder { ref_id: self.ref_id.clone() }
    }
}

impl ExchangeOrder {
    /// An order with reference id `ref_id`.
    pub fn new(ref_id: &str) -> (o: Self)
        ensures
            o.ref_id@ == ref_id@,
    {
        ExchangeOrder { ref_id: ref_id.to_owned() }
    }

    /// Records the order's state; an order here carries no state, so nothing changes.
    pub fn set_state(&mut self, _state: &str)
        ensures
            *final(self) == *old(self),
    {
    }

    /// Records a fill (size and price in 10^-8 units); an order here carries no
    /// fill, so nothing changes.
    pub fn update_fill_size(&mut self, _fill_size: u64, _fill_price: u64)
        ensures
            *final(self) == *old(self),
    {
    }
}

/// Index of the first order with reference id `id` (the length when there is none).
pub open spec fn find_order(d: Seq<ExchangeOrder>, id: Seq<char>) -> nat
    decreases d.len(),
{
    if d.len() == 0 {
        0
    } else if d[0].ref_id@ == id {
        0
    } else {
        1 + find_order(d.drop_first(), id)
    }
}

/// The order an index holds under reference id `id`.
pub open spec fn dict_get(d: Seq<ExchangeOrder>, id: Seq<char>) -> Option<ExchangeOrder> {
    if find_order(d, id) < d.len() {
        Some(d[find_order(d, id) as int])
    } else {
        None
    }
}

/// The index after storing `o` under its reference id: an order already held
/// under that id is replaced in place, otherwise `o` is added at the end.
pub open spec fn dict_insert(d: Seq<ExchangeOrder>, o: ExchangeOrder) -> Seq<ExchangeOrder> {
    if find_order(d, o.ref_id@) < d.len() {
        d.update(find_order(d, o.ref_id@) as int, o)
    } else {
        d.push(o)
    }
}

/// The index after dropping the order held under reference id `id`.
pub open spec fn dict_remove(d: Seq<ExchangeOrder>, id: Seq<char>) -> Seq<ExchangeOrder> {
    if find_order(d, id) < d.len() {
        d.remove(find_order(d, id) as int)
    } else {
        d
    }
}

/// No two orders of an index share a reference id.
pub open spec fn keys_distinct(d: Seq<ExchangeOrder>) -> bool {
    forall|i: int, j: int| 0 <= i < j < d.len() ==> #[trigger] d[i].ref_id@ != #[trigger] d[j].ref_id@
}

/// Whether some order of `q` has reference id `id`.
pub open spec fn holds_id(q: Seq<ExchangeOrder>, id: Seq<char>) -> bool {
    exists|i: int| 0 <= i < q.len() && #[trigger] q[i].ref_id@ == id
}

/// The reference ids of an index, in its order.
pub open spec fn dict_keys(d: Seq<ExchangeOrder>) -> Seq<String> {
    d.map_values(|o: ExchangeOrder| o.ref_id)
}

/// What adding an order to a side does: when the side holds `cap` orders the
/// oldest leaves the queue and its id leaves the index; then the new order
/// joins the queue at the back and the index under its id.
pub open spec fn side_after_add(
    q: Seq<ExchangeOrder>,
    d: Seq<ExchangeOrder>,
    o: ExchangeOrder,
    cap: nat,
) -> (Seq<ExchangeOrder>, Seq<ExchangeOrder>) {
    if q.len() == cap && q.len() > 0 {
        (q.drop_first().push(o), dict_insert(dict_remove(d, q[0].ref_id@), o))
    } else {
        (q.push(o), dict_insert(d, o))
    }
}

/// A side is well formed: the queue holds at most `cap` orders, the index has
/// no id twice, and every id of the index is the id of a queued order.
pub open spec fn side_wf(q: Seq<ExchangeOrder>, d: Seq<ExchangeOrder>, cap: nat) -> bool {
    &&& q.len() <= cap
    &&& keys_distinct(d)
    &&& forall|i: int| 0 <= i < d.len() ==> holds_id(q, #[trigger] d[i].ref_id@)
}

proof fn lemma_find_order_props(d: Seq<ExchangeOrder>, id: Seq<char>)
    ensures
        find_order(d, id) <= d.len(),
        forall|k: int| 0 <= k < find_order(d, id) ==> #[trigger] d[k].ref_id@ != id,
        find_order(d, id) < d.len() ==> d[find_order(d, id) as int].ref_id@ == id,
    decreases d.len(),
{
    if d.len() > 0 && d[0].ref_id@ != id {
        lemma_find_order_props(d.drop_first(), id);
        assert forall|k: int| 0 <= k < find_order(d, id) implies #[trigger] d[k].ref_id@ != id by {
            if k > 0 {
                assert(d[k] == d.drop_first()[k - 1]);
            }
        }
    }
}

proof fn lemma_find_order_at(d: Seq<ExchangeOrder>, id: Seq<char>, i: int)
    requires
        0 <= i <= d.len(),
        forall|k: int| 0 <= k < i ==> #[trigger] d[k].ref_id@ != id,
        i < d.len() ==> d[i].ref_id@ == id,
    ensures
        find_order(d, id) == i,
    decreases d.len(),
{
    if d.len() > 0 && i > 0 {
        assert forall|k: int| 0 <= k < i - 1 implies #[trigger] d.drop_first()[k].ref_id@ != id by {
            assert(d.drop_first()[k] == d[k + 1]);
        }
        lemma_find_order_at(d.drop_first(), id, i - 1);
    }
}

/// In an index without repeated ids, the order found under an id is the only one with it.
proof fn lemma_find_order_unique(d: Seq<ExchangeOrder>, id: Seq<char>, k: int)
    requires
        keys_distinct(d),
        0 <= k < d.len(),
        d[k].ref_id@ == id,
    ensures
        find_order(d, id) == k,
{
    lemma_find_order_props(d, id);
    let f = find_order(d, id) as int;
    if f < k {
        assert(d[f].ref_id@ != d[k].ref_id@);
    }
}

/// Index laws: storing an order and then looking up its id gives the order
/// back, lookups of other ids are unchanged, and ids stay distinct.
pub proof fn lemma_dict_insert(d: Seq<ExchangeOrder>, o: ExchangeOrder, id: Seq<char>)
    requires
        keys_distinct(d),
    ensures
        keys_distinct(dict_insert(d, o)),
        dict_get(dict_insert(d, o), id) == (if id == o.ref_id@ {
            Some(o)
        } else {
            dict_get(d, id)
        }),
{
    lemma_find_order_props(d, o.ref_id@);
    lemma_find_order_props(d, id);
    let r = dict_insert(d, o);
    let i = find_order(d, o.ref_id@) as int;
    assert(keys_distinct(r)) by {
        assert forall|a: int, b: int| 0 <= a < b < r.len() implies #[trigger] r[a].ref_id@
            != #[trigger] r[b].ref_id@ by {
            if i < d.len() {
                if a == i {
                    assert(d[i].ref_id@ == o.ref_id@);
                    assert(d[a].ref_id@ != d[b].ref_id@);
                } else if b == i {
                    assert(d[a].ref_id@ != d[b].ref_id@);
                }
            } else {
                if b == d.len() {
                    assert(r[a] == d[a]);
                }
            }
        }
    }
    if id == o.ref_id@ {
        if i < d.len() {
            lemma_find_order_unique(r, id, i);
        } else {
            lemma_find_order_unique(r, id, d.len() as int);
        }
    } else {
        let j = find_order(d, id) as int;
        if j < d.len() {
            assert(r[j] == d[j]);
            lemma_find_order_unique(r, id, j);
        } else {
            assert forall|k: int| 0 <= k < r.len() implies #[trigger] r[k].ref_id@ != id by {
                if k < d.len() && k != i {
                    assert(r[k] == d[k]);
                }
            }
            lemma_find_order_at(r, id, r.len() as int);
        }
    }
}

/// Index laws: after dropping an id nothing is found under it, lookups of other
/// ids are unchanged, and ids stay distinct.
pub proof fn lemma_dict_remove(d: Seq<ExchangeOrder>, gone: Seq<char>, id: Seq<char>)
    requires
        keys_distinct(d),
    ensures
        keys_distinct(dict_remove(d, gone)),
        dict_get(dict_remove(d, gone), id) == (if id == gone {
            None
        } else {
            dict_get(d, id)
        }),
{
    lemma_find_order_props(d, gone);
    lemma_find_order_props(d, id);
    let r = dict_remove(d, gone);
    let i = find_order(d, gone) as int;
    assert(keys_distinct(r)) by {
        assert forall|a: int, b: int| 0 <= a < b < r.len() implies #[trigger] r[a].ref_id@
            != #[trigger] r[b].ref_id@ by {
            if i < d.len() {
                let oa = if a < i { a } else { a + 1 };
                let ob = if b < i { b } else { b + 1 };
                assert(r[a] == d[oa] && r[b] == d[ob]);
            }
        }
    }
    if i < d.len() {
        if id == gone {
            assert forall|k: int| 0 <= k < r.len() implies #[trigger] r[k].ref_id@ != id by {
                let ok = if k < i { k } else { k + 1 };
                assert(r[k] == d[ok]);
                assert(d[ok].ref_id@ != d[i].ref_id@);
            }
            lemma_find_order_at(r, id, r.len() as int);
        } else {
            let j = find_order(d, id) as int;
            if j < d.len() {
                let nj = if j < i { j } else { j - 1 };
                assert(j != i);
                assert(r[nj] == d[j]);
                lemma_find_order_unique(r, id, nj);
            } else {
                assert forall|k: int| 0 <= k < r.len() implies #[trigger] r[k].ref_id@ != id by {
                    let ok = if k < i { k } else { k + 1 };
                    assert(r[k] == d[ok]);
                }
                lemma_find_order_at(r, id, r.len() as int);
            }
        }
    } else if id == gone {
    }
}

/// Circular book laws: adding an order keeps a well-formed side well formed
/// (never more than `cap` orders queued), and the added order is then found
/// under its reference id.
pub proof fn lemma_side_after_add(
    q: Seq<ExchangeOrder>,
    d: Seq<ExchangeOrder>,
    o: ExchangeOrder,
    cap: nat,
)
    requires
        side_wf(q, d, cap),
        cap > 0,
    ensures
        side_wf(side_after_add(q, d, o, cap).0, side_after_add(q, d, o, cap).1, cap),
        dict_get(side_after_add(q, d, o, cap).1, o.ref_id@) == Some(o),
        side_after_add(q, d, o, cap).0.last() == o,
{
    let (nq, nd) = side_after_add(q, d, o, cap);
    if q.len() == cap && q.len() > 0 {
        let gone = q[0].ref_id@;
        let d1 = dict_remove(d, gone);
        lemma_dict_remove(d, gone, o.ref_id@);
        lemma_dict_insert(d1, o, o.ref_id@);
        // every id of the index is queued
        lemma_find_order_props(d, gone);
        lemma_find_order_props(d1, o.ref_id@);
        let i = find_order(d, gone) as int;
        assert forall|k: int| 0 <= k < d1.len() implies holds_id(nq, #[trigger] d1[k].ref_id@) by {
            let ok = if i < d.len() && k >= i { k + 1 } else { k };
            assert(d1[k] == d[ok]);
            assert(holds_id(q, d[ok].ref_id@));
            let w = choose|w: int| 0 <= w < q.len() && #[trigger] q[w].ref_id@ == d[ok].ref_id@;
            if w == 0 {
                assert(d[ok].ref_id@ == gone);
                if i < d.len() {
                    assert(d[i].ref_id@ == gone);
                    assert(ok == i);
                }
            } else {
                assert(nq[w - 1] == q[w]);
            }
        }
        assert forall|k: int| 0 <= k < nd.len() implies holds_id(nq, #[trigger] nd[k].ref_id@) by {
            let j = find_order(d1, o.ref_id@) as int;
            assert(nq[nq.len() - 1] == o);
            if j < d1.len() {
                if k != j {
                    assert(nd[k] == d1[k]);
                }
            } else {
                if k < d1.len() {
                    assert(nd[k] == d1[k]);
                }
            }
        }
    } else {
        lemma_dict_insert(d, o, o.ref_id@);
        lemma_find_order_props(d, o.ref_id@);
        assert forall|k: int| 0 <= k < nd.len() implies holds_id(nq, #[trigger] nd[k].ref_id@) by {
            let j = find_order(d, o.ref_id@) as int;
            assert(nq[nq.len() - 1] == o);
            let kk = if j < d.len() && k == j { -1 } else { k };
            if kk >= 0 && kk < d.len() {
                assert(nd[k] == d[k]);
                let w = choose|w: int| 0 <= w < q.len() && #[trigger] q[w].ref_id@ == d[k].ref_id@;
                assert(nq[w] == q[w]);
            }
        }
    }
}

proof fn lemma_holds_push(q: Seq<ExchangeOrder>, o: ExchangeOrder, id: Seq<char>)
    ensures
        holds_id(q.push(o), id) == (holds_id(q, id) || id == o.ref_id@),
{
    let r = q.push(o);
    if holds_id(q, id) {
        let w = choose|w: int| 0 <= w < q.len() && #[trigger] q[w].ref_id@ == id;
        assert(r[w] == q[w]);
    }
    if id == o.ref_id@ {
        assert(r[q.len() as int] == o);
    }
    if holds_id(r, id) && id != o.ref_id@ {
        let w = choose|w: int| 0 <= w < r.len() && #[trigger] r[w].ref_id@ == id;
        assert(w < q.len());
        assert(q[w] == r[w]);
    }
}

proof fn lemma_holds_drop_first(q: Seq<ExchangeOrder>, id: Seq<char>)
    requires
        keys_distinct(q),
        q.len() > 0,
    ensures
        holds_id(q.drop_first(), id) == (holds_id(q, id) && id != q[0].ref_id@),
{
    let r = q.drop_first();
    if holds_id(r, id) {
        let w = choose|w: int| 0 <= w < r.len() && #[trigger] r[w].ref_id@ == id;
        assert(q[w + 1] == r[w]);
        assert(q[0].ref_id@ != q[w + 1].ref_id@);
    }
    if holds_id(q, id) && id != q[0].ref_id@ {
        let w = choose|w: int| 0 <= w < q.len() && #[trigger] q[w].ref_id@ == id;
        assert(w > 0);
        assert(r[w - 1] == q[w]);
    }
}

/// A side is exact: no id is queued twice, no id is indexed twice, and an id
/// is queued exactly when the index holds an order under it.
pub open spec fn side_exact(q: Seq<ExchangeOrder>, d: Seq<ExchangeOrder>) -> bool {
    &&& keys_distinct(q)
    &&& keys_distinct(d)
    &&& forall|id: Seq<char>| #[trigger] holds_id(q, id) == (dict_get(d, id) is Some)
}

/// Circular book law: adding an order whose id is not queued keeps an exact
/// side exact (queued ids distinct and the same as the index keys), within
/// its capacity, with the order last in the queue; on a full side the oldest
/// order leaves and every other stays, otherwise every order stays.
pub proof fn lemma_side_exact_after_add(
    q: Seq<ExchangeOrder>,
    d: Seq<ExchangeOrder>,
    o: ExchangeOrder,
    cap: nat,
)
    requires
        side_exact(q, d),
        q.len() <= cap,
        cap > 0,
        !holds_id(q, o.ref_id@),
    ensures
        side_exact(side_after_add(q, d, o, cap).0, side_after_add(q, d, o, cap).1),
        side_after_add(q, d, o, cap).0.len() <= cap,
        side_after_add(q, d, o, cap).0.last() == o,
        side_after_add(q, d, o, cap).0.len() == (if q.len() == cap {
            cap as int
        } else {
            q.len() + 1int
        }),
        q.len() == cap ==> !holds_id(side_after_add(q, d, o, cap).0, q[0].ref_id@),
        q.len() == cap ==> forall|k: int|
            1 <= k < q.len() ==> holds_id(side_after_add(q, d, o, cap).0, #[trigger] q[k].ref_id@),
        q.len() < cap ==> forall|k: int|
            0 <= k < q.len() ==> holds_id(side_after_add(q, d, o, cap).0, #[trigger] q[k].ref_id@),
{
    let (nq, nd) = side_after_add(q, d, o, cap);
    let g = o.ref_id@;
    if q.len() == cap && q.len() > 0 {
        let qd = q.drop_first();
        let q0 = q[0].ref_id@;
        assert(holds_id(q, q0));
        lemma_holds_push(qd, o, q0);
        lemma_holds_drop_first(q, q0);
        assert forall|k: int| 1 <= k < q.len() implies holds_id(nq, #[trigger] q[k].ref_id@) by {
            assert(qd[k - 1] == q[k]);
            assert(holds_id(qd, q[k].ref_id@));
            lemma_holds_push(qd, o, q[k].ref_id@);
        }
    } else {
        assert forall|k: int| 0 <= k < q.len() implies holds_id(nq, #[trigger] q[k].ref_id@) by {
            assert(holds_id(q, q[k].ref_id@));
            lemma_holds_push(q, o, q[k].ref_id@);
        }
    }
    if q.len() == cap && q.len() > 0 {
        let q0 = q[0].ref_id@;
        let d1 = dict_remove(d, q0);
        let qd = q.drop_first();
        lemma_dict_remove(d, q0, g);
        lemma_dict_insert(d1, o, g);
        assert forall|id: Seq<char>| #[trigger] holds_id(nq, id) == (dict_get(nd, id) is Some) by {
            lemma_dict_remove(d, q0, id);
            lemma_dict_insert(d1, o, id);
            lemma_holds_push(qd, o, id);
            lemma_holds_drop_first(q, id);
            assert(holds_id(q, id) == (dict_get(d, id) is Some));
        }
        assert forall|a: int, b: int| 0 <= a < b < nq.len() implies #[trigger] nq[a].ref_id@
            != #[trigger] nq[b].ref_id@ by {
            if b == nq.len() - 1 {
                assert(nq[b] == o);
                assert(nq[a] == q[a + 1]);
                if q[a + 1].ref_id@ == g {
                    assert(holds_id(q, g));
                }
            } else {
                assert(nq[a] == q[a + 1]);
                assert(nq[b] == q[b + 1]);
            }
        }
    } else {
        lemma_dict_insert(d, o, g);
        assert forall|id: Seq<char>| #[trigger] holds_id(nq, id) == (dict_get(nd, id) is Some) by {
            lemma_dict_insert(d, o, id);
            lemma_holds_push(q, o, id);
            assert(holds_id(q, id) == (dict_get(d, id) is Some));
        }
        assert forall|a: int, b: int| 0 <= a < b < nq.len() implies #[trigger] nq[a].ref_id@
            != #[trigger] nq[b].ref_id@ by {
            assert(nq[a] == q[a]);
            if b == nq.len() - 1 {
                if q[a].ref_id@ == g {
                    assert(holds_id(q, g));
                }
            } else {
                assert(nq[b] == q[b]);
            }
        }
    }
}

/// Whether reference id `id` is listed in `fills`.
pub open spec fn listed(fills: Seq<String>, id: Seq<char>) -> bool {
    exists|i: int| 0 <= i < fills.len() && #[trigger] fills[i]@ == id
}

/// Fill-list law: after an id is listed it is found in the list, and every
/// other id is found exactly when it was found before.
pub proof fn lemma_fill_list_add(before: Seq<String>, after: Seq<String>, id: Seq<char>)
    requires
        after.len() == before.len() + 1,
        after.drop_last() == before,
    ensures
        listed(after, after.last()@),
        listed(after, id) <==> (listed(before, id) || id == after.last()@),
{
    let n = before.len() as int;
    assert(after[n] == after.last());
    if listed(before, id) {
        let k = choose|k: int| 0 <= k < before.len() && #[trigger] before[k]@ == id;
        assert(after[k] == before[k]);
    }
    if listed(after, id) && id != after.last()@ {
        let k = choose|k: int| 0 <= k < after.len() && #[trigger] after[k]@ == id;
        assert(k < n);
        assert(before[k] == after[k]);
    }
}

/// Fill-list law: after the fills of `gone` are dropped, `gone` is no longer
/// found, and every other id is found exactly when it was found before.
pub proof fn lemma_fill_list_delete(fills: Seq<String>, gone: Seq<char>, id: Seq<char>)
    ensures
        listed(fills.filter(|x: String| x@ != gone), id) <==> (id != gone && listed(fills, id)),
    decreases fills.len(),
{
    let pred = |x: String| x@ != gone;
    let f = fills.filter(pred);
    if fills.len() == 0 {
        assert(f =~= Seq::<String>::empty()) by {
            reveal_with_fuel(Seq::filter, 1);
        }
    } else {
        let p = fills.drop_last();
        let x = fills.last();
        lemma_fill_list_delete(p, gone, id);
        let pf = p.filter(pred);
        assert(f == (if pred(x) { pf.push(x) } else { pf })) by {
            reveal_with_fuel(Seq::filter, 1);
        }
        lemma_fill_list_add(p, fills, id);
        if pred(x) {
            assert(pf.push(x).drop_last() =~= pf);
            lemma_fill_list_add(pf, pf.push(x), id);
        }
    }
}

/// Finds the first order with reference id `key`.
fn find_index(d: &Vec<ExchangeOrder>, key: &String) -> (r: usize)
    ensures
        r == find_order(d@, key@),
{
    let n = d.len();
    let mut i: usize = 0;
    while i < n && !(d[i].ref_id == *key)
        invariant
            n == d@.len(),
            i <= n,
            forall|k: int| 0 <= k < i ==> #[trigger] d@[k].ref_id@ != key@,
        decreases n - i,
    {
        i = i + 1;
    }
    proof {
        lemma_find_order_at(d@, key@, i as int);
    }
    i
}

/// Finds the first queued order with reference id `key`.
fn find_queued(q: &VecDeque<ExchangeOrder>, key: &String) -> (r: usize)
    ensures
        r == find_order(q@, key@),
{
    let n = q.len();
    let mut i: usize = 0;
    while i < n && !(q[i].ref_id == *key)
        invariant
            n == q@.len(),
            i <= n,
            forall|k: int| 0 <= k < i ==> #[trigger] q@[k].ref_id@ != key@,
        decreases n - i,
    {
        i = i + 1;
    }
    proof {
        lemma_find_order_at(q@, key@, i as int);
    }
    i
}

/// Stores `o` under its reference id (see `dict_insert`).
fn index_insert(d: &mut Vec<ExchangeOrder>, o: ExchangeOrder)
    ensures
        final(d)@ == dict_insert(old(d)@, o),
{
    let i = find_index(d, &o.ref_id);
    if i < d.len() {
        d.set(i, o);
    } else {
        d.push(o);
    }
}

/// Drops the order held under `key` (see `dict_remove`).
fn index_remove(d: &mut Vec<ExchangeOrder>, key: &String)
    ensures
        final(d)@ == dict_remove(old(d)@, key@),
{
    let i = find_index(d, key);
    if i < d.len() {
        d.remove(i);
    }
}

/// Adds an order to one side (see `side_after_add`).
fn add_to_side(
    queue: &mut VecDeque<ExchangeOrder>,
    index: &mut Vec<ExchangeOrder>,
    order: ExchangeOrder,
    cap: usize,
)
    ensures
        (final(queue)@, final(index)@) == side_after_add(old(queue)@, old(index)@, order, cap as nat),
{
    if queue.len() == cap && queue.len() > 0 {
        let ghost q0 = queue@;
        match queue.pop_front() {
            Some(removed_order) => {
                assert(queue@ =~= q0.drop_first());
                index_remove(index, &removed_order.ref_id);
            },
            None => {},
        }
    }
    let copy = order.clone();
    queue.push_back(copy);
    index_insert(index, order);
}

/// Finds the order held under `ref_id`.
fn index_position(d: &Vec<ExchangeOrder>, ref_id: &str) -> (r: usize)
    ensures
        r == find_order(d@, ref_id@),
{
    let key = ref_id.to_owned();
    find_index(d, &key)
}

/// The most recent orders of an instrument on each side, up to
/// `max_order_per_side` per side (the queues are made with that capacity, and
/// a side counts as full when it holds that many), with an index by reference
/// id and a list of filled reference ids.
pub struct CircularOrderBook {
    instrument_name: String,
    max_order_per_side: usize,
    bid_queue: VecDeque<ExchangeOrder>,
    ask_queue: VecDeque<ExchangeOrder>,
    bid_dict: Vec<ExchangeOrder>,
    ask_dict: Vec<ExchangeOrder>,
    fill_list: Vec<String>,
}

impl CircularOrderBook {
    pub closed spec fn instrument(&self) -> Seq<char> {
        self.instrument_name@
    }

    /// How many orders each side keeps.
    pub closed spec fn capacity(&self) -> nat {
        self.max_order_per_side as nat
    }

    /// Queued bid orders, oldest first.
    pub closed spec fn bids(&self) -> Seq<ExchangeOrder> {
        self.bid_queue@
    }

    /// Queued ask orders, oldest first.
    pub closed spec fn asks(&self) -> Seq<ExchangeOrder> {
        self.ask_queue@
    }

    /// The bid index by reference id.
    pub closed spec fn bid_index(&self) -> Seq<ExchangeOrder> {
        self.bid_dict@
    }

    /// The ask index by reference id.
    pub closed spec fn ask_index(&self) -> Seq<ExchangeOrder> {
        self.ask_dict@
    }

    /// The filled reference ids, in the order they were listed.
    pub closed spec fn fills(&self) -> Seq<String> {
        self.fill_list@
    }

    /// Both sides are well formed.
    pub open spec fn wf(&self) -> bool {
        side_wf(self.bids(), self.bid_index(), self.capacity()) && side_wf(
            self.asks(),
            self.ask_index(),
            self.capacity(),
        )
    }

    /// An empty book for `instrument_name` keeping `max_order_per_side` orders a
    /// side. Installing a logger is left to the program around the library,
    /// which does it once at start-up.
    pub fn new(instrument_name: &str, max_order_per_side: usize) -> (b: Self)
        ensures
            b.instrument() == instrument_name@,
            b.capacity() == max_order_per_side,
            b.bids().len() == 0,
            b.asks().len() == 0,
            b.bid_index().len() == 0,
            b.ask_index().len() == 0,
            b.fills().len() == 0,
            b.wf(),
            side_exact(b.bids(), b.bid_index()),
            side_exact(b.asks(), b.ask_index()),
    {
        CircularOrderBook {
            instrument_name: instrument_name.to_owned(),
            max_order_per_side,
            bid_queue: VecDeque::with_capacity(max_order_per_side),
            ask_queue: VecDeque::with_capacity(max_order_per_side),
            bid_dict: Vec::new(),
            ask_dict: Vec::new(),
            fill_list: Vec::new(),
        }
    }

    /// Adds a bid order: when the bid side is full its oldest order is dropped
    /// from the queue and the index first.
    pub fn add_bid_order(&mut self, bid_order: ExchangeOrder)
        requires
            old(self).capacity() > 0,
        ensures
            (final(self).bids(), final(self).bid_index()) == side_after_add(
                old(self).bids(),
                old(self).bid_index(),
                bid_order,
                old(self).capacity(),
            ),
            final(self).asks() == old(self).asks(),
            final(self).ask_index() == old(self).ask_index(),
            final(self).fills() == old(self).fills(),
            final(self).capacity() == old(self).capacity(),
            final(self).instrument() == old(self).instrument(),
            old(self).wf() ==> final(self).wf(),
    {
        proof {
            if old(self).wf() {
                lemma_side_after_add(self.bid_queue@, self.bid_dict@, bid_order, self.max_order_per_side as nat);
            }
        }
        add_to_side(&mut self.bid_queue, &mut self.bid_dict, bid_order, self.max_order_per_side);
    }

    /// Adds an ask order: when the ask side is full its oldest order is dropped
    /// from the queue and the index first.
    pub fn add_ask_order(&mut self, ask_order: ExchangeOrder)
        requires
            old(self).capacity() > 0,
        ensures
            (final(self).asks(), final(self).ask_index()) == side_after_add(
                old(self).asks(),
                old(self).ask_index(),
                ask_order,
                old(self).capacity(),
            ),
            final(self).bids() == old(self).bids(),
            final(self).bid_index() == old(self).bid_index(),
            final(self).fills() == old(self).fills(),
            final(self).capacity() == old(self).capacity(),
            final(self).instrument() == old(self).instrument(),
            old(self).wf() ==> final(self).wf(),
    {
        proof {
            if old(self).wf() {
                lemma_side_after_add(self.ask_queue@, self.ask_dict@, ask_order, self.max_order_per_side as nat);
            }
        }
        add_to_side(&mut self.ask_queue, &mut self.ask_dict, ask_order, self.max_order_per_side);
    }

    /// The queued bid orders, oldest first.
    pub fn get_bid_queue(&self) -> (r: &VecDeque<ExchangeOrder>)
        ensures
            r@ == self.bids(),
    {
        &self.bid_queue
    }

    /// The queued ask orders, oldest first.
    pub fn get_ask_queue(&self) -> (r: &VecDeque<ExchangeOrder>)
        ensures
            r@ == self.asks(),
    {
        &self.ask_queue
    }

    /// Sets the state of the indexed order `ref_id` (bids looked up first);
    /// tells whether it was found.
    pub fn set_order_state(&mut self, ref_id: &str, state: &str) -> (found: bool)
        ensures
            found == (dict_get(old(self).bid_index(), ref_id@) is Some || dict_get(
                old(self).ask_index(),
                ref_id@,
            ) is Some),
            final(self).bid_index() == old(self).bid_index(),
            final(self).ask_index() == old(self).ask_index(),
            final(self).bids() == old(self).bids(),
            final(self).asks() == old(self).asks(),
            final(self).fills() == old(self).fills(),
            final(self).capacity() == old(self).capacity(),
            final(self).instrument() == old(self).instrument(),
    {
        let i = index_position(&self.bid_dict, ref_id);
        if i < self.bid_dict.len() {
            let mut order = self.bid_dict[i].clone();
            order.set_state(state);
            self.bid_dict.set(i, order);
            assert(self.bid_dict@ =~= old(self).bid_dict@);
            return true;
        }
        let j = index_position(&self.ask_dict, ref_id);
        if j < self.ask_dict.len() {
            let mut order = self.ask_dict[j].clone();
            order.set_state(state);
            self.ask_dict.set(j, order);
            assert(self.ask_dict@ =~= old(self).ask_dict@);
            return true;
        }
        false
    }

    /// Every reference id: indexed bids, indexed asks, then the filled ones.
    pub fn get_order_list(&self) -> (r: Vec<String>)
        ensures
            r@ == dict_keys(self.bid_index()) + dict_keys(self.ask_index()) + self.fills(),
    {
        let mut out: Vec<String> = Vec::new();
        let nb = self.bid_dict.len();
        let mut i: usize = 0;
        while i < nb
            invariant
                nb == self.bid_dict@.len(),
                i <= nb,
                out@ == dict_keys(self.bid_dict@.take(i as int)),
            decreases nb - i,
        {
            out.push(self.bid_dict[i].ref_id.clone());
            i = i + 1;
            assert(out@ =~= dict_keys(self.bid_dict@.take(i as int)));
        }
        assert(self.bid_dict@.take(nb as int) =~= self.bid_dict@);
        let na = self.ask_dict.len();
        let mut j: usize = 0;
        while j < na
            invariant
                na == self.ask_dict@.len(),
                j <= na,
                out@ == dict_keys(self.bid_dict@) + dict_keys(self.ask_dict@.take(j as int)),
            decreases na - j,
        {
            out.push(self.ask_dict[j].ref_id.clone());
            j = j + 1;
            assert(out@ =~= dict_keys(self.bid_dict@) + dict_keys(self.ask_dict@.take(j as int)));
        }
        assert(self.ask_dict@.take(na as int) =~= self.ask_dict@);
        let nf = self.fill_list.len();
        let mut k: usize = 0;
        while k < nf
            invariant
                nf == self.fill_list@.len(),
                k <= nf,
                out@ == dict_keys(self.bid_dict@) + dict_keys(self.ask_dict@) + self.fill_list@.take(
                    k as int,
                ),
            decreases nf - k,
        {
            out.push(self.fill_list[k].clone());
            k = k + 1;
            assert(out@ =~= dict_keys(self.bid_dict@) + dict_keys(self.ask_dict@)
                + self.fill_list@.take(k as int));
        }
        assert(self.fill_list@.take(nf as int) =~= self.fill_list@);
        out
    }

    /// The queue position of order `ref_id`: looked up among the bids when the
    /// bid index holds it, then among the asks when the ask index holds it.
    pub fn get_order_index(&self, ref_id: &str) -> (r: Option<usize>)
        ensures
            r == order_position(self.bids(), self.bid_index(), self.asks(), self.ask_index(), ref_id@),
    {
        let key = ref_id.to_owned();
        if find_index(&self.bid_dict, &key) < self.bid_dict.len() {
            let p = find_queued(&self.bid_queue, &key);
            if p < self.bid_queue.len() {
                return Some(p);
            }
        }
        if find_index(&self.ask_dict, &key) < self.ask_dict.len() {
            let p = find_queued(&self.ask_queue, &key);
            if p < self.ask_queue.len() {
                return Some(p);
            }
        }
        None
    }

    /// Drops every listed fill equal to `ref_id`.
    pub fn delete_fill_list(&mut self, ref_id: &str)
        ensures
            final(self).fills() == old(self).fills().filter(|x: String| x@ != ref_id@),
            final(self).bids() == old(self).bids(),
            final(self).asks() == old(self).asks(),
            final(self).bid_index() == old(self).bid_index(),
            final(self).ask_index() == old(self).ask_index(),
            final(self).capacity() == old(self).capacity(),
            final(self).instrument() == old(self).instrument(),
    {
        let key = ref_id.to_owned();
        let ghost pred = |x: String| x@ != ref_id@;
        let mut kept: Vec<String> = Vec::new();
        let n = self.fill_list.len();
        let mut i: usize = 0;
        while i < n
            invariant
                n == self.fill_list@.len(),
                i <= n,
                key@ == ref_id@,
                pred == (|x: String| x@ != ref_id@),
                kept@ == self.fill_list@.take(i as int).filter(pred),
            decreases n - i,
        {
            let ghost before = self.fill_list@.take(i as int);
            let ghost next = self.fill_list@.take(i + 1);
            assert(next.drop_last() =~= before);
            assert(next.last() == self.fill_list@[i as int]);
            assert(next.filter(pred) == (if pred(next.last()) {
                next.drop_last().filter(pred).push(next.last())
            } else {
                next.drop_last().filter(pred)
            })) by {
                reveal_with_fuel(Seq::filter, 1);
            }
            if !(self.fill_list[i] == key) {
                kept.push(self.fill_list[i].clone());
                assert(pred(next.last()));
                assert(kept@ =~= next.filter(pred));
            } else {
                assert(!pred(next.last()));
                assert(kept@ =~= next.filter(pred));
            }
            i = i + 1;
        }
        assert(self.fill_list@.take(n as int) =~= self.fill_list@);
        self.fill_list = kept;
    }

    /// Lists `ref_id` as filled.
    pub fn add_fill_list(&mut self, ref_id: &str)
        ensures
            final(self).fills().len() == old(self).fills().len() + 1,
            final(self).fills().drop_last() == old(self).fills(),
            final(self).fills().last()@ == ref_id@,
            final(self).bids() == old(self).bids(),
            final(self).asks() == old(self).asks(),
            final(self).bid_index() == old(self).bid_index(),
            final(self).ask_index() == old(self).ask_index(),
            final(self).capacity() == old(self).capacity(),
            final(self).instrument() == old(self).instrument(),
    {
        self.fill_list.push(ref_id.to_owned());
        assert(self.fill_list@.drop_last() =~= old(self).fill_list@);
    }

    /// A copy of the indexed order `ref_id`, bids looked up first.
    pub fn get_order(&self, ref_id: &str) -> (r: Option<ExchangeOrder>)
        ensures
            r == (if dict_get(self.bid_index(), ref_id@) is Some {
                dict_get(self.bid_index(), ref_id@)
            } else {
                dict_get(self.ask_index(), ref_id@)
            }),
    {
        let i = index_position(&self.bid_dict, ref_id);
        if i < self.bid_dict.len() {
            return Some(self.bid_dict[i].clone());
        }
        let j = index_position(&self.ask_dict, ref_id);
        if j < self.ask_dict.len() {
            return Some(self.ask_dict[j].clone());
        }
        None
    }

    /// Records a fill (size and price in 10^-8 units) on the indexed order
    /// `ref_id`, bids looked up first.
    pub fn set_fill_size(&mut self, ref_id: &str, fill_size: u64, fill_price: u64)
        ensures
            final(self).bid_index() == old(self).bid_index(),
            final(self).ask_index() == old(self).ask_index(),
            final(self).bids() == old(self).bids(),
            final(self).asks() == old(self).asks(),
            final(self).fills() == old(self).fills(),
            final(self).capacity() == old(self).capacity(),
            final(self).instrument() == old(self).instrument(),
    {
        let i = index_position(&self.bid_dict, ref_id);
        if i < self.bid_dict.len() {
            let mut order = self.bid_dict[i].clone();
            order.update_fill_size(fill_size, fill_price);
            self.bid_dict.set(i, order);
            assert(self.bid_dict@ =~= old(self).bid_dict@);
            return;
        }
        let j = index_position(&self.ask_dict, ref_id);
        if j < self.ask_dict.len() {
            let mut order = self.ask_dict[j].clone();
            order.update_fill_size(fill_size, fill_price);
            self.ask_dict.set(j, order);
            assert(self.ask_dict@ =~= old(self).ask_dict@);
        }
    }

    /// Whether `ref_id` is listed as filled.
    pub fn is_ref_id_in_list(&self, ref_id: &str) -> (r: bool)
        ensures
            r == listed(self.fills(), ref_id@),
    {
        let key = ref_id.to_owned();
        let n = self.fill_list.len();
        let mut i: usize = 0;
        while i < n
            invariant
                n == self.fill_list@.len(),
                i <= n,
                key@ == ref_id@,
                forall|k: int| 0 <= k < i ==> #[trigger] self.fill_list@[k]@ != ref_id@,
            decreases n - i,
        {
            if self.fill_list[i] == key {
                assert(self.fills()[i as int]@ == ref_id@);
                return true;
            }
            i = i + 1;
        }
        false
    }
}

/// Where `get_order_index` finds order `id`: its first queue position on the
/// bid side when the bid index holds it and the bid queue has it, else on the
/// ask side likewise.
pub open spec fn order_position(
    bq: Seq<ExchangeOrder>,
    bd: Seq<ExchangeOrder>,
    aq: Seq<ExchangeOrder>,
    ad: Seq<ExchangeOrder>,
    id: Seq<char>,
) -> Option<usize> {
    if find_order(bd, id) < bd.len() && find_order(bq, id) < bq.len() {
        Some(find_order(bq, id) as usize)
    } else if find_order(ad, id) < ad.len() && find_order(aq, id) < aq.len() {
        Some(find_order(aq, id) as usize)
    } else {
        None
    }
}

} // verus!
