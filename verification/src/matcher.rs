//! Discovery of swap cycles among demands.
//!
//! The demands form a directed graph: there is an edge `i -> j` when what demand `i`
//! offers matches something demand `j` wants. A swap cycle is a simple closed walk in
//! that graph whose participants are all different users.
use vstd::prelude::*;

use vstd::multiset::Multiset;

use crate::clock::{is_v4_id, new_id, now_micros};
use crate::models::{legs_form_cycle, ring_next, ring_prev, Demand, SwapCycle, SwapLeg};

verus! {

broadcast use vstd::seq_lib::group_to_multiset_ensures;

/// Some tag of `a` is equal to some tag of `b`.
pub open spec fn tags_overlap_spec(a: Seq<String>, b: Seq<String>) -> bool {
    exists|i: int, j: int| 0 <= i < a.len() && 0 <= j < b.len() && #[trigger] a[i]@ == #[trigger] b[j]@
}

/// There is an edge from demand `i` to demand `j`: they are different demands and
/// what `i` offers matches what `j` wants.
pub open spec fn demand_edge(demands: Seq<Demand>, i: int, j: int) -> bool {
    &&& 0 <= i < demands.len()
    &&& 0 <= j < demands.len()
    &&& i != j
    &&& tags_overlap_spec(demands[i].offer_tags@, demands[j].target_tags@)
}

/// The step from position `k` to position `k + 1` of `p` is an edge.
pub open spec fn path_step(demands: Seq<Demand>, p: Seq<usize>, k: int) -> bool {
    demand_edge(demands, p[k] as int, p[k + 1] as int)
}

/// `p` lists distinct demands, each linked to the next by an edge.
pub open spec fn is_simple_path(demands: Seq<Demand>, p: Seq<usize>) -> bool {
    &&& forall|k: int| 0 <= k < p.len() ==> #[trigger] p[k] < demands.len()
    &&& forall|k: int, l: int| 0 <= k < l < p.len() ==> #[trigger] p[k] != #[trigger] p[l]
    &&& forall|k: int| 0 <= k < p.len() - 1 ==> #[trigger] path_step(demands, p, k)
}

/// `p` is a simple closed walk of between 2 and `max_len` demands: a simple path
/// whose last demand has an edge back to the first.
pub open spec fn is_simple_cycle(demands: Seq<Demand>, p: Seq<usize>, max_len: int) -> bool {
    &&& 2 <= p.len() <= max_len
    &&& is_simple_path(demands, p)
    &&& demand_edge(demands, p.last() as int, p[0] as int)
}

/// The demands of `p` all belong to different users.
pub open spec fn users_distinct(demands: Seq<Demand>, p: Seq<usize>) -> bool {
    forall|k: int, l: int|
        0 <= k < l < p.len() ==> #[trigger] demands[p[k] as int].user_id
            != #[trigger] demands[p[l] as int].user_id
}

/// The leg of position `i` of the cycle `p`: its user gives their item to the next
/// user and receives the item of the previous one.
pub open spec fn cycle_leg(demands: Seq<Demand>, p: Seq<usize>, i: int) -> SwapLeg {
    let n = p.len() as int;
    SwapLeg {
        from_user_id: demands[p[i] as int].user_id,
        to_user_id: demands[p[ring_next(i, n)] as int].user_id,
        offer_item_id: demands[p[i] as int].offer_item_id,
        want_item_id: demands[p[ring_prev(i, n)] as int].offer_item_id,
    }
}

/// The legs of the swap cycle that follows the closed walk `p`.
pub open spec fn cycle_legs(demands: Seq<Demand>, p: Seq<usize>) -> Seq<SwapLeg> {
    Seq::new(p.len(), |i: int| cycle_leg(demands, p, i))
}

/// The (offered item, wanted item) pairs of a list of legs.
pub open spec fn trade_pairs(legs: Seq<SwapLeg>) -> Seq<(u128, u128)> {
    legs.map_values(|l: SwapLeg| (l.offer_item_id, l.want_item_id))
}

/// Two lists of legs make the same trade: the same (offered, wanted) pairs, in any
/// order.
pub open spec fn same_trade(a: Seq<SwapLeg>, b: Seq<SwapLeg>) -> bool {
    trade_pairs(a).to_multiset() == trade_pairs(b).to_multiset()
}

/// Some cycle of `cycles` makes the same trade as `legs`.
pub open spec fn found_in(cycles: Seq<SwapCycle>, legs: Seq<SwapLeg>) -> bool {
    exists|k: int| 0 <= k < cycles.len() && same_trade(#[trigger] cycles[k].swaps@, legs)
}

/// `legs` are the legs of some simple cycle of at most `max_len` demands of different
/// users.
pub open spec fn is_cycle_of(demands: Seq<Demand>, max_len: int, legs: Seq<SwapLeg>) -> bool {
    exists|p: Seq<usize>|
        #[trigger] is_simple_cycle(demands, p, max_len) && users_distinct(demands, p) && legs
            == cycle_legs(demands, p)
}

/// Every cycle of `cycles` is the cycle of some simple closed walk of different users.
pub open spec fn all_cycles_sound(demands: Seq<Demand>, max_len: int, cycles: Seq<SwapCycle>) -> bool {
    forall|k: int| 0 <= k < cycles.len() ==> is_cycle_of(demands, max_len, #[trigger] cycles[k].swaps@)
}

/// No two cycles of `cycles` make the same trade.
pub open spec fn trades_distinct(cycles: Seq<SwapCycle>) -> bool {
    forall|k: int, l: int|
        0 <= k < l < cycles.len() ==> !same_trade(#[trigger] cycles[k].swaps@, #[trigger] cycles[l].swaps@)
}

/// `b` keeps the cycles of `a` in place, possibly followed by more.
pub open spec fn extends(a: Seq<SwapCycle>, b: Seq<SwapCycle>) -> bool {
    &&& a.len() <= b.len()
    &&& forall|k: int| 0 <= k < a.len() ==> #[trigger] b[k] == a[k]
}

/// `a` is a prefix of `b`.
pub open spec fn is_prefix_of(a: Seq<usize>, b: Seq<usize>) -> bool {
    &&& a.len() <= b.len()
    &&& forall|k: int| 0 <= k < a.len() ==> #[trigger] b[k] == a[k]
}

/// The adjacency lists hold exactly the edges of the demand graph, each list in
/// increasing order.
pub open spec fn adjacency_of(demands: Seq<Demand>, adj: Seq<Vec<usize>>) -> bool {
    &&& adj.len() == demands.len()
    &&& forall|i: int, s: int, t: int|
        0 <= i < adj.len() && 0 <= s < t < adj[i]@.len() ==> #[trigger] adj[i]@[s] < #[trigger] adj[i]@[t]
    &&& forall|i: int, t: int|
        0 <= i < adj.len() && 0 <= t < adj[i]@.len() ==> demand_edge(demands, i, #[trigger] adj[i]@[t] as int)
    &&& forall|i: int, j: int| #[trigger] demand_edge(demands, i, j) ==> adj[i]@.contains(j as usize)
}

/// The demand that follows position `m - 1` of the closed walk `q`.
pub open spec fn follower(q: Seq<usize>, m: int) -> usize {
    if q.len() == m {
        q[0]
    } else {
        q[m]
    }
}

/// The search state for a walk that starts at `start`, has visited `path` and stands at
/// `current`.
pub open spec fn search_state_ok(demands: Seq<Demand>, start: int, path: Seq<usize>, current: int) -> bool {
    &&& 0 <= start < demands.len()
    &&& 0 <= current < demands.len()
    &&& is_simple_path(demands, path)
    &&& !path.contains(current as usize)
    &&& if path.len() == 0 {
        current == start
    } else {
        path[0] == start && demand_edge(demands, path.last() as int, current)
    }
}

/// The visited marks are exactly the demands of `path`.
pub open spec fn marks_path(n: int, visited: Seq<bool>, path: Seq<usize>) -> bool {
    &&& visited.len() == n
    &&& forall|v: int| 0 <= v < n ==> #[trigger] visited[v] == path.contains(v as usize)
}

/// The closed walk `q` written with its return to the first demand.
pub open spec fn closed_walk(q: Seq<usize>) -> Seq<usize> {
    q.push(q[0])
}

/// `a` comes before `b` in lexicographic order: at the first position where they
/// differ, `a` holds the smaller index.
pub open spec fn lex_before(a: Seq<usize>, b: Seq<usize>) -> bool {
    exists|i: int|
        0 <= i < a.len() && i < b.len() && #[trigger] a[i] < b[i] && forall|j: int|
            0 <= j < i ==> a[j] == b[j]
}

/// `q` is a closed walk that makes a swap cycle: simple, of 2 to `max_len` demands of
/// different users.
pub open spec fn is_swap_walk(demands: Seq<Demand>, q: Seq<usize>, max_len: int) -> bool {
    is_simple_cycle(demands, q, max_len) && users_distinct(demands, q)
}

/// `q` is the first walk, in lexicographic order of closed walks, that makes its
/// trade.
pub open spec fn first_of_trade(demands: Seq<Demand>, max_len: int, q: Seq<usize>) -> bool {
    &&& is_swap_walk(demands, q, max_len)
    &&& forall|v: Seq<usize>|
        #[trigger] is_swap_walk(demands, v, max_len) && lex_before(closed_walk(v), closed_walk(q))
            ==> !same_trade(cycle_legs(demands, v), cycle_legs(demands, q))
}

/// `walks` lists, in lexicographic order, walks that each are the first of their trade,
/// and the cycles are the cycles of those walks.
pub open spec fn listed_walks(
    demands: Seq<Demand>,
    max_len: int,
    cycles: Seq<SwapCycle>,
    walks: Seq<Seq<usize>>,
) -> bool {
    &&& walks.len() == cycles.len()
    &&& forall|k: int|
        0 <= k < walks.len() ==> first_of_trade(demands, max_len, #[trigger] walks[k])
            && cycles[k].swaps@ == cycle_legs(demands, walks[k])
    &&& forall|k: int, l: int|
        0 <= k < l < walks.len() ==> lex_before(
            closed_walk(#[trigger] walks[k]),
            closed_walk(#[trigger] walks[l]),
        )
}

/// The cycles are those of walks that each come first, in lexicographic order of
/// closed walks, among the walks that make their trade, listed in that order.
pub open spec fn cycles_in_search_order(demands: Seq<Demand>, max_len: int, cycles: Seq<SwapCycle>) -> bool {
    exists|walks: Seq<Seq<usize>>| listed_walks(demands, max_len, cycles, walks)
}

/// What comes before a sequence comes before every extension of it.
proof fn lemma_lex_before_prefix(a: Seq<usize>, x: Seq<usize>, b: Seq<usize>)
    requires
        lex_before(a, x),
        is_prefix_of(x, b),
    ensures
        lex_before(a, b),
{
    let i = choose|i: int|
        0 <= i < a.len() && i < x.len() && #[trigger] a[i] < x[i] && forall|j: int|
            0 <= j < i ==> a[j] == x[j];
    assert(b[i] == x[i]);
    assert forall|j: int| 0 <= j < i implies a[j] == b[j] by {
        assert(b[j] == x[j]);
    }
}

/// A trade that is found is found under every list of legs that makes it.
proof fn lemma_found_in_same_trade(cycles: Seq<SwapCycle>, a: Seq<SwapLeg>, b: Seq<SwapLeg>)
    requires
        found_in(cycles, a),
        same_trade(a, b),
    ensures
        found_in(cycles, b),
{
    let k = choose|k: int| 0 <= k < cycles.len() && same_trade(#[trigger] cycles[k].swaps@, a);
    assert(same_trade(cycles[k].swaps@, b));
}

/// A trade found among some cycles is found among every extension of them.
proof fn lemma_found_in_extends(a: Seq<SwapCycle>, b: Seq<SwapCycle>, legs: Seq<SwapLeg>)
    requires
        extends(a, b),
        found_in(a, legs),
    ensures
        found_in(b, legs),
{
    let k = choose|k: int| 0 <= k < a.len() && same_trade(#[trigger] a[k].swaps@, legs);
    assert(b[k] == a[k]);
}

/// The legs of a closed walk close into a ring.
proof fn lemma_cycle_legs_form_cycle(demands: Seq<Demand>, p: Seq<usize>)
    requires
        p.len() >= 2,
    ensures
        legs_form_cycle(cycle_legs(demands, p)),
{
    let legs = cycle_legs(demands, p);
    let n = p.len() as int;
    assert forall|i: int| 0 <= i < legs.len() implies #[trigger] legs[i].to_user_id
        == legs[ring_next(i, legs.len() as int)].from_user_id by {
        assert(legs[i] == cycle_leg(demands, p, i));
        assert(legs[ring_next(i, n)] == cycle_leg(demands, p, ring_next(i, n)));
    }
}

/// A path extended by one more demand that is linked to it and not on it stays simple.
proof fn lemma_extend_simple_path(demands: Seq<Demand>, path: Seq<usize>, current: usize)
    requires
        is_simple_path(demands, path),
        (current as int) < demands.len(),
        !path.contains(current),
        path.len() > 0 ==> demand_edge(demands, path.last() as int, current as int),
    ensures
        is_simple_path(demands, path.push(current)),
{
    let p2 = path.push(current);
    assert forall|k: int, l: int| 0 <= k < l < p2.len() implies #[trigger] p2[k] != #[trigger] p2[l] by {
        if l == path.len() {
            assert(path[k] == p2[k]);
        } else {
            assert(p2[k] == path[k] && p2[l] == path[l]);
        }
    }
    assert forall|k: int| 0 <= k < p2.len() - 1 implies #[trigger] path_step(demands, p2, k) by {
        if k == path.len() - 1 {
        } else {
            assert(path_step(demands, path, k));
        }
    }
}

/// A closed walk needs at least two demands.
proof fn lemma_cycle_needs_two_demands(demands: Seq<Demand>, p: Seq<usize>, max_len: int)
    requires
        is_simple_cycle(demands, p, max_len),
    ensures
        demands.len() >= 2,
{
    assert(p[0] < demands.len());
    assert(p[1] < demands.len());
    assert(p[0] != p[1]);
}

/// Cycles listed after their walks are cycles of swap walks, and no two of them make
/// the same trade.
proof fn lemma_listed_walks_sound(
    demands: Seq<Demand>,
    max_len: int,
    cycles: Seq<SwapCycle>,
    walks: Seq<Seq<usize>>,
)
    requires
        listed_walks(demands, max_len, cycles, walks),
    ensures
        all_cycles_sound(demands, max_len, cycles),
        trades_distinct(cycles),
{
    assert forall|k: int| 0 <= k < cycles.len() implies is_cycle_of(
        demands,
        max_len,
        #[trigger] cycles[k].swaps@,
    ) by {
        assert(first_of_trade(demands, max_len, walks[k]));
        assert(is_simple_cycle(demands, walks[k], max_len));
    }
    assert forall|k: int, l: int| 0 <= k < l < cycles.len() implies !same_trade(
        #[trigger] cycles[k].swaps@,
        #[trigger] cycles[l].swaps@,
    ) by {
        assert(first_of_trade(demands, max_len, walks[k]));
        assert(first_of_trade(demands, max_len, walks[l]));
        assert(lex_before(closed_walk(walks[k]), closed_walk(walks[l])));
        assert(is_swap_walk(demands, walks[k], max_len));
    }
}

/// A walk that extends `p1` with a follower listed before position `t` of the sorted
/// list `row` comes, closed, before `p1` extended by `row[t]`.
proof fn lemma_lex_after_listed(p1: Seq<usize>, row: Seq<usize>, t: int, w: Seq<usize>)
    requires
        p1.len() >= 1,
        is_prefix_of(p1, w),
        0 <= t < row.len(),
        forall|s: int, u: int| 0 <= s < u < row.len() ==> #[trigger] row[s] < #[trigger] row[u],
        row.subrange(0, t).contains(follower(w, p1.len() as int)),
    ensures
        lex_before(closed_walk(w), p1.push(row[t])),
{
    let m = p1.len() as int;
    let s = choose|s: int| 0 <= s < t && row.subrange(0, t)[s] == follower(w, m);
    assert(row[s] == follower(w, m));
    assert(row[s] < row[t]);
    let cw = closed_walk(w);
    let x = p1.push(row[t]);
    assert(cw[m] == follower(w, m));
    assert(x[m] == row[t]);
    assert forall|j: int| 0 <= j < m implies cw[j] == x[j] by {
        assert(w[j] == p1[j]);
    }
    assert(cw[m] < x[m]);
}

/// A swap walk that comes, closed, before `p1` extended by entry `t` of the adjacency
/// list of the last demand of `p1` either comes before `p1` or extends `p1` with a
/// follower listed before position `t`.
proof fn lemma_lex_frontier(
    demands: Seq<Demand>,
    adj: Seq<Vec<usize>>,
    current: int,
    p1: Seq<usize>,
    t: int,
    v: Seq<usize>,
    max_len: int,
)
    requires
        adjacency_of(demands, adj),
        0 <= current < adj.len(),
        p1.len() >= 1,
        p1.last() as int == current,
        0 <= t < adj[current]@.len(),
        is_simple_cycle(demands, v, max_len),
        lex_before(closed_walk(v), p1.push(adj[current]@[t])),
    ensures
        lex_before(closed_walk(v), p1) || (is_prefix_of(p1, v) && adj[current]@.subrange(
            0,
            t,
        ).contains(follower(v, p1.len() as int))),
{
    let row = adj[current]@;
    let m = p1.len() as int;
    let x = p1.push(row[t]);
    let cw = closed_walk(v);
    let i = choose|i: int|
        0 <= i < cw.len() && i < x.len() && #[trigger] cw[i] < x[i] && forall|j: int|
            0 <= j < i ==> cw[j] == x[j];
    if i < m {
        assert(x[i] == p1[i]);
        assert forall|j: int| 0 <= j < i implies cw[j] == p1[j] by {
            assert(x[j] == p1[j]);
        }
        assert(cw[i] < p1[i]);
    } else {
        assert(v.len() >= m);
        assert forall|k: int| 0 <= k < m implies #[trigger] v[k] == p1[k] by {
            assert(cw[k] == x[k]);
            assert(x[k] == p1[k]);
            assert(cw[k] == v[k]);
        }
        let f = follower(v, m);
        assert(cw[m] == f);
        assert(f < row[t]);
        assert(v[m - 1] == p1[m - 1]);
        if v.len() == m {
            assert(v.last() == v[m - 1]);
        } else {
            assert(path_step(demands, v, m - 1));
        }
        assert(demand_edge(demands, current, f as int));
        assert(row.contains(f));
        let s = choose|s: int| 0 <= s < row.len() && row[s] == f;
        if s >= t {
            if s > t {
                assert(adj[current]@[t] < adj[current]@[s]);
            }
            assert(false);
        }
        assert(row.subrange(0, t)[s] == f);
    }
}

/// Nothing comes before what comes before it.
proof fn lemma_lex_asymmetric(x: Seq<usize>, y: Seq<usize>)
    requires
        lex_before(x, y),
    ensures
        !lex_before(y, x),
{
    let i = choose|i: int|
        0 <= i < x.len() && i < y.len() && #[trigger] x[i] < y[i] && forall|j: int|
            0 <= j < i ==> x[j] == y[j];
    if lex_before(y, x) {
        let i2 = choose|i2: int|
            0 <= i2 < y.len() && i2 < x.len() && #[trigger] y[i2] < x[i2] && forall|j: int|
                0 <= j < i2 ==> y[j] == x[j];
        if i < i2 {
            assert(y[i] == x[i]);
        } else if i2 < i {
            assert(x[i2] == y[i2]);
        }
    }
}

/// Two sequences that agree before position `i` are ordered one way or the other, or
/// one of them is a prefix of the other.
proof fn lemma_lex_compare(a: Seq<usize>, b: Seq<usize>, i: int)
    requires
        0 <= i <= a.len(),
        i <= b.len(),
        forall|j: int| 0 <= j < i ==> a[j] == b[j],
    ensures
        lex_before(a, b) || lex_before(b, a) || is_prefix_of(a, b) || is_prefix_of(b, a),
    decreases a.len() - i,
{
    if i == a.len() {
        assert(is_prefix_of(a, b));
    } else if i == b.len() {
        assert(is_prefix_of(b, a));
    } else if a[i] < b[i] {
        assert(lex_before(a, b));
    } else if b[i] < a[i] {
        assert(lex_before(b, a));
    } else {
        lemma_lex_compare(a, b, i + 1);
    }
}

/// The closed walk of a simple walk is a prefix of no other closed walk.
proof fn lemma_closed_walk_not_prefix(demands: Seq<Demand>, max_len: int, v: Seq<usize>, w: Seq<usize>)
    requires
        is_swap_walk(demands, v, max_len),
        is_swap_walk(demands, w, max_len),
        is_prefix_of(closed_walk(v), closed_walk(w)),
    ensures
        v == w,
{
    let a = closed_walk(v);
    let b = closed_walk(w);
    let n = v.len() as int;
    if n < w.len() {
        assert(a[n] == b[n]);
        assert(a[0] == b[0]);
        assert(w[n] == w[0]);
        assert(false);
    } else {
        assert forall|k: int| 0 <= k < n implies v[k] == w[k] by {
            assert(a[k] == b[k]);
        }
        assert(v =~= w);
    }
}

/// Of two different swap walks, one comes, closed, before the other.
proof fn lemma_lex_total(demands: Seq<Demand>, max_len: int, v: Seq<usize>, w: Seq<usize>)
    requires
        is_swap_walk(demands, v, max_len),
        is_swap_walk(demands, w, max_len),
        v != w,
    ensures
        lex_before(closed_walk(v), closed_walk(w)) || lex_before(closed_walk(w), closed_walk(v)),
{
    lemma_lex_compare(closed_walk(v), closed_walk(w), 0);
    if is_prefix_of(closed_walk(v), closed_walk(w)) {
        lemma_closed_walk_not_prefix(demands, max_len, v, w);
    } else if is_prefix_of(closed_walk(w), closed_walk(v)) {
        lemma_closed_walk_not_prefix(demands, max_len, w, v);
    }
}

/// A trade has one first walk.
proof fn lemma_first_of_trade_unique(demands: Seq<Demand>, max_len: int, v: Seq<usize>, w: Seq<usize>)
    requires
        first_of_trade(demands, max_len, v),
        first_of_trade(demands, max_len, w),
        same_trade(cycle_legs(demands, v), cycle_legs(demands, w)),
    ensures
        v == w,
{
    if v != w {
        lemma_lex_total(demands, max_len, v, w);
        assert(is_swap_walk(demands, v, max_len));
        assert(is_swap_walk(demands, w, max_len));
    }
}

/// Every cycle of `a` is found in `b`, as the cycle of a walk listed for `b`.
proof fn lemma_listed_in_other(
    demands: Seq<Demand>,
    max_len: int,
    a: Seq<SwapCycle>,
    wa: Seq<Seq<usize>>,
    b: Seq<SwapCycle>,
    wb: Seq<Seq<usize>>,
    k: int,
) -> (l: int)
    requires
        listed_walks(demands, max_len, a, wa),
        listed_walks(demands, max_len, b, wb),
        forall|p: Seq<usize>|
            #[trigger] is_simple_cycle(demands, p, max_len) && users_distinct(demands, p) ==> found_in(
                b,
                cycle_legs(demands, p),
            ),
        0 <= k < wa.len(),
    ensures
        0 <= l < wb.len(),
        wb[l] == wa[k],
{
    assert(first_of_trade(demands, max_len, wa[k]));
    assert(is_simple_cycle(demands, wa[k], max_len));
    let l = choose|l: int| 0 <= l < b.len() && same_trade(#[trigger] b[l].swaps@, cycle_legs(demands, wa[k]));
    assert(first_of_trade(demands, max_len, wb[l]));
    lemma_first_of_trade_unique(demands, max_len, wb[l], wa[k]);
    l
}

/// Two lists of walks for complete lists of cycles agree up to position `k`.
proof fn lemma_listed_walks_agree(
    demands: Seq<Demand>,
    max_len: int,
    a: Seq<SwapCycle>,
    wa: Seq<Seq<usize>>,
    b: Seq<SwapCycle>,
    wb: Seq<Seq<usize>>,
    k: int,
)
    requires
        listed_walks(demands, max_len, a, wa),
        listed_walks(demands, max_len, b, wb),
        forall|p: Seq<usize>|
            #[trigger] is_simple_cycle(demands, p, max_len) && users_distinct(demands, p) ==> found_in(
                a,
                cycle_legs(demands, p),
            ),
        forall|p: Seq<usize>|
            #[trigger] is_simple_cycle(demands, p, max_len) && users_distinct(demands, p) ==> found_in(
                b,
                cycle_legs(demands, p),
            ),
        0 <= k < wa.len(),
        k < wb.len(),
    ensures
        forall|j: int| 0 <= j <= k ==> #[trigger] wa[j] == wb[j],
    decreases k,
{
    if k > 0 {
        lemma_listed_walks_agree(demands, max_len, a, wa, b, wb, k - 1);
    }
    let l = lemma_listed_in_other(demands, max_len, a, wa, b, wb, k);
    let k2 = lemma_listed_in_other(demands, max_len, b, wb, a, wa, k);
    if wa[k] != wb[k] {
        if l < k {
            assert(wa[l] == wb[l]);
            lemma_lex_asymmetric(closed_walk(wa[l]), closed_walk(wa[k]));
        } else if k2 < k {
            assert(wa[k2] == wb[k2]);
            lemma_lex_asymmetric(closed_walk(wb[k2]), closed_walk(wb[k]));
        } else {
            assert(l > k && k2 > k);
            assert(lex_before(closed_walk(wb[k]), closed_walk(wb[l])));
            assert(lex_before(closed_walk(wa[k]), closed_walk(wa[k2])));
            lemma_lex_asymmetric(closed_walk(wb[k]), closed_walk(wa[k]));
        }
    }
}

/// The search order fixes the cycles found: two lists of cycles over the same demands
/// that each hold a cycle of every swap walk and are listed in search order hold the
/// same legs, cycle for cycle, in the same order. Only identifiers and creation times
/// can differ between two searches.
pub proof fn lemma_search_result_determined(
    demands: Seq<Demand>,
    max_len: int,
    a: Seq<SwapCycle>,
    b: Seq<SwapCycle>,
)
    requires
        cycles_in_search_order(demands, max_len, a),
        cycles_in_search_order(demands, max_len, b),
        forall|p: Seq<usize>|
            #[trigger] is_simple_cycle(demands, p, max_len) && users_distinct(demands, p) ==> found_in(
                a,
                cycle_legs(demands, p),
            ),
        forall|p: Seq<usize>|
            #[trigger] is_simple_cycle(demands, p, max_len) && users_distinct(demands, p) ==> found_in(
                b,
                cycle_legs(demands, p),
            ),
    ensures
        a.len() == b.len(),
        forall|k: int| 0 <= k < a.len() ==> #[trigger] a[k].swaps@ == b[k].swaps@,
{
    let wa = choose|w: Seq<Seq<usize>>| listed_walks(demands, max_len, a, w);
    let wb = choose|w: Seq<Seq<usize>>| listed_walks(demands, max_len, b, w);
    if wa.len() > wb.len() {
        let k = wb.len() as int;
        let l = lemma_listed_in_other(demands, max_len, a, wa, b, wb, k);
        lemma_listed_walks_agree(demands, max_len, a, wa, b, wb, l);
        assert(wa[l] == wb[l]);
        lemma_lex_asymmetric(closed_walk(wa[l]), closed_walk(wa[k]));
    } else if wb.len() > wa.len() {
        let k = wa.len() as int;
        let l = lemma_listed_in_other(demands, max_len, b, wb, a, wa, k);
        lemma_listed_walks_agree(demands, max_len, b, wb, a, wa, l);
        assert(wb[l] == wa[l]);
        lemma_lex_asymmetric(closed_walk(wb[l]), closed_walk(wb[k]));
    }
    if wa.len() > 0 {
        lemma_listed_walks_agree(demands, max_len, a, wa, b, wb, wa.len() - 1);
    }
    assert forall|k: int| 0 <= k < a.len() implies #[trigger] a[k].swaps@ == b[k].swaps@ by {
        assert(wa[k] == wb[k]);
    }
}

/// No two cycles of `cycles` carry the same identifier.
pub open spec fn ids_distinct(cycles: Seq<SwapCycle>) -> bool {
    forall|k: int, l: int| 0 <= k < l < cycles.len() ==> #[trigger] cycles[k].id != #[trigger] cycles[l].id
}

/// Every cycle of `cycles` carries a random (version 4) identifier.
pub open spec fn ids_random(cycles: Seq<SwapCycle>) -> bool {
    forall|k: int| 0 <= k < cycles.len() ==> is_v4_id(#[trigger] cycles[k].id)
}

/// The `j`-th identifier to fall back on when a fresh identifier is already taken: a
/// version 4 identifier whose random bits hold `j`.
pub open spec fn fallback_id(j: u128) -> u128 {
    0x40008000000000000000u128 | (j & 0x3fffffffffffffffu128) | ((j >> 62u128) << 64u128)
}

/// The identifiers to fall back on are version 4 identifiers, and different numbers
/// below 2^64 give different ones.
proof fn lemma_fallback_id(a: u128, b: u128)
    requires
        a < 0x10000000000000000u128,
        b < 0x10000000000000000u128,
    ensures
        is_v4_id(fallback_id(a)),
        fallback_id(a) == fallback_id(b) ==> a == b,
{
    assert(a < 0x10000000000000000u128 ==> is_v4_id(fallback_id(a))) by (bit_vector);
    assert(a < 0x10000000000000000u128 && b < 0x10000000000000000u128 && fallback_id(a)
        == fallback_id(b) ==> a == b) by (bit_vector);
}

/// No cycle of `cycles` carries the identifier `id`.
pub open spec fn id_unused(cycles: Seq<SwapCycle>, id: u128) -> bool {
    forall|k: int| 0 <= k < cycles.len() ==> #[trigger] cycles[k].id != id
}

/// Of the first `n + 1` identifiers to fall back on, one is not used by any of `n`
/// cycles.
proof fn lemma_fallback_id_free(cycles: Seq<SwapCycle>)
    requires
        cycles.len() < 0x10000000000000000u128,
    ensures
        exists|i: u128| i <= cycles.len() && #[trigger] id_unused(cycles, fallback_id(i)),
{
    if !exists|i: u128| i <= cycles.len() && #[trigger] id_unused(cycles, fallback_id(i)) {
        let n = cycles.len() as int;
        let ids = cycles.map_values(|c: SwapCycle| c.id);
        let x = vstd::set_lib::set_int_range(0, n + 1);
        let f = |i: int| fallback_id(i as u128);
        let y = x.map(f);
        vstd::set_lib::lemma_int_range(0, n + 1);
        assert(vstd::relations::injective_on(f, x)) by {
            assert forall|a: int, b: int| x.contains(a) && x.contains(b) && #[trigger] f(a)
                == #[trigger] f(b) implies a == b by {
                lemma_fallback_id(a as u128, b as u128);
            }
        }
        vstd::set_lib::lemma_map_size(x, y, f);
        assert(y.subset_of(ids.to_set())) by {
            assert forall|v: u128| y.contains(v) implies ids.to_set().contains(v) by {
                let i = choose|i: int| x.contains(i) && f(i) == v;
                let iu = i as u128;
                assert(iu <= cycles.len());
                assert(!id_unused(cycles, fallback_id(iu)));
                let k = choose|k: int| 0 <= k < cycles.len() && cycles[k].id == fallback_id(iu);
                assert(ids[k] == v);
            }
        }
        ids.lemma_cardinality_of_set();
        vstd::set_lib::lemma_len_subset(y, ids.to_set());
    }
}

/// The items offered in a list of legs, in order.
pub open spec fn offered_items(legs: Seq<SwapLeg>) -> Seq<u128> {
    legs.map_values(|l: SwapLeg| l.offer_item_id)
}

/// The items received in a list of legs, in order.
pub open spec fn wanted_items(legs: Seq<SwapLeg>) -> Seq<u128> {
    legs.map_values(|l: SwapLeg| l.want_item_id)
}

/// In the cycle of a closed walk every item that is offered is received by someone, and
/// nothing else is received: the received items are the offered ones, each as often.
/// Each user hands their item to the next user and receives the previous one's.
pub proof fn lemma_cycle_balanced(demands: Seq<Demand>, p: Seq<usize>)
    requires
        p.len() >= 2,
    ensures
        offered_items(cycle_legs(demands, p)).to_multiset() == wanted_items(
            cycle_legs(demands, p),
        ).to_multiset(),
        legs_form_cycle(cycle_legs(demands, p)),
{
    let legs = cycle_legs(demands, p);
    let n = p.len() as int;
    let off = offered_items(legs);
    let want = wanted_items(legs);
    let head = off.subrange(0, n - 1);
    let tail = off.subrange(n - 1, n);
    assert(off =~= head + tail);
    assert forall|i: int| 0 <= i < n implies #[trigger] want[i] == (tail + head)[i] by {
        assert(legs[i] == cycle_leg(demands, p, i));
        if i == 0 {
            assert(legs[n - 1] == cycle_leg(demands, p, n - 1));
        } else {
            assert(legs[i - 1] == cycle_leg(demands, p, i - 1));
        }
    }
    assert(want =~= tail + head);
    vstd::seq_lib::lemma_multiset_commutative(head, tail);
    vstd::seq_lib::lemma_multiset_commutative(tail, head);
    lemma_cycle_legs_form_cycle(demands, p);
}

pub struct Matcher;

impl Matcher {
    /// Finds the swap cycles of 2 to `max_cycle_len` demands of different users.
    ///
    /// Each returned cycle follows a simple closed walk of the demand graph; no two
    /// returned cycles make the same trade; and every such walk makes the trade of some
    /// returned cycle. The walks are searched in lexicographic order, and of the walks
    /// that make one trade the first is kept. Every cycle carries its own random
    /// identifier, so that it can be told apart from the others by it.
    pub fn find_cycles(demands: &[Demand], max_cycle_len: usize) -> (cycles: Vec<SwapCycle>)
        ensures
            demands@.len() < 2 ==> cycles@.len() == 0,
            all_cycles_sound(demands@, max_cycle_len as int, cycles@),
            forall|k: int| 0 <= k < cycles@.len() ==> legs_form_cycle(#[trigger] cycles@[k].swaps@),
            trades_distinct(cycles@),
            forall|p: Seq<usize>|
                #[trigger] is_simple_cycle(demands@, p, max_cycle_len as int) && users_distinct(
                    demands@,
                    p,
                ) ==> found_in(cycles@, cycle_legs(demands@, p)),
            cycles_in_search_order(demands@, max_cycle_len as int, cycles@),
            ids_distinct(cycles@),
            ids_random(cycles@),
    {
        let n = demands.len();
        if n < 2 {
            proof {
                assert forall|p: Seq<usize>|
                    #[trigger] is_simple_cycle(demands@, p, max_cycle_len as int) && users_distinct(
                        demands@,
                        p,
                    ) implies found_in(Seq::<SwapCycle>::empty(), cycle_legs(demands@, p)) by {
                    lemma_cycle_needs_two_demands(demands@, p, max_cycle_len as int);
                }
                assert(listed_walks(
                    demands@,
                    max_cycle_len as int,
                    Seq::<SwapCycle>::empty(),
                    Seq::<Seq<usize>>::empty(),
                ));
            }
            return Vec::new();
        }
        let adjacency = Self::build_adjacency(demands);

        let mut cycles: Vec<SwapCycle> = Vec::new();
        let mut visited: Vec<bool> = Vec::new();
        let mut i: usize = 0;
        while i < n
            invariant
                n == demands@.len(),
                i <= n,
                visited@.len() == i,
                forall|v: int| 0 <= v < i ==> !#[trigger] visited@[v],
            decreases n - i,
        {
            visited.push(false);
            i = i + 1;
        }
        let mut path: Vec<usize> = Vec::new();
        let ghost mut walks: Seq<Seq<usize>> = Seq::empty();

        let mut start: usize = 0;
        while start < n
            invariant
                n == demands@.len(),
                start <= n,
                adjacency_of(demands@, adjacency@),
                path@ == Seq::<usize>::empty(),
                marks_path(n as int, visited@, path@),
                listed_walks(demands@, max_cycle_len as int, cycles@, walks),
                ids_distinct(cycles@),
                ids_random(cycles@),
                forall|k: int| 0 <= k < walks.len() ==> (#[trigger] walks[k])[0] < start,
                forall|p: Seq<usize>|
                    #[trigger] is_swap_walk(demands@, p, max_cycle_len as int) && p[0] < start
                        ==> found_in(cycles@, cycle_legs(demands@, p)),
            decreases n - start,
        {
            let ghost before = walks;
            let ghost first = path@.push(start);
            proof {
                assert(is_simple_path(demands@, path@));
                assert forall|k: int| 0 <= k < walks.len() implies lex_before(
                    closed_walk(#[trigger] walks[k]),
                    first,
                ) by {
                    assert(closed_walk(walks[k])[0] < first[0]);
                }
                assert forall|v: Seq<usize>|
                    #[trigger] is_swap_walk(demands@, v, max_cycle_len as int) && lex_before(
                        closed_walk(v),
                        first,
                    ) implies found_in(cycles@, cycle_legs(demands@, v)) by {
                    assert(closed_walk(v)[0] == v[0]);
                }
            }
            let Ghost(found) = Self::dfs(
                start,
                start,
                &adjacency,
                demands,
                &mut visited,
                &mut path,
                &mut cycles,
                max_cycle_len,
                Ghost(walks),
            );
            proof {
                walks = found;
                assert forall|k: int| 0 <= k < walks.len() implies (#[trigger] walks[k])[0] < start
                    + 1 by {
                    if k < before.len() {
                        assert(walks[k] == before[k]);
                    } else {
                        assert(is_prefix_of(first, walks[k]));
                    }
                }
                assert forall|p: Seq<usize>|
                    #[trigger] is_swap_walk(demands@, p, max_cycle_len as int) && p[0] < start + 1
                        implies found_in(cycles@, cycle_legs(demands@, p)) by {
                    if p[0] < start {
                        assert(closed_walk(p)[0] < first[0]);
                        assert(lex_before(closed_walk(p), first));
                    } else {
                        assert(is_prefix_of(first, p));
                    }
                }
            }
            start = start + 1;
        }
        proof {
            lemma_listed_walks_sound(demands@, max_cycle_len as int, cycles@, walks);
            assert forall|p: Seq<usize>|
                #[trigger] is_simple_cycle(demands@, p, max_cycle_len as int) && users_distinct(
                    demands@,
                    p,
                ) implies found_in(cycles@, cycle_legs(demands@, p)) by {
                assert(is_swap_walk(demands@, p, max_cycle_len as int));
            }
            assert forall|k: int| 0 <= k < cycles@.len() implies legs_form_cycle(
                #[trigger] cycles@[k].swaps@,
            ) by {
                let p = choose|p: Seq<usize>|
                    #[trigger] is_simple_cycle(demands@, p, max_cycle_len as int) && users_distinct(
                        demands@,
                        p,
                    ) && cycles@[k].swaps@ == cycle_legs(demands@, p);
                lemma_cycle_legs_form_cycle(demands@, p);
            }
        }
        cycles
    }

    /// Builds the adjacency lists of the demand graph.
    fn build_adjacency(demands: &[Demand]) -> (adj: Vec<Vec<usize>>)
        ensures
            adjacency_of(demands@, adj@),
    {
        let n = demands.len();
        let mut adj: Vec<Vec<usize>> = Vec::new();
        let mut i: usize = 0;
        while i < n
            invariant
                n == demands@.len(),
                i <= n,
                adj@.len() == i,
                forall|a: int, t: int|
                    0 <= a < adj@.len() && 0 <= t < adj@[a]@.len() ==> demand_edge(
                        demands@,
                        a,
                        #[trigger] adj@[a]@[t] as int,
                    ),
                forall|a: int, j: int|
                    0 <= a < i && #[trigger] demand_edge(demands@, a, j) ==> adj@[a]@.contains(
                        j as usize,
                    ),
                forall|a: int, s: int, t: int|
                    0 <= a < adj@.len() && 0 <= s < t < adj@[a]@.len() ==> #[trigger] adj@[a]@[s]
                        < #[trigger] adj@[a]@[t],
            decreases n - i,
        {
            let mut row: Vec<usize> = Vec::new();
            let mut j: usize = 0;
            while j < n
                invariant
                    n == demands@.len(),
                    i < n,
                    j <= n,
                    forall|t: int|
                        0 <= t < row@.len() ==> demand_edge(demands@, i as int, #[trigger] row@[t] as int),
                    forall|b: int|
                        0 <= b < j && #[trigger] demand_edge(demands@, i as int, b) ==> row@.contains(
                            b as usize,
                        ),
                    forall|t: int| 0 <= t < row@.len() ==> #[trigger] row@[t] < j,
                    forall|s: int, t: int| 0 <= s < t < row@.len() ==> #[trigger] row@[s] < #[trigger] row@[t],
                decreases n - j,
            {
                if i != j && Self::tags_overlap(&demands[i].offer_tags, &demands[j].target_tags) {
                    let ghost old_row = row@;
                    row.push(j);
                    proof {
                        assert(row@[row@.len() - 1] == j);
                        assert forall|b: int|
                            0 <= b < j + 1 && #[trigger] demand_edge(demands@, i as int, b) implies row@.contains(
                            b as usize,
                        ) by {
                            if b < j {
                                let k = choose|k: int| 0 <= k < old_row.len() && old_row[k] == b as usize;
                                assert(row@[k] == b as usize);
                            }
                        }
                    }
                }
                j = j + 1;
            }
            adj.push(row);
            proof {
                assert forall|a: int, j: int|
                    0 <= a < i + 1 && #[trigger] demand_edge(demands@, a, j) implies adj@[a]@.contains(
                    j as usize,
                ) by {
                    if a == i {
                        assert(0 <= j < n);
                    }
                }
            }
            i = i + 1;
        }
        adj
    }

    /// Depth-first search for closed walks back to `start`, from the walk `path`
    /// extended by `current`, trying the next demands in increasing order. Every cycle
    /// found is added unless one that makes the same trade is already known.
    ///
    /// `walks0` lists the walks of the cycles found so far; the walks of the cycles
    /// found here follow them in the result.
    fn dfs(
        start: usize,
        current: usize,
        adj: &Vec<Vec<usize>>,
        demands: &[Demand],
        visited: &mut Vec<bool>,
        path: &mut Vec<usize>,
        cycles: &mut Vec<SwapCycle>,
        max_len: usize,
        Ghost(walks0): Ghost<Seq<Seq<usize>>>,
    ) -> (walks: Ghost<Seq<Seq<usize>>>)
        requires
            adjacency_of(demands@, adj@),
            search_state_ok(demands@, start as int, old(path)@, current as int),
            marks_path(demands@.len() as int, old(visited)@, old(path)@),
            old(path)@.len() <= max_len,
            listed_walks(demands@, max_len as int, old(cycles)@, walks0),
            ids_distinct(old(cycles)@),
            ids_random(old(cycles)@),
            forall|k: int|
                0 <= k < walks0.len() ==> lex_before(
                    closed_walk(#[trigger] walks0[k]),
                    old(path)@.push(current),
                ),
            forall|v: Seq<usize>|
                #[trigger] is_swap_walk(demands@, v, max_len as int) && lex_before(
                    closed_walk(v),
                    old(path)@.push(current),
                ) ==> found_in(old(cycles)@, cycle_legs(demands@, v)),
        ensures
            final(path)@ == old(path)@,
            final(visited)@ == old(visited)@,
            extends(old(cycles)@, final(cycles)@),
            listed_walks(demands@, max_len as int, final(cycles)@, walks@),
            ids_distinct(final(cycles)@),
            ids_random(final(cycles)@),
            walks0.len() <= walks@.len(),
            forall|k: int| 0 <= k < walks0.len() ==> #[trigger] walks@[k] == walks0[k],
            forall|k: int|
                walks0.len() <= k < walks@.len() ==> is_prefix_of(
                    old(path)@.push(current),
                    #[trigger] walks@[k],
                ),
            forall|v: Seq<usize>|
                #[trigger] is_swap_walk(demands@, v, max_len as int) && (lex_before(
                    closed_walk(v),
                    old(path)@.push(current),
                ) || is_prefix_of(old(path)@.push(current), v)) ==> found_in(
                    final(cycles)@,
                    cycle_legs(demands@, v),
                ),
        decreases max_len - old(path)@.len(),
    {
        let n = demands.len();
        let ghost path0 = path@;
        let ghost visited0 = visited@;
        let ghost cycles0 = cycles@;
        if path.len() >= max_len {
            proof {
                assert forall|q: Seq<usize>|
                    #[trigger] is_swap_walk(demands@, q, max_len as int) && (lex_before(
                        closed_walk(q),
                        path0.push(current),
                    ) || is_prefix_of(path0.push(current), q)) implies found_in(
                    cycles@,
                    cycle_legs(demands@, q),
                ) by {
                    if is_prefix_of(path0.push(current), q) {
                        assert(path0.push(current).len() <= q.len());
                    }
                }
            }
            return Ghost(walks0);
        }
        visited.set(current, true);
        path.push(current);
        proof {
            lemma_extend_simple_path(demands@, path0, current);
            assert forall|v: int| 0 <= v < n implies #[trigger] visited@[v] == path@.contains(
                v as usize,
            ) by {
                assert(visited0[v] == path0.contains(v as usize));
                if v == current {
                    assert(path@[path@.len() - 1] == current);
                } else {
                    assert(visited0[v] == path0.contains(v as usize));
                    if path0.contains(v as usize) {
                        let k = choose|k: int| 0 <= k < path0.len() && path0[k] == v as usize;
                        assert(path@[k] == v as usize);
                    }
                    if path@.contains(v as usize) {
                        let k = choose|k: int| 0 <= k < path@.len() && path@[k] == v as usize;
                        if k < path0.len() {
                            assert(path0[k] == v as usize);
                        } else {
                            assert(path@[k] == current);
                        }
                    }
                }
            }
            assert(path@[0] == start);
        }
        let ghost p1 = path@;
        let ghost m = p1.len() as int;
        let ghost mut walks = walks0;

        let row = &adj[current];
        let mut t: usize = 0;
        while t < row.len()
            invariant
                adjacency_of(demands@, adj@),
                n == demands@.len(),
                row@ == adj@[current as int]@,
                0 <= start < n,
                0 <= current < n,
                p1 == path0.push(current),
                path0 == old(path)@,
                path0.len() < max_len,
                path@ == p1,
                m == p1.len(),
                m <= max_len,
                p1[0] == start,
                is_simple_path(demands@, p1),
                marks_path(n as int, visited@, p1),
                t <= row@.len(),
                extends(cycles0, cycles@),
                listed_walks(demands@, max_len as int, cycles@, walks),
                ids_distinct(cycles@),
                ids_random(cycles@),
                walks0.len() <= walks.len(),
                forall|k: int| 0 <= k < walks0.len() ==> #[trigger] walks[k] == walks0[k],
                forall|k: int| 0 <= k < walks0.len() ==> lex_before(closed_walk(#[trigger] walks0[k]), p1),
                forall|k: int|
                    walks0.len() <= k < walks.len() ==> is_prefix_of(p1, #[trigger] walks[k])
                        && row@.subrange(0, t as int).contains(follower(walks[k], m)),
                forall|v: Seq<usize>|
                    #[trigger] is_swap_walk(demands@, v, max_len as int) && lex_before(closed_walk(v), p1)
                        ==> found_in(cycles@, cycle_legs(demands@, v)),
                forall|q: Seq<usize>|
                    #[trigger] is_swap_walk(demands@, q, max_len as int) && is_prefix_of(p1, q)
                        && row@.subrange(0, t as int).contains(follower(q, m)) ==> found_in(
                        cycles@,
                        cycle_legs(demands@, q),
                    ),
            decreases row@.len() - t,
        {
            let next = row[t];
            let ghost before = cycles@;
            let ghost walks_before = walks;
            proof {
                assert(demand_edge(demands@, current as int, next as int));
                assert forall|k: int|
                    walks0.len() <= k < walks.len() implies row@.subrange(0, t + 1).contains(
                    follower(#[trigger] walks[k], m),
                ) by {
                    let s = choose|s: int|
                        0 <= s < t && row@.subrange(0, t as int)[s] == follower(walks[k], m);
                    assert(row@.subrange(0, t + 1)[s] == follower(walks[k], m));
                }
            }
            if next == start && path.len() >= 2 {
                proof {
                    assert(is_simple_cycle(demands@, p1, max_len as int));
                }
                let built = Self::build_cycle(path, demands);
                if let Some(c) = built {
                    if !Self::already_found(cycles, &c) {
                        proof {
                            assert(closed_walk(p1) =~= p1.push(row@[t as int]));
                            assert forall|v: Seq<usize>|
                                #[trigger] is_swap_walk(demands@, v, max_len as int) && lex_before(
                                    closed_walk(v),
                                    closed_walk(p1),
                                ) implies !same_trade(
                                cycle_legs(demands@, v),
                                cycle_legs(demands@, p1),
                            ) by {
                                lemma_lex_frontier(
                                    demands@,
                                    adj@,
                                    current as int,
                                    p1,
                                    t as int,
                                    v,
                                    max_len as int,
                                );
                                if same_trade(cycle_legs(demands@, v), cycle_legs(demands@, p1)) {
                                    lemma_found_in_same_trade(
                                        cycles@,
                                        cycle_legs(demands@, v),
                                        cycle_legs(demands@, p1),
                                    );
                                }
                            }
                            assert(first_of_trade(demands@, max_len as int, p1));
                            assert forall|k: int| 0 <= k < walks.len() implies lex_before(
                                closed_walk(#[trigger] walks[k]),
                                closed_walk(p1),
                            ) by {
                                if k < walks0.len() {
                                    lemma_lex_before_prefix(closed_walk(walks[k]), p1, closed_walk(p1));
                                } else {
                                    lemma_lex_after_listed(p1, row@, t as int, walks[k]);
                                }
                            }
                        }
                        let mut c = c;
                        c.id = Self::unused_id(cycles, c.id);
                        cycles.push(c);
                        proof {
                            walks = walks.push(p1);
                            assert(cycles@[cycles@.len() - 1] == c);
                            assert forall|k: int| 0 <= k < walks.len() implies first_of_trade(
                                demands@,
                                max_len as int,
                                #[trigger] walks[k],
                            ) && cycles@[k].swaps@ == cycle_legs(demands@, walks[k]) by {
                                if k < walks_before.len() {
                                    assert(cycles@[k] == before[k]);
                                    assert(walks[k] == walks_before[k]);
                                }
                            }
                            assert forall|k: int, l: int| 0 <= k < l < walks.len() implies lex_before(
                                closed_walk(#[trigger] walks[k]),
                                closed_walk(#[trigger] walks[l]),
                            ) by {
                                assert(walks[k] == walks_before[k]);
                                if l < walks_before.len() {
                                    assert(walks[l] == walks_before[l]);
                                }
                            }
                            assert(listed_walks(demands@, max_len as int, cycles@, walks));
                            assert(row@.subrange(0, t + 1)[t as int] == start);
                            assert(follower(p1, m) == start);
                            assert forall|k: int| 0 <= k < walks0.len() implies #[trigger] walks[k]
                                == walks0[k] by {
                                assert(walks[k] == walks_before[k]);
                            }
                            assert forall|k: int|
                                walks0.len() <= k < walks.len() implies is_prefix_of(
                                p1,
                                #[trigger] walks[k],
                            ) && row@.subrange(0, t + 1).contains(follower(walks[k], m)) by {
                                if k < walks_before.len() {
                                    assert(walks[k] == walks_before[k]);
                                } else {
                                    assert(walks[k] == p1);
                                }
                            }
                            assert(found_in(cycles@, c.swaps@)) by {
                                assert(same_trade(cycles@[cycles@.len() - 1].swaps@, c.swaps@));
                            }
                        }
                    }
                }
                proof {
                    assert(extends(cycles0, cycles@)) by {
                        assert forall|k: int| 0 <= k < cycles0.len() implies #[trigger] cycles@[k]
                            == cycles0[k] by {
                            assert(before[k] == cycles0[k]);
                        }
                    }
                    assert forall|v: Seq<usize>|
                        #[trigger] is_swap_walk(demands@, v, max_len as int) && lex_before(
                            closed_walk(v),
                            p1,
                        ) implies found_in(cycles@, cycle_legs(demands@, v)) by {
                        lemma_found_in_extends(before, cycles@, cycle_legs(demands@, v));
                    }
                    assert forall|q: Seq<usize>|
                        #[trigger] is_swap_walk(demands@, q, max_len as int) && is_prefix_of(p1, q)
                            && row@.subrange(0, t + 1).contains(follower(q, m)) implies found_in(
                        cycles@,
                        cycle_legs(demands@, q),
                    ) by {
                        if row@.subrange(0, t as int).contains(follower(q, m)) {
                            lemma_found_in_extends(before, cycles@, cycle_legs(demands@, q));
                        } else {
                            let s = choose|s: int|
                                0 <= s < t + 1 && #[trigger] row@.subrange(0, t + 1)[s] == follower(q, m);
                            if s < t {
                                assert(row@.subrange(0, t as int)[s] == follower(q, m));
                            }
                            assert(follower(q, m) == start);
                            if q.len() > m {
                                assert(q[m] == q[0]);
                            }
                            assert(q =~= p1);
                        }
                    }
                }
            } else if !visited[next] {
                let ghost p2 = p1.push(next);
                proof {
                    assert(!p1.contains(next));
                    assert(search_state_ok(demands@, start as int, p1, next as int));
                    assert forall|k: int| 0 <= k < walks.len() implies lex_before(
                        closed_walk(#[trigger] walks[k]),
                        p2,
                    ) by {
                        if k < walks0.len() {
                            lemma_lex_before_prefix(closed_walk(walks[k]), p1, p2);
                        } else {
                            lemma_lex_after_listed(p1, row@, t as int, walks[k]);
                        }
                    }
                    assert forall|v: Seq<usize>|
                        #[trigger] is_swap_walk(demands@, v, max_len as int) && lex_before(
                            closed_walk(v),
                            p2,
                        ) implies found_in(cycles@, cycle_legs(demands@, v)) by {
                        lemma_lex_frontier(demands@, adj@, current as int, p1, t as int, v, max_len as int);
                    }
                }
                let Ghost(found) = Self::dfs(
                    start,
                    next,
                    adj,
                    demands,
                    visited,
                    path,
                    cycles,
                    max_len,
                    Ghost(walks),
                );
                proof {
                    walks = found;
                    assert(extends(cycles0, cycles@)) by {
                        assert forall|k: int| 0 <= k < cycles0.len() implies #[trigger] cycles@[k]
                            == cycles0[k] by {
                            assert(before[k] == cycles0[k]);
                        }
                    }
                    assert forall|k: int| 0 <= k < walks0.len() implies #[trigger] walks[k]
                        == walks0[k] by {
                        assert(walks[k] == walks_before[k]);
                    }
                    assert forall|k: int|
                        walks0.len() <= k < walks.len() implies is_prefix_of(p1, #[trigger] walks[k])
                            && row@.subrange(0, t + 1).contains(follower(walks[k], m)) by {
                        if k < walks_before.len() {
                            assert(walks[k] == walks_before[k]);
                        } else {
                            assert(is_prefix_of(p2, walks[k]));
                            assert(walks[k][m] == next);
                            assert(row@.subrange(0, t + 1)[t as int] == next);
                        }
                    }
                    assert forall|v: Seq<usize>|
                        #[trigger] is_swap_walk(demands@, v, max_len as int) && lex_before(
                            closed_walk(v),
                            p1,
                        ) implies found_in(cycles@, cycle_legs(demands@, v)) by {
                        lemma_found_in_extends(before, cycles@, cycle_legs(demands@, v));
                    }
                    assert forall|q: Seq<usize>|
                        #[trigger] is_swap_walk(demands@, q, max_len as int) && is_prefix_of(p1, q)
                            && row@.subrange(0, t + 1).contains(follower(q, m)) implies found_in(
                        cycles@,
                        cycle_legs(demands@, q),
                    ) by {
                        if row@.subrange(0, t as int).contains(follower(q, m)) {
                            lemma_found_in_extends(before, cycles@, cycle_legs(demands@, q));
                        } else {
                            let s = choose|s: int|
                                0 <= s < t + 1 && #[trigger] row@.subrange(0, t + 1)[s] == follower(q, m);
                            if s < t {
                                assert(row@.subrange(0, t as int)[s] == follower(q, m));
                            }
                            assert(follower(q, m) == next);
                            if q.len() == m {
                                assert(p1[0] == start);
                                assert(p1.contains(start));
                            }
                            assert(is_prefix_of(p2, q));
                        }
                    }
                }
            } else {
                proof {
                    assert forall|q: Seq<usize>|
                        #[trigger] is_swap_walk(demands@, q, max_len as int) && is_prefix_of(p1, q)
                            && row@.subrange(0, t + 1).contains(follower(q, m)) implies found_in(
                        cycles@,
                        cycle_legs(demands@, q),
                    ) by {
                        if !row@.subrange(0, t as int).contains(follower(q, m)) {
                            let s = choose|s: int|
                                0 <= s < t + 1 && #[trigger] row@.subrange(0, t + 1)[s] == follower(q, m);
                            if s < t {
                                assert(row@.subrange(0, t as int)[s] == follower(q, m));
                            }
                            assert(follower(q, m) == next);
                            assert(p1.contains(next));
                            let k = choose|k: int| 0 <= k < p1.len() && p1[k] == next;
                            if q.len() > m {
                                assert(q[k] == next);
                                assert(q[m] == next);
                            } else {
                                assert(q.len() == m);
                            }
                        }
                    }
                }
            }
            t = t + 1;
        }

        path.pop();
        visited.set(current, false);
        proof {
            assert(path@ =~= path0);
            assert(visited@ =~= visited0) by {
                assert forall|v: int| 0 <= v < n implies visited@[v] == visited0[v] by {
                    if v == current {
                        assert(!path0.contains(current));
                    }
                }
            }
            assert forall|q: Seq<usize>|
                #[trigger] is_swap_walk(demands@, q, max_len as int) && (lex_before(closed_walk(q), p1)
                    || is_prefix_of(p1, q)) implies found_in(cycles@, cycle_legs(demands@, q)) by {
                if !lex_before(closed_walk(q), p1) {
                    assert(row@.subrange(0, row@.len() as int) =~= row@);
                    if q.len() == m {
                        assert(q[m - 1] == current);
                        assert(demand_edge(demands@, current as int, q[0] as int));
                    } else {
                        assert(path_step(demands@, q, m - 1));
                        assert(q[m - 1] == current);
                    }
                }
            }
            assert(row@.subrange(0, t as int) =~= row@);
        }
        Ghost(walks)
    }

    /// The cycle that follows the closed walk `path`, or `None` when the walk has fewer
    /// than two demands or a user occurs twice on it.
    fn build_cycle(path: &Vec<usize>, demands: &[Demand]) -> (c: Option<SwapCycle>)
        requires
            forall|k: int| 0 <= k < path@.len() ==> #[trigger] path@[k] < demands@.len(),
        ensures
            c is Some <==> path@.len() >= 2 && users_distinct(demands@, path@),
            c matches Some(cycle) ==> cycle.swaps@ == cycle_legs(demands@, path@) && legs_form_cycle(
                cycle.swaps@,
            ) && is_v4_id(cycle.id),
    {
        let n = path.len();
        if n < 2 {
            return None;
        }
        let mut i: usize = 0;
        while i < n
            invariant
                n == path@.len(),
                i <= n,
                forall|k: int| 0 <= k < path@.len() ==> #[trigger] path@[k] < demands@.len(),
                forall|k: int, l: int|
                    0 <= k < l < i ==> #[trigger] demands@[path@[k] as int].user_id
                        != #[trigger] demands@[path@[l] as int].user_id,
            decreases n - i,
        {
            let mut j: usize = 0;
            while j < i
                invariant
                    n == path@.len(),
                    j <= i < n,
                    forall|k: int| 0 <= k < path@.len() ==> #[trigger] path@[k] < demands@.len(),
                    forall|k: int|
                        0 <= k < j ==> demands@[path@[k] as int].user_id != demands@[path@[i as int] as int].user_id,
                decreases i - j,
            {
                if demands[path[j]].user_id == demands[path[i]].user_id {
                    return None;
                }
                j = j + 1;
            }
            i = i + 1;
        }

        let mut swaps: Vec<SwapLeg> = Vec::new();
        let mut i: usize = 0;
        while i < n
            invariant
                n == path@.len(),
                n >= 2,
                i <= n,
                forall|k: int| 0 <= k < path@.len() ==> #[trigger] path@[k] < demands@.len(),
                swaps@.len() == i,
                forall|k: int| 0 <= k < i ==> #[trigger] swaps@[k] == cycle_leg(demands@, path@, k),
            decreases n - i,
        {
            let next: usize = if i + 1 == n {
                0
            } else {
                i + 1
            };
            let prev: usize = if i == 0 {
                n - 1
            } else {
                i - 1
            };
            let from = &demands[path[i]];
            let want = &demands[path[prev]];
            let to = &demands[path[next]];
            swaps.push(
                SwapLeg {
                    from_user_id: from.user_id,
                    to_user_id: to.user_id,
                    offer_item_id: from.offer_item_id,
                    want_item_id: want.offer_item_id,
                },
            );
            i = i + 1;
        }
        proof {
            assert(swaps@ =~= cycle_legs(demands@, path@));
            lemma_cycle_legs_form_cycle(demands@, path@);
        }
        let cycle = SwapCycle { id: new_id(), swaps, created_at: now_micros() };
        if cycle.is_valid() {
            Some(cycle)
        } else {
            None
        }
    }

    /// Whether some tag of `a` equals some tag of `b`.
    pub fn tags_overlap(a: &[String], b: &[String]) -> (r: bool)
        ensures
            r == tags_overlap_spec(a@, b@),
    {
        let mut j: usize = 0;
        while j < b.len()
            invariant
                j <= b@.len(),
                forall|x: int, y: int| 0 <= x < a@.len() && 0 <= y < j ==> a@[x]@ != b@[y]@,
            decreases b@.len() - j,
        {
            let mut i: usize = 0;
            while i < a.len()
                invariant
                    j < b@.len(),
                    i <= a@.len(),
                    forall|x: int, y: int| 0 <= x < a@.len() && 0 <= y < j ==> a@[x]@ != b@[y]@,
                    forall|x: int| 0 <= x < i ==> a@[x]@ != b@[j as int]@,
                decreases a@.len() - i,
            {
                if a[i] == b[j] {
                    proof {
                        assert(a@[i as int]@ == b@[j as int]@);
                    }
                    return true;
                }
                i = i + 1;
            }
            j = j + 1;
        }
        false
    }

    /// Whether no cycle of `cycles` carries the identifier `id`.
    fn id_free(cycles: &Vec<SwapCycle>, id: u128) -> (r: bool)
        ensures
            r == id_unused(cycles@, id),
    {
        let mut k: usize = 0;
        while k < cycles.len()
            invariant
                k <= cycles@.len(),
                forall|l: int| 0 <= l < k ==> #[trigger] cycles@[l].id != id,
            decreases cycles@.len() - k,
        {
            if cycles[k].id == id {
                return false;
            }
            k = k + 1;
        }
        true
    }

    /// The identifier for a new cycle among `cycles`: the fresh identifier `id` when no
    /// cycle carries it yet, otherwise the first identifier to fall back on that no
    /// cycle carries.
    fn unused_id(cycles: &Vec<SwapCycle>, id: u128) -> (r: u128)
        requires
            is_v4_id(id),
        ensures
            is_v4_id(r),
            id_unused(cycles@, r),
            id_unused(cycles@, id) ==> r == id,
    {
        if Self::id_free(cycles, id) {
            return id;
        }
        let n = cycles.len();
        proof {
            lemma_fallback_id_free(cycles@);
        }
        let ghost free = choose|i: u128| i <= cycles@.len() && #[trigger] id_unused(cycles@, fallback_id(i));
        let mut j: u128 = 0;
        while j < n as u128 + 1
            invariant
                n == cycles@.len(),
                j <= n as u128 + 1,
                free <= n,
                id_unused(cycles@, fallback_id(free)),
                !id_unused(cycles@, id),
                free >= j,
            decreases n as u128 + 1 - j,
        {
            let candidate: u128 = 0x40008000000000000000u128 | (j & 0x3fffffffffffffffu128) | ((j
                >> 62u128) << 64u128);
            assert(candidate == fallback_id(j));
            if Self::id_free(cycles, candidate) {
                proof {
                    lemma_fallback_id(j, j);
                }
                return candidate;
            }
            j = j + 1;
        }
        id
    }

    /// Whether some cycle of `cycles` makes the same trade as `candidate`.
    fn already_found(cycles: &Vec<SwapCycle>, candidate: &SwapCycle) -> (r: bool)
        ensures
            r == found_in(cycles@, candidate.swaps@),
    {
        let cand = Self::trade_pairs_of(&candidate.swaps);
        let mut k: usize = 0;
        while k < cycles.len()
            invariant
                k <= cycles@.len(),
                cand@ == trade_pairs(candidate.swaps@),
                forall|l: int| 0 <= l < k ==> !same_trade(#[trigger] cycles@[l].swaps@, candidate.swaps@),
            decreases cycles@.len() - k,
        {
            let pairs = Self::trade_pairs_of(&cycles[k].swaps);
            if Self::same_multiset(&cand, pairs) {
                proof {
                    assert(same_trade(cycles@[k as int].swaps@, candidate.swaps@));
                }
                return true;
            }
            k = k + 1;
        }
        false
    }

    /// The (offered item, wanted item) pairs of the legs.
    fn trade_pairs_of(legs: &Vec<SwapLeg>) -> (r: Vec<(u128, u128)>)
        ensures
            r@ == trade_pairs(legs@),
    {
        let mut r: Vec<(u128, u128)> = Vec::new();
        let mut i: usize = 0;
        while i < legs.len()
            invariant
                i <= legs@.len(),
                r@ == trade_pairs(legs@.subrange(0, i as int)),
            decreases legs@.len() - i,
        {
            let leg = legs[i];
            r.push((leg.offer_item_id, leg.want_item_id));
            proof {
                assert(legs@.subrange(0, i + 1) =~= legs@.subrange(0, i as int).push(leg));
                assert(trade_pairs(legs@.subrange(0, i + 1)) =~= trade_pairs(
                    legs@.subrange(0, i as int),
                ).push((leg.offer_item_id, leg.want_item_id)));
            }
            i = i + 1;
        }
        proof {
            assert(legs@.subrange(0, legs@.len() as int) =~= legs@);
        }
        r
    }

    /// Whether `a` and `b` hold the same pairs with the same multiplicities.
    fn same_multiset(a: &Vec<(u128, u128)>, b: Vec<(u128, u128)>) -> (r: bool)
        ensures
            r == (a@.to_multiset() == b@.to_multiset()),
    {
        let ghost b0 = b@;
        let mut rest = b;
        let mut i: usize = 0;
        while i < a.len()
            invariant
                i <= a@.len(),
                b0 == b@,
                rest@.to_multiset().add(a@.subrange(0, i as int).to_multiset()) == b0.to_multiset(),
            decreases a@.len() - i,
        {
            let x = a[i];
            let mut j: usize = 0;
            let mut found = false;
            while j < rest.len()
                invariant_except_break
                    !found,
                invariant
                    j <= rest@.len(),
                    forall|l: int| 0 <= l < j ==> rest@[l] != x,
                ensures
                    found ==> j < rest@.len() && rest@[j as int] == x,
                    !found ==> forall|l: int| 0 <= l < rest@.len() ==> rest@[l] != x,
                decreases rest@.len() - j,
            {
                if rest[j].0 == x.0 && rest[j].1 == x.1 {
                    found = true;
                    break;
                }
                j = j + 1;
            }
            proof {
                assert(a@.subrange(0, i + 1) =~= a@.subrange(0, i as int).push(x));
            }
            if !found {
                proof {
                    broadcast use vstd::multiset::group_multiset_axioms;
                    assert(!rest@.contains(x));
                    assert(rest@.to_multiset().count(x) == 0);
                    assert(a@.subrange(0, i + 1).to_multiset() == a@.subrange(0, i as int).to_multiset().insert(x));
                    assert(a@.subrange(0, i + 1).to_multiset().count(x) == a@.subrange(0, i as int).to_multiset().count(x) + 1);
                    vstd::seq_lib::lemma_multiset_commutative(
                        a@.subrange(0, i + 1),
                        a@.subrange(i + 1, a@.len() as int),
                    );
                    assert(a@.subrange(0, i + 1) + a@.subrange(i + 1, a@.len() as int) =~= a@);
                    assert(a@.to_multiset().count(x) >= a@.subrange(0, i + 1).to_multiset().count(x));
                    assert(b0.to_multiset().count(x) == a@.subrange(0, i as int).to_multiset().count(x));
                    assert(a@.to_multiset() != b0.to_multiset());
                }
                return false;
            }
            let ghost rest_before = rest@;
            proof {
                assert(rest@[j as int] == x);
            }
            rest.remove(j);
            proof {
                assert(rest@.to_multiset() == rest_before.to_multiset().remove(x));
                assert(rest@.to_multiset().add(a@.subrange(0, i + 1).to_multiset()) =~= b0.to_multiset());
            }
            i = i + 1;
        }
        proof {
            assert(a@.subrange(0, a@.len() as int) =~= a@);
        }
        if rest.len() == 0 {
            proof {
                assert(rest@.to_multiset() =~= Multiset::empty());
                assert(a@.to_multiset() =~= b0.to_multiset());
            }
            true
        } else {
            proof {
                assert(b0.to_multiset().len() == rest@.len() + a@.len());
            }
            false
        }
    }
}

} // verus!
