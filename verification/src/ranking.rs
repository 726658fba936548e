//! Ordering scores and picking the best.
//!
//! A similarity score is a single-precision number and travels as its bit
//! pattern. [`score_key`] maps bit patterns to integers so that the integers
//! stand in the order of the numbers. [`rank`] picks the positions of the
//! best keys: higher keys first, and among equal keys the earlier position
//! first.
use vstd::prelude::*;

verus! {

/// The place of the number with bit pattern `bits` among all numbers, as an
/// integer: `a < b` as numbers exactly when `score_key(a) < score_key(b)`.
/// Both zeros have key 0. A pattern that is not a number has the least key
/// of all, below negative infinity.
pub open spec fn score_key(bits: u32) -> int {
    let magnitude = bits % 0x8000_0000;
    if magnitude > 0x7f80_0000 {
        -0x8000_0000
    } else if bits >= 0x8000_0000 {
        -magnitude
    } else {
        magnitude as int
    }
}

/// Position `a` comes before position `b` in a ranking of `keys`: its key
/// is higher, or the keys are equal and `a` is the earlier position.
pub open spec fn outranks(keys: Seq<i128>, a: int, b: int) -> bool {
    keys[a] > keys[b] || (keys[a] == keys[b] && a < b)
}

/// `order` ranks the first `n` positions of `keys`, cut off after `limit`:
/// it lists positions below `n`, each before all that it outranks, and
/// every position below `n` that it leaves out is outranked by all that it
/// lists.
pub open spec fn ranks_prefix(keys: Seq<i128>, n: int, limit: int, order: Seq<usize>) -> bool {
    &&& order.len() == if limit <= n {
        limit
    } else {
        n
    }
    &&& forall|p: int| 0 <= p < order.len() ==> 0 <= #[trigger] order[p] < n
    &&& forall|p: int, q: int|
        0 <= p < q < order.len() ==> outranks(keys, #[trigger] order[p] as int, #[trigger] order[q] as int)
    &&& forall|x: usize, p: int|
        #![trigger order.contains(x), order[p]]
        x < n && !order.contains(x) && 0 <= p < order.len() ==> outranks(
            keys,
            order[p] as int,
            x as int,
        )
}

/// `order` is the ranking of `keys`, cut off after `limit` positions.
pub open spec fn is_ranking(keys: Seq<i128>, limit: int, order: Seq<usize>) -> bool {
    ranks_prefix(keys, keys.len() as int, limit, order)
}

/// The key of a score, as a machine integer.
pub fn score_rank(bits: u32) -> (key: i64)
    ensures
        key == score_key(bits),
{
    let magnitude = bits % 0x8000_0000;
    if magnitude > 0x7f80_0000 {
        -0x8000_0000
    } else if bits >= 0x8000_0000 {
        -(magnitude as i64)
    } else {
        magnitude as i64
    }
}

/// `order` with position `x` put in at place `pos`, cut off after `limit`.
/// Where `pos` is at or beyond the limit, `order` is left as it is.
pub open spec fn with_position(order: Seq<usize>, pos: int, x: usize, limit: int) -> Seq<usize> {
    if pos < limit {
        let grown = order.insert(pos, x);
        if grown.len() > limit {
            grown.take(limit)
        } else {
            grown
        }
    } else {
        order
    }
}

/// Putting the next position into a ranking, behind all that outrank it and
/// before all that it outranks, gives the ranking of one position more.
pub proof fn lemma_ranking_grows(keys: Seq<i128>, x: usize, limit: int, before: Seq<usize>, pos: int)
    requires
        x < keys.len(),
        ranks_prefix(keys, x as int, limit, before),
        0 <= pos <= before.len(),
        forall|p: int| 0 <= p < pos ==> outranks(keys, #[trigger] before[p] as int, x as int),
        forall|q: int| pos <= q < before.len() ==> outranks(keys, x as int, #[trigger] before[q] as int),
    ensures
        ranks_prefix(keys, x + 1, limit, with_position(before, pos, x, limit)),
{
    assert(!before.contains(x)) by {
        if before.contains(x) {
            let p = choose|p: int| 0 <= p < before.len() && before[p] == x;
            assert(before[p] < x);
        }
    }
    if pos < limit {
        let grown = before.insert(pos, x);
        assert forall|p: int, q: int| 0 <= p < q < grown.len() implies outranks(
            keys,
            #[trigger] grown[p] as int,
            #[trigger] grown[q] as int,
        ) by {
            if q < pos {
                assert(grown[p] == before[p] && grown[q] == before[q]);
            } else if q == pos {
                assert(grown[p] == before[p]);
            } else if p < pos {
                assert(grown[p] == before[p] && grown[q] == before[q - 1]);
            } else if p == pos {
                assert(grown[q] == before[q - 1]);
            } else {
                assert(grown[p] == before[p - 1] && grown[q] == before[q - 1]);
            }
        }
        assert forall|y: usize| y != x implies (#[trigger] grown.contains(y) <==> before.contains(
            y,
        )) by {
            if before.contains(y) {
                let p = choose|p: int| 0 <= p < before.len() && before[p] == y;
                if p < pos {
                    assert(grown[p] == y);
                } else {
                    assert(grown[p + 1] == y);
                }
            }
            if grown.contains(y) {
                let p = choose|p: int| 0 <= p < grown.len() && grown[p] == y;
                if p < pos {
                    assert(before[p] == y);
                } else {
                    assert(before[p - 1] == y);
                }
            }
        }
        assert(grown[pos] == x);
        if grown.len() > limit {
            let dropped = grown[limit];
            let cut = grown.take(limit);
            assert(before.len() == limit);
            assert forall|y: usize, p: int|
                #![trigger cut.contains(y), cut[p]]
                y < x + 1 && !cut.contains(y) && 0 <= p < cut.len() implies outranks(
                keys,
                cut[p] as int,
                y as int,
            ) by {
                assert(cut[p] == grown[p]);
                assert(cut[pos] == x);
                assert(outranks(keys, grown[p] as int, grown[limit] as int));
                if y != dropped {
                    assert(!grown.contains(y)) by {
                        if grown.contains(y) {
                            let t = choose|t: int| 0 <= t < grown.len() && grown[t] == y;
                            assert(t < limit);
                            assert(cut[t] == y);
                        }
                    }
                    assert(!before.contains(y));
                    assert(before[limit - 1] == dropped);
                    assert(outranks(keys, before[limit - 1] as int, y as int));
                }
            }
            assert(ranks_prefix(keys, x + 1, limit, cut));
        } else {
            assert(before.len() < limit);
            assert(before.len() == x);
            assert forall|y: usize, p: int|
                #![trigger grown.contains(y), grown[p]]
                y < x + 1 && !grown.contains(y) && 0 <= p < grown.len() implies outranks(
                keys,
                grown[p] as int,
                y as int,
            ) by {
                lemma_full_ranking_lists_all(keys, x as int, limit, before, y);
            }
            assert(ranks_prefix(keys, x + 1, limit, grown));
        }
    } else {
        assert(pos == before.len() && before.len() == limit);
        assert(ranks_prefix(keys, x + 1, limit, before));
    }
}

/// The place at which position `x` belongs in `order`, looking at the last
/// `order.len() - from` places only.
proof fn lemma_place(keys: Seq<i128>, x: usize, limit: int, order: Seq<usize>, from: int) -> (pos:
    int)
    requires
        x < keys.len(),
        ranks_prefix(keys, x as int, limit, order),
        0 <= from <= order.len(),
        forall|q: int| from <= q < order.len() ==> outranks(keys, x as int, #[trigger] order[q] as int),
    ensures
        0 <= pos <= order.len(),
        forall|p: int| 0 <= p < pos ==> outranks(keys, #[trigger] order[p] as int, x as int),
        forall|q: int| pos <= q < order.len() ==> outranks(keys, x as int, #[trigger] order[q] as int),
    decreases from,
{
    if from > 0 && keys[x as int] > keys[order[from - 1] as int] {
        lemma_place(keys, x, limit, order, from - 1)
    } else {
        assert forall|p: int| 0 <= p < from implies outranks(keys, #[trigger] order[p] as int, x as int) by {
            if p < from - 1 {
                assert(outranks(keys, order[p] as int, order[from - 1] as int));
            }
        }
        from
    }
}

/// The first `n` positions of any keys have a ranking, whatever the limit.
pub proof fn lemma_ranking_exists(keys: Seq<i128>, n: int, limit: int) -> (order: Seq<usize>)
    requires
        0 <= n <= keys.len(),
        n <= usize::MAX,
        0 <= limit,
    ensures
        ranks_prefix(keys, n, limit, order),
    decreases n,
{
    if n == 0 {
        Seq::empty()
    } else {
        let before = lemma_ranking_exists(keys, n - 1, limit);
        let x = (n - 1) as usize;
        let pos = lemma_place(keys, x, limit, before, before.len() as int);
        lemma_ranking_grows(keys, x, limit, before, pos);
        with_position(before, pos, x, limit)
    }
}

/// The positions of the `limit` best keys, best first. Of two positions
/// with equal keys the earlier one is the better.
pub fn rank(keys: &Vec<i128>, limit: usize) -> (order: Vec<usize>)
    ensures
        is_ranking(keys@, limit as int, order@),
{
    let mut order: Vec<usize> = Vec::new();
    let mut x: usize = 0;
    while x < keys.len()
        invariant
            x <= keys.len(),
            ranks_prefix(keys@, x as int, limit as int, order@),
        decreases keys.len() - x,
    {
        let ghost before = order@;
        let mut pos: usize = order.len();
        while pos > 0 && keys[x] > keys[order[pos - 1]]
            invariant
                x < keys.len(),
                pos <= order.len(),
                order@ == before,
                ranks_prefix(keys@, x as int, limit as int, order@),
                forall|q: int| pos <= q < order.len() ==> outranks(keys@, x as int, #[trigger] order[q] as int),
            decreases pos,
        {
            pos = pos - 1;
        }
        proof {
            assert forall|p: int| 0 <= p < pos implies outranks(keys@, #[trigger] before[p] as int, x as int) by {
                if p < pos - 1 {
                    assert(outranks(keys@, before[p] as int, before[pos - 1] as int));
                }
            }
            lemma_ranking_grows(keys@, x, limit as int, before, pos as int);
        }
        if pos < limit {
            order.insert(pos, x);
            if order.len() > limit {
                order.truncate(limit);
            }
        }
        assert(order@ =~= with_position(before, pos as int, x, limit as int));
        x = x + 1;
    }
    order
}

/// A ranking is as long as the limit allows and never longer than the keys;
/// its keys never increase from one place to the next; and no position
/// occurs in it twice.
pub proof fn lemma_ranking_sorted(keys: Seq<i128>, limit: int, order: Seq<usize>)
    requires
        is_ranking(keys, limit, order),
    ensures
        order.len() <= limit,
        order.len() <= keys.len(),
        order.len() == limit || order.len() == keys.len(),
        forall|p: int, q: int|
            0 <= p <= q < order.len() ==> keys[#[trigger] order[p] as int] >= keys[#[trigger] order[q] as int],
        forall|p: int, q: int| 0 <= p < q < order.len() ==> #[trigger] order[p] != #[trigger] order[q],
{
    assert forall|p: int, q: int| 0 <= p <= q < order.len() implies keys[#[trigger] order[p] as int]
        >= keys[#[trigger] order[q] as int] by {
        if p < q {
            assert(outranks(keys, order[p] as int, order[q] as int));
        }
    }
    assert forall|p: int, q: int| 0 <= p < q < order.len() implies #[trigger] order[p]
        != #[trigger] order[q] by {
        assert(outranks(keys, order[p] as int, order[q] as int));
    }
}

/// Two rankings of the same keys with the same limit agree in their first
/// `upto` places.
proof fn lemma_rankings_agree(keys: Seq<i128>, limit: int, a: Seq<usize>, b: Seq<usize>, upto: int)
    requires
        is_ranking(keys, limit, a),
        is_ranking(keys, limit, b),
        0 <= upto <= a.len(),
    ensures
        a.len() == b.len(),
        forall|j: int| 0 <= j < upto ==> a[j] == b[j],
    decreases upto,
{
    if upto > 0 {
        lemma_rankings_agree(keys, limit, a, b, upto - 1);
        let p = upto - 1;
        let x = a[p];
        let y = b[p];
        if x != y {
            assert(outranks(keys, y as int, x as int)) by {
                if b.contains(x) {
                    let q = choose|q: int| 0 <= q < b.len() && b[q] == x;
                    if q < p {
                        assert(a[q] == b[q]);
                        assert(outranks(keys, a[q] as int, a[p] as int));
                    } else {
                        assert(outranks(keys, b[p] as int, b[q] as int));
                    }
                } else {
                    assert(!b.contains(x) && b[p] == y);
                }
            }
            assert(outranks(keys, x as int, y as int)) by {
                if a.contains(y) {
                    let q = choose|q: int| 0 <= q < a.len() && a[q] == y;
                    if q < p {
                        assert(a[q] == b[q]);
                        assert(outranks(keys, b[q] as int, b[p] as int));
                    } else {
                        assert(outranks(keys, a[p] as int, a[q] as int));
                    }
                } else {
                    assert(!a.contains(y) && a[p] == x);
                }
            }
        }
    }
}

/// The keys and the limit decide the ranking: there is only one.
pub proof fn lemma_ranking_unique(keys: Seq<i128>, limit: int, a: Seq<usize>, b: Seq<usize>)
    requires
        is_ranking(keys, limit, a),
        is_ranking(keys, limit, b),
    ensures
        a == b,
{
    lemma_rankings_agree(keys, limit, a, b, a.len() as int);
    assert(a =~= b);
}

/// A ranking that is not cut short lists every position.
pub proof fn lemma_full_ranking_lists_all(keys: Seq<i128>, n: int, limit: int, order: Seq<usize>, y: usize)
    requires
        0 <= n <= keys.len(),
        ranks_prefix(keys, n, limit, order),
        order.len() == n,
        y < n,
    ensures
        order.contains(y),
{
    assert forall|p: int, q: int| 0 <= p < q < order.len() implies #[trigger] order[p]
        != #[trigger] order[q] by {
        assert(outranks(keys, order[p] as int, order[q] as int));
    }
    lemma_distinct_below_covers(order, n, y);
}

/// `n` distinct numbers below `n` include every number below `n`.
proof fn lemma_distinct_below_covers(s: Seq<usize>, n: int, y: usize)
    requires
        s.len() == n,
        y < n,
        forall|p: int| 0 <= p < s.len() ==> 0 <= #[trigger] s[p] < n,
        forall|p: int, q: int| 0 <= p < q < s.len() ==> #[trigger] s[p] != #[trigger] s[q],
    ensures
        s.contains(y),
    decreases n,
{
    if !s.contains(y) {
        let top = (n - 1) as usize;
        if n == 1 {
            assert(s[0] == 0);
        } else if s.contains(top) {
            // Take out the entry that holds n - 1 and look among the rest.
            let t = choose|t: int| 0 <= t < s.len() && s[t] == top;
            let rest = s.remove(t);
            assert forall|p: int| 0 <= p < rest.len() implies 0 <= #[trigger] rest[p] < n - 1 by {
                let pp = if p < t { p } else { p + 1 };
                assert(rest[p] == s[pp]);
                if pp < t {
                    assert(s[pp] != s[t]);
                } else {
                    assert(s[t] != s[pp]);
                }
            }
            assert forall|p: int, q: int| 0 <= p < q < rest.len() implies #[trigger] rest[p]
                != #[trigger] rest[q] by {
                let pp = if p < t { p } else { p + 1 };
                let qq = if q < t { q } else { q + 1 };
                assert(rest[p] == s[pp] && rest[q] == s[qq]);
            }
            assert(y != top);
            lemma_distinct_below_covers(rest, n - 1, y);
            let r = choose|r: int| 0 <= r < rest.len() && rest[r] == y;
            let rr = if r < t { r } else { r + 1 };
            assert(s[rr] == y);
        } else {
            // No entry holds n - 1, so the last entry repeats an earlier one.
            let rest = s.drop_last();
            assert forall|p: int| 0 <= p < rest.len() implies 0 <= #[trigger] rest[p] < n - 1 by {
                assert(rest[p] == s[p]);
                assert(s.contains(s[p]));
            }
            assert forall|p: int, q: int| 0 <= p < q < rest.len() implies #[trigger] rest[p]
                != #[trigger] rest[q] by {
                assert(rest[p] == s[p] && rest[q] == s[q]);
            }
            let last = s[n - 1];
            assert(s.contains(last));
            assert(last < n - 1);
            lemma_distinct_below_covers(rest, n - 1, last);
            let r = choose|r: int| 0 <= r < rest.len() && rest[r] == last;
            assert(s[r] == s[n - 1]);
        }
    }
}

} // verus!
