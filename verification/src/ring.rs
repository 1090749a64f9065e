//! Arithmetic on a ring: positions `0..m` in which the one after the last
//! is the first.

use vstd::prelude::*;
use vstd::arithmetic::div_mod::{
    lemma_add_mod_noop, lemma_mod_add_multiples_vanish, lemma_mod_bound,
    lemma_mod_sub_multiples_vanish, lemma_mod_twice, lemma_small_mod, lemma_sub_mod_noop,
};

verus! {

/// `x` brought into `0..m` by wrapping around.
pub open spec fn wrap(x: int, m: nat) -> int {
    x % (m as int)
}

/// Whether `x` is one of the `len` positions that follow `start` on a ring of
/// `m` positions, `start` included.
pub open spec fn in_span(start: int, len: int, m: nat, x: int) -> bool {
    exists|d: int| 0 <= d < len && #[trigger] wrap(start + d, m) == x
}

/// The position before `x` on a ring of `m` positions.
pub open spec fn ring_prev(x: int, m: nat) -> int {
    if x == 0 {
        m - 1
    } else {
        x - 1
    }
}

/// The position after `x` on a ring of `m` positions.
pub open spec fn ring_next(x: int, m: nat) -> int {
    if x == m - 1 {
        0
    } else {
        x + 1
    }
}

/// Wrapping keeps a coordinate that is in range, and moves the ones next to
/// the range to its other end.
pub proof fn lemma_wrap_basics(x: int, m: nat)
    requires
        m > 0,
    ensures
        0 <= wrap(x, m) < m,
        0 <= x < m ==> wrap(x, m) == x,
        wrap(x + m, m) == wrap(x, m),
        wrap(x - m, m) == wrap(x, m),
        wrap(wrap(x, m), m) == wrap(x, m),
{
    lemma_mod_bound(x, m as int);
    lemma_mod_add_multiples_vanish(x, m as int);
    lemma_mod_sub_multiples_vanish(x, m as int);
    lemma_mod_twice(x, m as int);
    if 0 <= x < m {
        lemma_small_mod(x as nat, m);
    }
}

/// The neighbours of a coordinate in range, written without `%`.
pub proof fn lemma_wrap_neighbors(x: int, m: nat)
    requires
        0 <= x < m,
    ensures
        wrap(x, m) == x,
        wrap(x - 1, m) == ring_prev(x, m),
        wrap(x + 1, m) == ring_next(x, m),
        0 <= ring_prev(x, m) < m,
        0 <= ring_next(x, m) < m,
{
    lemma_wrap_basics(x, m);
    lemma_wrap_basics(x - 1, m);
    lemma_wrap_basics(x + 1, m);
    lemma_wrap_basics(x - 1 + m, m);
    lemma_wrap_basics(x + 1 - m, m);
}

/// A coordinate and the two next to it, wrapped, are the wrapped coordinate
/// and its two neighbours on the ring.
pub proof fn lemma_wrap_around(x: int, m: nat)
    requires
        m > 0,
    ensures
        0 <= wrap(x, m) < m,
        wrap(x - 1, m) == ring_prev(wrap(x, m), m),
        wrap(x + 1, m) == ring_next(wrap(x, m), m),
        0 <= ring_prev(wrap(x, m), m) < m,
        0 <= ring_next(wrap(x, m), m) < m,
{
    lemma_wrap_basics(x, m);
    lemma_wrap_add(x, -1, m);
    lemma_wrap_add(x, 1, m);
    lemma_wrap_neighbors(wrap(x, m), m);
}

/// Wrapping a sum is the same whether or not its terms were wrapped first.
pub proof fn lemma_wrap_add(x: int, y: int, m: nat)
    requires
        m > 0,
    ensures
        wrap(wrap(x, m) + y, m) == wrap(x + y, m),
        wrap(x + wrap(y, m), m) == wrap(x + y, m),
        wrap(wrap(x, m) + wrap(y, m), m) == wrap(x + y, m),
        wrap(wrap(x, m) - wrap(y, m), m) == wrap(x - y, m),
{
    lemma_add_mod_noop(x, y, m as int);
    lemma_sub_mod_noop(x, y, m as int);
    lemma_mod_twice(x, m as int);
    lemma_mod_twice(y, m as int);
    lemma_add_mod_noop(x % (m as int), y, m as int);
    lemma_add_mod_noop(x, y % (m as int), m as int);
}

/// One more position of a span: it is the position that the wrapped end of
/// the span names, or one that the shorter span held.
pub proof fn lemma_in_span_step(start: int, len: int, m: nat, x: int)
    requires
        0 <= len,
    ensures
        in_span(start, len + 1, m, x) <==> in_span(start, len, m, x) || wrap(start + len, m) == x,
        !in_span(start, 0, m, x),
{
    if in_span(start, len + 1, m, x) {
        let d = choose|d: int| 0 <= d < len + 1 && #[trigger] wrap(start + d, m) == x;
        if d < len {
            assert(in_span(start, len, m, x));
        }
    }
    if in_span(start, len, m, x) {
        let d = choose|d: int| 0 <= d < len && #[trigger] wrap(start + d, m) == x;
        assert(0 <= d < len + 1 && wrap(start + d, m) == x);
    }
    if wrap(start + len, m) == x {
        assert(0 <= len < len + 1 && wrap(start + len, m) == x);
    }
}

/// A span is the same wherever on the ring its start is named.
pub proof fn lemma_in_span_wraps(start: int, len: int, m: nat, x: int)
    requires
        m > 0,
    ensures
        in_span(wrap(start, m), len, m, x) <==> in_span(start, len, m, x),
{
    if in_span(start, len, m, x) {
        let d = choose|d: int| 0 <= d < len && #[trigger] wrap(start + d, m) == x;
        lemma_wrap_add(start, d, m);
        assert(wrap(wrap(start, m) + d, m) == x);
    }
    if in_span(wrap(start, m), len, m, x) {
        let d = choose|d: int| 0 <= d < len && #[trigger] wrap(wrap(start, m) + d, m) == x;
        lemma_wrap_add(start, d, m);
        assert(wrap(start + d, m) == x);
    }
}

/// A span as long as the ring holds every position of it.
pub proof fn lemma_in_span_full(start: int, len: int, m: nat, x: int)
    requires
        m > 0,
        len >= m,
        0 <= x < m,
    ensures
        in_span(start, len, m, x),
{
    let d = wrap(x - start, m);
    lemma_wrap_basics(x - start, m);
    lemma_wrap_basics(x, m);
    lemma_wrap_add(start, x - start, m);
    assert(wrap(start + d, m) == x);
}

/// Two positions less than one turn of the ring apart are different
/// positions.
pub proof fn lemma_wrap_injective(start: int, a: int, b: int, m: nat)
    requires
        0 <= a < m,
        0 <= b < m,
        wrap(start + a, m) == wrap(start + b, m),
    ensures
        a == b,
{
    lemma_sub_mod_noop(start + a, start + b, m as int);
    lemma_small_mod(0, m);
    if a > b {
        lemma_small_mod((a - b) as nat, m);
    } else if b > a {
        lemma_sub_mod_noop(start + b, start + a, m as int);
        lemma_small_mod((b - a) as nat, m);
    }
}

/// The position `steps` after `start` on a ring of `m` positions.
pub fn wrapping_sum(start: u32, steps: u32, m: u32) -> (position: u32)
    requires
        m > 0,
    ensures
        position == wrap(start + steps, m as nat),
        position < m,
{
    proof {
        lemma_wrap_basics(start + steps, m as nat);
    }
    ((start as u64 + steps as u64) % (m as u64)) as u32
}

/// The position `steps` before `start` on a ring of `m` positions.
pub fn wrapping_difference(start: u32, steps: u32, m: u32) -> (position: u32)
    requires
        m > 0,
    ensures
        position == wrap(start - steps, m as nat),
        position < m,
{
    let from = start % m;
    let back = steps % m;
    proof {
        lemma_wrap_basics(start - steps, m as nat);
        lemma_wrap_basics(from - back, m as nat);
        lemma_wrap_add(start as int, steps as int, m as nat);
    }
    ((from as u64 + m as u64 - back as u64) % (m as u64)) as u32
}

} // verus!
