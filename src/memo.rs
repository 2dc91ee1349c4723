use vstd::prelude::*;
use crate::cache::Cache;
use crate::recurrence::recurrence;

verus! {

/// Whether `k` lies in the rectangle `1..=x` by `1..=y`: the coordinates
/// that an evaluation at `(x, y)` computes and caches.
pub open spec fn in_rect(k: (u32, u32), x: u32, y: u32) -> bool {
    1 <= k.0 <= x && 1 <= k.1 <= y
}

/// Whether a cache holds only non-base coordinates, and with each one every
/// non-base coordinate below it.
pub open spec fn closed_below(m: Map<(u32, u32), u32>) -> bool {
    &&& forall|k: (u32, u32)| #[trigger] m.contains_key(k) ==> k.0 >= 1 && k.1 >= 1
    &&& forall|k: (u32, u32), i: u32, j: u32|
        #![trigger m.contains_key(k), m.contains_key((i, j))]
        m.contains_key(k) && 1 <= i <= k.0 && 1 <= j <= k.1 ==> m.contains_key((i, j))
}

/// On an empty cache, or where `(x, y)` is a base case or already cached
/// in a cache closed below, the rectangle at `(x, y)` is what the cache
/// already holds.
proof fn lemma_fresh_cache(x: u32, y: u32, m: Map<(u32, u32), u32>)
    requires
        x == 0 || y == 0 || m.contains_key((x, y)),
    ensures
        closed_below(m) ==> forall|k: (u32, u32)| #[trigger] in_rect(k, x, y) ==> m.contains_key(k),
        m.dom().is_empty() ==> m.dom() == Set::new(|k: (u32, u32)| in_rect(k, x, y)),
{
    if m.dom().is_empty() {
        assert(!m.contains_key((x, y)));
        assert(m.dom() =~= Set::new(|k: (u32, u32)| in_rect(k, x, y)));
    }
}

/// The cache after the three sub-calls at `(x, y)` and the store of the
/// result holds the rectangle at `(x, y)` and nothing else new.
proof fn lemma_descent_cache(
    x: u32,
    y: u32,
    tr: u32,
    m0: Map<(u32, u32), u32>,
    m1: Map<(u32, u32), u32>,
    m2: Map<(u32, u32), u32>,
    m3: Map<(u32, u32), u32>,
    m4: Map<(u32, u32), u32>,
)
    requires
        x > 0,
        y > 0,
        !m0.contains_key((x, y)),
        m0.submap_of(m1),
        m1.submap_of(m2),
        m2.submap_of(m3),
        m4 == m3.insert((x, y), tr),
        forall|k: (u32, u32)| #[trigger]
            m1.contains_key(k) ==> m0.contains_key(k) || in_rect(k, (x - 1) as u32, (y - 1) as u32),
        forall|k: (u32, u32)| #[trigger]
            m2.contains_key(k) ==> m1.contains_key(k) || in_rect(k, x, (y - 1) as u32),
        forall|k: (u32, u32)| #[trigger]
            m3.contains_key(k) ==> m2.contains_key(k) || in_rect(k, (x - 1) as u32, y),
        closed_below(m0) ==> closed_below(m1) && forall|k: (u32, u32)| #[trigger]
            in_rect(k, (x - 1) as u32, (y - 1) as u32) ==> m1.contains_key(k),
        closed_below(m1) ==> closed_below(m2) && forall|k: (u32, u32)| #[trigger]
            in_rect(k, x, (y - 1) as u32) ==> m2.contains_key(k),
        closed_below(m2) ==> closed_below(m3) && forall|k: (u32, u32)| #[trigger]
            in_rect(k, (x - 1) as u32, y) ==> m3.contains_key(k),
        m0.dom().is_empty() ==> m1.dom() == Set::new(
            |k: (u32, u32)| in_rect(k, (x - 1) as u32, (y - 1) as u32),
        ),
    ensures
        m0.submap_of(m4),
        forall|k: (u32, u32)| #[trigger] m4.contains_key(k) ==> m0.contains_key(k) || in_rect(k, x, y),
        closed_below(m0) ==> closed_below(m4) && forall|k: (u32, u32)| #[trigger]
            in_rect(k, x, y) ==> m4.contains_key(k),
        m0.dom().is_empty() ==> m4.dom() == Set::new(|k: (u32, u32)| in_rect(k, x, y)),
{
    assert forall|k: (u32, u32)| #[trigger] m0.contains_key(k) implies m4.contains_key(k)
        && m4[k] == m0[k] by {
        assert(m1.contains_key(k));
        assert(m2.contains_key(k));
        assert(m3.contains_key(k));
    }
    assert forall|k: (u32, u32)| #[trigger] m4.contains_key(k) implies m0.contains_key(k)
        || in_rect(k, x, y) by {
        if k != (x, y) {
            assert(m3.contains_key(k));
            if !m2.contains_key(k) {
            } else if !m1.contains_key(k) {
            }
        }
    }
    if closed_below(m0) {
        assert forall|k: (u32, u32)| #[trigger] in_rect(k, x, y) implies m4.contains_key(k) by {
            if k != (x, y) {
                if k.0 < x {
                    assert(in_rect(k, (x - 1) as u32, y));
                } else {
                    assert(in_rect(k, x, (y - 1) as u32));
                    assert(m2.contains_key(k));
                    assert(m3.contains_key(k));
                }
            }
        }
        assert forall|k: (u32, u32), i: u32, j: u32|
            #![trigger m4.contains_key(k), m4.contains_key((i, j))]
            m4.contains_key(k) && 1 <= i <= k.0 && 1 <= j <= k.1 implies m4.contains_key(
            (i, j),
        ) by {
            if k == (x, y) {
                assert(in_rect((i, j), x, y));
            } else {
                assert(m3.contains_key(k));
                assert(m3.contains_key((i, j)));
            }
        }
        assert(closed_below(m4));
    }
    if m0.dom().is_empty() {
        assert(closed_below(m0));
        assert(m4.dom() =~= Set::new(|k: (u32, u32)| in_rect(k, x, y))) by {
            assert forall|k: (u32, u32)| #[trigger] m4.contains_key(k) implies in_rect(k, x, y) by {
                assert(!m0.contains_key(k));
            }
        }
    }
}

/// Evaluates the recurrence at `(x, y)` by recursion, remembering each
/// result in a cache that lives for this call only. The recursion goes
/// `x + y` calls deep.
pub fn foo1(x: u32, y: u32) -> (r: u32)
    ensures
        r == recurrence(x as nat, y as nat),
        r < 1000,
{
    let mut cache = Cache::new();
    foo1_helper(x, y, &mut cache)
}

/// Recursive step of `foo1`: the sub-calls on `(x-1, y-1)`, `(x, y-1)` and
/// `(x-1, y)` are made in that order, and each new result is cached.
fn foo1_helper(x: u32, y: u32, cache: &mut Cache) -> (r: u32)
    requires
        old(cache).wf(),
    ensures
        r == recurrence(x as nat, y as nat),
        r < 1000,
        final(cache).wf(),
        old(cache)@.submap_of(final(cache)@),
        x > 0 && y > 0 ==> final(cache)@.contains_key((x, y)) && final(cache)@[(x, y)] == r,
        (x == 0 || y == 0 || old(cache)@.contains_key((x, y))) ==> final(cache)@ == old(
            cache,
        )@,
        forall|k: (u32, u32)| #[trigger]
            final(cache)@.contains_key(k) ==> old(cache)@.contains_key(k) || in_rect(k, x, y),
        closed_below(old(cache)@) ==> closed_below(final(cache)@) && forall|k: (u32, u32)|
            #[trigger] in_rect(k, x, y) ==> final(cache)@.contains_key(k),
        old(cache)@.dom().is_empty() ==> final(cache)@.dom() == Set::new(
            |k: (u32, u32)| in_rect(k, x, y),
        ),
    decreases x + y,
{
    if x == 0 || y == 0 {
        proof {
            lemma_fresh_cache(x, y, cache@);
        }
        1
    } else {
        match cache.get(x, y) {
            Some(res) => {
                proof {
                    lemma_fresh_cache(x, y, cache@);
                }
                res
            },
            None => {
                let ghost m0 = cache@;
                let a = foo1_helper(x - 1, y - 1, cache);
                let ghost m1 = cache@;
                let b = foo1_helper(x, y - 1, cache);
                let ghost m2 = cache@;
                let c = foo1_helper(x - 1, y, cache);
                let ghost m3 = cache@;
                let tr = (a + b + c) % 1000;
                cache.put(x, y, tr);
                proof {
                    lemma_descent_cache(x, y, tr, m0, m1, m2, m3, cache@);
                }
                tr
            },
        }
    }
}

} // verus!
