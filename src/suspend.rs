use vstd::prelude::*;
use crate::cache::Cache;
use crate::recurrence::recurrence;

verus! {

/// What one resumable step of the suspending engine does on entry.
pub enum Entry {
    /// The value is known: the base case, or a cached result.
    Known(u32),
    /// The three sub-computations must run first.
    Descend,
}

/// The decision a resumable step takes on entry at `(x, y)`: the base case
/// gives 1, a cached result is returned as it is, and otherwise the step
/// must descend.
pub fn suspend_enter(x: u32, y: u32, cache: &Cache) -> (r: Entry)
    requires
        cache.wf(),
    ensures
        x == 0 || y == 0 ==> r == Entry::Known(1),
        x > 0 && y > 0 && cache@.contains_key((x, y)) ==> r == Entry::Known(cache@[(x, y)]),
        x > 0 && y > 0 && !cache@.contains_key((x, y)) ==> r == Entry::Descend,
        r matches Entry::Known(v) ==> v == recurrence(x as nat, y as nat) && v < 1000,
{
    if x == 0 || y == 0 {
        Entry::Known(1)
    } else {
        match cache.get(x, y) {
            Some(res) => Entry::Known(res),
            None => Entry::Descend,
        }
    }
}

/// The three sub-computations a descent at `(x, y)` runs, in the order it
/// runs them: `(x-1, y-1)`, then `(x, y-1)`, then `(x-1, y)`.
pub fn suspend_children(x: u32, y: u32) -> (r: ((u32, u32), (u32, u32), (u32, u32)))
    requires
        x > 0,
        y > 0,
    ensures
        r.0 == ((x - 1) as u32, (y - 1) as u32),
        r.1 == (x, (y - 1) as u32),
        r.2 == ((x - 1) as u32, y),
{
    ((x - 1, y - 1), (x, y - 1), (x - 1, y))
}

/// The step that ends a descent at `(x, y)`, once the sub-results for
/// `(x-1, y-1)`, `(x, y-1)` and `(x-1, y)` are in: combines them, caches
/// the result and returns it.
pub fn suspend_finish(x: u32, y: u32, first: u32, second: u32, third: u32, cache: &mut Cache) -> (r: u32)
    requires
        old(cache).wf(),
        x > 0,
        y > 0,
        first == recurrence((x - 1) as nat, (y - 1) as nat),
        second == recurrence(x as nat, (y - 1) as nat),
        third == recurrence((x - 1) as nat, y as nat),
    ensures
        r == recurrence(x as nat, y as nat),
        r < 1000,
        final(cache)@ == old(cache)@.insert((x, y), r),
        final(cache).wf(),
{
    let tr = (first + second + third) % 1000;
    cache.put(x, y, tr);
    tr
}

} // verus!
