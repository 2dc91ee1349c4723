use vstd::prelude::*;

verus! {

/// The recurrence every engine evaluates:
/// `R(x, y) = 1` when `x` or `y` is zero, and otherwise
/// `R(x, y) = (R(x-1, y-1) + R(x, y-1) + R(x-1, y)) mod 1000`.
pub open spec fn recurrence(x: nat, y: nat) -> nat
    decreases x + y,
{
    if x == 0 || y == 0 {
        1
    } else {
        (recurrence((x - 1) as nat, (y - 1) as nat) + recurrence(x, (y - 1) as nat)
            + recurrence((x - 1) as nat, y)) % 1000
    }
}

/// Every value of the recurrence lies in `[0, 1000)`.
pub proof fn lemma_recurrence_below_1000(x: nat, y: nat)
    ensures
        recurrence(x, y) < 1000,
{
}

/// The recurrence is 1 whenever either argument is zero.
pub proof fn lemma_base_case(x: nat, y: nat)
    ensures
        recurrence(x, 0) == 1,
        recurrence(0, y) == 1,
{
}

/// The recurrence is symmetric: swapping its arguments keeps its value.
pub proof fn lemma_symmetric(x: nat, y: nat)
    ensures
        recurrence(x, y) == recurrence(y, x),
    decreases x + y,
{
    if x > 0 && y > 0 {
        lemma_symmetric((x - 1) as nat, (y - 1) as nat);
        lemma_symmetric(x, (y - 1) as nat);
        lemma_symmetric((x - 1) as nat, y);
    }
}

} // verus!
