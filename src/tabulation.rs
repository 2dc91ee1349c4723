use vstd::prelude::*;
use crate::recurrence::recurrence;

verus! {

/// The entry of a table of rows `w` wide that holds cell `(a, b)`.
pub open spec fn table_at(t: Seq<u32>, w: int, a: int, b: int) -> u32 {
    t[a + b * w]
}

/// Cells of a `w` by `h` table sit at distinct positions inside it.
proof fn lemma_cell_index(w: int, h: int, a: int, b: int, c: int, d: int)
    requires
        0 <= a < w,
        0 <= b < h,
        0 <= c < w,
        0 <= d < h,
    ensures
        0 <= a + b * w < w * h,
        (a != c || b != d) ==> a + b * w != c + d * w,
{
    assert(0 <= a + b * w < w * h) by (nonlinear_arith)
        requires
            0 <= a < w,
            0 <= b < h,
    ;
    if b < d {
        assert(a + b * w < c + d * w) by (nonlinear_arith)
            requires
                0 <= a < w,
                0 <= c,
                b < d,
        ;
    } else if d < b {
        assert(c + d * w < a + b * w) by (nonlinear_arith)
            requires
                0 <= c < w,
                0 <= a,
                d < b,
        ;
    }
}

/// Evaluates the recurrence at `(x, y)` bottom-up: a table of
/// `(x+1) * (y+1)` cells, all 1 at first, is filled by increasing `i + j`,
/// so that the three cells a cell depends on are always final before it.
pub fn foo4(x: u32, y: u32) -> (r: u32)
    requires
        (x + 1) * (y + 1) <= usize::MAX,
    ensures
        r == recurrence(x as nat, y as nat),
        r < 1000,
{
    assert(x + y + 1 <= (x + 1) * (y + 1)) by (nonlinear_arith);
    let w: usize = x as usize + 1;
    let h: usize = y as usize + 1;
    let xs: usize = x as usize;
    let ys: usize = y as usize;
    let mut results: Vec<u32> = vec![1; w * h];
    let ghost wi = w as int;
    let ghost hi = h as int;
    assert forall|a: int, b: int| 0 <= a < wi && 0 <= b < hi implies #[trigger] table_at(
        results@,
        wi,
        a,
        b,
    ) == 1 by {
        lemma_cell_index(wi, hi, a, b, a, b);
    }
    let mut sum: usize = 2;
    while sum <= xs + ys
        invariant
            w == xs + 1,
            h == ys + 1,
            xs == x,
            ys == y,
            xs + ys + 1 <= w * h <= usize::MAX,
            wi == w,
            hi == h,
            2 <= sum <= xs + ys + 2,
            results@.len() == w * h,
            forall|a: int, b: int|
                0 <= a < wi && 0 <= b < hi && (a == 0 || b == 0 || a + b < sum) ==> #[trigger] table_at(
                    results@,
                    wi,
                    a,
                    b,
                ) == recurrence(a as nat, b as nat),
        decreases xs + ys + 1 - sum,
    {
        let mut i: usize = 1;
        while i < sum && i <= xs
            invariant
                w == xs + 1,
                h == ys + 1,
                xs + ys + 1 <= w * h <= usize::MAX,
                wi == w,
                hi == h,
                2 <= sum <= xs + ys,
                1 <= i <= sum,
                results@.len() == w * h,
                forall|a: int, b: int|
                    0 <= a < wi && 0 <= b < hi && (a == 0 || b == 0 || a + b < sum || (a + b
                        == sum && a < i)) ==> #[trigger] table_at(results@, wi, a, b) == recurrence(
                        a as nat,
                        b as nat,
                    ),
            decreases sum - i,
        {
            let j: usize = sum - i;
            if j <= ys {
                proof {
                    lemma_cell_index(wi, hi, i - 1, j - 1, i - 1, j - 1);
                    lemma_cell_index(wi, hi, i as int, j - 1, i as int, j - 1);
                    lemma_cell_index(wi, hi, i - 1, j as int, i - 1, j as int);
                    lemma_cell_index(wi, hi, i as int, j as int, i as int, j as int);
                    assert(table_at(results@, wi, i - 1, j - 1) == recurrence(
                        (i - 1) as nat,
                        (j - 1) as nat,
                    ));
                    assert(table_at(results@, wi, i as int, j - 1) == recurrence(
                        i as nat,
                        (j - 1) as nat,
                    ));
                    assert(table_at(results@, wi, i - 1, j as int) == recurrence(
                        (i - 1) as nat,
                        j as nat,
                    ));
                }
                let ghost prev = results@;
                let v = (results[(i - 1) + (j - 1) * w] + results[i + (j - 1) * w] + results[(i
                    - 1) + j * w]) % 1000;
                results.set(i + j * w, v);
                proof {
                    assert forall|a: int, b: int|
                        0 <= a < wi && 0 <= b < hi && (a == 0 || b == 0 || a + b < sum || (a + b
                            == sum && a < i + 1)) implies #[trigger] table_at(
                        results@,
                        wi,
                        a,
                        b,
                    ) == recurrence(a as nat, b as nat) by {
                        lemma_cell_index(wi, hi, a, b, i as int, j as int);
                        if a != i || b != j {
                            assert(table_at(prev, wi, a, b) == recurrence(a as nat, b as nat));
                        }
                    }
                }
            }
            i = i + 1;
        }
        sum = sum + 1;
    }
    proof {
        lemma_cell_index(wi, hi, x as int, y as int, x as int, y as int);
        assert(table_at(results@, wi, x as int, y as int) == recurrence(x as nat, y as nat));
    }
    results[xs + ys * w]
}

} // verus!
