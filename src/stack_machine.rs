use vstd::prelude::*;
use crate::cache::Cache;
use crate::recurrence::recurrence;

verus! {

/// One logical call of the recurrence, and how far it has got.
pub enum StackState {
    /// About to test the base case and the cache.
    Initial(u32, u32),
    /// The call on `(x-1, y-1)` has been made.
    FirstRec(u32, u32),
    /// The first sub-result is kept; the call on `(x, y-1)` has been made.
    SecondRec(u32, u32, u32),
    /// Two sub-results are kept; the call on `(x-1, y)` has been made.
    ThirdRec(u32, u32, u32, u32),
}

/// The coordinates a frame evaluates.
pub open spec fn frame_at(f: StackState) -> (nat, nat) {
    match f {
        StackState::Initial(x, y) => (x as nat, y as nat),
        StackState::FirstRec(x, y) => (x as nat, y as nat),
        StackState::SecondRec(x, y, _) => (x as nat, y as nat),
        StackState::ThirdRec(x, y, _, _) => (x as nat, y as nat),
    }
}

/// Whether a frame waits on a child call.
pub open spec fn is_resume(f: StackState) -> bool {
    !(f is Initial)
}

/// The coordinates of the child call a waiting frame has made.
pub open spec fn child_at(f: StackState) -> (nat, nat) {
    match f {
        StackState::Initial(x, y) => (x as nat, y as nat),
        StackState::FirstRec(x, y) => ((x - 1) as nat, (y - 1) as nat),
        StackState::SecondRec(x, y, _) => (x as nat, (y - 1) as nat),
        StackState::ThirdRec(x, y, _, _) => ((x - 1) as nat, y as nat),
    }
}

/// A waiting frame has non-zero coordinates and keeps the right sub-results.
pub open spec fn frame_ok(f: StackState) -> bool {
    match f {
        StackState::Initial(_, _) => true,
        StackState::FirstRec(x, y) => x >= 1 && y >= 1,
        StackState::SecondRec(x, y, a) => x >= 1 && y >= 1 && a == recurrence(
            (x - 1) as nat,
            (y - 1) as nat,
        ),
        StackState::ThirdRec(x, y, a, b) => x >= 1 && y >= 1 && a == recurrence(
            (x - 1) as nat,
            (y - 1) as nat,
        ) && b == recurrence(x as nat, (y - 1) as nat),
    }
}

/// Each frame but the top waits on the frame just above it.
pub open spec fn linked(s: Seq<StackState>) -> bool
    decreases s.len(),
{
    if s.len() <= 1 {
        true
    } else {
        &&& linked(s.drop_last())
        &&& is_resume(s[s.len() - 2])
        &&& frame_at(s.last()) == child_at(s[s.len() - 2])
    }
}

/// Loop iterations needed to evaluate `(x, y)` from an `Initial` frame
/// when the cache never answers.
pub open spec fn steps(x: nat, y: nat) -> nat
    decreases x + y,
{
    if x == 0 || y == 0 {
        1
    } else {
        4 + steps((x - 1) as nat, (y - 1) as nat) + steps(x, (y - 1) as nat) + steps(
            (x - 1) as nat,
            y,
        )
    }
}

/// Loop iterations a frame still needs, at most.
pub open spec fn frame_steps(f: StackState) -> nat {
    match f {
        StackState::Initial(x, y) => steps(x as nat, y as nat),
        StackState::FirstRec(x, y) => 3 + steps(x as nat, (y - 1) as nat) + steps(
            (x - 1) as nat,
            y as nat,
        ),
        StackState::SecondRec(x, y, _) => 2 + steps((x - 1) as nat, y as nat),
        StackState::ThirdRec(_, _, _, _) => 1,
    }
}

/// Loop iterations the whole stack still needs, at most.
pub open spec fn stack_steps(s: Seq<StackState>) -> nat
    decreases s.len(),
{
    if s.len() == 0 {
        0
    } else {
        stack_steps(s.drop_last()) + frame_steps(s.last())
    }
}

/// The frame at height `k` evaluates coordinates that sum to at most
/// `n - k`: each frame's child lies at least one step closer to the origin.
#[verifier::opaque]
pub open spec fn within_depth(s: Seq<StackState>, n: nat) -> bool {
    forall|k: int|
        0 <= k < s.len() ==> #[trigger] frame_at(s[k]).0 + frame_at(s[k]).1 + k <= n
}

proof fn lemma_depth_push(s: Seq<StackState>, f: StackState, n: nat)
    requires
        within_depth(s, n),
        s.len() == 0 ==> frame_at(f).0 + frame_at(f).1 <= n,
        s.len() > 0 ==> frame_at(f).0 + frame_at(f).1 < frame_at(s.last()).0 + frame_at(
            s.last(),
        ).1,
    ensures
        within_depth(s.push(f), n),
        s.push(f).len() <= n + 1,
{
    reveal(within_depth);
    assert(forall|k: int| 0 <= k < s.len() ==> s.push(f)[k] == s[k]);
    if s.len() > 0 {
        assert(frame_at(s[s.len() - 1]).0 + frame_at(s[s.len() - 1]).1 + s.len() - 1 <= n);
    }
    assert(frame_at(s.push(f)[s.len() as int]).0 + frame_at(s.push(f)[s.len() as int]).1
        + s.len() <= n);
}

proof fn lemma_depth_pop(s: Seq<StackState>, n: nat)
    requires
        within_depth(s, n),
        s.len() > 0,
    ensures
        within_depth(s.drop_last(), n),
{
    reveal(within_depth);
    assert(forall|k: int| 0 <= k < s.len() - 1 ==> s.drop_last()[k] == s[k]);
}

proof fn lemma_push(s: Seq<StackState>, f: StackState)
    ensures
        s.push(f).drop_last() == s,
        s.push(f).last() == f,
        stack_steps(s.push(f)) == stack_steps(s) + frame_steps(f),
{
    assert(s.push(f).drop_last() =~= s);
}

proof fn lemma_linked_push(s: Seq<StackState>, f: StackState)
    requires
        linked(s),
        s.len() > 0 ==> is_resume(s.last()) && frame_at(f) == child_at(s.last()),
    ensures
        linked(s.push(f)),
{
    assert(s.push(f).drop_last() =~= s);
}

proof fn lemma_linked_pop(s: Seq<StackState>)
    requires
        linked(s),
        s.len() > 0,
    ensures
        linked(s.drop_last()),
{
}

/// Evaluates the recurrence at `(x, y)` with an explicit stack of frames
/// in place of recursive calls.
pub fn foo2(x: u32, y: u32) -> (r: u32)
    ensures
        r == recurrence(x as nat, y as nat),
        r < 1000,
{
    let mut stack: Vec<StackState> = Vec::new();
    stack.push(StackState::Initial(x, y));
    // the value a finished frame hands to the frame below it
    let mut rv: u32 = 0;
    let mut cache = Cache::new();
    let ghost depth = (x + y) as nat;
    proof {
        lemma_push(Seq::empty(), StackState::Initial(x, y));
        reveal(within_depth);
        lemma_depth_push(Seq::empty(), StackState::Initial(x, y), depth);
        assert(stack@ =~= Seq::empty().push(StackState::Initial(x, y)));
    }
    while stack.len() > 0
        invariant
            cache.wf(),
            rv < 1000,
            linked(stack@),
            forall|k: int| 0 <= k < stack@.len() ==> frame_ok(#[trigger] stack@[k]),
            stack@.len() > 0 ==> frame_at(stack@[0]) == (x as nat, y as nat),
            stack@.len() > 0 && is_resume(stack@.last()) ==> rv == recurrence(
                child_at(stack@.last()).0,
                child_at(stack@.last()).1,
            ),
            stack@.len() == 0 ==> rv == recurrence(x as nat, y as nat),
            depth == x + y,
            within_depth(stack@, depth),
            stack@.len() <= x + y + 1,
        decreases stack_steps(stack@),
    {
        let ghost before = stack@;
        let state = stack.pop().unwrap();
        proof {
            assert(stack@ =~= before.drop_last());
            lemma_linked_pop(before);
            lemma_depth_pop(before, depth);
            assert(frame_ok(before[before.len() - 1]));
            if before.len() >= 2 {
                assert(stack@.last() == before[before.len() - 2]);
            }
        }
        match state {
            StackState::Initial(x, y) => {
                if x == 0 || y == 0 {
                    rv = 1;
                } else {
                    match cache.get(x, y) {
                        Some(res) => {
                            rv = res;
                        },
                        None => {
                            let ghost mid = stack@;
                            stack.push(StackState::FirstRec(x, y));
                            stack.push(StackState::Initial(x - 1, y - 1));
                            proof {
                                lemma_push(mid, StackState::FirstRec(x, y));
                                lemma_linked_push(mid, StackState::FirstRec(x, y));
                                lemma_depth_push(mid, StackState::FirstRec(x, y), depth);
                                lemma_depth_push(
                                    mid.push(StackState::FirstRec(x, y)),
                                    StackState::Initial((x - 1) as u32, (y - 1) as u32),
                                    depth,
                                );
                                lemma_linked_push(
                                    mid.push(StackState::FirstRec(x, y)),
                                    StackState::Initial((x - 1) as u32, (y - 1) as u32),
                                );
                                lemma_push(
                                    mid.push(StackState::FirstRec(x, y)),
                                    StackState::Initial((x - 1) as u32, (y - 1) as u32),
                                );
                            }
                        },
                    }
                }
            },
            StackState::FirstRec(x, y) => {
                let ghost mid = stack@;
                stack.push(StackState::SecondRec(x, y, rv));
                stack.push(StackState::Initial(x, y - 1));
                proof {
                    lemma_push(mid, StackState::SecondRec(x, y, rv));
                    lemma_linked_push(mid, StackState::SecondRec(x, y, rv));
                    lemma_depth_push(mid, StackState::SecondRec(x, y, rv), depth);
                    lemma_depth_push(
                        mid.push(StackState::SecondRec(x, y, rv)),
                        StackState::Initial(x, (y - 1) as u32),
                        depth,
                    );
                    lemma_linked_push(
                        mid.push(StackState::SecondRec(x, y, rv)),
                        StackState::Initial(x, (y - 1) as u32),
                    );
                    lemma_push(
                        mid.push(StackState::SecondRec(x, y, rv)),
                        StackState::Initial(x, (y - 1) as u32),
                    );
                }
            },
            StackState::SecondRec(x, y, res1) => {
                let ghost mid = stack@;
                stack.push(StackState::ThirdRec(x, y, res1, rv));
                stack.push(StackState::Initial(x - 1, y));
                proof {
                    lemma_push(mid, StackState::ThirdRec(x, y, res1, rv));
                    lemma_linked_push(mid, StackState::ThirdRec(x, y, res1, rv));
                    lemma_depth_push(mid, StackState::ThirdRec(x, y, res1, rv), depth);
                    lemma_depth_push(
                        mid.push(StackState::ThirdRec(x, y, res1, rv)),
                        StackState::Initial((x - 1) as u32, y),
                        depth,
                    );
                    lemma_linked_push(
                        mid.push(StackState::ThirdRec(x, y, res1, rv)),
                        StackState::Initial((x - 1) as u32, y),
                    );
                    lemma_push(
                        mid.push(StackState::ThirdRec(x, y, res1, rv)),
                        StackState::Initial((x - 1) as u32, y),
                    );
                }
            },
            StackState::ThirdRec(x, y, res1, res2) => {
                let tr = (res1 + res2 + rv) % 1000;
                cache.put(x, y, tr);
                rv = tr;
            },
        }
    }
    rv
}

} // verus!
