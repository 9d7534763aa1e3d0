//! Bounded escape-time iteration.
//!
//! From a start state the orbit is `z0 = start`, `z(k+1) = step(zk)`.
//! Before each of at most `limit` steps the current state is tested; the
//! first index whose state has escaped is the result, and `None` means that
//! no state tested within the limit escaped. For the Mandelbrot set the
//! state is a complex number, the step is `z * z + c` and the test is
//! `|z|^2 > 4`.

use vstd::prelude::*;

verus! {

/// True when `zs` is a prefix of an orbit of `step` from `start` and `flags`
/// holds what `escaped` said of each of its states.
pub open spec fn is_run<S, Step: Fn(&S) -> S, Test: Fn(&S) -> bool>(
    step: Step,
    escaped: Test,
    start: S,
    zs: Seq<S>,
    flags: Seq<bool>,
) -> bool {
    &&& zs.len() == flags.len()
    &&& zs.len() > 0 ==> zs[0] == start
    &&& forall|k: int| 0 <= k < zs.len() - 1 ==> #[trigger] step.ensures((&zs[k],), zs[k + 1])
    &&& forall|k: int| 0 <= k < zs.len() ==> #[trigger] escaped.ensures((&zs[k],), flags[k])
}

/// True when the tests `flags`, made in order, end as `r` under `limit`:
/// `Some(i)` when test `i < limit` was the first to trip, and `None` when
/// all `limit` tests passed.
pub open spec fn settles(flags: Seq<bool>, limit: nat, r: Option<usize>) -> bool {
    match r {
        Some(i) => {
            &&& i < limit
            &&& flags.len() == i + 1
            &&& flags[i as int]
            &&& forall|k: int| 0 <= k < i ==> !#[trigger] flags[k]
        },
        None => {
            &&& flags.len() == limit
            &&& forall|k: int| 0 <= k < limit ==> !#[trigger] flags[k]
        },
    }
}

/// True when `step` gives one successor only for each state.
pub open spec fn step_deterministic<S, Step: Fn(&S) -> S>(step: Step) -> bool {
    forall|z: S, a: S, b: S|
        #[trigger] step.ensures((&z,), a) && #[trigger] step.ensures((&z,), b) ==> a == b
}

/// True when `escaped` gives one answer only for each state.
pub open spec fn test_deterministic<S, Test: Fn(&S) -> bool>(escaped: Test) -> bool {
    forall|z: S, a: bool, b: bool|
        #[trigger] escaped.ensures((&z,), a) && #[trigger] escaped.ensures((&z,), b) ==> a == b
}

proof fn lemma_runs_agree_upto<S, Step: Fn(&S) -> S, Test: Fn(&S) -> bool>(
    step: Step,
    escaped: Test,
    start: S,
    zs1: Seq<S>,
    flags1: Seq<bool>,
    zs2: Seq<S>,
    flags2: Seq<bool>,
    k: int,
)
    requires
        step_deterministic(step),
        test_deterministic(escaped),
        is_run(step, escaped, start, zs1, flags1),
        is_run(step, escaped, start, zs2, flags2),
        0 <= k < zs1.len(),
        k < zs2.len(),
    ensures
        zs1[k] == zs2[k],
        flags1[k] == flags2[k],
    decreases k,
{
    if k > 0 {
        lemma_runs_agree_upto(step, escaped, start, zs1, flags1, zs2, flags2, k - 1);
        let m = k - 1;
        assert(step.ensures((&zs1[m],), zs1[m + 1]));
        assert(step.ensures((&zs2[m],), zs2[m + 1]));
    }
    assert(escaped.ensures((&zs1[k],), flags1[k]));
    assert(escaped.ensures((&zs2[k],), flags2[k]));
}

/// With a step and a test that each give one answer per state, the escape
/// index does not depend on the limit once it is found: if a run under
/// `limit1` ends in `Some(i)`, a run from the same start under any larger
/// limit ends in `Some(i)` too, and if the larger limit gives `None`, so
/// does the smaller.
pub proof fn lemma_escape_stable<S, Step: Fn(&S) -> S, Test: Fn(&S) -> bool>(
    step: Step,
    escaped: Test,
    start: S,
    limit1: nat,
    zs1: Seq<S>,
    flags1: Seq<bool>,
    r1: Option<usize>,
    limit2: nat,
    zs2: Seq<S>,
    flags2: Seq<bool>,
    r2: Option<usize>,
)
    requires
        step_deterministic(step),
        test_deterministic(escaped),
        limit1 <= limit2,
        is_run(step, escaped, start, zs1, flags1),
        settles(flags1, limit1, r1),
        is_run(step, escaped, start, zs2, flags2),
        settles(flags2, limit2, r2),
    ensures
        r1 is Some ==> r2 == r1,
        r2 is None ==> r1 is None,
{
    if let Some(i) = r1 {
        let i = i as int;
        match r2 {
            Some(j) => {
                let j = j as int;
                if j < i {
                    lemma_runs_agree_upto(step, escaped, start, zs1, flags1, zs2, flags2, j);
                    assert(!flags1[j]);
                } else if j > i {
                    lemma_runs_agree_upto(step, escaped, start, zs1, flags1, zs2, flags2, i);
                    assert(!flags2[i]);
                }
            },
            None => {
                lemma_runs_agree_upto(step, escaped, start, zs1, flags1, zs2, flags2, i);
                assert(!flags2[i]);
            },
        }
    }
}

/// Iterates `step` from `start`, testing each state with `escaped` before
/// stepping past it, at most `limit` times. Returns the index of the first
/// state that escaped, or `None` when none of the `limit` states tested did.
pub fn escape_time_by<S, Step: Fn(&S) -> S, Test: Fn(&S) -> bool>(
    start: S,
    limit: usize,
    step: &Step,
    escaped: &Test,
) -> (r: Option<usize>)
    requires
        forall|z: &S| step.requires((z,)),
        forall|z: &S| escaped.requires((z,)),
    ensures
        exists|zs: Seq<S>, flags: Seq<bool>|
            #[trigger] is_run(*step, *escaped, start, zs, flags) && settles(flags, limit as nat, r),
{
    let ghost first = start;
    let mut z = start;
    let mut i: usize = 0;
    let ghost mut zs: Seq<S> = Seq::empty();
    let ghost mut flags: Seq<bool> = Seq::empty();
    while i < limit
        invariant
            forall|z: &S| step.requires((z,)),
            forall|z: &S| escaped.requires((z,)),
            first == start,
            i <= limit,
            zs.len() == i,
            is_run(*step, *escaped, first, zs, flags),
            i == 0 ==> z == first,
            i > 0 ==> step.ensures((&zs[i - 1],), z),
            forall|k: int| 0 <= k < i ==> !#[trigger] flags[k],
        decreases limit - i,
    {
        let out = escaped(&z);
        if out {
            proof {
                let zs2 = zs.push(z);
                let flags2 = flags.push(true);
                assert(is_run(*step, *escaped, first, zs2, flags2)) by {
                    assert forall|k: int| 0 <= k < zs2.len() - 1 implies #[trigger] step.ensures(
                        (&zs2[k],),
                        zs2[k + 1],
                    ) by {
                        if k < i - 1 {
                            assert(step.ensures((&zs[k],), zs[k + 1]));
                        }
                    }
                    assert forall|k: int| 0 <= k < zs2.len() implies #[trigger] escaped.ensures(
                        (&zs2[k],),
                        flags2[k],
                    ) by {
                        if k < i {
                            assert(escaped.ensures((&zs[k],), flags[k]));
                        }
                    }
                }
                assert(settles(flags2, limit as nat, Some(i)));
                zs = zs2;
                flags = flags2;
            }
            return Some(i);
        }
        let next = step(&z);
        proof {
            let zs2 = zs.push(z);
            let flags2 = flags.push(false);
            assert(is_run(*step, *escaped, first, zs2, flags2)) by {
                assert forall|k: int| 0 <= k < zs2.len() - 1 implies #[trigger] step.ensures(
                    (&zs2[k],),
                    zs2[k + 1],
                ) by {
                    if k < i - 1 {
                        assert(step.ensures((&zs[k],), zs[k + 1]));
                    }
                }
                assert forall|k: int| 0 <= k < zs2.len() implies #[trigger] escaped.ensures(
                    (&zs2[k],),
                    flags2[k],
                ) by {
                    if k < i {
                        assert(escaped.ensures((&zs[k],), flags[k]));
                    }
                }
            }
            zs = zs2;
            flags = flags2;
        }
        z = next;
        i = i + 1;
    }
    assert(settles(flags, limit as nat, None));
    None
}

} // verus!
