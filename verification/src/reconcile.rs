//! The Reconciliation Loop's per-tick decision: given the id set of the
//! currently active Monitor Tasks and the outcome of this tick's directory
//! resolution, which tasks to cancel, which to start, and what the active set
//! becomes. The planner is level-triggered and keyed by container id alone:
//! after a successful tick the active set equals exactly the resolved ids,
//! and a failed resolution leaves the active set completely unchanged.
use vstd::prelude::*;
use crate::bytes::clone_bytes;
use crate::bytes::eq_bytes;

verus! {

/// Seconds the loop waits between ticks, and after a failed resolution.
pub const RECONCILE_DELAY_SECS: u64 = 10;

/// Some element of `v` views as `x`.
pub open spec fn has_id(v: Seq<Vec<u8>>, x: Seq<u8>) -> bool {
    exists|i: int| 0 <= i < v.len() && v[i]@ == x
}

/// No id occurs twice.
pub open spec fn distinct_ids(v: Seq<Vec<u8>>) -> bool {
    forall|i: int, j: int| 0 <= i < j < v.len() ==> v[i]@ != v[j]@
}

/// Whether `x` occurs in `v`.
pub fn vec_has_id(v: &Vec<Vec<u8>>, x: &[u8]) -> (r: bool)
    ensures
        r == has_id(v@, x@),
{
    let mut i: usize = 0;
    while i < v.len()
        invariant
            i <= v@.len(),
            forall|k: int| 0 <= k < i ==> v@[k]@ != x@,
        decreases v@.len() - i,
    {
        if eq_bytes(v[i].as_slice(), x) {
            return true;
        }
        i += 1;
    }
    false
}

proof fn lemma_has_id_push(v: Seq<Vec<u8>>, e: Vec<u8>, x: Seq<u8>)
    ensures
        has_id(v.push(e), x) <==> (has_id(v, x) || e@ == x),
{
    if has_id(v.push(e), x) {
        let i = choose|i: int| 0 <= i < v.push(e).len() && v.push(e)[i]@ == x;
        if i < v.len() {
            assert(v[i]@ == x);
        } else {
            assert(e@ == x);
        }
    }
    if has_id(v, x) {
        let i = choose|i: int| 0 <= i < v.len() && v[i]@ == x;
        assert(v.push(e)[i]@ == x);
    }
    if e@ == x {
        assert(v.push(e)[v.len() as int]@ == x);
    }
}

proof fn lemma_has_id_push_all(v: Seq<Vec<u8>>, e: Vec<u8>)
    ensures
        forall|x: Seq<u8>| #[trigger] has_id(v.push(e), x) <==> (has_id(v, x) || e@ == x),
{
    assert forall|x: Seq<u8>| #[trigger] has_id(v.push(e), x) <==> (has_id(v, x) || e@ == x) by {
        lemma_has_id_push(v, e, x);
    }
}

proof fn lemma_distinct_push(v: Seq<Vec<u8>>, e: Vec<u8>)
    requires
        distinct_ids(v),
        !has_id(v, e@),
    ensures
        distinct_ids(v.push(e)),
{
    assert forall|i: int, j: int| 0 <= i < j < v.push(e).len() implies v.push(e)[i]@ != v.push(
        e,
    )[j]@ by {
        if j < v.len() {
            assert(v[i]@ != v[j]@);
        } else {
            if v.push(e)[i]@ == e@ {
                assert(v[i]@ == e@);
                assert(has_id(v, e@));
            }
        }
    }
}

/// The outcome of one directory resolution, as the loop receives it: the ids
/// of the currently resolved watched containers, or a resolution failure.
#[derive(Clone, Debug)]
pub enum ResolutionEvent {
    Resolved { ids: Vec<Vec<u8>> },
    Failed,
}

/// One tick's plan: the ids whose tasks must be cancelled, the ids that need
/// a fresh task, the active id set after the tick, and how long to wait (at
/// most) before the next tick.
#[derive(Clone, Debug)]
pub struct TickPlan {
    pub to_cancel: Vec<Vec<u8>>,
    pub to_start: Vec<Vec<u8>>,
    pub new_active: Vec<Vec<u8>>,
    pub delay_secs: u64,
}

/// Plans one reconciliation tick. On a successful resolution the new active
/// set holds exactly the resolved ids, without duplicates; cancelled are
/// exactly the active ids no longer resolved, started exactly the resolved
/// ids not yet active. On a failed resolution nothing is cancelled, nothing
/// is started, and the active set is kept unchanged; the wait before the
/// retry is the same full interval.
pub fn plan_tick(active: &Vec<Vec<u8>>, event: &ResolutionEvent) -> (plan: TickPlan)
    ensures
        plan.delay_secs == RECONCILE_DELAY_SECS,
        (*event) matches ResolutionEvent::Resolved { ids } ==> {
            &&& distinct_ids(plan.new_active@)
            &&& forall|x: Seq<u8>| #[trigger] has_id(plan.new_active@, x) <==> has_id(ids@, x)
            &&& distinct_ids(plan.to_start@)
            &&& forall|x: Seq<u8>| #[trigger] has_id(plan.to_start@, x) <==> (has_id(ids@, x)
                && !has_id(active@, x))
            &&& distinct_ids(plan.to_cancel@)
            &&& forall|x: Seq<u8>| #[trigger] has_id(plan.to_cancel@, x) <==> (has_id(active@, x)
                && !has_id(ids@, x))
        },
        (*event) is Failed ==> {
            &&& plan.to_cancel@.len() == 0
            &&& plan.to_start@.len() == 0
            &&& plan.new_active@.len() == active@.len()
            &&& forall|i: int| 0 <= i < active@.len() ==> #[trigger] plan.new_active@[i]@ == active@[i]@
        },
{
    match event {
        ResolutionEvent::Failed => {
            let mut kept: Vec<Vec<u8>> = Vec::new();
            let mut i: usize = 0;
            while i < active.len()
                invariant
                    i <= active@.len(),
                    kept@.len() == i,
                    forall|k: int| 0 <= k < i ==> #[trigger] kept@[k]@ == active@[k]@,
                decreases active@.len() - i,
            {
                kept.push(clone_bytes(&active[i]));
                i += 1;
            }
            TickPlan {
                to_cancel: Vec::new(),
                to_start: Vec::new(),
                new_active: kept,
                delay_secs: RECONCILE_DELAY_SECS,
            }
        },
        ResolutionEvent::Resolved { ids } => {
            let mut to_cancel: Vec<Vec<u8>> = Vec::new();
            let mut i: usize = 0;
            while i < active.len()
                invariant
                    i <= active@.len(),
                    distinct_ids(to_cancel@),
                    forall|x: Seq<u8>| #[trigger] has_id(to_cancel@, x) <==> (has_id(
                        active@.subrange(0, i as int),
                        x,
                    ) && !has_id(ids@, x)),
                decreases active@.len() - i,
            {
                let ghost prefix = active@.subrange(0, i as int);
                let in_ids = vec_has_id(ids, active[i].as_slice());
                let dup = vec_has_id(&to_cancel, active[i].as_slice());
                if !in_ids && !dup {
                    let ghost before = to_cancel@;
                    let e = clone_bytes(&active[i]);
                    to_cancel.push(e);
                    proof {
                        lemma_distinct_push(before, e);
                        lemma_has_id_push_all(before, e);
                    }
                }
                proof {
                    assert(active@.subrange(0, i + 1) =~= prefix.push(active@[i as int]));
                    lemma_has_id_push_all(prefix, active@[i as int]);
                }
                i += 1;
            }
            proof {
                assert(active@.subrange(0, active@.len() as int) =~= active@);
            }
            let mut new_active: Vec<Vec<u8>> = Vec::new();
            let mut to_start: Vec<Vec<u8>> = Vec::new();
            let mut j: usize = 0;
            while j < ids.len()
                invariant
                    j <= ids@.len(),
                    distinct_ids(new_active@),
                    distinct_ids(to_start@),
                    forall|x: Seq<u8>| #[trigger] has_id(new_active@, x) <==> has_id(
                        ids@.subrange(0, j as int),
                        x,
                    ),
                    forall|x: Seq<u8>| #[trigger] has_id(to_start@, x) <==> (has_id(
                        ids@.subrange(0, j as int),
                        x,
                    ) && !has_id(active@, x)),
                decreases ids@.len() - j,
            {
                let ghost prefix = ids@.subrange(0, j as int);
                if !vec_has_id(&new_active, ids[j].as_slice()) {
                    let ghost na_before = new_active@;
                    let e = clone_bytes(&ids[j]);
                    new_active.push(e);
                    proof {
                        lemma_distinct_push(na_before, e);
                        lemma_has_id_push_all(na_before, e);
                    }
                    if !vec_has_id(active, ids[j].as_slice()) {
                        let ghost ts_before = to_start@;
                        let e2 = clone_bytes(&ids[j]);
                        to_start.push(e2);
                        proof {
                            lemma_distinct_push(ts_before, e2);
                            lemma_has_id_push_all(ts_before, e2);
                        }
                    }
                }
                proof {
                    assert(ids@.subrange(0, j + 1) =~= prefix.push(ids@[j as int]));
                    lemma_has_id_push_all(prefix, ids@[j as int]);
                }
                j += 1;
            }
            proof {
                assert(ids@.subrange(0, ids@.len() as int) =~= ids@);
            }
            TickPlan { to_cancel, to_start, new_active, delay_secs: RECONCILE_DELAY_SECS }
        },
    }
}

} // verus!
