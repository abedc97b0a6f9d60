//! The Restart Coordinator's decision: which containers to restart for a
//! match, and in what order. The target names are resolved against the
//! runtime snapshot, scoped to just those names; each resolved id is to be
//! restarted sequentially, in resolution order. A target name that resolves
//! to no running container is silently skipped — a stopped target is not an
//! error. The restart calls themselves, and the wake signal sent to the
//! Reconciliation Loop whatever their outcome, happen outside.
use vstd::prelude::*;
use crate::bytes::clone_bytes;
use crate::bytes::views_of;
use crate::resolve::resolve;
use crate::resolve::resolve_seq;
use crate::resolve::resolved_views;
use crate::resolve::RuntimeContainer;

verus! {

/// The ids to restart for `targets`: exactly the ids of the containers the
/// Directory Resolver resolves the target names to, in resolution order.
/// Total — unresolved targets contribute nothing and raise no error.
pub fn restart_plan(cs: &Vec<RuntimeContainer>, targets: &Vec<Vec<u8>>) -> (ids: Vec<Vec<u8>>)
    ensures
        ids@.len() == resolve_seq(cs@, views_of(targets@)).len(),
        forall|k: int|
            0 <= k < ids@.len() ==> #[trigger] ids@[k]@ == resolve_seq(
                cs@,
                views_of(targets@),
            )[k].0,
{
    let resolved = resolve(cs, targets);
    let mut ids: Vec<Vec<u8>> = Vec::new();
    let mut i: usize = 0;
    while i < resolved.len()
        invariant
            i <= resolved@.len(),
            resolved_views(resolved@) == resolve_seq(cs@, views_of(targets@)),
            ids@.len() == i,
            forall|k: int|
                0 <= k < i ==> #[trigger] ids@[k]@ == resolve_seq(cs@, views_of(targets@))[k].0,
        decreases resolved@.len() - i,
    {
        ids.push(clone_bytes(&resolved[i].id));
        proof {
            assert(resolved_views(resolved@)[i as int].0 == resolved@[i as int].id@);
        }
        i += 1;
    }
    ids
}

} // verus!
