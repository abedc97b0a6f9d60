use watchdog::config::{build_watch_specs, RestartPolicy, WatchSpec};
use watchdog::coordinator::restart_plan;
use watchdog::monitor::{initial_state, on_line, LineAction};
use watchdog::reconcile::{plan_tick, ResolutionEvent, TickPlan, RECONCILE_DELAY_SECS};
use watchdog::resolve::{resolve, resolve_watched, RuntimeContainer};

fn bv(s: &str) -> Vec<u8> {
    s.as_bytes().to_vec()
}

fn running(id: &str, name: &str) -> RuntimeContainer {
    RuntimeContainer { id: Some(bv(id)), names: Some(vec![bv(name)]) }
}

fn sorted(mut v: Vec<Vec<u8>>) -> Vec<Vec<u8>> {
    v.sort();
    v
}

#[test]
fn resolver_filters_and_normalizes() {
    let cs = vec![running("c1", "/web"), running("c2", "/db"), running("c3", "/other")];
    let r = resolve(&cs, &vec![bv("web"), bv("db")]);
    assert_eq!(r.len(), 2);
    assert_eq!(r[0].id, bv("c1"));
    assert_eq!(r[0].name, bv("web"));
    assert_eq!(r[1].id, bv("c2"));
    assert_eq!(r[1].name, bv("db"));
}

#[test]
fn resolver_skips_incomplete_entries() {
    let cs = vec![
        RuntimeContainer { id: None, names: Some(vec![bv("/web")]) },
        RuntimeContainer { id: Some(bv("c2")), names: None },
        RuntimeContainer { id: Some(bv("c3")), names: Some(vec![]) },
        running("c4", "web"),
    ];
    let r = resolve(&cs, &vec![bv("web")]);
    assert_eq!(r.len(), 1);
    assert_eq!(r[0].id, bv("c4"));
}

#[test]
fn resolver_joins_first_matching_watch_entry() {
    let specs = build_watch_specs(
        &vec![bv("web"), bv("db")],
        &vec![bv("web"), bv("db")],
        &vec![bv("OOM"), bv("panic")],
        &vec![false, true],
    )
    .unwrap();
    let cs = vec![running("c9", "/db"), running("c1", "/web")];
    let mapped = resolve_watched(&cs, &specs);
    assert_eq!(mapped.len(), 2);
    assert_eq!(mapped[0].id, bv("c9"));
    assert_eq!(mapped[0].watch_idx, 1);
    assert_eq!(mapped[1].id, bv("c1"));
    assert_eq!(mapped[1].watch_idx, 0);
}

#[test]
fn tick_converges_to_resolved_ids() {
    let active: Vec<Vec<u8>> = vec![];
    let plan = plan_tick(&active, &ResolutionEvent::Resolved { ids: vec![bv("c1"), bv("c2")] });
    assert_eq!(plan.to_cancel, Vec::<Vec<u8>>::new());
    assert_eq!(sorted(plan.to_start), vec![bv("c1"), bv("c2")]);
    assert_eq!(sorted(plan.new_active.clone()), vec![bv("c1"), bv("c2")]);
    assert_eq!(plan.delay_secs, RECONCILE_DELAY_SECS);

    let plan2 = plan_tick(
        &plan.new_active,
        &ResolutionEvent::Resolved { ids: vec![bv("c2"), bv("c3")] },
    );
    assert_eq!(plan2.to_cancel, vec![bv("c1")]);
    assert_eq!(plan2.to_start, vec![bv("c3")]);
    assert_eq!(sorted(plan2.new_active), vec![bv("c2"), bv("c3")]);
}

#[test]
fn tick_is_idempotent() {
    let ids = vec![bv("c1"), bv("c2")];
    let plan1 = plan_tick(&vec![], &ResolutionEvent::Resolved { ids: ids.clone() });
    let plan2 = plan_tick(&plan1.new_active, &ResolutionEvent::Resolved { ids });
    assert_eq!(plan2.to_cancel, Vec::<Vec<u8>>::new());
    assert_eq!(plan2.to_start, Vec::<Vec<u8>>::new());
    assert_eq!(sorted(plan2.new_active), vec![bv("c1"), bv("c2")]);
}

#[test]
fn tick_collapses_duplicate_ids() {
    let active: Vec<Vec<u8>> = vec![];
    let plan = plan_tick(&active, &ResolutionEvent::Resolved { ids: vec![bv("c1"), bv("c1")] });
    assert_eq!(plan.new_active, vec![bv("c1")]);
    assert_eq!(plan.to_start, vec![bv("c1")]);
}

#[test]
fn failed_resolution_leaves_tasks_untouched() {
    let active = vec![bv("c1"), bv("c2")];
    let plan: TickPlan = plan_tick(&active, &ResolutionEvent::Failed);
    assert_eq!(plan.to_cancel, Vec::<Vec<u8>>::new());
    assert_eq!(plan.to_start, Vec::<Vec<u8>>::new());
    assert_eq!(plan.new_active, active);
    assert_eq!(plan.delay_secs, RECONCILE_DELAY_SECS);
}

#[test]
fn restart_skips_stopped_targets() {
    let cs = vec![running("ia", "/a")];
    let ids = restart_plan(&cs, &vec![bv("a"), bv("b")]);
    assert_eq!(ids, vec![bv("ia")]);
}

#[test]
fn restart_keeps_resolution_order() {
    let cs = vec![running("ib", "/b"), running("ia", "/a")];
    let ids = restart_plan(&cs, &vec![bv("a"), bv("b")]);
    assert_eq!(ids, vec![bv("ib"), bv("ia")]);
}

fn web_watch(skip_first: bool) -> Vec<WatchSpec> {
    build_watch_specs(&vec![bv("web")], &vec![bv("web")], &vec![bv("OOM")], &vec![skip_first])
        .unwrap()
}

#[test]
fn scenario_immediate_restart_on_match() {
    let specs = web_watch(false);
    let cs = vec![running("c1", "/web")];
    let mapped = resolve_watched(&cs, &specs);
    assert_eq!(mapped.len(), 1);
    let w = &specs[mapped[0].watch_idx];
    assert_eq!(w.policy, RestartPolicy::Debounced);

    let mut st = initial_state(1000);
    let a = on_line(w, &mut st, b"OOM killed process", 1001);
    assert_eq!(a, LineAction::Restart);
    let ids = restart_plan(&cs, &w.restart_targets);
    assert_eq!(ids, vec![bv("c1")]);
}

#[test]
fn scenario_skip_first_then_restart() {
    let specs = web_watch(true);
    let cs = vec![running("c1", "/web")];
    let mapped = resolve_watched(&cs, &specs);
    let w = &specs[mapped[0].watch_idx];

    let mut st = initial_state(1000);
    assert_eq!(on_line(w, &mut st, b"OOM killed process", 1001), LineAction::Continue);
    assert_eq!(on_line(w, &mut st, b"OOM killed process again", 1002), LineAction::Restart);
    let ids = restart_plan(&cs, &w.restart_targets);
    assert_eq!(ids, vec![bv("c1")]);
}

#[test]
fn scenario_disappearing_container_is_cancelled() {
    let specs = build_watch_specs(&vec![bv("db")], &vec![bv("db")], &vec![bv("OOM")], &vec![false])
        .unwrap();
    let tick1 = vec![running("c7", "/db")];
    let mapped1 = resolve_watched(&tick1, &specs);
    let ids1: Vec<Vec<u8>> = mapped1.iter().map(|m| m.id.clone()).collect();
    let plan1 = plan_tick(&vec![], &ResolutionEvent::Resolved { ids: ids1 });
    assert_eq!(plan1.to_start, vec![bv("c7")]);

    let tick2: Vec<RuntimeContainer> = vec![];
    let mapped2 = resolve_watched(&tick2, &specs);
    assert_eq!(mapped2.len(), 0);
    let plan2 = plan_tick(&plan1.new_active, &ResolutionEvent::Resolved { ids: vec![] });
    assert_eq!(plan2.to_cancel, vec![bv("c7")]);
    assert_eq!(plan2.new_active, Vec::<Vec<u8>>::new());
    assert_eq!(plan2.to_start, Vec::<Vec<u8>>::new());
}
