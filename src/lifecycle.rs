use vstd::prelude::*;

use crate::host::{HostState, Step, update_due};

verus! {

/// What a host's steps act on: whether a module is live (initialised and not
/// yet torn down), and which staged copies lie on disk.
pub struct World {
    pub live: bool,
    pub files: Set<u64>,
}

pub open spec fn staged_files(staged: Option<u64>) -> Set<u64> {
    match staged {
        Some(t) => set![t],
        None => Set::empty(),
    }
}

/// The world that a host in state `s` believes in.
pub open spec fn world_of(s: HostState) -> World {
    World { live: s.loaded, files: staged_files(s.staged) }
}

/// When a step may be taken: `init` and loading only with no live module,
/// `draw` and `deinit` only with one, and a new staged copy only when no
/// other one is left on disk.
pub open spec fn allowed(w: World, st: Step) -> bool {
    match st {
        Step::Deinit => w.live,
        Step::Init => !w.live,
        Step::Draw(_) => w.live,
        Step::Load(t) => !w.live && w.files.contains(t),
        Step::InvalidateCache(t) => w.files.contains(t),
        Step::Stage(t) => w.files.subset_of(set![t]),
        Step::RemoveStaged(t) => w.files.contains(t),
    }
}

pub open spec fn apply(w: World, st: Step) -> World {
    match st {
        Step::Deinit => World { live: false, ..w },
        Step::Init => World { live: true, ..w },
        Step::Stage(t) => World { files: w.files.insert(t), ..w },
        Step::RemoveStaged(t) => World { files: w.files.remove(t), ..w },
        _ => w,
    }
}

/// Every step of `steps`, taken in order from `w`, is allowed.
pub open spec fn safe(w: World, steps: Seq<Step>) -> bool
    decreases steps.len(),
{
    if steps.len() == 0 {
        true
    } else {
        allowed(w, steps[0]) && safe(apply(w, steps[0]), steps.drop_first())
    }
}

/// The world after taking `steps` in order from `w`.
pub open spec fn perform(w: World, steps: Seq<Step>) -> World
    decreases steps.len(),
{
    if steps.len() == 0 {
        w
    } else {
        perform(apply(w, steps[0]), steps.drop_first())
    }
}

/// How often `st` occurs in `steps`.
pub open spec fn occurrences(steps: Seq<Step>, st: Step) -> nat
    decreases steps.len(),
{
    if steps.len() == 0 {
        0
    } else {
        (if steps[0] == st { 1nat } else { 0nat }) + occurrences(steps.drop_first(), st)
    }
}

/// What the owner of a host hands it.
pub enum HostEvent {
    /// The artifact's modification time was read (or could not be).
    Poll(Option<u64>),
    /// A reload onto the staged copy with this timestamp is asked for.
    Reload(u64),
    /// The reload under way succeeded or failed.
    LoadFinished(bool),
    /// A frame with this counter is drawn.
    Frame(i32),
    Shutdown,
}

/// The host's next state and the steps it asks for, on one event.
pub open spec fn on_event(s: HostState, e: HostEvent) -> (HostState, Seq<Step>) {
    match e {
        HostEvent::Poll(o) => (s.polled(o), s.poll_steps(o)),
        HostEvent::Reload(t) => (s.reloading(t), s.reload_steps(t)),
        HostEvent::LoadFinished(ok) => (s.finished(ok), s.finish_steps(ok)),
        HostEvent::Frame(c) => (s, s.draw_steps(c)),
        HostEvent::Shutdown => (s.shut_down(), s.shutdown_steps()),
    }
}

/// The host's state after `events`, and every step it asked for on the way.
pub open spec fn run(s: HostState, events: Seq<HostEvent>) -> (HostState, Seq<Step>)
    decreases events.len(),
{
    if events.len() == 0 {
        (s, seq![])
    } else {
        let (s1, a) = on_event(s, events[0]);
        let (s2, b) = run(s1, events.drop_first());
        (s2, a + b)
    }
}

/// The modification times, in order, that call for a reload when `obs` is
/// observed after `last_seen`.
pub open spec fn triggered(last_seen: Option<u64>, obs: Seq<Option<u64>>) -> Seq<u64>
    decreases obs.len(),
{
    if obs.len() == 0 {
        seq![]
    } else if update_due(last_seen, obs[0]) {
        seq![obs[0]->0] + triggered(obs[0], obs.drop_first())
    } else {
        triggered(last_seen, obs.drop_first())
    }
}

/// `obs` holds only present timestamps, each strictly newer than the one
/// before it and than `last_seen`.
pub open spec fn strictly_newer(last_seen: Option<u64>, obs: Seq<Option<u64>>) -> bool {
    &&& forall|i: int| 0 <= i < obs.len() ==> (#[trigger] obs[i]) is Some
    &&& forall|i: int, j: int|
        0 <= i < j < obs.len() ==> (#[trigger] obs[i])->0 < (#[trigger] obs[j])->0
    &&& obs.len() > 0 && last_seen is Some ==> last_seen->0 < obs[0]->0
}

/// The timestamps of the staged copies that `steps` make, in order.
pub open spec fn stages(steps: Seq<Step>) -> Seq<u64>
    decreases steps.len(),
{
    if steps.len() == 0 {
        seq![]
    } else {
        match steps[0] {
            Step::Stage(t) => seq![t] + stages(steps.drop_first()),
            _ => stages(steps.drop_first()),
        }
    }
}

/// The events of polling the modification times `obs`, in order.
pub open spec fn polls(obs: Seq<Option<u64>>) -> Seq<HostEvent> {
    obs.map_values(|o: Option<u64>| HostEvent::Poll(o))
}

pub open spec fn increasing(ts: Seq<u64>) -> bool {
    forall|i: int, j: int| 0 <= i < j < ts.len() ==> ts[i] < ts[j]
}

proof fn lemma_single(w: World, st: Step)
    requires
        allowed(w, st),
    ensures
        safe(w, seq![st]),
        perform(w, seq![st]) == apply(w, st),
{
    reveal_with_fuel(safe, 2);
    reveal_with_fuel(perform, 2);
    assert(seq![st].drop_first() =~= Seq::<Step>::empty());
}

proof fn lemma_concat(w: World, a: Seq<Step>, b: Seq<Step>)
    ensures
        safe(w, a + b) == (safe(w, a) && safe(perform(w, a), b)),
        perform(w, a + b) == perform(perform(w, a), b),
        occurrences(a + b, Step::Deinit) == occurrences(a, Step::Deinit) + occurrences(b, Step::Deinit),
        occurrences(a + b, Step::Init) == occurrences(a, Step::Init) + occurrences(b, Step::Init),
    decreases a.len(),
{
    if a.len() == 0 {
        assert(a + b =~= b);
    } else {
        assert((a + b).drop_first() =~= a.drop_first() + b);
        lemma_concat(apply(w, a[0]), a.drop_first(), b);
    }
}

proof fn lemma_empty(w: World)
    ensures
        safe(w, seq![]),
        perform(w, seq![]) == w,
{
}

proof fn lemma_teardown(s: HostState)
    requires
        s.inv(),
    ensures
        safe(world_of(s), deinit_then_cleanup(s)),
        perform(world_of(s), deinit_then_cleanup(s)) == (World { live: false, files: Set::empty() }),
{
    let w = world_of(s);
    let w1 = World { live: false, ..w };
    if s.loaded {
        lemma_single(w, Step::Deinit);
    }
    assert(perform(w, crate::host::deinit_steps(s.loaded)) == w1);
    assert(safe(w, crate::host::deinit_steps(s.loaded)));
    match s.staged {
        Some(t) => {
            lemma_single(w1, Step::RemoveStaged(t));
            assert(w1.files.remove(t) =~= Set::empty());
        },
        None => {},
    }
    lemma_concat(w, crate::host::deinit_steps(s.loaded), crate::host::cleanup_steps(s.staged));
}

spec fn deinit_then_cleanup(s: HostState) -> Seq<Step> {
    crate::host::deinit_steps(s.loaded) + crate::host::cleanup_steps(s.staged)
}

proof fn lemma_staging(t: u64)
    ensures
        safe(World { live: false, files: Set::empty() }, seq![Step::Stage(t), Step::InvalidateCache(t), Step::Load(t)]),
        perform(World { live: false, files: Set::empty() }, seq![Step::Stage(t), Step::InvalidateCache(t), Step::Load(t)])
            == (World { live: false, files: set![t] }),
{
    reveal_with_fuel(safe, 4);
    reveal_with_fuel(perform, 4);
    let w0 = World { live: false, files: Set::<u64>::empty() };
    assert(w0.files.insert(t) =~= set![t]);
    let tail = seq![Step::Stage(t), Step::InvalidateCache(t), Step::Load(t)];
    assert(tail.drop_first() =~= seq![Step::InvalidateCache(t), Step::Load(t)]);
    assert(tail.drop_first().drop_first() =~= seq![Step::Load(t)]);
    assert(tail.drop_first().drop_first().drop_first() =~= Seq::<Step>::empty());
}

proof fn lemma_reload(s: HostState, t: u64)
    requires
        s.inv(),
    ensures
        safe(world_of(s), s.reload_steps(t)),
        perform(world_of(s), s.reload_steps(t)) == world_of(s.reloading(t)),
        occurrences(s.reload_steps(t), Step::Deinit) == (if s.loaded { 1nat } else { 0nat }),
        occurrences(s.reload_steps(t), Step::Init) == 0,
{
    let tail = seq![Step::Stage(t), Step::InvalidateCache(t), Step::Load(t)];
    lemma_teardown(s);
    lemma_staging(t);
    lemma_concat(world_of(s), deinit_then_cleanup(s), tail);
    assert(s.reload_steps(t) == deinit_then_cleanup(s) + tail);
    assert(staged_files(Some(t)) == set![t]);
    lemma_counts_reload(s, t);
}

proof fn lemma_counts_reload(s: HostState, t: u64)
    ensures
        occurrences(s.reload_steps(t), Step::Deinit) == (if s.loaded { 1nat } else { 0nat }),
        occurrences(s.reload_steps(t), Step::Init) == 0,
        occurrences(s.shutdown_steps(), Step::Deinit) == (if s.loaded { 1nat } else { 0nat }),
        occurrences(s.shutdown_steps(), Step::Init) == 0,
{
    let d = crate::host::deinit_steps(s.loaded);
    let c = crate::host::cleanup_steps(s.staged);
    let tail = seq![Step::Stage(t), Step::InvalidateCache(t), Step::Load(t)];
    let w = world_of(s);
    reveal_with_fuel(occurrences, 4);
    assert(occurrences(d, Step::Deinit) == (if s.loaded { 1nat } else { 0nat })) by {
        if s.loaded {
            assert(d.drop_first() =~= Seq::<Step>::empty());
        }
    }
    assert(occurrences(d, Step::Init) == 0) by {
        if s.loaded {
            assert(d.drop_first() =~= Seq::<Step>::empty());
        }
    }
    assert(occurrences(c, Step::Deinit) == 0 && occurrences(c, Step::Init) == 0) by {
        if s.staged is Some {
            assert(c.drop_first() =~= Seq::<Step>::empty());
        }
    }
    assert(tail.drop_first() =~= seq![Step::InvalidateCache(t), Step::Load(t)]);
    assert(tail.drop_first().drop_first() =~= seq![Step::Load(t)]);
    assert(tail.drop_first().drop_first().drop_first() =~= Seq::<Step>::empty());
    lemma_concat(w, d, c);
    lemma_concat(w, d + c, tail);
    assert(s.reload_steps(t) == d + c + tail);
}

proof fn lemma_event(s: HostState, e: HostEvent)
    requires
        s.inv(),
    ensures
        safe(world_of(s), on_event(s, e).1),
        perform(world_of(s), on_event(s, e).1) == world_of(on_event(s, e).0),
        on_event(s, e).0.inv(),
{
    match e {
        HostEvent::Poll(o) => {
            if update_due(s.last_seen, o) {
                lemma_reload(s.observe(o), o->0);
            } else {
                lemma_empty(world_of(s));
            }
        },
        HostEvent::Reload(t) => {
            lemma_reload(s, t);
        },
        HostEvent::LoadFinished(ok) => {
            if s.pending is Some && ok {
                lemma_single(world_of(s), Step::Init);
            } else {
                lemma_empty(world_of(s));
            }
        },
        HostEvent::Frame(c) => {
            if s.loaded {
                lemma_single(world_of(s), Step::Draw(c));
            } else {
                lemma_empty(world_of(s));
            }
        },
        HostEvent::Shutdown => {
            lemma_teardown(s);
            assert(staged_files(None) =~= Set::<u64>::empty());
        },
    }
}

/// Whatever a host is handed, from any state it can be in, the steps it asks
/// for are all allowed: `init` never on a live module, `draw` and `deinit`
/// only on one, and never a second staged copy beside the first. Its own
/// state keeps track of the world that those steps make.
pub proof fn law_host_steps_safe(s: HostState, events: Seq<HostEvent>)
    requires
        s.inv(),
    ensures
        safe(world_of(s), run(s, events).1),
        perform(world_of(s), run(s, events).1) == world_of(run(s, events).0),
        run(s, events).0.inv(),
    decreases events.len(),
{
    if events.len() > 0 {
        let (s1, a) = on_event(s, events[0]);
        lemma_event(s, events[0]);
        law_host_steps_safe(s1, events.drop_first());
        lemma_concat(world_of(s), a, run(s1, events.drop_first()).1);
    }
}

proof fn lemma_prefix_files(w: World, steps: Seq<Step>, i: int)
    requires
        w.files.finite(),
        w.files.len() <= 1,
        safe(w, steps),
        0 <= i <= steps.len(),
    ensures
        perform(w, steps.take(i)).files.finite(),
        perform(w, steps.take(i)).files.len() <= 1,
    decreases steps.len(),
{
    if i > 0 {
        let w1 = apply(w, steps[0]);
        match steps[0] {
            Step::Stage(t) => {
                assert(w.files.insert(t) =~= set![t]);
            },
            _ => {},
        }
        assert(steps.take(i).drop_first() =~= steps.drop_first().take(i - 1));
        lemma_prefix_files(w1, steps.drop_first(), i - 1);
    } else {
        assert(steps.take(i) =~= Seq::<Step>::empty());
    }
}

/// At every point while a host's steps are taken, at most one staged copy
/// lies on disk.
pub proof fn law_one_staged_copy(s: HostState, events: Seq<HostEvent>, i: int)
    requires
        s.inv(),
        0 <= i <= run(s, events).1.len(),
    ensures
        perform(world_of(s), run(s, events).1.take(i)).files.len() <= 1,
{
    law_host_steps_safe(s, events);
    lemma_prefix_files(world_of(s), run(s, events).1, i);
}

/// Polling never misses an update and never repeats one: when the observed
/// modification times only grow, each of them calls for exactly one reload.
pub proof fn law_each_newer_time_reloads_once(last_seen: Option<u64>, obs: Seq<Option<u64>>)
    requires
        strictly_newer(last_seen, obs),
    ensures
        triggered(last_seen, obs) == obs.map_values(|o: Option<u64>| o->0),
    decreases obs.len(),
{
    if obs.len() > 0 {
        assert(obs[0] is Some);
        assert(update_due(last_seen, obs[0]));
        let rest = obs.drop_first();
        assert forall|i: int, j: int| 0 <= i < j < rest.len() implies (#[trigger] rest[i])->0 < (#[trigger] rest[j])->0 by {
            assert(obs[i + 1]->0 < obs[j + 1]->0);
        }
        assert forall|i: int| 0 <= i < rest.len() implies (#[trigger] rest[i]) is Some by {
            assert(obs[i + 1] is Some);
        }
        if rest.len() > 0 {
            assert(obs[0]->0 < obs[1]->0);
        }
        law_each_newer_time_reloads_once(obs[0], rest);
        assert(obs.map_values(|o: Option<u64>| o->0) =~= seq![obs[0]->0] + rest.map_values(
            |o: Option<u64>| o->0,
        ));
    } else {
        assert(obs.map_values(|o: Option<u64>| o->0) =~= Seq::<u64>::empty());
    }
}

proof fn lemma_stages_concat(a: Seq<Step>, b: Seq<Step>)
    ensures
        stages(a + b) == stages(a) + stages(b),
    decreases a.len(),
{
    if a.len() == 0 {
        assert(a + b =~= b);
        assert(stages(a) + stages(b) =~= stages(b));
    } else {
        assert((a + b).drop_first() =~= a.drop_first() + b);
        lemma_stages_concat(a.drop_first(), b);
        match a[0] {
            Step::Stage(t) => {
                assert(seq![t] + (stages(a.drop_first()) + stages(b)) =~= seq![t] + stages(
                    a.drop_first(),
                ) + stages(b));
            },
            _ => {},
        }
    }
}

proof fn lemma_reload_stages(s: HostState, t: u64)
    ensures
        stages(s.reload_steps(t)) == seq![t],
{
    reveal_with_fuel(stages, 4);
    let d = crate::host::deinit_steps(s.loaded);
    let c = crate::host::cleanup_steps(s.staged);
    let tail = seq![Step::Stage(t), Step::InvalidateCache(t), Step::Load(t)];
    if s.loaded {
        assert(d.drop_first() =~= Seq::<Step>::empty());
    }
    assert(stages(d) =~= Seq::<u64>::empty());
    if s.staged is Some {
        assert(c.drop_first() =~= Seq::<Step>::empty());
    }
    assert(stages(c) =~= Seq::<u64>::empty());
    assert(tail.drop_first() =~= seq![Step::InvalidateCache(t), Step::Load(t)]);
    assert(tail.drop_first().drop_first() =~= seq![Step::Load(t)]);
    assert(tail.drop_first().drop_first().drop_first() =~= Seq::<Step>::empty());
    assert(stages(tail) =~= seq![t]);
    lemma_stages_concat(d, c);
    lemma_stages_concat(d + c, tail);
    assert(stages(d + c) =~= Seq::<u64>::empty());
    assert(Seq::<u64>::empty() + seq![t] =~= seq![t]);
}

/// A host that only polls stages exactly one new copy for each modification
/// time that calls for a reload, and none otherwise.
pub proof fn law_polling_stages_each_update(s: HostState, obs: Seq<Option<u64>>)
    ensures
        stages(run(s, polls(obs)).1) == triggered(s.last_seen, obs),
    decreases obs.len(),
{
    if obs.len() > 0 {
        let evs = polls(obs);
        assert(evs[0] == HostEvent::Poll(obs[0]));
        assert(evs.drop_first() =~= polls(obs.drop_first()));
        let s1 = s.polled(obs[0]);
        law_polling_stages_each_update(s1, obs.drop_first());
        lemma_stages_concat(s.poll_steps(obs[0]), run(s1, polls(obs.drop_first())).1);
        if update_due(s.last_seen, obs[0]) {
            lemma_reload_stages(s.observe(obs[0]), obs[0]->0);
            assert(s1.last_seen == obs[0]);
        } else {
            assert(stages(s.poll_steps(obs[0])) =~= Seq::<u64>::empty());
            assert(Seq::<u64>::empty() + triggered(s.last_seen, obs.drop_first()) =~= triggered(
                s.last_seen,
                obs.drop_first(),
            ));
        }
    } else {
        assert(polls(obs) =~= Seq::<HostEvent>::empty());
    }
}

/// Whatever is observed (times missing, repeated or going back), the times
/// that call for a reload are newer than anything seen before and strictly
/// increasing: no timestamp reloads twice.
pub proof fn law_no_time_reloads_twice(last_seen: Option<u64>, obs: Seq<Option<u64>>)
    ensures
        increasing(triggered(last_seen, obs)),
        forall|i: int|
            0 <= i < triggered(last_seen, obs).len() ==> update_due(
                last_seen,
                Some(#[trigger] triggered(last_seen, obs)[i]),
            ),
    decreases obs.len(),
{
    if obs.len() > 0 {
        let rest = obs.drop_first();
        if update_due(last_seen, obs[0]) {
            law_no_time_reloads_twice(obs[0], rest);
            let tr = triggered(obs[0], rest);
            let all = seq![obs[0]->0] + tr;
            assert(triggered(last_seen, obs) == all);
            assert forall|i: int| 0 <= i < all.len() implies update_due(last_seen, Some(#[trigger] all[i])) by {
                if i > 0 {
                    assert(all[i] == tr[i - 1]);
                    assert(update_due(obs[0], Some(tr[i - 1])));
                }
            }
            assert forall|i: int, j: int| 0 <= i < j < all.len() implies all[i] < all[j] by {
                assert(all[j] == tr[j - 1]);
                assert(update_due(obs[0], Some(tr[j - 1])));
                if i > 0 {
                    assert(all[i] == tr[i - 1]);
                }
            }
        } else {
            law_no_time_reloads_twice(last_seen, rest);
        }
    }
}

/// A successful reload asks for exactly one `deinit`, of the old module and
/// only if there was one, before exactly one `init`, of the new module.
pub proof fn law_reload_deinit_before_init(s: HostState, t: u64)
    requires
        s.inv(),
    ensures
        ({
            let steps = s.reload_steps(t) + s.reloading(t).finish_steps(true);
            &&& occurrences(steps, Step::Deinit) == (if s.loaded { 1nat } else { 0nat })
            &&& occurrences(steps, Step::Init) == 1
            &&& s.loaded ==> steps[0] == Step::Deinit
            &&& steps.last() == Step::Init
        }),
        s.reloading(t).finished(true).loaded,
        s.reloading(t).finished(true).staged == Some(t),
        s.reloading(t).finished(true).inits == s.inits + 1,
        s.reloading(t).finished(true).deinits == s.deinits + (if s.loaded { 1nat } else { 0nat }),
{
    let a = s.reload_steps(t);
    let b = seq![Step::Init];
    lemma_counts_reload(s, t);
    lemma_concat(world_of(s), a, b);
    reveal_with_fuel(occurrences, 2);
    assert(b.drop_first() =~= Seq::<Step>::empty());
    if s.loaded {
        assert(a[0] == Step::Deinit);
    }
}

/// Shutting down asks for `deinit` exactly once if a module is loaded, and
/// leaves no module live and no staged copy on disk; a second shutdown asks
/// for nothing.
pub proof fn law_shutdown_cleans_up(s: HostState)
    requires
        s.inv(),
    ensures
        occurrences(s.shutdown_steps(), Step::Deinit) == (if s.loaded { 1nat } else { 0nat }),
        occurrences(s.shutdown_steps(), Step::Init) == 0,
        safe(world_of(s), s.shutdown_steps()),
        perform(world_of(s), s.shutdown_steps()) == (World { live: false, files: Set::empty() }),
        s.shut_down().deinits == s.deinits + (if s.loaded { 1nat } else { 0nat }),
        s.shut_down().inits == s.shut_down().deinits,
        s.shut_down().shutdown_steps() == Seq::<Step>::empty(),
{
    lemma_counts_reload(s, 0);
    lemma_teardown(s);
    assert(s.shut_down().shutdown_steps() =~= Seq::<Step>::empty());
}

/// When the artifact is missing, nothing is reloaded; when a reload fails
/// (the artifact vanished before it could be copied, or would not load), the
/// host is left with no module and frames reach no module at all.
pub proof fn law_missing_artifact_leaves_host_empty(s: HostState, t: u64, counter: i32)
    requires
        s.inv(),
    ensures
        s.poll_steps(None) == Seq::<Step>::empty(),
        s.polled(None) == s,
        !s.reloading(t).finished(false).loaded,
        s.reloading(t).finished(false).draw_steps(counter) == Seq::<Step>::empty(),
        s.reloading(t).finished(false).inits == s.inits,
{
}

} // verus!
