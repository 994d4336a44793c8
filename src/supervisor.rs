use vstd::prelude::*;

verus! {

/// What a change notification is about.
#[derive(Clone, Copy, Debug, PartialEq, Eq, Structural)]
pub enum Change {
    /// Something under the watched source tree changed: rebuild.
    Source,
    /// The artifact itself was written or created: check it for a reload.
    Artifact,
}

/// `path` names the file `artifact`: it is that path, or ends with `/`
/// followed by it (the watcher reports absolute paths).
pub open spec fn names_file(path: Seq<char>, artifact: Seq<char>) -> bool {
    ||| path == artifact
    ||| {
        &&& path.len() > artifact.len()
        &&& path.subrange(path.len() - artifact.len(), path.len() as int) == artifact
        &&& path[path.len() - artifact.len() - 1] == '/'
    }
}

/// Tells a change to the artifact from a change to the sources.
pub fn classify(path: &str, artifact: &str) -> (r: Change)
    ensures
        r == (if names_file(path@, artifact@) { Change::Artifact } else { Change::Source }),
{
    let n = path.unicode_len();
    let m = artifact.unicode_len();
    if n < m {
        return Change::Source;
    }
    let off = n - m;
    let mut i: usize = 0;
    while i < m
        invariant
            n == path@.len(),
            m == artifact@.len(),
            off == n - m,
            i <= m,
            forall|k: int| 0 <= k < i ==> path@[off + k] == artifact@[k],
        decreases m - i,
    {
        if path.get_char(off + i) != artifact.get_char(i) {
            proof {
                assert(path@.subrange(off as int, n as int)[i as int] != artifact@[i as int]);
            }
            return Change::Source;
        }
        i = i + 1;
    }
    proof {
        assert(path@.subrange(off as int, n as int) =~= artifact@);
    }
    if n == m {
        proof {
            assert(path@ =~= path@.subrange(0, n as int));
        }
        Change::Artifact
    } else if path.get_char(off - 1) == '/' {
        Change::Artifact
    } else {
        proof {
            if path@ == artifact@ {
                assert(path@.len() == artifact@.len());
            }
        }
        Change::Source
    }
}

/// What a [`Supervisor`] knows, as plain values.
pub struct BuildState {
    /// A rebuild process is in flight.
    pub running: bool,
    /// A source change came in while it ran, and calls for one more rebuild.
    pub queued: bool,
    /// How many rebuild processes were started.
    pub spawned: nat,
    /// How many of them ended or were stopped.
    pub ended: nat,
}

impl BuildState {
    /// At most one rebuild is ever in flight, and one is owed only while
    /// another runs.
    pub open spec fn inv(self) -> bool {
        &&& self.spawned == self.ended + (if self.running { 1nat } else { 0nat })
        &&& self.queued ==> self.running
    }

    pub open spec fn idle() -> BuildState {
        BuildState { running: false, queued: false, spawned: 0, ended: 0 }
    }

    /// On a source change: start a rebuild unless one runs, else owe one.
    pub open spec fn source_changed(self) -> (BuildState, bool) {
        if self.running {
            (BuildState { queued: true, ..self }, false)
        } else {
            (BuildState { running: true, spawned: self.spawned + 1, ..self }, true)
        }
    }

    /// On the rebuild's end, whatever its status: start the rebuild owed, if any.
    pub open spec fn rebuild_ended(self) -> (BuildState, bool) {
        if !self.running {
            (self, false)
        } else if self.queued {
            (
                BuildState { queued: false, spawned: self.spawned + 1, ended: self.ended + 1, ..self },
                true,
            )
        } else {
            (BuildState { running: false, ended: self.ended + 1, ..self }, false)
        }
    }

    /// On shutdown: stop the rebuild in flight, if any, and owe nothing.
    pub open spec fn shut_down(self) -> (BuildState, bool) {
        (
            BuildState {
                running: false,
                queued: false,
                ended: self.ended + (if self.running { 1nat } else { 0nat }),
                ..self
            },
            self.running,
        )
    }
}

/// Decides when the rebuild process is started; its owner starts, polls and
/// stops the process.
pub struct Supervisor {
    running: bool,
    queued: bool,
    spawned: Ghost<nat>,
    ended: Ghost<nat>,
}

impl View for Supervisor {
    type V = BuildState;

    closed spec fn view(&self) -> BuildState {
        BuildState {
            running: self.running,
            queued: self.queued,
            spawned: self.spawned@,
            ended: self.ended@,
        }
    }
}

impl Supervisor {
    pub fn new() -> (r: Supervisor)
        ensures
            r@ == BuildState::idle(),
            r@.inv(),
    {
        Supervisor { running: false, queued: false, spawned: Ghost(0), ended: Ghost(0) }
    }

    /// A rebuild process is in flight.
    pub fn is_running(&self) -> (r: bool)
        ensures
            r == self@.running,
    {
        self.running
    }

    /// A source file changed. Returns whether to start a rebuild now.
    pub fn source_changed(&mut self) -> (r: bool)
        requires
            old(self)@.inv(),
        ensures
            (final(self)@, r) == old(self)@.source_changed(),
            final(self)@.inv(),
    {
        if self.running {
            self.queued = true;
            false
        } else {
            self.running = true;
            self.spawned = Ghost(self.spawned@ + 1);
            true
        }
    }

    /// The rebuild in flight exited (a failure is only logged). Returns
    /// whether to start the rebuild that changes made meanwhile call for.
    pub fn rebuild_ended(&mut self) -> (r: bool)
        requires
            old(self)@.inv(),
        ensures
            (final(self)@, r) == old(self)@.rebuild_ended(),
            final(self)@.inv(),
    {
        if !self.running {
            false
        } else if self.queued {
            self.queued = false;
            self.spawned = Ghost(self.spawned@ + 1);
            self.ended = Ghost(self.ended@ + 1);
            true
        } else {
            self.running = false;
            self.ended = Ghost(self.ended@ + 1);
            false
        }
    }

    /// The host shuts down. Returns whether a rebuild in flight must be stopped.
    pub fn shutdown(&mut self) -> (r: bool)
        requires
            old(self)@.inv(),
        ensures
            (final(self)@, r) == old(self)@.shut_down(),
            final(self)@.inv(),
    {
        let was = self.running;
        self.ended = Ghost(self.ended@ + if was { 1nat } else { 0nat });
        self.running = false;
        self.queued = false;
        was
    }
}

/// What the owner of a supervisor hands it.
pub enum BuildEvent {
    SourceChanged,
    RebuildEnded,
    Shutdown,
}

/// The state after one event, and whether a rebuild was started.
pub open spec fn on_build_event(s: BuildState, e: BuildEvent) -> (BuildState, bool) {
    match e {
        BuildEvent::SourceChanged => s.source_changed(),
        BuildEvent::RebuildEnded => s.rebuild_ended(),
        BuildEvent::Shutdown => (s.shut_down().0, false),
    }
}

/// The state after `events`, and how many rebuilds were started on the way.
pub open spec fn run_builds(s: BuildState, events: Seq<BuildEvent>) -> (BuildState, nat)
    decreases events.len(),
{
    if events.len() == 0 {
        (s, 0)
    } else {
        let (s1, started) = on_build_event(s, events[0]);
        let (s2, n) = run_builds(s1, events.drop_first());
        (s2, n + (if started { 1nat } else { 0nat }))
    }
}

/// A rebuild is started only when none is in flight: whatever happens, at
/// most one rebuild process runs at a time.
pub proof fn law_one_rebuild_at_a_time(s: BuildState, events: Seq<BuildEvent>)
    requires
        s.inv(),
    ensures
        run_builds(s, events).0.inv(),
        run_builds(s, events).0.spawned == s.spawned + run_builds(s, events).1,
    decreases events.len(),
{
    if events.len() > 0 {
        let (s1, started) = on_build_event(s, events[0]);
        law_one_rebuild_at_a_time(s1, events.drop_first());
    }
}

/// Any number of source changes while a rebuild runs start nothing, and owe
/// exactly one rebuild, which starts when the running one ends.
pub proof fn law_changes_while_building_rebuild_once(s: BuildState, k: nat)
    requires
        s.inv(),
        s.running,
        k >= 1,
    ensures
        ({
            let events = Seq::new(k, |i: int| BuildEvent::SourceChanged).push(BuildEvent::RebuildEnded);
            &&& run_builds(s, events).1 == 1
            &&& run_builds(s, events).0.running
            &&& !run_builds(s, events).0.queued
        }),
{
    lemma_changes_while_building(s, k);
    let changes = Seq::new(k, |i: int| BuildEvent::SourceChanged);
    lemma_run_builds_append(s, changes, BuildEvent::RebuildEnded);
}

proof fn lemma_changes_while_building(s: BuildState, k: nat)
    requires
        s.running,
    ensures
        ({
            let r = run_builds(s, Seq::new(k, |i: int| BuildEvent::SourceChanged));
            &&& r.1 == 0
            &&& r.0 == (if k == 0 { s } else { BuildState { queued: true, ..s } })
        }),
    decreases k,
{
    let changes = Seq::new(k, |i: int| BuildEvent::SourceChanged);
    if k > 0 {
        assert(changes.drop_first() =~= Seq::new((k - 1) as nat, |i: int| BuildEvent::SourceChanged));
        lemma_changes_while_building(BuildState { queued: true, ..s }, (k - 1) as nat);
    }
}

proof fn lemma_run_builds_append(s: BuildState, events: Seq<BuildEvent>, e: BuildEvent)
    ensures
        run_builds(s, events.push(e)) == ({
            let (s1, n) = run_builds(s, events);
            let (s2, started) = on_build_event(s1, e);
            (s2, n + (if started { 1nat } else { 0nat }))
        }),
    decreases events.len(),
{
    if events.len() == 0 {
        reveal_with_fuel(run_builds, 2);
        assert(events.push(e).drop_first() =~= Seq::<BuildEvent>::empty());
    } else {
        assert(events.push(e).drop_first() =~= events.drop_first().push(e));
        let (s1, started) = on_build_event(s, events[0]);
        lemma_run_builds_append(s1, events.drop_first(), e);
    }
}

} // verus!
