use vstd::prelude::*;

use crate::naming::{decimal, push_decimal};

verus! {

/// One effect that the owner of a [`Handle`] performs on its behalf, in the
/// order in which the handle lists them.
#[derive(Clone, Copy, Debug, PartialEq, Eq, Structural)]
pub enum Step {
    /// Call the loaded module's `deinit`, then release the module.
    Deinit,
    /// Delete the staged copy named with this timestamp.
    RemoveStaged(u64),
    /// Copy the artifact's bytes to a staged copy named with this timestamp.
    Stage(u64),
    /// Rewrite the staged copy's self-identity so that the dynamic loader
    /// does not take it for an earlier load.
    InvalidateCache(u64),
    /// Load the staged copy and resolve `init`, `draw` and `deinit`.
    Load(u64),
    /// Call the freshly loaded module's `init` with the graphics context.
    Init,
    /// Call the loaded module's `draw` with this frame counter.
    Draw(i32),
}

/// What a [`Handle`] knows, as plain values.
pub struct HostState {
    /// Path of the artifact.
    pub target: Seq<char>,
    /// A module is loaded and initialised.
    pub loaded: bool,
    /// Timestamp of the staged copy that the host owns on disk, if any.
    pub staged: Option<u64>,
    /// Timestamp of the staged copy whose load is under way, if any.
    pub pending: Option<u64>,
    /// Newest artifact modification time that the host has acted on.
    pub last_seen: Option<u64>,
    /// How many `init` calls the host has asked for.
    pub inits: nat,
    /// How many `deinit` calls the host has asked for.
    pub deinits: nat,
}

/// `[Deinit]` when a module is loaded, else nothing.
pub open spec fn deinit_steps(loaded: bool) -> Seq<Step> {
    if loaded { seq![Step::Deinit] } else { seq![] }
}

/// `[RemoveStaged(t)]` when the staged copy `t` exists, else nothing.
pub open spec fn cleanup_steps(staged: Option<u64>) -> Seq<Step> {
    match staged {
        Some(t) => seq![Step::RemoveStaged(t)],
        None => seq![],
    }
}

/// A modification time `observed` calls for a reload when the artifact exists
/// and is strictly newer than anything seen before.
pub open spec fn update_due(last_seen: Option<u64>, observed: Option<u64>) -> bool {
    match observed {
        Some(t) => match last_seen {
            Some(l) => t > l,
            None => true,
        },
        None => false,
    }
}

impl HostState {
    /// The host's own bookkeeping: one `deinit` for every `init` but the live
    /// module's, and a load under way only of the staged copy, with nothing loaded.
    pub open spec fn inv(self) -> bool {
        &&& self.inits == self.deinits + (if self.loaded { 1nat } else { 0nat })
        &&& self.pending is Some ==> !self.loaded && self.staged == self.pending
    }

    pub open spec fn empty(target: Seq<char>) -> HostState {
        HostState {
            target,
            loaded: false,
            staged: None,
            pending: None,
            last_seen: None,
            inits: 0,
            deinits: 0,
        }
    }

    /// The state after observing the artifact's modification time `observed`.
    pub open spec fn observe(self, observed: Option<u64>) -> HostState {
        if update_due(self.last_seen, observed) {
            HostState { last_seen: observed, ..self }
        } else {
            self
        }
    }

    /// Steps asked for on observing the modification time `observed`.
    pub open spec fn poll_steps(self, observed: Option<u64>) -> Seq<Step> {
        if update_due(self.last_seen, observed) {
            self.observe(observed).reload_steps(observed->0)
        } else {
            seq![]
        }
    }

    pub open spec fn polled(self, observed: Option<u64>) -> HostState {
        if update_due(self.last_seen, observed) {
            self.observe(observed).reloading(observed->0)
        } else {
            self
        }
    }

    /// Steps of a reload onto the staged copy `stamp`: tear the old module
    /// down, delete the old staged copy, stage, invalidate, load.
    pub open spec fn reload_steps(self, stamp: u64) -> Seq<Step> {
        deinit_steps(self.loaded) + cleanup_steps(self.staged) + seq![
            Step::Stage(stamp),
            Step::InvalidateCache(stamp),
            Step::Load(stamp),
        ]
    }

    pub open spec fn reloading(self, stamp: u64) -> HostState {
        HostState {
            loaded: false,
            staged: Some(stamp),
            pending: Some(stamp),
            deinits: self.deinits + (if self.loaded { 1nat } else { 0nat }),
            ..self
        }
    }

    /// Steps once the reload's own steps are done (`ok`) or one of them failed.
    pub open spec fn finish_steps(self, ok: bool) -> Seq<Step> {
        if self.pending is Some && ok { seq![Step::Init] } else { seq![] }
    }

    pub open spec fn finished(self, ok: bool) -> HostState {
        if self.pending is Some {
            if ok {
                HostState { loaded: true, pending: None, inits: self.inits + 1, ..self }
            } else {
                HostState { loaded: false, pending: None, ..self }
            }
        } else {
            self
        }
    }

    /// A frame reaches the module only while one is loaded.
    pub open spec fn draw_steps(self, counter: i32) -> Seq<Step> {
        if self.loaded { seq![Step::Draw(counter)] } else { seq![] }
    }

    pub open spec fn shutdown_steps(self) -> Seq<Step> {
        deinit_steps(self.loaded) + cleanup_steps(self.staged)
    }

    pub open spec fn shut_down(self) -> HostState {
        HostState {
            loaded: false,
            staged: None,
            pending: None,
            deinits: self.deinits + (if self.loaded { 1nat } else { 0nat }),
            ..self
        }
    }
}

/// Owner of zero or one loaded module, of the artifact's path and of the one
/// staged copy on disk. It decides; its owner performs the [`Step`]s it returns.
pub struct Handle {
    target: String,
    loaded: bool,
    staged: Option<u64>,
    pending: Option<u64>,
    last_seen: Option<u64>,
    inits: Ghost<nat>,
    deinits: Ghost<nat>,
}

impl View for Handle {
    type V = HostState;

    closed spec fn view(&self) -> HostState {
        HostState {
            target: self.target@,
            loaded: self.loaded,
            staged: self.staged,
            pending: self.pending,
            last_seen: self.last_seen,
            inits: self.inits@,
            deinits: self.deinits@,
        }
    }
}

impl Handle {
    /// A host for the artifact at `target`, with nothing loaded or staged.
    pub fn new(target: String) -> (r: Handle)
        ensures
            r@ == HostState::empty(target@),
            r@.inv(),
    {
        Handle {
            target,
            loaded: false,
            staged: None,
            pending: None,
            last_seen: None,
            inits: Ghost(0),
            deinits: Ghost(0),
        }
    }

    /// Path of the artifact.
    pub fn target(&self) -> (r: &String)
        ensures
            r@ == self@.target,
    {
        &self.target
    }

    pub fn is_loaded(&self) -> (r: bool)
        ensures
            r == self@.loaded,
    {
        self.loaded
    }

    /// Timestamp of the staged copy that the host owns, if any.
    pub fn staged(&self) -> (r: Option<u64>)
        ensures
            r == self@.staged,
    {
        self.staged
    }

    /// Path of the staged copy with timestamp `stamp`: the artifact's path,
    /// a dot, and the timestamp in decimal.
    pub fn staged_path(&self, stamp: u64) -> (r: String)
        ensures
            r@ == self@.target + seq!['.'] + decimal(stamp as nat),
    {
        let mut s = self.target.clone();
        proof {
            reveal_strlit(".");
        }
        s.append(".");
        push_decimal(&mut s, stamp);
        s
    }

    /// Takes the artifact's current modification time (`None` when it cannot
    /// be read, e.g. mid-write) and, when it is strictly newer than any seen
    /// before, starts a reload onto a staged copy named with it.
    pub fn check_for_update(&mut self, observed: Option<u64>) -> (r: Vec<Step>)
        requires
            old(self)@.inv(),
        ensures
            r@ == old(self)@.poll_steps(observed),
            final(self)@ == old(self)@.polled(observed),
            final(self)@.inv(),
    {
        let due = match observed {
            Some(t) => match self.last_seen {
                Some(l) => t > l,
                None => true,
            },
            None => false,
        };
        if due {
            self.last_seen = observed;
            match observed {
                Some(t) => self.reload(t),
                None => Vec::new(),
            }
        } else {
            let steps: Vec<Step> = Vec::new();
            proof {
                assert(steps@ =~= Seq::<Step>::empty());
            }
            steps
        }
    }

    /// Starts a reload onto a fresh staged copy named with `stamp`. The owner
    /// performs the returned steps in order, stops at the first of `Stage`,
    /// `InvalidateCache` and `Load` that fails, and reports with
    /// [`Handle::load_finished`]. A failed `RemoveStaged` is only logged.
    pub fn reload(&mut self, stamp: u64) -> (r: Vec<Step>)
        requires
            old(self)@.inv(),
        ensures
            r@ == old(self)@.reload_steps(stamp),
            final(self)@ == old(self)@.reloading(stamp),
            final(self)@.inv(),
    {
        let mut steps: Vec<Step> = Vec::new();
        if self.loaded {
            steps.push(Step::Deinit);
        }
        if let Some(t) = self.staged {
            steps.push(Step::RemoveStaged(t));
        }
        steps.push(Step::Stage(stamp));
        steps.push(Step::InvalidateCache(stamp));
        steps.push(Step::Load(stamp));
        proof {
            let tail = seq![Step::Stage(stamp), Step::InvalidateCache(stamp), Step::Load(stamp)];
            assert(steps@ =~= deinit_steps(self.loaded) + cleanup_steps(self.staged) + tail);
        }
        let ghost was = self.loaded;
        self.deinits = Ghost(self.deinits@ + if was { 1nat } else { 0nat });
        self.loaded = false;
        self.staged = Some(stamp);
        self.pending = Some(stamp);
        steps
    }

    /// Ends the reload under way: `ok` when its steps all succeeded.
    pub fn load_finished(&mut self, ok: bool) -> (r: Vec<Step>)
        requires
            old(self)@.inv(),
        ensures
            r@ == old(self)@.finish_steps(ok),
            final(self)@ == old(self)@.finished(ok),
            final(self)@.inv(),
    {
        let mut steps: Vec<Step> = Vec::new();
        if self.pending.is_some() {
            if ok {
                steps.push(Step::Init);
                self.loaded = true;
                self.inits = Ghost(self.inits@ + 1);
            } else {
                self.loaded = false;
            }
            self.pending = None;
        }
        proof {
            assert(steps@ =~= old(self)@.finish_steps(ok));
        }
        steps
    }

    /// Steps of one frame: the module's `draw`, if a module is loaded.
    pub fn draw(&self, counter: i32) -> (r: Vec<Step>)
        ensures
            r@ == self@.draw_steps(counter),
    {
        let mut steps: Vec<Step> = Vec::new();
        if self.loaded {
            steps.push(Step::Draw(counter));
        }
        proof {
            assert(steps@ =~= self@.draw_steps(counter));
        }
        steps
    }

    /// Tears the host down: `deinit` if loaded, then the staged copy goes.
    /// A second call asks for nothing.
    pub fn shutdown(&mut self) -> (r: Vec<Step>)
        requires
            old(self)@.inv(),
        ensures
            r@ == old(self)@.shutdown_steps(),
            final(self)@ == old(self)@.shut_down(),
            final(self)@.inv(),
    {
        let mut steps: Vec<Step> = Vec::new();
        if self.loaded {
            steps.push(Step::Deinit);
        }
        if let Some(t) = self.staged {
            steps.push(Step::RemoveStaged(t));
        }
        proof {
            assert(steps@ =~= old(self)@.shutdown_steps());
        }
        let ghost was = self.loaded;
        self.deinits = Ghost(self.deinits@ + if was { 1nat } else { 0nat });
        self.loaded = false;
        self.staged = None;
        self.pending = None;
        steps
    }
}

} // verus!
