//! Module lifecycle orchestration: dependencies are resolved and every
//! implementation checked before any module receives control, and failures
//! are cleaned up in reverse order. A failing module stays `Failed`.

use crate::core_types::{descriptors_match, same_descriptor, ModuleDescriptor, ModuleId, ModuleState};
use crate::registry::{index_of_id, module_ids, resolution, CapabilitySelections, ModuleRegistry, RegistryError};
use crate::registry_laws::lemma_resolution_order;
use vstd::prelude::*;

verus! {

/// Core-owned events that modules may observe.
#[derive(Clone, Debug, PartialEq, Eq)]
pub enum CoreEvent {
    ShutdownRequested,
    ModuleStateChanged { module: ModuleId, state: ModuleState },
    ConfigurationChanged { namespace: String },
}

/// What a module receives when the core hands it control.
#[derive(Clone, Debug)]
pub struct ModuleContext {
    runtime_dir: String,
}

impl ModuleContext {
    pub fn new(runtime_dir: String) -> (r: Self)
        ensures
            r.spec_runtime_dir() == runtime_dir@,
    {
        ModuleContext { runtime_dir }
    }

    pub closed spec fn spec_runtime_dir(&self) -> Seq<char> {
        self.runtime_dir@
    }

    pub fn runtime_dir(&self) -> (r: &str)
        ensures
            r@ == self.spec_runtime_dir(),
    {
        self.runtime_dir.as_str()
    }
}

/// A failure reported by a module implementation.
#[derive(Debug)]
pub struct ModuleFailure {
    message: String,
}

impl ModuleFailure {
    pub fn new(message: String) -> (r: Self)
        ensures
            r.spec_message() == message@,
    {
        ModuleFailure { message }
    }

    pub closed spec fn spec_message(&self) -> Seq<char> {
        self.message@
    }

    pub fn message(&self) -> (r: &str)
        ensures
            r@ == self.spec_message(),
    {
        self.message.as_str()
    }
}

/// The three calls the core makes into a module.
#[derive(Clone, Copy, Debug, PartialEq, Eq, Structural)]
pub enum ModulePhase {
    Initialize,
    Start,
    Stop,
}

/// One call a module received: its phase, the runtime directory of the
/// context it was handed, and whether the module reported success.
#[derive(Clone, Debug, PartialEq, Eq)]
pub struct ModuleCall {
    pub phase: ModulePhase,
    pub runtime_dir: String,
    pub succeeded: bool,
}

impl ModuleCall {
    /// The record of a call in `phase` with `context`.
    pub fn new(phase: ModulePhase, context: &ModuleContext, succeeded: bool) -> (r: Self)
        ensures
            r.phase == phase,
            r.runtime_dir@ == context.spec_runtime_dir(),
            r.succeeded == succeeded,
    {
        ModuleCall { phase, runtime_dir: context.runtime_dir().to_owned(), succeeded }
    }
}

/// What a call record says, entry by entry: phase, runtime directory and
/// outcome.
pub open spec fn call_views(calls: Seq<ModuleCall>) -> Seq<(ModulePhase, Seq<char>, bool)> {
    calls.map_values(|c: ModuleCall| (c.phase, c.runtime_dir@, c.succeeded))
}

/// Runtime implementation of one registered descriptor. `stop` must tolerate
/// partial initialization: rollback may call it after a failed `initialize`
/// or `start`. Each implementation keeps the record of the lifecycle calls it
/// received, and each call adds exactly its own entry to it.
pub trait NexxusModule {
    /// The descriptor the implementation carries.
    spec fn spec_descriptor(&self) -> ModuleDescriptor;

    /// The lifecycle calls received so far, oldest first.
    spec fn lifecycle_calls(&self) -> Vec<ModuleCall>;

    fn descriptor(&self) -> (r: &ModuleDescriptor)
        ensures
            *r == self.spec_descriptor(),
    ;

    fn initialize(&mut self, context: &ModuleContext) -> (r: Result<(), ModuleFailure>)
        ensures
            call_views(final(self).lifecycle_calls()@) == call_views(old(self).lifecycle_calls()@).push(
                (ModulePhase::Initialize, context.spec_runtime_dir(), r is Ok),
            ),
    ;

    fn start(&mut self, context: &ModuleContext) -> (r: Result<(), ModuleFailure>)
        ensures
            call_views(final(self).lifecycle_calls()@) == call_views(old(self).lifecycle_calls()@).push(
                (ModulePhase::Start, context.spec_runtime_dir(), r is Ok),
            ),
    ;

    fn stop(&mut self, context: &ModuleContext) -> (r: Result<(), ModuleFailure>)
        ensures
            call_views(final(self).lifecycle_calls()@) == call_views(old(self).lifecycle_calls()@).push(
                (ModulePhase::Stop, context.spec_runtime_dir(), r is Ok),
            ),
    ;
}

#[derive(Debug)]
pub enum LifecycleError {
    Registry(RegistryError),
    DuplicateImplementation(ModuleId),
    MissingImplementation(ModuleId),
    DescriptorMismatch { module: ModuleId },
    InvalidState { module: ModuleId, state: ModuleState, operation: &'static str },
    Module { module: ModuleId, phase: &'static str, source: ModuleFailure },
}

/// The first entry of `s` whose key has this text, if any.
pub open spec fn lookup<V>(s: Seq<(ModuleId, V)>, k: Seq<char>) -> Option<V>
    decreases s.len(),
{
    if s.len() == 0 {
        None
    } else if s[0].0@ == k {
        Some(s[0].1)
    } else {
        lookup(s.drop_first(), k)
    }
}

/// Drives installed module implementations through their lifecycle.
pub struct LifecycleManager<M: NexxusModule> {
    registry: ModuleRegistry,
    modules: Vec<(ModuleId, M)>,
    states: Vec<(ModuleId, ModuleState)>,
    context: ModuleContext,
    events: Vec<CoreEvent>,
}

impl<M: NexxusModule> LifecycleManager<M> {
    pub closed spec fn spec_registry(&self) -> ModuleRegistry {
        self.registry
    }

    /// The state of a module, by identifier text.
    pub closed spec fn state_of(&self, id: Seq<char>) -> Option<ModuleState> {
        lookup(self.states@, id)
    }

    /// The installed implementation of a module, by identifier text.
    pub closed spec fn module_of(&self, id: Seq<char>) -> Option<M> {
        lookup(self.modules@, id)
    }

    /// State-change events not yet drained, oldest first.
    pub closed spec fn pending(&self) -> Seq<CoreEvent> {
        self.events@
    }

    /// The runtime directory of the context handed to every module call.
    pub closed spec fn context_dir(&self) -> Seq<char> {
        self.context.spec_runtime_dir()
    }

    /// The lifecycle calls a module received so far, by identifier text;
    /// empty where none is installed.
    pub open spec fn calls_of(&self, id: Seq<char>) -> Seq<(ModulePhase, Seq<char>, bool)> {
        match self.module_of(id) {
            Some(m) => call_views(m.lifecycle_calls()@),
            None => seq![],
        }
    }

    pub closed spec fn wf(&self) -> bool {
        &&& self.registry.wf()
        &&& forall|k: Seq<char>| (self.state_of(k) is Some) <==> (self.module_of(k) is Some)
    }

    pub fn new(registry: ModuleRegistry, context: ModuleContext) -> (r: Self)
        requires
            registry.wf(),
        ensures
            r.wf(),
            r.spec_registry() == registry,
            forall|k: Seq<char>| r.state_of(k) is None && r.module_of(k) is None,
            r.pending().len() == 0,
            r.context_dir() == context.spec_runtime_dir(),
    {
        LifecycleManager { registry, modules: Vec::new(), states: Vec::new(), context, events: Vec::new() }
    }
}


/// Position `i` holds the first entry of `s` for key `k`.
pub open spec fn first_at<V>(s: Seq<(ModuleId, V)>, k: Seq<char>, i: int) -> bool {
    &&& 0 <= i < s.len()
    &&& s[i].0@ == k
    &&& forall|j: int| 0 <= j < i ==> (#[trigger] s[j]).0@ != k
}

proof fn lemma_lookup_first<V>(s: Seq<(ModuleId, V)>, k: Seq<char>, i: int)
    requires
        first_at(s, k, i),
    ensures
        lookup(s, k) == Some(s[i].1),
    decreases i,
{
    if i > 0 {
        assert(s[0].0@ != k);
        let t = s.drop_first();
        assert forall|j: int| 0 <= j < i - 1 implies (#[trigger] t[j]).0@ != k by {
            assert(t[j] == s[j + 1]);
        }
        lemma_lookup_first(t, k, i - 1);
    }
}

proof fn lemma_lookup_none<V>(s: Seq<(ModuleId, V)>, k: Seq<char>)
    requires
        forall|j: int| 0 <= j < s.len() ==> (#[trigger] s[j]).0@ != k,
    ensures
        lookup(s, k) is None,
    decreases s.len(),
{
    if s.len() > 0 {
        let t = s.drop_first();
        assert forall|j: int| 0 <= j < t.len() implies (#[trigger] t[j]).0@ != k by {
            assert(t[j] == s[j + 1]);
        }
        lemma_lookup_none(t, k);
    }
}

proof fn lemma_lookup_update<V>(s: Seq<(ModuleId, V)>, k: Seq<char>, i: int, e: (ModuleId, V))
    requires
        first_at(s, k, i),
        e.0@ == k,
    ensures
        lookup(s.update(i, e), k) == Some(e.1),
        forall|k2: Seq<char>| k2 != k ==> lookup(s.update(i, e), k2) == lookup(s, k2),
    decreases i,
{
    let t = s.update(i, e);
    assert(first_at(t, k, i)) by {
        assert forall|j: int| 0 <= j < i implies (#[trigger] t[j]).0@ != k by {
            assert(t[j] == s[j]);
        }
    }
    lemma_lookup_first(t, k, i);
    assert forall|k2: Seq<char>| k2 != k implies lookup(s.update(i, e), k2) == lookup(s, k2) by {
        lemma_lookup_other(s, k2, i, e);
    }
}

proof fn lemma_lookup_other<V>(s: Seq<(ModuleId, V)>, k2: Seq<char>, i: int, e: (ModuleId, V))
    requires
        0 <= i < s.len(),
        s[i].0@ != k2,
        e.0@ != k2,
    ensures
        lookup(s.update(i, e), k2) == lookup(s, k2),
    decreases s.len(),
{
    let t = s.update(i, e);
    if i > 0 && s[0].0@ != k2 {
        assert(t.drop_first() =~= s.drop_first().update(i - 1, e));
        lemma_lookup_other(s.drop_first(), k2, i - 1, e);
    } else if i == 0 {
        assert(t.drop_first() =~= s.drop_first());
    }
}

proof fn lemma_lookup_push<V>(s: Seq<(ModuleId, V)>, e: (ModuleId, V))
    ensures
        lookup(s, e.0@) is None ==> lookup(s.push(e), e.0@) == Some(e.1),
        forall|k2: Seq<char>| lookup(s, k2) is Some ==> lookup(s.push(e), k2) == lookup(s, k2),
        forall|k2: Seq<char>| k2 != e.0@ ==> lookup(s.push(e), k2) == lookup(s, k2),
    decreases s.len(),
{
    let t = s.push(e);
    if s.len() == 0 {
        assert(t.drop_first() =~= Seq::<(ModuleId, V)>::empty());
        assert(lookup(t.drop_first(), e.0@) is None);
        assert forall|k2: Seq<char>| k2 != e.0@ implies lookup(s.push(e), k2) == lookup(s, k2) by {
            assert(lookup(t.drop_first(), k2) is None);
        }
    } else {
        lemma_lookup_push(s.drop_first(), e);
        assert(t.drop_first() =~= s.drop_first().push(e));
        assert(t[0] == s[0]);
        assert forall|k2: Seq<char>| lookup(s, k2) is Some implies lookup(s.push(e), k2) == lookup(s, k2) by {
            if s[0].0@ != k2 {
                assert(lookup(s, k2) == lookup(s.drop_first(), k2));
            }
        }
        assert forall|k2: Seq<char>| k2 != e.0@ implies lookup(s.push(e), k2) == lookup(s, k2) by {
            if s[0].0@ != k2 {
                assert(lookup(s, k2) == lookup(s.drop_first(), k2));
            }
        }
        if lookup(s, e.0@) is None {
            assert(s[0].0@ != e.0@);
        }
    }
}

impl<M: NexxusModule> LifecycleManager<M> {
    fn state_index(&self, id: &ModuleId) -> (r: Option<usize>)
        ensures
            r is None ==> self.state_of(id@) is None,
            r matches Some(i) ==> first_at(self.states@, id@, i as int) && self.state_of(id@) == Some(
                self.states@[i as int].1,
            ),
    {
        let mut i: usize = 0;
        while i < self.states.len()
            invariant
                i <= self.states@.len(),
                forall|j: int| 0 <= j < i ==> (#[trigger] self.states@[j]).0@ != id@,
            decreases self.states@.len() - i,
        {
            if self.states[i].0.same(id) {
                proof {
                    lemma_lookup_first(self.states@, id@, i as int);
                }
                return Some(i);
            }
            i = i + 1;
        }
        proof {
            lemma_lookup_none(self.states@, id@);
        }
        None
    }

    fn module_index(&self, id: &ModuleId) -> (r: Option<usize>)
        ensures
            r is None ==> self.module_of(id@) is None,
            r matches Some(i) ==> first_at(self.modules@, id@, i as int) && self.module_of(id@) == Some(
                self.modules@[i as int].1,
            ),
    {
        let mut i: usize = 0;
        while i < self.modules.len()
            invariant
                i <= self.modules@.len(),
                forall|j: int| 0 <= j < i ==> (#[trigger] self.modules@[j]).0@ != id@,
            decreases self.modules@.len() - i,
        {
            if self.modules[i].0.same(id) {
                proof {
                    lemma_lookup_first(self.modules@, id@, i as int);
                }
                return Some(i);
            }
            i = i + 1;
        }
        proof {
            lemma_lookup_none(self.modules@, id@);
        }
        None
    }

    /// The lifecycle state of a module.
    pub fn state(&self, id: &ModuleId) -> (r: Option<ModuleState>)
        ensures
            r == self.state_of(id@),
    {
        match self.state_index(id) {
            Some(i) => Some(self.states[i].1),
            None => None,
        }
    }

    /// Records a state change and announces it.
    fn mark(&mut self, id: &ModuleId, state: ModuleState)
        requires
            old(self).state_of(id@) is Some,
        ensures
            final(self).state_of(id@) == Some(state),
            forall|k: Seq<char>| k != id@ ==> final(self).state_of(k) == old(self).state_of(k),
            forall|k: Seq<char>| final(self).module_of(k) == old(self).module_of(k),
            final(self).spec_registry() == old(self).spec_registry(),
            final(self).context_dir() == old(self).context_dir(),
            final(self).pending() == old(self).pending().push(
                CoreEvent::ModuleStateChanged { module: *id, state },
            ),
    {
        let i = match self.state_index(id) {
            Some(i) => i,
            None => return,
        };
        let ghost before = self.states@;
        self.states.set(i, (id.duplicate(), state));
        proof {
            lemma_lookup_update(before, id@, i as int, (*id, state));
        }
        self.events.push(CoreEvent::ModuleStateChanged { module: id.duplicate(), state });
    }

    /// Hands out the pending state-change events in the order they happened.
    pub fn drain_events(&mut self) -> (r: Vec<CoreEvent>)
        ensures
            r@ == old(self).pending(),
            final(self).pending().len() == 0,
            forall|k: Seq<char>| final(self).state_of(k) == old(self).state_of(k),
            forall|k: Seq<char>| final(self).module_of(k) == old(self).module_of(k),
            final(self).spec_registry() == old(self).spec_registry(),
    {
        let mut drained: Vec<CoreEvent> = Vec::new();
        std::mem::swap(&mut drained, &mut self.events);
        drained
    }

    /// Installs an implementation, only when it carries exactly its registered
    /// descriptor.
    pub fn install(&mut self, module: M) -> (r: Result<(), LifecycleError>)
        requires
            old(self).wf(),
        ensures
            final(self).wf(),
            ({
                let d = module.spec_descriptor();
                let mods = old(self).spec_registry().modules();
                if old(self).module_of(d.id@) is Some {
                    r matches Err(e) && e == LifecycleError::DuplicateImplementation(d.id) && *final(self)
                        == *old(self)
                } else if !module_ids(mods).contains(d.id@) {
                    r matches Err(e) && e == LifecycleError::MissingImplementation(d.id) && *final(self)
                        == *old(self)
                } else if !same_descriptor(d, mods[index_of_id(mods, d.id@)]) {
                    r matches Err(e) && e == (LifecycleError::DescriptorMismatch { module: d.id })
                        && *final(self) == *old(self)
                } else {
                    &&& r is Ok
                    &&& final(self).state_of(d.id@) == Some(ModuleState::Registered)
                    &&& final(self).module_of(d.id@) == Some(module)
                    &&& forall|k: Seq<char>| k != d.id@ ==> final(self).state_of(k) == old(self).state_of(k)
                    &&& forall|k: Seq<char>| k != d.id@ ==> final(self).module_of(k) == old(self).module_of(k)
                    &&& final(self).spec_registry() == old(self).spec_registry()
                    &&& final(self).pending() == old(self).pending()
                }
            }),
    {
        let id = module.descriptor().id.duplicate();
        if self.module_index(&id).is_some() {
            return Err(LifecycleError::DuplicateImplementation(id));
        }
        let registered = match self.registry.descriptor(&id) {
            Some(d) => d,
            None => return Err(LifecycleError::MissingImplementation(id)),
        };
        if !descriptors_match(module.descriptor(), registered) {
            return Err(LifecycleError::DescriptorMismatch { module: id });
        }
        let ghost states0 = self.states@;
        let ghost modules0 = self.modules@;
        proof {
            lemma_lookup_push(states0, (id, ModuleState::Registered));
            lemma_lookup_push(modules0, (id, module));
        }
        let ghost key = id@;
        let ghost id_g = id;
        let ghost module_g = module;
        proof {
            assert(lookup(modules0, key) is None);
            assert(lookup(states0, key) is None);
        }
        self.states.push((id.duplicate(), ModuleState::Registered));
        self.modules.push((id, module));
        proof {
            assert(self.states@ == states0.push((id_g, ModuleState::Registered)));
            assert(self.modules@ == modules0.push((id_g, module_g)));
            assert(self.state_of(key) == Some(ModuleState::Registered));
            assert(self.module_of(key) == Some(module_g));
            assert forall|k: Seq<char>| (self.state_of(k) is Some) <==> (self.module_of(k) is Some) by {
                if k != key {
                    assert(self.state_of(k) == lookup(states0, k));
                    assert(self.module_of(k) == lookup(modules0, k));
                    assert(old(self).state_of(k) == lookup(states0, k));
                    assert(old(self).module_of(k) == lookup(modules0, k));
                }
            }
        }
        Ok(())
    }
}


/// The texts of a sequence of module identifiers.
pub open spec fn views(s: Seq<ModuleId>) -> Seq<Seq<char>> {
    s.map_values(|m: ModuleId| m@)
}

/// The module an error is about and whether it is a missing implementation.
pub open spec fn error_key(e: LifecycleError) -> (Seq<char>, bool) {
    match e {
        LifecycleError::MissingImplementation(m) => (m@, true),
        LifecycleError::Module { module, .. } => (module@, false),
        LifecycleError::DuplicateImplementation(m) => (m@, false),
        LifecycleError::DescriptorMismatch { module } => (module@, false),
        LifecycleError::InvalidState { module, .. } => (module@, false),
        LifecycleError::Registry(_) => (seq![], false),
    }
}

/// The state changes announced while the modules of `s` start, in order:
/// each becomes `Initialized`, then `Running`.
pub open spec fn startup_events(s: Seq<ModuleId>) -> Seq<CoreEvent>
    decreases s.len(),
{
    if s.len() == 0 {
        seq![]
    } else {
        startup_events(s.drop_last()) + seq![
            CoreEvent::ModuleStateChanged { module: s.last(), state: ModuleState::Initialized },
            CoreEvent::ModuleStateChanged { module: s.last(), state: ModuleState::Running },
        ]
    }
}

/// A state that `stop_all` stops.
pub open spec fn stoppable(s: Option<ModuleState>) -> bool {
    s == Some(ModuleState::Running) || s == Some(ModuleState::Initialized)
}

/// A state a module ends in once stopped.
pub open spec fn halted(s: Option<ModuleState>) -> bool {
    s == Some(ModuleState::Stopped) || s == Some(ModuleState::Failed)
}

/// The calls a module that started received: a successful `initialize`,
/// then a successful `start`, both with the context's runtime directory.
pub open spec fn startup_calls(dir: Seq<char>) -> Seq<(ModulePhase, Seq<char>, bool)> {
    seq![(ModulePhase::Initialize, dir, true), (ModulePhase::Start, dir, true)]
}

/// The calls a module that failed to start received: a failed `initialize`,
/// or a successful `initialize` and a failed `start`; then the cleanup
/// `stop`, whose outcome is `stop_ok`.
pub open spec fn failed_calls(start_failed: bool, dir: Seq<char>, stop_ok: bool) -> Seq<
    (ModulePhase, Seq<char>, bool),
> {
    if start_failed {
        seq![(ModulePhase::Initialize, dir, true), (ModulePhase::Start, dir, false), (ModulePhase::Stop, dir, stop_ok)]
    } else {
        seq![(ModulePhase::Initialize, dir, false), (ModulePhase::Stop, dir, stop_ok)]
    }
}

impl<M: NexxusModule> LifecycleManager<M> {
    /// Why a module cannot be started, if anything stops it.
    pub open spec fn preflight_issue(self, id: ModuleId) -> Option<LifecycleError> {
        let k = id@;
        let mods = self.spec_registry().modules();
        if self.module_of(k) is None {
            Some(LifecycleError::MissingImplementation(id))
        } else if !module_ids(mods).contains(k) {
            Some(LifecycleError::MissingImplementation(id))
        } else if !same_descriptor(self.module_of(k)->Some_0.spec_descriptor(), mods[index_of_id(mods, k)]) {
            Some(LifecycleError::DescriptorMismatch { module: id })
        } else if self.state_of(k) is None {
            Some(LifecycleError::MissingImplementation(id))
        } else if !(self.state_of(k) == Some(ModuleState::Registered) || self.state_of(k) == Some(
            ModuleState::Stopped,
        )) {
            Some(
                LifecycleError::InvalidState {
                    module: id,
                    state: self.state_of(k)->Some_0,
                    operation: "start",
                },
            )
        } else {
            None
        }
    }

    /// The first issue among the first `n` modules of an order.
    pub open spec fn preflight_error(self, order: Seq<ModuleId>, n: int) -> Option<LifecycleError>
        decreases n,
    {
        if n <= 0 {
            None
        } else {
            match self.preflight_error(order, n - 1) {
                Some(e) => Some(e),
                None => self.preflight_issue(order[n - 1]),
            }
        }
    }

    proof fn lemma_preflight_stable(self, order: Seq<ModuleId>, k: int, n: int)
        requires
            self.preflight_error(order, k) is Some,
            k <= n,
        ensures
            self.preflight_error(order, n) == self.preflight_error(order, k),
        decreases n - k,
    {
        if k < n {
            self.lemma_preflight_stable(order, k, n - 1);
        }
    }

    proof fn lemma_preflight_ok(self, order: Seq<ModuleId>, n: int)
        requires
            self.preflight_error(order, n) is None,
            n <= order.len(),
        ensures
            forall|q: int| 0 <= q < n ==> self.preflight_issue(#[trigger] order[q]) is None,
        decreases n,
    {
        if n > 0 {
            self.lemma_preflight_ok(order, n - 1);
        }
    }

    fn preflight_start(&self, order: &Vec<ModuleId>) -> (r: Result<(), LifecycleError>)
        requires
            self.wf(),
        ensures
            match self.preflight_error(order@, order@.len() as int) {
                Some(e) => r matches Err(x) && x == e,
                None => r is Ok,
            },
    {
        let mut i: usize = 0;
        while i < order.len()
            invariant
                self.wf(),
                i <= order@.len(),
                self.preflight_error(order@, i as int) is None,
            decreases order@.len() - i,
        {
            let id = &order[i];
            let issue: Option<LifecycleError> = match self.module_index(id) {
                None => Some(LifecycleError::MissingImplementation(id.duplicate())),
                Some(m) => match self.registry.descriptor(id) {
                    None => Some(LifecycleError::MissingImplementation(id.duplicate())),
                    Some(registered) => if !descriptors_match(self.modules[m].1.descriptor(), registered) {
                        Some(LifecycleError::DescriptorMismatch { module: id.duplicate() })
                    } else {
                        match self.state(id) {
                            None => Some(LifecycleError::MissingImplementation(id.duplicate())),
                            Some(state) => if !(state == ModuleState::Registered || state
                                == ModuleState::Stopped) {
                                Some(
                                    LifecycleError::InvalidState {
                                        module: id.duplicate(),
                                        state,
                                        operation: "start",
                                    },
                                )
                            } else {
                                None
                            },
                        }
                    },
                },
            };
            proof {
                assert(issue == self.preflight_issue(order@[i as int]));
                assert(self.preflight_error(order@, i + 1) == issue);
            }
            match issue {
                Some(e) => {
                    proof {
                        self.lemma_preflight_stable(order@, i + 1, order@.len() as int);
                    }
                    return Err(e);
                },
                None => {},
            }
            i = i + 1;
        }
        Ok(())
    }

    /// Asks the implementation of a module to stop, keeping its state.
    fn cleanup_failed_module(&mut self, id: &ModuleId)
        requires
            old(self).wf(),
        ensures
            final(self).wf(),
            forall|k: Seq<char>| final(self).state_of(k) == old(self).state_of(k),
            forall|k: Seq<char>| (final(self).module_of(k) is Some) == (old(self).module_of(k) is Some),
            final(self).spec_registry() == old(self).spec_registry(),
            final(self).context_dir() == old(self).context_dir(),
            final(self).pending() == old(self).pending(),
            forall|k: Seq<char>| k != id@ ==> #[trigger] final(self).module_of(k) == old(self).module_of(k),
            old(self).module_of(id@) is None ==> final(self).module_of(id@) == old(self).module_of(id@),
            old(self).module_of(id@) is Some ==> final(self).calls_of(id@) == old(self).calls_of(id@).push(
                (ModulePhase::Stop, old(self).context_dir(), final(self).calls_of(id@).last().2),
            ),
    {
        match self.module_index(id) {
            Some(i) => {
                let ghost before = self.modules@;
                let _ = self.modules[i].1.stop(&self.context);
                proof {
                    lemma_lookup_update(before, id@, i as int, self.modules@[i as int]);
                    assert(self.modules@ == before.update(i as int, self.modules@[i as int]));
                    assert forall|k: Seq<char>| (self.module_of(k) is Some) == (old(self).module_of(k) is Some) by {}
                    assert forall|k: Seq<char>| (self.state_of(k) is Some) <==> (self.module_of(k) is Some) by {
                        assert(old(self).state_of(k) == self.state_of(k));
                    }
                }
            },
            None => {},
        }
    }
}


impl<M: NexxusModule> LifecycleManager<M> {
    /// `after` is `self` once the modules named in `list` were stopped:
    /// each running or initialized one received exactly one `stop` call,
    /// with the core's context, and ends `Stopped` when that call succeeded,
    /// `Failed` when it failed; every other module received no call and
    /// keeps its state.
    pub open spec fn stopped(self, after: Self, list: Seq<ModuleId>) -> bool {
        &&& after.wf()
        &&& after.spec_registry() == self.spec_registry()
        &&& after.context_dir() == self.context_dir()
        &&& forall|k: Seq<char>| (after.module_of(k) is Some) == (self.module_of(k) is Some)
        &&& forall|k: Seq<char>|
            #![trigger after.state_of(k)]
            #![trigger after.module_of(k)]
            if views(list).contains(k) && stoppable(self.state_of(k)) {
                &&& halted(after.state_of(k))
                &&& after.calls_of(k) == self.calls_of(k).push(
                    (ModulePhase::Stop, self.context_dir(), after.state_of(k) == Some(ModuleState::Stopped)),
                )
            } else {
                &&& after.state_of(k) == self.state_of(k)
                &&& after.module_of(k) == self.module_of(k)
            }
    }

    /// A lifecycle left by stopping modules is well formed.
    pub proof fn lemma_stopped_wf(self, after: Self, list: Seq<ModuleId>)
        requires
            self.stopped(after, list),
        ensures
            after.wf(),
            after.spec_registry() == self.spec_registry(),
    {
    }

    /// What stopping the module named first in `s` reports, once the rest of
    /// `s` was handled: a missing implementation, or a failed stop.
    pub open spec fn stop_entry(self, after: Self, s: Seq<ModuleId>) -> Seq<(Seq<char>, bool)> {
        let key = s[0]@;
        let rest = s.drop_first();
        if self.state_of(key) is None {
            seq![(key, true)]
        } else if stoppable(self.state_of(key)) && !views(rest).contains(key) && after.state_of(key)
            == Some(ModuleState::Failed) {
            seq![(key, false)]
        } else {
            seq![]
        }
    }

    /// The errors `stop_all` reports for `list`, by module and kind (`true`
    /// for a missing implementation, `false` for a failed stop), in the order
    /// they are found: the list is walked from its end, and a module is only
    /// stopped at its last occurrence.
    pub open spec fn stop_report(self, after: Self, list: Seq<ModuleId>) -> Seq<(Seq<char>, bool)>
        decreases list.len(),
    {
        if list.len() == 0 {
            seq![]
        } else {
            self.stop_report(after, list.drop_first()) + self.stop_entry(after, list)
        }
    }

    /// The state changes announced for the module named first in `s`, once
    /// the rest of `s` was handled: `Stopping`, then how it ended.
    pub open spec fn stop_entry_events(self, after: Self, s: Seq<ModuleId>) -> Seq<CoreEvent> {
        let key = s[0]@;
        if stoppable(self.state_of(key)) && !views(s.drop_first()).contains(key) {
            seq![
                CoreEvent::ModuleStateChanged { module: s[0], state: ModuleState::Stopping },
                CoreEvent::ModuleStateChanged { module: s[0], state: after.state_of(key).unwrap() },
            ]
        } else {
            seq![]
        }
    }

    /// The state changes `stop_all` announces for `list`, in order.
    pub open spec fn stop_events(self, after: Self, list: Seq<ModuleId>) -> Seq<CoreEvent>
        decreases list.len(),
    {
        if list.len() == 0 {
            seq![]
        } else {
            self.stop_events(after, list.drop_first()) + self.stop_entry_events(after, list)
        }
    }

    /// The state changes announced while the running modules `s` are
    /// stopped, last one first: each becomes `Stopping`, then ends in the
    /// state it has in `self`.
    pub open spec fn stop_sequence(self, s: Seq<ModuleId>) -> Seq<CoreEvent>
        decreases s.len(),
    {
        if s.len() == 0 {
            seq![]
        } else {
            self.stop_sequence(s.drop_first()) + seq![
                CoreEvent::ModuleStateChanged { module: s[0], state: ModuleState::Stopping },
                CoreEvent::ModuleStateChanged { module: s[0], state: self.state_of(s[0]@).unwrap() },
            ]
        }
    }

    proof fn lemma_sequence_frame(self, other: Self, s: Seq<ModuleId>)
        requires
            forall|q: int| 0 <= q < s.len() ==> self.state_of(#[trigger] s[q]@) == other.state_of(s[q]@),
        ensures
            self.stop_sequence(s) == other.stop_sequence(s),
        decreases s.len(),
    {
        if s.len() > 0 {
            let rest = s.drop_first();
            assert forall|q: int| 0 <= q < rest.len() implies self.state_of(#[trigger] rest[q]@) == other.state_of(
                rest[q]@,
            ) by {
                assert(rest[q] == s[q + 1]);
            }
            assert(self.state_of(s[0]@) == other.state_of(s[0]@));
            self.lemma_sequence_frame(other, rest);
        }
    }

    /// Stopping running modules with distinct names announces each of them.
    proof fn lemma_stop_events_distinct(self, after: Self, s: Seq<ModuleId>)
        requires
            forall|q: int| 0 <= q < s.len() ==> stoppable(self.state_of(#[trigger] s[q]@)),
            forall|a: int, b: int| 0 <= a < b < s.len() ==> s[a]@ != s[b]@,
        ensures
            self.stop_events(after, s) == after.stop_sequence(s),
        decreases s.len(),
    {
        if s.len() > 0 {
            let rest = s.drop_first();
            assert forall|q: int| 0 <= q < rest.len() implies stoppable(self.state_of(#[trigger] rest[q]@)) by {
                assert(rest[q] == s[q + 1]);
            }
            assert forall|a: int, b: int| 0 <= a < b < rest.len() implies rest[a]@ != rest[b]@ by {
                assert(rest[a] == s[a + 1]);
                assert(rest[b] == s[b + 1]);
            }
            self.lemma_stop_events_distinct(after, rest);
            assert(stoppable(self.state_of(s[0]@)));
            assert(!views(rest).contains(s[0]@)) by {
                if views(rest).contains(s[0]@) {
                    let q = choose|q: int| 0 <= q < views(rest).len() && views(rest)[q] == s[0]@;
                    assert(rest[q] == s[q + 1]);
                    assert(s[0]@ != s[q + 1]@);
                }
            }
        }
    }

    proof fn lemma_events_frame(self, a: Self, b: Self, s: Seq<ModuleId>)
        requires
            forall|k: Seq<char>| views(s).contains(k) ==> a.state_of(k) == b.state_of(k),
        ensures
            self.stop_events(a, s) == self.stop_events(b, s),
        decreases s.len(),
    {
        if s.len() > 0 {
            let rest = s.drop_first();
            assert forall|k: Seq<char>| views(rest).contains(k) implies a.state_of(k) == b.state_of(k) by {
                let q = choose|q: int| 0 <= q < views(rest).len() && views(rest)[q] == k;
                assert(views(s)[q + 1] == k);
            }
            assert(views(s)[0] == s[0]@);
            self.lemma_events_frame(a, b, rest);
        }
    }

    proof fn lemma_report_frame(self, a: Self, b: Self, s: Seq<ModuleId>)
        requires
            forall|k: Seq<char>| views(s).contains(k) ==> a.state_of(k) == b.state_of(k),
        ensures
            self.stop_report(a, s) == self.stop_report(b, s),
        decreases s.len(),
    {
        if s.len() > 0 {
            let rest = s.drop_first();
            assert forall|k: Seq<char>| views(rest).contains(k) implies a.state_of(k) == b.state_of(k) by {
                let q = choose|q: int| 0 <= q < views(rest).len() && views(rest)[q] == k;
                assert(views(s)[q + 1] == k);
            }
            assert(views(s)[0] == s[0]@);
            self.lemma_report_frame(a, b, rest);
        }
    }

    /// Stops modules in reverse order and reports every failure, so that one
    /// broken module does not keep the others from being stopped.
    pub fn stop_all(&mut self, order: &[ModuleId]) -> (r: Vec<LifecycleError>)
        requires
            old(self).wf(),
        ensures
            old(self).stopped(*final(self), order@),
            r@.map_values(|e: LifecycleError| error_key(e)) == old(self).stop_report(*final(self), order@),
            final(self).pending() == old(self).pending() + old(self).stop_events(*final(self), order@),
            forall|q: int|
                0 <= q < r@.len() ==> (#[trigger] r@[q] matches LifecycleError::MissingImplementation(m) && views(
                    order@,
                ).contains(m@) && old(self).state_of(m@) is None) || (r@[q] matches LifecycleError::Module {
                    module,
                    phase,
                    ..
                } && phase == "stop" && final(self).state_of(module@) == Some(ModuleState::Failed)),
    {
        let mut errors: Vec<LifecycleError> = Vec::new();
        let ghost list = order@;
        let mut i: usize = order.len();
        while i > 0
            invariant
                list == order@,
                i <= list.len(),
                self.wf(),
                self.spec_registry() == old(self).spec_registry(),
                forall|k: Seq<char>| (self.module_of(k) is Some) == (old(self).module_of(k) is Some),
                self.context_dir() == old(self).context_dir(),
                forall|k: Seq<char>|
                    #![trigger self.state_of(k)]
                    #![trigger self.module_of(k)]
                    if views(list.skip(i as int)).contains(k) && stoppable(old(self).state_of(k)) {
                        &&& halted(self.state_of(k))
                        &&& self.calls_of(k) == old(self).calls_of(k).push(
                            (ModulePhase::Stop, old(self).context_dir(), self.state_of(k) == Some(ModuleState::Stopped)),
                        )
                    } else {
                        &&& self.state_of(k) == old(self).state_of(k)
                        &&& self.module_of(k) == old(self).module_of(k)
                    },
                forall|q: int|
                    0 <= q < errors@.len() ==> (#[trigger] errors@[q] matches LifecycleError::MissingImplementation(m)
                        && views(list).contains(m@) && old(self).state_of(m@) is None) || (
                    errors@[q] matches LifecycleError::Module { module, phase, .. } && phase == "stop"
                        && self.state_of(module@) == Some(ModuleState::Failed)),
                errors@.map_values(|e: LifecycleError| error_key(e)) == old(self).stop_report(*self, list.skip(i as int)),
                self.pending() == old(self).pending() + old(self).stop_events(*self, list.skip(i as int)),
            decreases i,
        {
            i = i - 1;
            let id = &order[i];
            let ghost key = id@;
            let ghost here = *self;
            proof {
                assert(views(list.skip(i as int)) =~= seq![key] + views(list.skip(i + 1)));
                assert(views(list)[i as int] == key);
                assert(views(list).contains(key));
                assert forall|k: Seq<char>| views(list.skip(i as int)).contains(k) <==> (k == key || views(
                    list.skip(i + 1),
                ).contains(k)) by {
                    let t = views(list.skip(i + 1));
                    if views(list.skip(i as int)).contains(k) {
                        let q = choose|q: int| 0 <= q < views(list.skip(i as int)).len() && views(list.skip(i as int))[q] == k;
                        if q > 0 {
                            assert(t[q - 1] == k);
                        }
                    }
                    if t.contains(k) {
                        let q = choose|q: int| 0 <= q < t.len() && t[q] == k;
                        assert(views(list.skip(i as int))[q + 1] == k);
                    }
                    if k == key {
                        assert(views(list.skip(i as int))[0] == key);
                    }
                }
                assert(list.skip(i as int).drop_first() =~= list.skip(i + 1));
                assert(list.skip(i as int)[0] == list[i as int]);
            }
            let ghost errors_at = errors@;
            let state = match self.state(id) {
                None => {
                    proof {
                        assert(!(views(list.skip(i + 1)).contains(key) && stoppable(old(self).state_of(key))));
                    }
                    errors.push(LifecycleError::MissingImplementation(id.duplicate()));
                    proof {
                        assert(errors@.map_values(|e: LifecycleError| error_key(e)) =~= errors_at.map_values(
                            |e: LifecycleError| error_key(e),
                        ).push((key, true)));
                        assert(old(self).stop_entry(*self, list.skip(i as int)) =~= seq![(key, true)]);
                    }
                    continue;
                },
                Some(s) => s,
            };
            if !(state == ModuleState::Running || state == ModuleState::Initialized) {
                proof {
                    assert(old(self).stop_entry(*self, list.skip(i as int)) =~= Seq::<(Seq<char>, bool)>::empty());
                    assert(old(self).stop_report(*self, list.skip(i as int)) =~= old(self).stop_report(
                        *self,
                        list.skip(i + 1),
                    ));
                }
                continue;
            }
            proof {
                assert(self.state_of(key) == old(self).state_of(key));
            }
            self.mark(id, ModuleState::Stopping);
            let idx = match self.module_index(id) {
                Some(x) => x,
                None => {
                    proof {
                        assert(self.module_of(key) is Some);
                    }
                    errors.push(LifecycleError::MissingImplementation(id.duplicate()));
                    continue;
                },
            };
            let ghost before = self.modules@;
            let ghost errors_before = errors@;
            let stop_result = self.modules[idx].1.stop(&self.context);
            proof {
                lemma_lookup_update(before, key, idx as int, self.modules@[idx as int]);
                assert(self.modules@ == before.update(idx as int, self.modules@[idx as int]));
            }
            proof {
                assert(!views(list.skip(i + 1)).contains(key));
            }
            match stop_result {
                Ok(()) => {
                    self.mark(id, ModuleState::Stopped);
                    proof {
                        assert forall|k: Seq<char>| views(list.skip(i + 1)).contains(k) implies here.state_of(k)
                            == self.state_of(k) by {
                            assert(k != key);
                        }
                        old(self).lemma_report_frame(here, *self, list.skip(i + 1));
                        assert(old(self).stop_entry(*self, list.skip(i as int)) =~= Seq::<(Seq<char>, bool)>::empty());
                        assert(errors@ == errors_at);
                        old(self).lemma_events_frame(here, *self, list.skip(i + 1));
                        let entry = seq![
                            CoreEvent::ModuleStateChanged { module: *id, state: ModuleState::Stopping },
                            CoreEvent::ModuleStateChanged { module: *id, state: ModuleState::Stopped },
                        ];
                        assert(old(self).stop_entry_events(*self, list.skip(i as int)) =~= entry);
                        assert(self.pending() =~= here.pending() + entry);
                        assert(old(self).pending() + old(self).stop_events(*self, list.skip(i as int)) =~= (
                        old(self).pending() + old(self).stop_events(here, list.skip(i + 1))) + entry);
                    }
                },
                Err(source) => {
                    self.mark(id, ModuleState::Failed);
                    errors.push(
                        LifecycleError::Module { module: id.duplicate(), phase: "stop", source },
                    );
                    proof {
                        assert forall|k: Seq<char>| views(list.skip(i + 1)).contains(k) implies here.state_of(k)
                            == self.state_of(k) by {
                            assert(k != key);
                        }
                        old(self).lemma_report_frame(here, *self, list.skip(i + 1));
                        assert(old(self).stop_entry(*self, list.skip(i as int)) =~= seq![(key, false)]);
                        old(self).lemma_events_frame(here, *self, list.skip(i + 1));
                        let entry = seq![
                            CoreEvent::ModuleStateChanged { module: *id, state: ModuleState::Stopping },
                            CoreEvent::ModuleStateChanged { module: *id, state: ModuleState::Failed },
                        ];
                        assert(old(self).stop_entry_events(*self, list.skip(i as int)) =~= entry);
                        assert(self.pending() =~= here.pending() + entry);
                        assert(old(self).pending() + old(self).stop_events(*self, list.skip(i as int)) =~= (
                        old(self).pending() + old(self).stop_events(here, list.skip(i + 1))) + entry);
                        assert(errors@.map_values(|e: LifecycleError| error_key(e)) =~= errors_at.map_values(
                            |e: LifecycleError| error_key(e),
                        ).push((key, false)));
                    }
                },
            }
            proof {
                assert forall|k: Seq<char>| (self.state_of(k) is Some) <==> (self.module_of(k) is Some) by {
                    if k != key {
                        assert(self.state_of(k) == here.state_of(k));
                        assert(self.module_of(k) is Some == here.module_of(k) is Some);
                    }
                }
                assert(stoppable(old(self).state_of(key)));
                assert forall|k: Seq<char>|
                    #![trigger self.state_of(k)]
                    #![trigger self.module_of(k)]
                    if views(list.skip(i as int)).contains(k) && stoppable(old(self).state_of(k)) {
                        &&& halted(self.state_of(k))
                        &&& self.calls_of(k) == old(self).calls_of(k).push(
                            (ModulePhase::Stop, old(self).context_dir(), self.state_of(k) == Some(ModuleState::Stopped)),
                        )
                    } else {
                        &&& self.state_of(k) == old(self).state_of(k)
                        &&& self.module_of(k) == old(self).module_of(k)
                    } by {
                    if k != key {
                        assert(self.state_of(k) == here.state_of(k));
                        assert(self.module_of(k) == here.module_of(k));
                    }
                }
                assert forall|q: int|
                    0 <= q < errors@.len() implies (#[trigger] errors@[q] matches LifecycleError::MissingImplementation(m)
                        && views(list).contains(m@) && old(self).state_of(m@) is None) || (
                    errors@[q] matches LifecycleError::Module { module, phase, .. } && phase == "stop"
                        && self.state_of(module@) == Some(ModuleState::Failed)) by {
                    if q < errors_before.len() {
                        assert(errors@[q] == errors_before[q]);
                        if let LifecycleError::Module { module, .. } = errors_before[q] {
                            assert(here.state_of(module@) == Some(ModuleState::Failed));
                            assert(module@ != key);
                            assert(self.state_of(module@) == here.state_of(module@));
                        }
                    }
                }
            }
        }
        proof {
            assert(list.skip(0) =~= list);
        }
        errors
    }

    /// Stops the modules initialized so far; cleanup failures are tolerated.
    fn rollback(&mut self, initialized: &Vec<ModuleId>)
        requires
            old(self).wf(),
        ensures
            old(self).stopped(*final(self), initialized@),
            final(self).pending() == old(self).pending() + old(self).stop_events(*final(self), initialized@),
    {
        let _ = self.stop_all(initialized.as_slice());
    }
}


impl<M: NexxusModule> LifecycleManager<M> {
    /// `after` is `self` once starting the modules of `order` failed at
    /// position `p` with `e`: the failing module received a failed
    /// `initialize`, or a successful one and a failed `start`, then one
    /// `stop`, and is `Failed`; the modules before it, started already,
    /// received one `stop` each and ended `Stopped` or `Failed` by its
    /// outcome; the later ones received no call. Every state change was
    /// announced, in the order it happened: the stops last module first.
    pub open spec fn failed_at(self, after: Self, order: Seq<ModuleId>, e: LifecycleError, p: int) -> bool {
        let dir = self.context_dir();
        let key = order[p]@;
        let start_failed = e matches LifecycleError::Module { phase, .. } && phase == "start";
        &&& 0 <= p < order.len()
        &&& e matches LifecycleError::Module { module, phase, .. } && module == order[p] && (phase == "initialize"
            || phase == "start")
        &&& after.state_of(key) == Some(ModuleState::Failed)
        &&& after.calls_of(key) == self.calls_of(key) + failed_calls(start_failed, dir, after.calls_of(key).last().2)
        &&& forall|q: int|
            0 <= q < p ==> halted(after.state_of(#[trigger] order[q]@)) && after.calls_of(order[q]@) == self.calls_of(
                order[q]@,
            ) + startup_calls(dir).push((ModulePhase::Stop, dir, after.state_of(order[q]@) == Some(ModuleState::Stopped)))
        &&& forall|k: Seq<char>|
            #![trigger after.state_of(k)]
            #![trigger after.module_of(k)]
            !views(order.take(p + 1)).contains(k) ==> after.state_of(k) == self.state_of(k) && after.module_of(k)
                == self.module_of(k)
        &&& after.pending() == self.pending() + startup_events(order.take(p)) + (if start_failed {
            seq![CoreEvent::ModuleStateChanged { module: order[p], state: ModuleState::Initialized }]
        } else {
            Seq::<CoreEvent>::empty()
        }) + after.stop_sequence(order.take(p)) + seq![
            CoreEvent::ModuleStateChanged { module: order[p], state: ModuleState::Failed },
        ]
    }

    /// `after` is `self` once the modules of `order` were started in order,
    /// each with the core's context: on success each received a successful
    /// `initialize` and `start` and is `Running`; on a failure, see
    /// `failed_at`. No other module received a call or changed state.
    pub open spec fn started(self, after: Self, order: Seq<ModuleId>, r: Result<Vec<ModuleId>, LifecycleError>) -> bool {
        &&& after.wf()
        &&& after.spec_registry() == self.spec_registry()
        &&& after.context_dir() == self.context_dir()
        &&& forall|k: Seq<char>| (after.module_of(k) is Some) == (self.module_of(k) is Some)
        &&& match r {
            Ok(v) => {
                &&& v@ == order
                &&& after.pending() == self.pending() + startup_events(order)
                &&& forall|k: Seq<char>|
                    #![trigger after.state_of(k)]
                    #![trigger after.module_of(k)]
                    if views(order).contains(k) {
                        &&& after.state_of(k) == Some(ModuleState::Running)
                        &&& after.calls_of(k) == self.calls_of(k) + startup_calls(self.context_dir())
                    } else {
                        &&& after.state_of(k) == self.state_of(k)
                        &&& after.module_of(k) == self.module_of(k)
                    }
            },
            Err(e) => exists|p: int| #[trigger] self.failed_at(after, order, e, p),
        }
    }

    /// A successful start reports the order it started the modules in.
    pub proof fn lemma_started_order(self, after: Self, order: Seq<ModuleId>, v: Vec<ModuleId>)
        requires
            self.started(after, order, Ok(v)),
        ensures
            v@ == order,
    {
    }

    /// The registry of a well-formed lifecycle is well formed.
    pub proof fn lemma_registry_wf(self)
        requires
            self.wf(),
        ensures
            self.spec_registry().wf(),
    {
    }

    /// Starting the modules of an order and then stopping that order leaves
    /// each of them `Stopped` or `Failed`, having received exactly an
    /// `initialize`, a `start` and a `stop`, in that order, each with the
    /// core's context; the `stop` succeeded exactly for the `Stopped` ones.
    /// Every other module received no call and keeps its state.
    pub proof fn lemma_start_then_stop(
        self,
        running: Self,
        after: Self,
        order: Seq<ModuleId>,
        v: Vec<ModuleId>,
    )
        requires
            self.started(running, order, Ok(v)),
            running.stopped(after, order),
        ensures
            forall|k: Seq<char>|
                #![trigger after.state_of(k)]
                #![trigger after.module_of(k)]
                if views(order).contains(k) {
                    &&& halted(after.state_of(k))
                    &&& after.calls_of(k) == self.calls_of(k) + startup_calls(self.context_dir()).push(
                        (ModulePhase::Stop, self.context_dir(), after.state_of(k) == Some(ModuleState::Stopped)),
                    )
                } else {
                    &&& after.state_of(k) == self.state_of(k)
                    &&& after.module_of(k) == self.module_of(k)
                },
            after.spec_registry() == self.spec_registry(),
    {
        assert forall|k: Seq<char>|
            #![trigger after.state_of(k)]
            #![trigger after.module_of(k)]
            if views(order).contains(k) {
                &&& halted(after.state_of(k))
                &&& after.calls_of(k) == self.calls_of(k) + startup_calls(self.context_dir()).push(
                    (ModulePhase::Stop, self.context_dir(), after.state_of(k) == Some(ModuleState::Stopped)),
                )
            } else {
                &&& after.state_of(k) == self.state_of(k)
                &&& after.module_of(k) == self.module_of(k)
            } by {
            assert(running.state_of(k) == running.state_of(k));
            assert(running.module_of(k) == running.module_of(k));
            if views(order).contains(k) {
                assert(after.calls_of(k) =~= self.calls_of(k) + startup_calls(self.context_dir()).push(
                    (ModulePhase::Stop, self.context_dir(), after.state_of(k) == Some(ModuleState::Stopped)),
                ));
            }
        }
    }

    /// A lifecycle left by starting modules is well formed.
    pub proof fn lemma_started_wf(self, after: Self, order: Seq<ModuleId>, r: Result<Vec<ModuleId>, LifecycleError>)
        requires
            self.started(after, order, r),
        ensures
            after.wf(),
            after.spec_registry() == self.spec_registry(),
    {
    }

    /// Starts every resolved module, dependencies first, once the whole
    /// order has passed the implementation and state checks: no module is
    /// initialized while a later one is missing.
    pub fn start_all(&mut self, selections: &CapabilitySelections) -> (r: Result<Vec<ModuleId>, LifecycleError>)
        requires
            old(self).wf(),
        ensures
            match resolution(old(self).spec_registry().modules(), selections.selected()) {
                Err(e) => r matches Err(x) && x == LifecycleError::Registry(e) && *final(self) == *old(self),
                Ok(order) => match old(self).preflight_error(order, order.len() as int) {
                    Some(e) => r matches Err(x) && x == e && *final(self) == *old(self),
                    None => old(self).started(*final(self), order, r),
                },
            },
    {
        let order = match self.registry.resolve_order(selections) {
            Ok(o) => o,
            Err(e) => return Err(LifecycleError::Registry(e)),
        };
        match self.preflight_start(&order) {
            Err(e) => return Err(e),
            Ok(()) => {},
        }
        proof {
            self.lemma_preflight_ok(order@, order@.len() as int);
        }
        let ghost start = *self;
        proof {
            assert(start == *old(self));
            start.lemma_registry_wf();
            start.spec_registry().lemma_wf_sorted();
            lemma_resolution_order(start.spec_registry().modules(), selections.selected());
            assert(order@.take(0) =~= Seq::<ModuleId>::empty());
        }
        let mut initialized: Vec<ModuleId> = Vec::new();
        let mut i: usize = 0;
        let ghost dir = start.context_dir();
        while i < order.len()
            invariant
                start == *old(self),
                dir == start.context_dir(),
                resolution(start.spec_registry().modules(), selections.selected()) == Ok::<
                    Seq<ModuleId>,
                    RegistryError,
                >(order@),
                start.preflight_error(order@, order@.len() as int) is None,
                i <= order@.len(),
                self.wf(),
                self.spec_registry() == start.spec_registry(),
                self.context_dir() == dir,
                forall|k: Seq<char>| (self.module_of(k) is Some) == (start.module_of(k) is Some),
                forall|q: int| 0 <= q < order@.len() ==> start.preflight_issue(#[trigger] order@[q]) is None,
                initialized@ == order@.take(i as int),
                forall|k: Seq<char>|
                    #![trigger self.state_of(k)]
                    #![trigger self.module_of(k)]
                    if views(order@.take(i as int)).contains(k) {
                        &&& self.state_of(k) == Some(ModuleState::Running)
                        &&& self.calls_of(k) == start.calls_of(k) + startup_calls(dir)
                    } else {
                        &&& self.state_of(k) == start.state_of(k)
                        &&& self.module_of(k) == start.module_of(k)
                    },
                forall|a: int, b: int| 0 <= a < b < order@.len() ==> order@[a]@ != order@[b]@,
                self.pending() == start.pending() + startup_events(order@.take(i as int)),
            decreases order@.len() - i,
        {
            let id = &order[i];
            let ghost key = id@;
            proof {
                assert(start.preflight_issue(order@[i as int]) is None);
                assert(start.module_of(key) is Some);
                assert(start.state_of(key) is Some);
                lemma_views_take(order@, i as int);
                self.lemma_abandon_ready(start, order@, i as int);
                assert(self.module_of(key) == start.module_of(key));
            }
            let idx = match self.module_index(id) {
                Some(x) => x,
                None => return Err(LifecycleError::MissingImplementation(id.duplicate())),
            };
            let ghost before = self.modules@;
            let ghost pre = *self;
            let initialize_result = self.modules[idx].1.initialize(&self.context);
            proof {
                lemma_lookup_update(before, key, idx as int, self.modules@[idx as int]);
                assert(self.modules@ == before.update(idx as int, self.modules@[idx as int]));
                assert forall|k: Seq<char>| (self.state_of(k) is Some) <==> (self.module_of(k) is Some) by {
                    assert(self.state_of(k) == pre.state_of(k));
                    assert(pre.state_of(k) is Some <==> pre.module_of(k) is Some);
                }
            }
            let ghost here = *self;
            proof {
                assert forall|k: Seq<char>| #![trigger here.state_of(k)] here.state_of(k) == pre.state_of(k) by {}
                assert forall|k: Seq<char>| (here.module_of(k) is Some) == (pre.module_of(k) is Some) by {}
                assert forall|k: Seq<char>| #![trigger here.module_of(k)] k != key implies here.module_of(k)
                    == pre.module_of(k) by {}
                assert(here.calls_of(key) == start.calls_of(key).push(
                    (ModulePhase::Initialize, dir, initialize_result is Ok),
                ));
            }
            if let Err(source) = initialize_result {
                self.abandon(id, &initialized);
                proof {
                    self.lemma_failure(start, here, order@, i as int);
                    assert(order@[i as int] == *id);
                }
                let err = LifecycleError::Module { module: id.duplicate(), phase: "initialize", source };
                proof {
                    let p = i as int;
                    assert(self.pending() =~= start.pending() + startup_events(order@.take(p)) + Seq::<CoreEvent>::empty()
                        + self.stop_sequence(order@.take(p)) + seq![
                        CoreEvent::ModuleStateChanged { module: order@[p], state: ModuleState::Failed },
                    ]);
                    assert(self.calls_of(key) =~= start.calls_of(key) + failed_calls(false, dir, self.calls_of(key).last().2));
                    assert(start.failed_at(*self, order@, err, p));
                }
                return Err(err);
            }
            self.mark(id, ModuleState::Initialized);
            initialized.push(id.duplicate());
            let ghost marked = *self;
            let idx2 = match self.module_index(id) {
                Some(x) => x,
                None => return Err(LifecycleError::MissingImplementation(id.duplicate())),
            };
            let ghost before2 = self.modules@;
            let ghost pre2 = *self;
            let start_result = self.modules[idx2].1.start(&self.context);
            proof {
                lemma_lookup_update(before2, key, idx2 as int, self.modules@[idx2 as int]);
                assert(self.modules@ == before2.update(idx2 as int, self.modules@[idx2 as int]));
                assert forall|k: Seq<char>| (self.state_of(k) is Some) <==> (self.module_of(k) is Some) by {
                    assert(self.state_of(k) == pre2.state_of(k));
                    assert(pre2.state_of(k) is Some <==> pre2.module_of(k) is Some);
                }
            }
            let ghost there = *self;
            proof {
                assert forall|k: Seq<char>| #![trigger there.state_of(k)] there.state_of(k) == pre2.state_of(k) by {}
                assert forall|k: Seq<char>|
                    #![trigger there.state_of(k)]
                    k != key implies there.state_of(k) == pre.state_of(k) by {
                    assert(marked.state_of(k) == here.state_of(k));
                }
                assert forall|k: Seq<char>| (there.module_of(k) is Some) == (pre.module_of(k) is Some) by {
                    assert(marked.module_of(k) == here.module_of(k));
                }
                assert forall|k: Seq<char>| #![trigger there.module_of(k)] k != key implies there.module_of(k)
                    == pre.module_of(k) by {
                    assert(marked.module_of(k) == here.module_of(k));
                }
                assert(marked.module_of(key) == here.module_of(key));
                assert(there.calls_of(key) == start.calls_of(key).push((ModulePhase::Initialize, dir, true)).push(
                    (ModulePhase::Start, dir, start_result is Ok),
                ));
            }
            if let Err(source) = start_result {
                initialized.pop();
                proof {
                    assert(initialized@ =~= order@.take(i as int));
                }
                self.abandon(id, &initialized);
                proof {
                    self.lemma_failure(start, there, order@, i as int);
                    assert(order@[i as int] == *id);
                }
                let err = LifecycleError::Module { module: id.duplicate(), phase: "start", source };
                proof {
                    let p = i as int;
                    assert(self.pending() =~= start.pending() + startup_events(order@.take(p)) + seq![
                        CoreEvent::ModuleStateChanged { module: order@[p], state: ModuleState::Initialized },
                    ] + self.stop_sequence(order@.take(p)) + seq![
                        CoreEvent::ModuleStateChanged { module: order@[p], state: ModuleState::Failed },
                    ]);
                    assert(self.calls_of(key) =~= start.calls_of(key) + failed_calls(true, dir, self.calls_of(key).last().2));
                    assert(start.failed_at(*self, order@, err, p));
                }
                return Err(err);
            }
            self.mark(id, ModuleState::Running);
            proof {
                assert(initialized@ =~= order@.take(i + 1));
                assert(self.calls_of(key) =~= start.calls_of(key) + startup_calls(dir));
                assert forall|k: Seq<char>|
                    #![trigger self.state_of(k)]
                    #![trigger self.module_of(k)]
                    if views(order@.take(i + 1)).contains(k) {
                        &&& self.state_of(k) == Some(ModuleState::Running)
                        &&& self.calls_of(k) == start.calls_of(k) + startup_calls(dir)
                    } else {
                        &&& self.state_of(k) == start.state_of(k)
                        &&& self.module_of(k) == start.module_of(k)
                    } by {
                    if k != key {
                        assert(self.state_of(k) == there.state_of(k));
                        assert(self.module_of(k) == there.module_of(k));
                        assert(there.module_of(k) == pre.module_of(k));
                    }
                }
                assert forall|k: Seq<char>| (self.module_of(k) is Some) == (start.module_of(k) is Some) by {
                    assert(self.module_of(k) == there.module_of(k));
                }
                assert(order@.take(i + 1).drop_last() =~= order@.take(i as int));
                assert(order@.take(i + 1).last() == *id);
                assert(self.pending() =~= start.pending() + startup_events(order@.take(i + 1)));
            }
            i = i + 1;
        }
        proof {
            assert(order@.take(i as int) =~= order@);
        }
        Ok(initialized)
    }

    /// What `abandon` needs at position `p` of the start order: the modules
    /// before it running and named once, and the module itself not among them.
    proof fn lemma_abandon_ready(self, start: Self, order: Seq<ModuleId>, p: int)
        requires
            0 <= p < order.len(),
            forall|a: int, b: int| 0 <= a < b < order.len() ==> order[a]@ != order[b]@,
            forall|k: Seq<char>|
                #![trigger self.state_of(k)]
                k != order[p]@ ==> if views(order.take(p)).contains(k) {
                    self.state_of(k) == Some(ModuleState::Running)
                } else {
                    self.state_of(k) == start.state_of(k)
                },
        ensures
            forall|q: int| 0 <= q < order.take(p).len() ==> self.state_of(#[trigger] order.take(p)[q]@) == Some(
                ModuleState::Running,
            ),
            forall|a: int, b: int| 0 <= a < b < order.take(p).len() ==> order.take(p)[a]@ != order.take(p)[b]@,
            !views(order.take(p)).contains(order[p]@),
    {
        assert forall|q: int| 0 <= q < order.take(p).len() implies self.state_of(#[trigger] order.take(p)[q]@)
            == Some(ModuleState::Running) by {
            assert(views(order.take(p))[q] == order.take(p)[q]@);
            assert(order.take(p)[q] == order[q]);
        }
        if views(order.take(p)).contains(order[p]@) {
            let q = choose|q: int| 0 <= q < views(order.take(p)).len() && views(order.take(p))[q] == order[p]@;
            assert(order.take(p)[q] == order[q]);
        }
    }

    /// Gives up on a module that failed to initialize or start: asks it to
    /// stop, stops the ones started before it, last first, and marks it
    /// `Failed`.
    fn abandon(&mut self, id: &ModuleId, initialized: &Vec<ModuleId>)
        requires
            old(self).wf(),
            old(self).state_of(id@) is Some,
            forall|q: int| 0 <= q < initialized@.len() ==> old(self).state_of(#[trigger] initialized@[q]@) == Some(
                ModuleState::Running,
            ),
            forall|a: int, b: int| 0 <= a < b < initialized@.len() ==> initialized@[a]@ != initialized@[b]@,
            !views(initialized@).contains(id@),
        ensures
            final(self).wf(),
            final(self).spec_registry() == old(self).spec_registry(),
            forall|k: Seq<char>| (final(self).module_of(k) is Some) == (old(self).module_of(k) is Some),
            final(self).context_dir() == old(self).context_dir(),
            final(self).state_of(id@) == Some(ModuleState::Failed),
            final(self).calls_of(id@) == old(self).calls_of(id@).push(
                (ModulePhase::Stop, old(self).context_dir(), final(self).calls_of(id@).last().2),
            ),
            forall|k: Seq<char>|
                #![trigger final(self).state_of(k)]
                #![trigger final(self).module_of(k)]
                k != id@ ==> if views(initialized@).contains(k) && stoppable(old(self).state_of(k)) {
                    &&& halted(final(self).state_of(k))
                    &&& final(self).calls_of(k) == old(self).calls_of(k).push(
                        (ModulePhase::Stop, old(self).context_dir(), final(self).state_of(k) == Some(ModuleState::Stopped)),
                    )
                } else {
                    &&& final(self).state_of(k) == old(self).state_of(k)
                    &&& final(self).module_of(k) == old(self).module_of(k)
                },
            final(self).pending() == old(self).pending() + final(self).stop_sequence(initialized@) + seq![
                CoreEvent::ModuleStateChanged { module: *id, state: ModuleState::Failed },
            ],
    {
        self.cleanup_failed_module(id);
        let ghost cleaned = *self;
        self.rollback(initialized);
        let ghost rolled = *self;
        proof {
            assert(rolled.state_of(id@) == cleaned.state_of(id@));
        }
        self.mark(id, ModuleState::Failed);
        proof {
            assert(cleaned.module_of(id@) == rolled.module_of(id@));
            assert forall|k: Seq<char>| (self.state_of(k) is Some) <==> (self.module_of(k) is Some) by {
                if k != id@ {
                    assert(self.state_of(k) == rolled.state_of(k));
                }
            }
            assert forall|k: Seq<char>|
                #![trigger self.state_of(k)]
                #![trigger self.module_of(k)]
                k != id@ implies if views(initialized@).contains(k) && stoppable(old(self).state_of(k)) {
                    &&& halted(self.state_of(k))
                    &&& self.calls_of(k) == old(self).calls_of(k).push(
                        (ModulePhase::Stop, old(self).context_dir(), self.state_of(k) == Some(ModuleState::Stopped)),
                    )
                } else {
                    &&& self.state_of(k) == old(self).state_of(k)
                    &&& self.module_of(k) == old(self).module_of(k)
                } by {
                assert(self.state_of(k) == rolled.state_of(k));
                assert(self.module_of(k) == rolled.module_of(k));
                assert(cleaned.module_of(k) == old(self).module_of(k));
                assert(cleaned.state_of(k) == old(self).state_of(k));
                assert(rolled.state_of(k) == rolled.state_of(k));
                assert(rolled.module_of(k) == rolled.module_of(k));
            }
            cleaned.lemma_stop_events_distinct(rolled, initialized@);
            assert forall|q: int| 0 <= q < initialized@.len() implies self.state_of(#[trigger] initialized@[q]@)
                == rolled.state_of(initialized@[q]@) by {
                assert(views(initialized@)[q] == initialized@[q]@);
            }
            self.lemma_sequence_frame(rolled, initialized@);
        }
    }

    /// What a failure at position `p` leaves: the earlier modules stopped, the
    /// failing one `Failed`, the later ones untouched.
    proof fn lemma_failure(self, start: Self, here: Self, order: Seq<ModuleId>, p: int)
        requires
            0 <= p < order.len(),
            self.state_of(order[p]@) == Some(ModuleState::Failed),
            !views(order.take(p)).contains(order[p]@),
            here.context_dir() == start.context_dir(),
            self.context_dir() == start.context_dir(),
            forall|k: Seq<char>|
                #![trigger here.state_of(k)]
                #![trigger here.module_of(k)]
                k != order[p]@ ==> if views(order.take(p)).contains(k) {
                    &&& here.state_of(k) == Some(ModuleState::Running)
                    &&& here.calls_of(k) == start.calls_of(k) + startup_calls(start.context_dir())
                } else {
                    &&& here.state_of(k) == start.state_of(k)
                    &&& here.module_of(k) == start.module_of(k)
                },
            forall|k: Seq<char>|
                #![trigger self.state_of(k)]
                #![trigger self.module_of(k)]
                k != order[p]@ ==> if views(order.take(p)).contains(k) && stoppable(here.state_of(k)) {
                    &&& halted(self.state_of(k))
                    &&& self.calls_of(k) == here.calls_of(k).push(
                        (ModulePhase::Stop, here.context_dir(), self.state_of(k) == Some(ModuleState::Stopped)),
                    )
                } else {
                    &&& self.state_of(k) == here.state_of(k)
                    &&& self.module_of(k) == here.module_of(k)
                },
        ensures
            forall|q: int|
                0 <= q < p ==> halted(self.state_of(#[trigger] order[q]@)) && self.calls_of(order[q]@)
                    == start.calls_of(order[q]@) + startup_calls(start.context_dir()).push(
                    (ModulePhase::Stop, start.context_dir(), self.state_of(order[q]@) == Some(ModuleState::Stopped)),
                ),
            forall|k: Seq<char>|
                #![trigger self.state_of(k)]
                #![trigger self.module_of(k)]
                !views(order.take(p + 1)).contains(k) ==> self.state_of(k) == start.state_of(k) && self.module_of(k)
                    == start.module_of(k),
    {
        lemma_views_take(order, p);
        let dir = start.context_dir();
        assert forall|q: int| 0 <= q < p implies halted(self.state_of(#[trigger] order[q]@)) && self.calls_of(
            order[q]@,
        ) == start.calls_of(order[q]@) + startup_calls(dir).push(
            (ModulePhase::Stop, dir, self.state_of(order[q]@) == Some(ModuleState::Stopped)),
        ) by {
            let k = order[q]@;
            assert(views(order.take(p))[q] == k);
            assert(views(order.take(p)).contains(k));
            if k != order[p]@ {
                assert(here.state_of(k) == Some(ModuleState::Running));
                assert(here.calls_of(k) == start.calls_of(k) + startup_calls(dir));
                assert(self.calls_of(k) == here.calls_of(k).push(
                    (ModulePhase::Stop, dir, self.state_of(k) == Some(ModuleState::Stopped)),
                ));
                assert(self.calls_of(k) =~= start.calls_of(k) + startup_calls(dir).push(
                    (ModulePhase::Stop, dir, self.state_of(k) == Some(ModuleState::Stopped)),
                ));
            }
        }
        assert forall|k: Seq<char>| !views(order.take(p + 1)).contains(k) implies self.state_of(k) == start.state_of(k)
            && self.module_of(k) == start.module_of(k) by {
            assert(k != order[p]@);
            assert(!views(order.take(p)).contains(k));
            assert(here.state_of(k) == start.state_of(k));
            assert(here.module_of(k) == start.module_of(k));
            assert(self.state_of(k) == here.state_of(k));
            assert(self.module_of(k) == here.module_of(k));
        }
    }
}

proof fn lemma_views_take(s: Seq<ModuleId>, i: int)
    requires
        0 <= i < s.len(),
    ensures
        forall|k: Seq<char>|
            #![trigger views(s.take(i + 1)).contains(k)]
            #![trigger views(s.take(i)).contains(k)]
            views(s.take(i + 1)).contains(k) <==> (views(s.take(i)).contains(k) || k == s[i]@),
{
    assert(views(s.take(i + 1)) =~= views(s.take(i)).push(s[i]@));
    assert forall|k: Seq<char>| views(s.take(i + 1)).contains(k) <==> (views(s.take(i)).contains(k) || k == s[i]@) by {
        let a = views(s.take(i));
        let t = views(s.take(i + 1));
        if t.contains(k) {
            let q = choose|q: int| 0 <= q < t.len() && t[q] == k;
            if q < a.len() {
                assert(a[q] == k);
            }
        }
        if a.contains(k) {
            let q = choose|q: int| 0 <= q < a.len() && a[q] == k;
            assert(t[q] == k);
        }
        if k == s[i]@ {
            assert(t[i] == k);
        }
    }
}

} // verus!
