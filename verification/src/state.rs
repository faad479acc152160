//! The state of an isolate: its realms, and the modules and scripts that were
//! compiled in them.
//!
//! What the engine itself holds is reached through handles, whose types an
//! `Engine` names.

use std::collections::HashMap;
use vstd::prelude::*;
use vstd::std_specs::iter::IteratorSpec;

use crate::error::copy_lines;
use crate::error::lines_of;
use crate::error::Refusal;
use crate::request::Request;

verus! {

/// The types of an engine's handles.
pub trait Engine {
    type Context;

    type Queue;

    type Module;

    type Script;

    type Function;

    type Token;

    type Resolver;

    type Raised;
}

/// A realm: a context, and the queue of its microtasks.
pub struct Realm<E: Engine> {
    pub context: E::Context,
    pub queue: E::Queue,
}

/// A compiled module: the url that it was compiled with, the realm that it was
/// compiled in, and its identity hash, which it may share with others.
pub struct ModuleEntry<E: Engine> {
    pub handle: E::Module,
    pub url: String,
    pub context_id: i32,
    pub hash: i32,
}

/// A compiled script and the realm that it was compiled in.
pub struct ScriptEntry<E: Engine> {
    pub handle: E::Script,
    pub context_id: i32,
}

/// The state of an isolate.
pub struct IsolateState<E: Engine> {
    main: Option<Realm<E>>,
    realms: HashMap<i32, Realm<E>>,
    next_context_id: i32,
    graveyard: Option<E::Queue>,
    retiring: Vec<Realm<E>>,
    host_namespace: Option<String>,
    security_token: Option<E::Token>,
    promise_reject_handler: Option<(i32, E::Function)>,
    modules: HashMap<i32, ModuleEntry<E>>,
    by_hash: HashMap<i32, Vec<i32>>,
    next_module_id: i32,
    scripts: HashMap<i32, ScriptEntry<E>>,
    next_script_id: i32,
    active_realms: Vec<i32>,
    instantiating: bool,
    watchdog_fired: bool,
    auto_microtasks: bool,
    draining: bool,
    instantiate_resolve: Option<E::Resolver>,
    instantiate_raised: Option<E::Raised>,
    oom_fired: bool,
    oom_initial_limit: usize,
    timeout_backtrace: Option<Vec<String>>,
}

/// What the state of an isolate says.
pub struct StateView<E: Engine> {
    /// The isolate's own realm, number zero.
    pub main: Option<Realm<E>>,
    /// The other realms by number.
    pub realms: Map<i32, Realm<E>>,
    pub next_context_id: i32,
    /// The queue that the contexts of retired realms are left with.
    pub graveyard: Option<E::Queue>,
    /// The realms that were reset or disposed of and not let go of yet.
    pub retiring: Seq<Realm<E>>,
    pub host_namespace: Option<Seq<char>>,
    /// What makes all realms count as one origin.
    pub security_token: Option<E::Token>,
    /// The script function that hears of rejected promises, and its realm.
    pub handler: Option<(i32, E::Function)>,
    pub modules: Map<i32, ModuleEntry<E>>,
    pub next_module_id: i32,
    pub scripts: Map<i32, ScriptEntry<E>>,
    pub next_script_id: i32,
    /// The realms that operations are under way in, the innermost last.
    pub active: Seq<i32>,
    /// A module is being linked.
    pub instantiating: bool,
    /// A deadline has passed during the operations under way.
    pub watchdog_fired: bool,
    /// Queues are drained at the end of an outermost operation.
    pub auto_microtasks: bool,
    /// Queues are being drained.
    pub draining: bool,
    /// What resolves imports while a module is being linked.
    pub resolve: Option<E::Resolver>,
    /// What that has raised.
    pub raised: Option<E::Raised>,
    /// The heap has come up to its limit.
    pub oom_fired: bool,
    /// The limit that it came up to first.
    pub oom_initial_limit: usize,
    /// The script's stack when a deadline passed.
    pub backtrace: Option<Seq<Seq<char>>>,
}

/// The modules but for those of one realm.
pub open spec fn modules_outside<E: Engine>(
    modules: Map<i32, ModuleEntry<E>>,
    context_id: i32,
) -> Map<i32, ModuleEntry<E>> {
    Map::new(
        |id: i32| modules.contains_key(id) && modules[id].context_id != context_id,
        |id: i32| modules[id],
    )
}

/// The scripts but for those of one realm.
pub open spec fn scripts_outside<E: Engine>(
    scripts: Map<i32, ScriptEntry<E>>,
    context_id: i32,
) -> Map<i32, ScriptEntry<E>> {
    Map::new(
        |id: i32| scripts.contains_key(id) && scripts[id].context_id != context_id,
        |id: i32| scripts[id],
    )
}

impl<E: Engine> StateView<E> {
    /// The realm with this number.
    pub open spec fn realm(self, context_id: i32) -> Option<Realm<E>> {
        if context_id == 0 {
            self.main
        } else if self.realms.contains_key(context_id) {
            Some(self.realms[context_id])
        } else {
            None
        }
    }

    /// The state once everything that was compiled in a realm is gone, and with it
    /// a function of that realm that hears of rejected promises.
    pub open spec fn without_artifacts(self, context_id: i32) -> StateView<E> {
        StateView {
            modules: modules_outside(self.modules, context_id),
            scripts: scripts_outside(self.scripts, context_id),
            handler: match self.handler {
                Some((realm, _)) => if realm == context_id {
                    None
                } else {
                    self.handler
                },
                None => None,
            },
            ..self
        }
    }

    /// Why a realm cannot be reset, if it cannot: its context must not be swapped
    /// under a microtask or an operation that is under way in it.
    pub open spec fn reset_refusal(self, context_id: i32) -> Option<Refusal> {
        if self.draining {
            Some(Refusal::ResetWhileDraining)
        } else if context_id != 0 && !self.realms.contains_key(context_id) {
            Some(Refusal::ContextGone)
        } else if self.active.contains(context_id) {
            Some(Refusal::ResetWhileSuspended)
        } else {
            None
        }
    }

    /// The state once a realm has been reset to a fresh one.
    pub open spec fn after_reset(self, context_id: i32, fresh: Realm<E>) -> StateView<E> {
        let swapped = if context_id == 0 {
            StateView { main: Some(fresh), ..self }
        } else {
            StateView { realms: self.realms.insert(context_id, fresh), ..self }
        };
        StateView {
            retiring: match self.realm(context_id) {
                Some(old_realm) => self.retiring.push(old_realm),
                None => self.retiring,
            },
            ..swapped
        }.without_artifacts(context_id)
    }

    /// Why a realm cannot be disposed of, if it cannot.
    pub open spec fn dispose_refusal(self, context_id: i32) -> Option<Refusal> {
        if self.draining {
            Some(Refusal::DisposeWhileDraining)
        } else if self.active.contains(context_id) {
            Some(Refusal::DisposeWhileSuspended)
        } else {
            None
        }
    }

    /// The state once a realm has been disposed of. The isolate's own realm is
    /// not, but what was compiled in it is gone.
    pub open spec fn after_dispose(self, context_id: i32) -> StateView<E> {
        StateView {
            realms: self.realms.remove(context_id),
            retiring: if self.realms.contains_key(context_id) {
                self.retiring.push(self.realms[context_id])
            } else {
                self.retiring
            },
            ..self
        }.without_artifacts(context_id)
    }

    /// The realm that an operation runs in, if it runs in one.
    pub open spec fn realm_of(self, request: Request) -> Option<i32> {
        match request {
            Request::Eval { context_id, .. } => Some(context_id),
            Request::Call { context_id, .. } => Some(context_id),
            Request::Attach { context_id, .. } => Some(context_id),
            Request::AttachMany { context_id, .. } => Some(context_id),
            Request::CompileModule { context_id, .. } => Some(context_id),
            Request::CompileScript { context_id, .. } => Some(context_id),
            Request::DrainMicrotasks { .. } => Some(0),
            Request::InstantiateModule { module_id } => self.module_realm(module_id),
            Request::EvaluateModule { module_id, .. } => self.module_realm(module_id),
            Request::ModuleNamespace { module_id } => self.module_realm(module_id),
            Request::RunScript { script_id, .. } => self.script_realm(script_id),
            _ => None,
        }
    }

    /// The realm that a module was compiled in.
    pub open spec fn module_realm(self, module_id: i32) -> Option<i32> {
        if self.modules.contains_key(module_id) {
            Some(self.modules[module_id].context_id)
        } else {
            None
        }
    }

    /// The realm that a script was compiled in.
    pub open spec fn script_realm(self, script_id: i32) -> Option<i32> {
        if self.scripts.contains_key(script_id) {
            Some(self.scripts[script_id].context_id)
        } else {
            None
        }
    }
}

/// The keys of a map, each once, in no particular order.
fn keys_of<T>(map: &HashMap<i32, T>) -> (keys: Vec<i32>)
    ensures
        keys@.no_duplicates(),
        forall|k: i32| keys@.contains(k) <==> #[trigger] map@.contains_key(k),
{
    broadcast use vstd::std_specs::hash::group_hash_axioms;

    let ghost all = vstd::std_specs::hash::spec_keys_iter(map).remaining().unref();
    let mut keys: Vec<i32> = Vec::new();
    for k in it: map.keys()
        invariant
            it.seq().unref() == all,
            all.to_set() == map@.dom(),
            it.seq().no_duplicates(),
            keys@ == all.take(it.index()),
    {
        assert(*k == all[it.index()]);
        keys.push(*k);
        assert(keys@ =~= all.take(it.index() + 1));
    }
    assert(all.take(all.len() as int) =~= all);
    assert(keys@.to_set() == map@.dom());
    keys
}

/// The numbers but for one.
pub open spec fn ids_without(ids: Seq<i32>, id: i32) -> Seq<i32>
    decreases ids.len(),
{
    if ids.len() == 0 {
        seq![]
    } else if ids.last() == id {
        ids_without(ids.drop_last(), id)
    } else {
        ids_without(ids.drop_last(), id).push(ids.last())
    }
}

proof fn lemma_ids_without(ids: Seq<i32>, id: i32)
    ensures
        !ids_without(ids, id).contains(id),
        forall|k: i32| k != id ==> (#[trigger] ids.contains(k) <==> ids_without(ids, id).contains(k)),
    decreases ids.len(),
{
    if ids.len() > 0 {
        let fewer = ids.drop_last();
        lemma_ids_without(fewer, id);
        let rest = ids_without(fewer, id);
        let all = ids_without(ids, id);
        assert forall|k: i32| k != id implies (#[trigger] ids.contains(k) <==> all.contains(k)) by {
            if ids.contains(k) {
                let i = choose|i: int| 0 <= i < ids.len() && ids[i] == k;
                if i < ids.len() - 1 {
                    assert(fewer[i] == k);
                    assert(fewer.contains(k));
                    assert(rest.contains(k));
                    let j = choose|j: int| 0 <= j < rest.len() && rest[j] == k;
                    assert(all[j] == k);
                } else {
                    assert(all.last() == k);
                }
            }
            if all.contains(k) {
                let j = choose|j: int| 0 <= j < all.len() && all[j] == k;
                if j < rest.len() {
                    assert(rest[j] == k);
                    assert(rest.contains(k));
                    assert(fewer.contains(k));
                    let i = choose|i: int| 0 <= i < fewer.len() && fewer[i] == k;
                    assert(ids[i] == k);
                } else {
                    assert(ids.last() == k);
                }
            }
        }
        if all.contains(id) {
            let j = choose|j: int| 0 <= j < all.len() && all[j] == id;
            if j < rest.len() {
                assert(rest[j] == id);
            }
        }
    }
}

fn drop_id(ids: Vec<i32>, id: i32) -> (rest: Vec<i32>)
    ensures
        rest@ == ids_without(ids@, id),
{
    let mut rest: Vec<i32> = Vec::new();
    let mut i: usize = 0;
    assert(ids@.take(0) =~= seq![]);
    while i < ids.len()
        invariant
            i <= ids@.len(),
            rest@ == ids_without(ids@.take(i as int), id),
        decreases ids@.len() - i,
    {
        assert(ids@.take(i + 1).drop_last() =~= ids@.take(i as int));
        if ids[i] != id {
            rest.push(ids[i]);
        }
        i = i + 1;
    }
    assert(ids@.take(i as int) =~= ids@);
    rest
}

impl<E: Engine> IsolateState<E> {
    pub closed spec fn view(&self) -> StateView<E> {
        StateView {
            main: self.main,
            realms: self.realms@,
            next_context_id: self.next_context_id,
            graveyard: self.graveyard,
            retiring: self.retiring@,
            host_namespace: match self.host_namespace {
                Some(s) => Some(s@),
                None => None,
            },
            security_token: self.security_token,
            handler: self.promise_reject_handler,
            modules: self.modules@,
            next_module_id: self.next_module_id,
            scripts: self.scripts@,
            next_script_id: self.next_script_id,
            active: self.active_realms@,
            instantiating: self.instantiating,
            watchdog_fired: self.watchdog_fired,
            auto_microtasks: self.auto_microtasks,
            draining: self.draining,
            resolve: self.instantiate_resolve,
            raised: self.instantiate_raised,
            oom_fired: self.oom_fired,
            oom_initial_limit: self.oom_initial_limit,
            backtrace: lines_of(self.timeout_backtrace),
        }
    }

    /// A module is found under its hash, and only there.
    spec fn indexed(self) -> bool {
        &&& forall|h: i32, k: int|
            #![trigger self.by_hash@[h]@[k]]
            self.by_hash@.contains_key(h) && 0 <= k < self.by_hash@[h]@.len()
                ==> self.modules@.contains_key(self.by_hash@[h]@[k])
                && self.modules@[self.by_hash@[h]@[k]].hash == h
        &&& forall|id: i32| #[trigger]
            self.modules@.contains_key(id) ==> self.by_hash@.contains_key(self.modules@[id].hash)
                && self.by_hash@[self.modules@[id].hash]@.contains(id)
    }

    /// Numbers are given out once, and zero stands for the isolate's own realm.
    pub closed spec fn wf(self) -> bool {
        &&& self.next_context_id >= 1
        &&& forall|id: i32| #[trigger]
            self.realms@.contains_key(id) ==> 1 <= id < self.next_context_id
        &&& forall|id: i32| #[trigger]
            self.modules@.contains_key(id) ==> id < self.next_module_id
        &&& forall|id: i32| #[trigger]
            self.scripts@.contains_key(id) ==> id < self.next_script_id
        &&& self.indexed()
    }

    /// The state of a new isolate.
    pub fn new(host_namespace: Option<String>, auto_microtasks: bool) -> (state: Self)
        ensures
            state.wf(),
            state@ == (StateView::<E> {
                main: None,
                realms: Map::empty(),
                next_context_id: 1,
                graveyard: None,
                retiring: seq![],
                host_namespace: match host_namespace {
                    Some(s) => Some(s@),
                    None => None,
                },
                security_token: None,
                handler: None,
                modules: Map::empty(),
                next_module_id: 0,
                scripts: Map::empty(),
                next_script_id: 0,
                active: seq![],
                instantiating: false,
                watchdog_fired: false,
                auto_microtasks,
                draining: false,
                resolve: None,
                raised: None,
                oom_fired: false,
                oom_initial_limit: 0,
                backtrace: None,
            }),
    {
        broadcast use vstd::std_specs::hash::group_hash_axioms;

        IsolateState {
            main: None,
            realms: HashMap::new(),
            next_context_id: 1,
            graveyard: None,
            retiring: Vec::new(),
            host_namespace,
            security_token: None,
            promise_reject_handler: None,
            modules: HashMap::new(),
            by_hash: HashMap::new(),
            next_module_id: 0,
            scripts: HashMap::new(),
            next_script_id: 0,
            active_realms: Vec::new(),
            instantiating: false,
            watchdog_fired: false,
            auto_microtasks,
            draining: false,
            instantiate_resolve: None,
            instantiate_raised: None,
            oom_fired: false,
            oom_initial_limit: 0,
            timeout_backtrace: None,
        }
    }

    /// Takes in the isolate's own realm, and the queue that retired realms are
    /// left with.
    pub fn boot(&mut self, main: Realm<E>, graveyard: E::Queue)
        requires
            old(self).wf(),
        ensures
            final(self).wf(),
            final(self)@ == (StateView {
                main: Some(main),
                graveyard: Some(graveyard),
                ..old(self)@
            }),
    {
        self.main = Some(main);
        self.graveyard = Some(graveyard);
    }

    /// The context of a realm, if there is such a realm.
    pub fn context_for(&self, context_id: i32) -> (context: Option<&E::Context>)
        ensures
            match context {
                Some(c) => self@.realm(context_id) is Some && self@.realm(context_id)->0.context
                    == *c,
                None => self@.realm(context_id) is None,
            },
    {
        broadcast use vstd::std_specs::hash::group_hash_axioms;

        if context_id == 0 {
            match &self.main {
                Some(realm) => Some(&realm.context),
                None => None,
            }
        } else {
            match self.realms.get(&context_id) {
                Some(realm) => Some(&realm.context),
                None => None,
            }
        }
    }

    /// A module and its realm.
    pub fn module_handle(&self, module_id: i32) -> (found: Option<(&E::Module, i32)>)
        ensures
            match found {
                Some((handle, realm)) => self@.modules.contains_key(module_id)
                    && self@.modules[module_id].handle == *handle
                    && self@.modules[module_id].context_id == realm,
                None => !self@.modules.contains_key(module_id),
            },
    {
        broadcast use vstd::std_specs::hash::group_hash_axioms;

        match self.modules.get(&module_id) {
            Some(entry) => Some((&entry.handle, entry.context_id)),
            None => None,
        }
    }

    /// A script and its realm.
    pub fn script_handle(&self, script_id: i32) -> (found: Option<(&E::Script, i32)>)
        ensures
            match found {
                Some((handle, realm)) => self@.scripts.contains_key(script_id)
                    && self@.scripts[script_id].handle == *handle
                    && self@.scripts[script_id].context_id == realm,
                None => !self@.scripts.contains_key(script_id),
            },
    {
        broadcast use vstd::std_specs::hash::group_hash_axioms;

        match self.scripts.get(&script_id) {
            Some(entry) => Some((&entry.handle, entry.context_id)),
            None => None,
        }
    }

    /// The url of the module that `same` says yes to. Only modules with its
    /// identity hash are looked at.
    pub fn module_url<F: Fn(&E::Module) -> bool>(&self, hash: i32, same: F) -> (url: Option<&String>)
        requires
            self.wf(),
            forall|m: &E::Module| #[trigger] call_requires(same, (m,)),
        ensures
            match url {
                Some(u) => exists|id: i32| #[trigger]
                    self@.modules.contains_key(id) && self@.modules[id].hash == hash
                        && call_ensures(same, (&self@.modules[id].handle,), true)
                        && self@.modules[id].url == *u,
                None => forall|id: i32| #[trigger]
                    self@.modules.contains_key(id) && self@.modules[id].hash == hash
                        ==> call_ensures(same, (&self@.modules[id].handle,), false),
            },
    {
        broadcast use vstd::std_specs::hash::group_hash_axioms;

        let bucket = match self.by_hash.get(&hash) {
            Some(bucket) => bucket,
            None => {
                return None;
            },
        };
        let mut i: usize = 0;
        while i < bucket.len()
            invariant
                self.wf(),
                forall|m: &E::Module| #[trigger] call_requires(same, (m,)),
                self.by_hash@.contains_key(hash),
                self.by_hash@[hash] == *bucket,
                i <= bucket@.len(),
                forall|k: int|
                    0 <= k < i ==> call_ensures(
                        same,
                        (&self.modules@[#[trigger] bucket@[k]].handle,),
                        false,
                    ),
            decreases bucket@.len() - i,
        {
            let id: i32 = bucket[i];
            assert(self.by_hash@[hash]@[i as int] == id);
            assert(self@.modules.contains_key(id));
            if let Some(entry) = self.modules.get(&id) {
                if same(&entry.handle) {
                    return Some(&entry.url);
                }
            }
            i = i + 1;
        }
        None
    }

    /// The number of the realm whose context `same` says yes to. The isolate's
    /// own realm is looked at first.
    pub fn id_of_context<F: Fn(&E::Context) -> bool>(&self, same: F) -> (id: Option<i32>)
        requires
            forall|c: &E::Context| #[trigger] call_requires(same, (c,)),
        ensures
            match id {
                Some(k) => self@.realm(k) is Some && call_ensures(
                    same,
                    (&self@.realm(k)->0.context,),
                    true,
                ) && (k != 0 && self@.main is Some ==> call_ensures(
                    same,
                    (&self@.main->0.context,),
                    false,
                )),
                None => forall|k: i32|
                    (#[trigger] self@.realm(k)) is Some ==> call_ensures(
                        same,
                        (&self@.realm(k)->0.context,),
                        false,
                    ),
            },
    {
        broadcast use vstd::std_specs::hash::group_hash_axioms;

        if let Some(realm) = &self.main {
            if same(&realm.context) {
                return Some(0);
            }
        }
        let ids = keys_of(&self.realms);
        let mut i: usize = 0;
        while i < ids.len()
            invariant
                forall|c: &E::Context| #[trigger] call_requires(same, (c,)),
                forall|k: i32| ids@.contains(k) <==> #[trigger] self.realms@.contains_key(k),
                i <= ids@.len(),
                self@.main is Some ==> call_ensures(same, (&self@.main->0.context,), false),
                forall|k: int|
                    0 <= k < i ==> ids@[k] == 0 || call_ensures(
                        same,
                        (&self.realms@[#[trigger] ids@[k]].context,),
                        false,
                    ),
            decreases ids@.len() - i,
        {
            let id: i32 = ids[i];
            assert(ids@.contains(id));
            if id != 0 {
                if let Some(realm) = self.realms.get(&id) {
                    if same(&realm.context) {
                        return Some(id);
                    }
                }
            }
            i = i + 1;
        }
        assert forall|k: i32| (#[trigger] self@.realm(k)) is Some implies call_ensures(
            same,
            (&self@.realm(k)->0.context,),
            false,
        ) by {
            if k != 0 {
                assert(self.realms@.contains_key(k));
                let j = choose|j: int| 0 <= j < ids@.len() && ids@[j] == k;
                assert(ids@[j] == k);
            }
        }
        None
    }
}

/// A realm marked as one that an operation is under way in.
#[derive(Debug, Clone, Copy, PartialEq, Eq)]
pub struct Ticket {
    pub realm: Option<i32>,
    pub outermost: bool,
}

/// What is left to do once an operation has ended.
pub struct Cleanup<E: Engine> {
    /// Take back a termination that came too late.
    pub cancel_terminate: bool,
    /// Leave these contexts with the graveyard queue, then let go of them.
    pub retired: Vec<Realm<E>>,
}

impl<E: Engine> StateView<E> {
    /// The state while an operation is under way.
    pub open spec fn begun(self, realm: Option<i32>) -> StateView<E> {
        match realm {
            Some(id) => StateView { active: self.active.push(id), ..self },
            None => self,
        }
    }

    /// The state once an operation has ended. An outermost one sweeps up: a
    /// deadline that passed is forgotten, and retired realms are let go of.
    pub open spec fn ended(self, ticket: Ticket) -> StateView<E> {
        let popped = match ticket.realm {
            Some(_) => StateView {
                active: if self.active.len() > 0 {
                    self.active.drop_last()
                } else {
                    self.active
                },
                ..self
            },
            None => self,
        };
        if ticket.outermost {
            StateView {
                watchdog_fired: false,
                retiring: if self.graveyard is Some {
                    seq![]
                } else {
                    self.retiring
                },
                ..popped
            }
        } else {
            popped
        }
    }
}

impl<E: Engine> StateView<E> {
    /// What marks an operation, and whether a termination left over from before is
    /// to be taken back as it begins.
    pub open spec fn ticket_for(self, request: Request, outermost: bool) -> (Ticket, bool) {
        (Ticket { realm: self.realm_of(request), outermost }, outermost)
    }

    /// What is left to do once an operation has ended: whether a termination that
    /// came too late is to be taken back, and which realms are let go of.
    pub open spec fn left_to_do(self, ticket: Ticket) -> (bool, Seq<Realm<E>>) {
        (
            ticket.outermost && self.watchdog_fired,
            if ticket.outermost && self.graveyard is Some {
                self.retiring
            } else {
                seq![]
            },
        )
    }

    /// The state once the heap has come up to its limit, which was this at first.
    pub open spec fn near_limit(self, initial: usize) -> StateView<E> {
        StateView { oom_fired: true, oom_initial_limit: initial, ..self }
    }

    /// The limit that the heap goes back to, if it has come up to its limit.
    pub open spec fn restored_limit(self, memory_limit: usize) -> Option<usize> {
        if !self.oom_fired {
            None
        } else if memory_limit > 0 {
            Some(memory_limit)
        } else {
            Some(self.oom_initial_limit)
        }
    }

    /// The state once a function has been registered to hear of rejected promises,
    /// or none.
    pub open spec fn heard_by(self, function: Option<E::Function>, realm: Option<i32>) -> StateView<E> {
        StateView {
            handler: match (function, realm) {
                (Some(f), Some(id)) => Some((id, f)),
                (Some(f), None) => Some((0, f)),
                (None, _) => None,
            },
            ..self
        }
    }
}

/// The limit that a heap gets for now once it has come up to this one.
pub open spec fn raised_limit(current: usize) -> usize {
    if 2 * current <= usize::MAX {
        (2 * current) as usize
    } else {
        usize::MAX
    }
}

impl<E: Engine> IsolateState<E> {
    /// Takes a module out of the index and the registry.
    fn remove_module(&mut self, module_id: i32)
        requires
            old(self).wf(),
        ensures
            final(self).wf(),
            final(self)@ == (StateView { modules: old(self)@.modules.remove(module_id), ..old(self)@ }),
    {
        broadcast use vstd::std_specs::hash::group_hash_axioms;

        let entry = match self.modules.remove(&module_id) {
            Some(entry) => entry,
            None => {
                assert(self.modules@ =~= old(self).modules@);
                return;
            },
        };
        let hash: i32 = entry.hash;
        let ghost buckets = self.by_hash@;
        let bucket = match self.by_hash.remove(&hash) {
            Some(bucket) => bucket,
            None => Vec::new(),
        };
        let ghost ids = bucket@;
        proof {
            lemma_ids_without(ids, module_id);
        }
        let rest = drop_id(bucket, module_id);
        self.by_hash.insert(hash, rest);
        proof {
            assert(old(self).modules@.contains_key(module_id));
            assert(buckets[hash]@ == ids);
            assert forall|h: i32, k: int|
                #![trigger self.by_hash@[h]@[k]]
                self.by_hash@.contains_key(h) && 0 <= k
                    < self.by_hash@[h]@.len() implies self.modules@.contains_key(
                self.by_hash@[h]@[k],
            ) && self.modules@[self.by_hash@[h]@[k]].hash == h by {
                let id = self.by_hash@[h]@[k];
                if h == hash {
                    assert(rest@.contains(id));
                    assert(id != module_id);
                    assert(ids.contains(id));
                    let j = choose|j: int| 0 <= j < ids.len() && ids[j] == id;
                    assert(buckets[hash]@[j] == id);
                } else {
                    assert(buckets[h]@[k] == id);
                }
            }
            assert forall|id: i32| #[trigger]
                self.modules@.contains_key(id) implies self.by_hash@.contains_key(
                self.modules@[id].hash,
            ) && self.by_hash@[self.modules@[id].hash]@.contains(id) by {
                assert(old(self).modules@.contains_key(id));
                if self.modules@[id].hash == hash {
                    assert(ids.contains(id));
                }
            }
        }
    }

    /// Drops whatever was compiled in a realm, and a function of that realm that
    /// hears of rejected promises.
    pub fn drop_context_artifacts(&mut self, context_id: i32)
        requires
            old(self).wf(),
        ensures
            final(self).wf(),
            final(self)@ == old(self)@.without_artifacts(context_id),
    {
        broadcast use vstd::std_specs::hash::group_hash_axioms;

        let ids = keys_of(&self.modules);
        let mut i: usize = 0;
        while i < ids.len()
            invariant
                self.wf(),
                self@ == (StateView { modules: self@.modules, ..old(self)@ }),
                forall|k: i32| ids@.contains(k) <==> #[trigger] old(self)@.modules.contains_key(k),
                ids@.no_duplicates(),
                i <= ids@.len(),
                forall|k: i32| #[trigger]
                    self@.modules.contains_key(k) ==> old(self)@.modules.contains_key(k)
                        && self@.modules[k] == old(self)@.modules[k],
                forall|j: int|
                    0 <= j < i ==> (self@.modules.contains_key(#[trigger] ids@[j]) <==> old(
                        self,
                    )@.modules[ids@[j]].context_id != context_id),
                forall|j: int|
                    i <= j < ids@.len() ==> self@.modules.contains_key(#[trigger] ids@[j]),
            decreases ids@.len() - i,
        {
            let id: i32 = ids[i];
            let here = match self.modules.get(&id) {
                Some(entry) => entry.context_id == context_id,
                None => false,
            };
            if here {
                self.remove_module(id);
            }
            i = i + 1;
        }
        proof {
            assert forall|k: i32| #[trigger]
                self@.modules.contains_key(k) <==> modules_outside(
                    old(self)@.modules,
                    context_id,
                ).contains_key(k) by {
                if old(self)@.modules.contains_key(k) {
                    let j = choose|j: int| 0 <= j < ids@.len() && ids@[j] == k;
                    assert(ids@[j] == k);
                }
            }
            assert(self@.modules =~= modules_outside(old(self)@.modules, context_id));
        }
        self.drop_context_scripts(context_id);
        let here = match &self.promise_reject_handler {
            Some((realm, _)) => *realm == context_id,
            None => false,
        };
        if here {
            self.promise_reject_handler = None;
        }
    }

    fn drop_context_scripts(&mut self, context_id: i32)
        requires
            old(self).wf(),
        ensures
            final(self).wf(),
            final(self)@ == (StateView {
                scripts: scripts_outside(old(self)@.scripts, context_id),
                ..old(self)@
            }),
    {
        broadcast use vstd::std_specs::hash::group_hash_axioms;

        let ids = keys_of(&self.scripts);
        let mut i: usize = 0;
        while i < ids.len()
            invariant
                self.wf(),
                self@ == (StateView { scripts: self@.scripts, ..old(self)@ }),
                forall|k: i32| ids@.contains(k) <==> #[trigger] old(self)@.scripts.contains_key(k),
                ids@.no_duplicates(),
                i <= ids@.len(),
                forall|k: i32| #[trigger]
                    self@.scripts.contains_key(k) ==> old(self)@.scripts.contains_key(k)
                        && self@.scripts[k] == old(self)@.scripts[k],
                forall|j: int|
                    0 <= j < i ==> (self@.scripts.contains_key(#[trigger] ids@[j]) <==> old(
                        self,
                    )@.scripts[ids@[j]].context_id != context_id),
                forall|j: int|
                    i <= j < ids@.len() ==> self@.scripts.contains_key(#[trigger] ids@[j]),
            decreases ids@.len() - i,
        {
            let id: i32 = ids[i];
            let here = match self.scripts.get(&id) {
                Some(entry) => entry.context_id == context_id,
                None => false,
            };
            if here {
                self.scripts.remove(&id);
            }
            i = i + 1;
        }
        proof {
            assert forall|k: i32| #[trigger]
                self@.scripts.contains_key(k) <==> scripts_outside(
                    old(self)@.scripts,
                    context_id,
                ).contains_key(k) by {
                if old(self)@.scripts.contains_key(k) {
                    let j = choose|j: int| 0 <= j < ids@.len() && ids@[j] == k;
                    assert(ids@[j] == k);
                }
            }
            assert(self@.scripts =~= scripts_outside(old(self)@.scripts, context_id));
        }
    }

    /// Is an operation under way in this realm?
    fn is_active(&self, context_id: i32) -> (yes: bool)
        ensures
            yes == self@.active.contains(context_id),
    {
        let mut i: usize = 0;
        while i < self.active_realms.len()
            invariant
                i <= self.active_realms@.len(),
                forall|k: int| 0 <= k < i ==> self.active_realms@[k] != context_id,
            decreases self.active_realms@.len() - i,
        {
            if self.active_realms[i] == context_id {
                assert(self.active_realms@[i as int] == context_id);
                return true;
            }
            i = i + 1;
        }
        false
    }

    /// Why a realm cannot be reset, if it cannot.
    pub fn reset_refused(&self, context_id: i32) -> (refusal: Option<Refusal>)
        ensures
            refusal == self@.reset_refusal(context_id),
    {
        broadcast use vstd::std_specs::hash::group_hash_axioms;

        if self.draining {
            Some(Refusal::ResetWhileDraining)
        } else if context_id != 0 && !self.realms.contains_key(&context_id) {
            Some(Refusal::ContextGone)
        } else if self.is_active(context_id) {
            Some(Refusal::ResetWhileSuspended)
        } else {
            None
        }
    }

    /// Swaps a realm for a fresh one, unless something forbids it. The one that it
    /// had is retired.
    pub fn op_reset(&mut self, context_id: i32, fresh: Realm<E>) -> (out: Result<(), Refusal>)
        requires
            old(self).wf(),
        ensures
            final(self).wf(),
            match old(self)@.reset_refusal(context_id) {
                Some(refusal) => out == Err::<(), Refusal>(refusal) && final(self)@ == old(self)@,
                None => out is Ok && final(self)@ == old(self)@.after_reset(context_id, fresh),
            },
    {
        broadcast use vstd::std_specs::hash::group_hash_axioms;

        if let Some(refusal) = self.reset_refused(context_id) {
            return Err(refusal);
        }
        let replaced = if context_id == 0 {
            let replaced = self.main.take();
            self.main = Some(fresh);
            replaced
        } else {
            self.realms.insert(context_id, fresh)
        };
        if let Some(realm) = replaced {
            self.retiring.push(realm);
        }
        self.drop_context_artifacts(context_id);
        Ok(())
    }

    /// Are there numbers left for a realm, a module and a script?
    pub fn has_room(&self) -> (yes: bool)
        ensures
            yes == (self@.next_context_id < i32::MAX && self@.next_module_id < i32::MAX
                && self@.next_script_id < i32::MAX),
    {
        self.next_context_id < i32::MAX && self.next_module_id < i32::MAX && self.next_script_id
            < i32::MAX
    }

    /// Sets a number aside for a new realm.
    pub fn reserve_context_id(&mut self) -> (id: i32)
        requires
            old(self).wf(),
            old(self)@.next_context_id < i32::MAX,
        ensures
            final(self).wf(),
            id == old(self)@.next_context_id,
            !old(self)@.realms.contains_key(id),
            final(self)@ == (StateView { next_context_id: (id + 1) as i32, ..old(self)@ }),
    {
        let id: i32 = self.next_context_id;
        self.next_context_id = id + 1;
        id
    }

    /// Takes in a new realm under a number that was set aside for it.
    pub fn add_realm(&mut self, id: i32, fresh: Realm<E>)
        requires
            old(self).wf(),
            1 <= id < old(self)@.next_context_id,
        ensures
            final(self).wf(),
            final(self)@ == (StateView { realms: old(self)@.realms.insert(id, fresh), ..old(self)@ }),
    {
        broadcast use vstd::std_specs::hash::group_hash_axioms;

        self.realms.insert(id, fresh);
    }

    /// Disposes of a realm, unless something is under way that forbids it.
    pub fn op_dispose_context(&mut self, context_id: i32) -> (out: Result<(), Refusal>)
        requires
            old(self).wf(),
        ensures
            final(self).wf(),
            match old(self)@.dispose_refusal(context_id) {
                Some(refusal) => out == Err::<(), Refusal>(refusal) && final(self)@ == old(self)@,
                None => out is Ok && final(self)@ == old(self)@.after_dispose(context_id),
            },
    {
        broadcast use vstd::std_specs::hash::group_hash_axioms;

        if self.draining {
            return Err(Refusal::DisposeWhileDraining);
        }
        if self.is_active(context_id) {
            return Err(Refusal::DisposeWhileSuspended);
        }
        match self.realms.remove(&context_id) {
            Some(realm) => {
                self.retiring.push(realm);
            },
            None => {
                assert(self.realms@ =~= old(self).realms@.remove(context_id));
            },
        }
        self.drop_context_artifacts(context_id);
        Ok(())
    }

    /// Takes in a compiled module and returns its number.
    pub fn register_module(&mut self, entry: ModuleEntry<E>) -> (id: i32)
        requires
            old(self).wf(),
            old(self)@.next_module_id < i32::MAX,
        ensures
            final(self).wf(),
            id == old(self)@.next_module_id,
            !old(self)@.modules.contains_key(id),
            final(self)@ == (StateView {
                modules: old(self)@.modules.insert(id, entry),
                next_module_id: (id + 1) as i32,
                ..old(self)@
            }),
    {
        broadcast use vstd::std_specs::hash::group_hash_axioms;

        let id: i32 = self.next_module_id;
        self.next_module_id = id + 1;
        let hash: i32 = entry.hash;
        let ghost buckets = self.by_hash@;
        let mut bucket = match self.by_hash.remove(&hash) {
            Some(bucket) => bucket,
            None => Vec::new(),
        };
        let ghost ids = bucket@;
        bucket.push(id);
        self.by_hash.insert(hash, bucket);
        self.modules.insert(id, entry);
        proof {
            assert forall|h: i32, k: int|
                #![trigger self.by_hash@[h]@[k]]
                self.by_hash@.contains_key(h) && 0 <= k
                    < self.by_hash@[h]@.len() implies self.modules@.contains_key(
                self.by_hash@[h]@[k],
            ) && self.modules@[self.by_hash@[h]@[k]].hash == h by {
                if h == hash {
                    if k < ids.len() {
                        assert(buckets.contains_key(hash));
                        assert(buckets[hash]@[k] == ids[k]);
                    }
                } else {
                    assert(buckets[h]@[k] == self.by_hash@[h]@[k]);
                }
            }
            assert forall|m: i32| #[trigger]
                self.modules@.contains_key(m) implies self.by_hash@.contains_key(
                self.modules@[m].hash,
            ) && self.by_hash@[self.modules@[m].hash]@.contains(m) by {
                if m == id {
                    assert(bucket@[ids.len() as int] == id);
                } else {
                    assert(old(self).modules@.contains_key(m));
                    if self.modules@[m].hash == hash {
                        let j = choose|j: int| 0 <= j < ids.len() && ids[j] == m;
                        assert(bucket@[j] == m);
                    }
                }
            }
        }
        id
    }

    /// Takes in a compiled script and returns its number.
    pub fn register_script(&mut self, entry: ScriptEntry<E>) -> (id: i32)
        requires
            old(self).wf(),
            old(self)@.next_script_id < i32::MAX,
        ensures
            final(self).wf(),
            id == old(self)@.next_script_id,
            !old(self)@.scripts.contains_key(id),
            final(self)@ == (StateView {
                scripts: old(self)@.scripts.insert(id, entry),
                next_script_id: (id + 1) as i32,
                ..old(self)@
            }),
    {
        broadcast use vstd::std_specs::hash::group_hash_axioms;

        let id: i32 = self.next_script_id;
        self.next_script_id = id + 1;
        self.scripts.insert(id, entry);
        id
    }

    /// Lets go of a module.
    pub fn op_dispose_module(&mut self, module_id: i32)
        requires
            old(self).wf(),
        ensures
            final(self).wf(),
            final(self)@ == (StateView { modules: old(self)@.modules.remove(module_id), ..old(self)@ }),
    {
        self.remove_module(module_id);
    }

    /// Lets go of a script.
    pub fn op_dispose_script(&mut self, script_id: i32)
        requires
            old(self).wf(),
        ensures
            final(self).wf(),
            final(self)@ == (StateView { scripts: old(self)@.scripts.remove(script_id), ..old(self)@ }),
    {
        broadcast use vstd::std_specs::hash::group_hash_axioms;

        self.scripts.remove(&script_id);
        assert(self.scripts@ =~= old(self).scripts@.remove(script_id));
    }

    /// The realm that an operation runs in, if it runs in one.
    pub fn request_realm(&self, request: &Request) -> (realm: Option<i32>)
        ensures
            realm == self@.realm_of(*request),
    {
        match request {
            Request::Eval { context_id, .. } => Some(*context_id),
            Request::Call { context_id, .. } => Some(*context_id),
            Request::Attach { context_id, .. } => Some(*context_id),
            Request::AttachMany { context_id, .. } => Some(*context_id),
            Request::CompileModule { context_id, .. } => Some(*context_id),
            Request::CompileScript { context_id, .. } => Some(*context_id),
            Request::DrainMicrotasks { .. } => Some(0),
            Request::InstantiateModule { module_id } => self.realm_of_module(*module_id),
            Request::EvaluateModule { module_id, .. } => self.realm_of_module(*module_id),
            Request::ModuleNamespace { module_id } => self.realm_of_module(*module_id),
            Request::RunScript { script_id, .. } => match self.script_handle(*script_id) {
                Some((_, realm)) => Some(realm),
                None => None,
            },
            _ => None,
        }
    }

    fn realm_of_module(&self, module_id: i32) -> (realm: Option<i32>)
        ensures
            realm == self@.module_realm(module_id),
    {
        match self.module_handle(module_id) {
            Some((_, realm)) => Some(realm),
            None => None,
        }
    }

    /// Begins an operation: marks its realm, and says whether a termination left
    /// over from before is to be taken back. Only an outermost operation does so:
    /// a termination may be aimed at an operation that this one is nested in.
    pub fn begin_request(&mut self, request: &Request, outermost: bool) -> (begun: (Ticket, bool))
        requires
            old(self).wf(),
        ensures
            final(self).wf(),
            begun.0 == (Ticket { realm: old(self)@.realm_of(*request), outermost }),
            begun.1 == outermost,
            begun == old(self)@.ticket_for(*request, outermost),
            final(self)@ == old(self)@.begun(old(self)@.realm_of(*request)),
    {
        let realm: Option<i32> = self.request_realm(request);
        if let Some(id) = realm {
            self.active_realms.push(id);
        }
        (Ticket { realm, outermost }, outermost)
    }

    /// Ends an operation.
    pub fn end_request(&mut self, ticket: Ticket) -> (cleanup: Cleanup<E>)
        requires
            old(self).wf(),
        ensures
            final(self).wf(),
            final(self)@ == old(self)@.ended(ticket),
            cleanup.cancel_terminate == (ticket.outermost && old(self)@.watchdog_fired),
            cleanup.retired@ == (if ticket.outermost && old(self)@.graveyard is Some {
                old(self)@.retiring
            } else {
                seq![]
            }),
            (cleanup.cancel_terminate, cleanup.retired@) == old(self)@.left_to_do(ticket),
    {
        if ticket.realm.is_some() {
            self.active_realms.pop();
        }
        if !ticket.outermost {
            return Cleanup { cancel_terminate: false, retired: Vec::new() };
        }
        let cancel_terminate = self.watchdog_fired;
        self.watchdog_fired = false;
        let retired = self.flush_retiring();
        Cleanup { cancel_terminate, retired }
    }

    /// The realms to be let go of. They are kept as long as there is no queue to
    /// leave their contexts with.
    pub fn flush_retiring(&mut self) -> (retired: Vec<Realm<E>>)
        requires
            old(self).wf(),
        ensures
            final(self).wf(),
            old(self)@.graveyard is Some ==> retired@ == old(self)@.retiring && final(self)@ == (
            StateView { retiring: seq![], ..old(self)@ }),
            old(self)@.graveyard is None ==> retired@ == Seq::<Realm<E>>::empty() && final(self)@
                == old(self)@,
    {
        let mut retired: Vec<Realm<E>> = Vec::new();
        if self.graveyard.is_some() {
            std::mem::swap(&mut retired, &mut self.retiring);
        }
        retired
    }
}

impl<E: Engine> StateView<E> {
    /// Is this the queue of one of the realms?
    pub open spec fn is_queue(self, queue: E::Queue) -> bool {
        exists|id: i32| (#[trigger] self.realm(id)) matches Some(realm) && realm.queue == queue
    }
}

/// What is put into the host namespace of each realm.
#[derive(Debug, Clone, Copy, PartialEq, Eq, Structural)]
pub enum HostMember {
    DrainMicrotasks,
    ContextGlobal,
    ContextOf,
    SetPromiseRejectHandler,
    TransferOut,
    TransferIn,
    ShareOut,
    ShareIn,
    TransferDrop,
}

impl HostMember {
    pub open spec fn spelled(self) -> Seq<char> {
        match self {
            HostMember::DrainMicrotasks => "drainMicrotasks"@,
            HostMember::ContextGlobal => "contextGlobal"@,
            HostMember::ContextOf => "contextOf"@,
            HostMember::SetPromiseRejectHandler => "setPromiseRejectHandler"@,
            HostMember::TransferOut => "transferOut"@,
            HostMember::TransferIn => "transferIn"@,
            HostMember::ShareOut => "shareOut"@,
            HostMember::ShareIn => "shareIn"@,
            HostMember::TransferDrop => "transferDrop"@,
        }
    }

    pub fn name(self) -> (name: &'static str)
        ensures
            name@ == self.spelled(),
    {
        match self {
            HostMember::DrainMicrotasks => "drainMicrotasks",
            HostMember::ContextGlobal => "contextGlobal",
            HostMember::ContextOf => "contextOf",
            HostMember::SetPromiseRejectHandler => "setPromiseRejectHandler",
            HostMember::TransferOut => "transferOut",
            HostMember::TransferIn => "transferIn",
            HostMember::ShareOut => "shareOut",
            HostMember::ShareIn => "shareIn",
            HostMember::TransferDrop => "transferDrop",
        }
    }
}

/// The members of the host namespace, in the order in which they are put there.
pub open spec fn host_members() -> Seq<HostMember> {
    seq![
        HostMember::DrainMicrotasks,
        HostMember::ContextGlobal,
        HostMember::ContextOf,
        HostMember::SetPromiseRejectHandler,
        HostMember::TransferOut,
        HostMember::TransferIn,
        HostMember::ShareOut,
        HostMember::ShareIn,
        HostMember::TransferDrop,
    ]
}

/// What a new realm gets.
pub struct RealmPlan<'a, E: Engine> {
    pub token: Option<&'a E::Token>,
    pub namespace: Option<(&'a String, Vec<HostMember>)>,
}

impl<E: Engine> IsolateState<E> {
    /// The name of the host namespace and what a new realm gets under it; nothing
    /// if the isolate has no host namespace.
    pub fn install_host_namespace(&self) -> (plan: Option<(&String, Vec<HostMember>)>)
        ensures
            match plan {
                Some((name, members)) => self@.host_namespace == Some(name@) && members@
                    == host_members(),
                None => self@.host_namespace is None,
            },
    {
        match &self.host_namespace {
            Some(name) => {
                let members = vec![
                    HostMember::DrainMicrotasks,
                    HostMember::ContextGlobal,
                    HostMember::ContextOf,
                    HostMember::SetPromiseRejectHandler,
                    HostMember::TransferOut,
                    HostMember::TransferIn,
                    HostMember::ShareOut,
                    HostMember::ShareIn,
                    HostMember::TransferDrop,
                ];
                assert(members@ =~= host_members());
                Some((name, members))
            },
            None => None,
        }
    }

    /// What a new realm gets besides a context and a queue of its own: the token
    /// that all realms share, or if there is none yet, one that is to be made and
    /// shared; and the host namespace.
    pub fn new_realm(&self) -> (plan: RealmPlan<'_, E>)
        ensures
            match plan.token {
                Some(t) => self@.security_token == Some(*t),
                None => self@.security_token is None,
            },
            match plan.namespace {
                Some((name, members)) => self@.host_namespace == Some(name@) && members@
                    == host_members(),
                None => self@.host_namespace is None,
            },
    {
        RealmPlan { token: self.security_token(), namespace: self.install_host_namespace() }
    }

    /// The token that all realms share, once the first realm has been given one.
    pub fn security_token(&self) -> (token: Option<&E::Token>)
        ensures
            match token {
                Some(t) => self@.security_token == Some(*t),
                None => self@.security_token is None,
            },
    {
        self.security_token.as_ref()
    }

    /// Takes note of the token that all realms share. The first one stays.
    pub fn share_token(&mut self, token: E::Token)
        requires
            old(self).wf(),
        ensures
            final(self).wf(),
            final(self)@ == (StateView {
                security_token: if old(self)@.security_token is Some {
                    old(self)@.security_token
                } else {
                    Some(token)
                },
                ..old(self)@
            }),
    {
        if self.security_token.is_none() {
            self.security_token = Some(token);
        }
    }

    /// The queue that retired realms are left with.
    pub fn graveyard_queue(&self) -> (queue: Option<&E::Queue>)
        ensures
            match queue {
                Some(q) => self@.graveyard == Some(*q),
                None => self@.graveyard is None,
            },
    {
        self.graveyard.as_ref()
    }

    /// Sets the function that hears of rejected promises, with its realm, or none.
    pub fn set_promise_reject_handler(&mut self, handler: Option<(i32, E::Function)>)
        requires
            old(self).wf(),
        ensures
            final(self).wf(),
            final(self)@ == (StateView { handler, ..old(self)@ }),
    {
        self.promise_reject_handler = handler;
    }

    /// The function that hears of rejected promises.
    pub fn promise_reject_handler(&self) -> (handler: Option<&E::Function>)
        ensures
            match handler {
                Some(f) => self@.handler matches Some((_, g)) && g == *f,
                None => self@.handler is None,
            },
    {
        match &self.promise_reject_handler {
            Some((_, f)) => Some(f),
            None => None,
        }
    }

    /// The queues to be drained: the isolate's own realm's first, then those of the
    /// other realms.
    pub fn drain_all_realms(&self) -> (queues: Vec<&E::Queue>)
        requires
            self.wf(),
        ensures
            self@.main is Some ==> queues@.len() > 0 && *queues@[0] == self@.main->0.queue,
            forall|id: i32|
                (#[trigger] self@.realms.contains_key(id)) ==> exists|i: int|
                    0 <= i < queues@.len() && *(#[trigger] queues@[i]) == self@.realms[id].queue,
            forall|i: int| 0 <= i < queues@.len() ==> self@.is_queue(*#[trigger] queues@[i]),
            queues@.len() == self@.realms.len() + if self@.main is Some {
                1nat
            } else {
                0
            },
    {
        broadcast use vstd::std_specs::hash::group_hash_axioms;

        let mut queues: Vec<&E::Queue> = Vec::new();
        if let Some(realm) = &self.main {
            queues.push(&realm.queue);
        }
        let ghost first = queues@.len();
        let ids = keys_of(&self.realms);
        let mut i: usize = 0;
        while i < ids.len()
            invariant
                forall|k: i32| ids@.contains(k) <==> #[trigger] self.realms@.contains_key(k),
                i <= ids@.len(),
                queues@.len() == first + i,
                self@.main is Some ==> first == 1 && *queues@[0] == self@.main->0.queue,
                self@.main is None ==> first == 0,
                forall|k: int|
                    0 <= k < i ==> *(#[trigger] queues@[first + k]) == self.realms@[ids@[k]].queue,
            decreases ids@.len() - i,
        {
            let id: i32 = ids[i];
            assert(ids@.contains(id));
            assert(self.realms@.contains_key(id));
            if let Some(realm) = self.realms.get(&id) {
                queues.push(&realm.queue);
            }
            i = i + 1;
        }
        proof {
            assert(ids@.to_set() =~= self.realms@.dom());
            ids@.unique_seq_to_set();
            assert forall|id: i32| (#[trigger] self@.realms.contains_key(id)) implies exists|
                i: int,
            | 0 <= i < queues@.len() && *(#[trigger] queues@[i]) == self@.realms[id].queue by {
                assert(ids@.contains(id));
                let k = choose|k: int| 0 <= k < ids@.len() && ids@[k] == id;
                assert(*queues@[first + k] == self.realms@[ids@[k]].queue);
            }
            assert forall|i: int| 0 <= i < queues@.len() implies self@.is_queue(
                *#[trigger] queues@[i],
            ) by {
                if i < first {
                    assert(self@.realm(0) == self.main);
                } else {
                    let k = i - first;
                    assert(*queues@[first + k] == self.realms@[ids@[k]].queue);
                    assert(ids@.contains(ids@[k]));
                    assert(self@.realms.contains_key(ids@[k]));
                    assert(self@.realm(ids@[k]) == Some(self@.realms[ids@[k]]));
                }
            }
        }
        queues
    }

    /// Marks that queues are being drained, and returns whether they were already.
    pub fn begin_drain(&mut self) -> (was: bool)
        requires
            old(self).wf(),
        ensures
            final(self).wf(),
            was == old(self)@.draining,
            final(self)@ == (StateView { draining: true, ..old(self)@ }),
    {
        let was = self.draining;
        self.draining = true;
        was
    }

    /// Ends a drain: queues are being drained if they were before it.
    pub fn end_drain(&mut self, was: bool)
        requires
            old(self).wf(),
        ensures
            final(self).wf(),
            final(self)@ == (StateView { draining: was, ..old(self)@ }),
    {
        self.draining = was;
    }

    /// Are queues drained at the end of an outermost operation?
    pub fn is_auto(&self) -> (yes: bool)
        ensures
            yes == self@.auto_microtasks,
    {
        self.auto_microtasks
    }

    /// Is a module being linked?
    pub fn is_instantiating(&self) -> (yes: bool)
        ensures
            yes == self@.instantiating,
    {
        self.instantiating
    }

    /// Marks that a module is being linked, or that none is.
    pub fn set_instantiating(&mut self, instantiating: bool)
        requires
            old(self).wf(),
        ensures
            final(self).wf(),
            final(self)@ == (StateView { instantiating, ..old(self)@ }),
    {
        self.instantiating = instantiating;
    }

    /// Takes note that a deadline has passed.
    pub fn set_watchdog_fired(&mut self)
        requires
            old(self).wf(),
        ensures
            final(self).wf(),
            final(self)@ == (StateView { watchdog_fired: true, ..old(self)@ }),
    {
        self.watchdog_fired = true;
    }

    /// Has the heap come up to its limit?
    pub fn has_oom_fired(&self) -> (yes: bool)
        ensures
            yes == self@.oom_fired,
    {
        self.oom_fired
    }

    /// The heap has come up to its limit: takes note of it, and of the limit that
    /// it had at first, and returns the limit that it gets for now, so that the
    /// script can be unwound.
    pub fn near_heap_limit(&mut self, current: usize, initial: usize) -> (limit: usize)
        requires
            old(self).wf(),
        ensures
            final(self).wf(),
            final(self)@ == (StateView {
                oom_fired: true,
                oom_initial_limit: initial,
                ..old(self)@
            }),
            limit == (if 2 * current <= usize::MAX {
                2 * current
            } else {
                usize::MAX as int
            }),
            limit == raised_limit(current),
            final(self)@ == old(self)@.near_limit(initial),
    {
        self.oom_fired = true;
        self.oom_initial_limit = initial;
        if current <= usize::MAX / 2 {
            2 * current
        } else {
            usize::MAX
        }
    }

    /// If the heap has come up to its limit, forgets that and returns the limit to
    /// go back to: the configured one, or else the one that the heap had at first.
    pub fn take_oom(&mut self, memory_limit: usize) -> (restore_to: Option<usize>)
        requires
            old(self).wf(),
        ensures
            final(self).wf(),
            final(self)@ == (StateView { oom_fired: false, ..old(self)@ }),
            restore_to == (if old(self)@.oom_fired {
                Some(
                    if memory_limit > 0 {
                        memory_limit
                    } else {
                        old(self)@.oom_initial_limit
                    },
                )
            } else {
                None
            }),
            restore_to == old(self)@.restored_limit(memory_limit),
    {
        if !self.oom_fired {
            return None;
        }
        self.oom_fired = false;
        if memory_limit > 0 {
            Some(memory_limit)
        } else {
            Some(self.oom_initial_limit)
        }
    }

    /// Keeps the script's stack, as it was when a deadline passed, or forgets it.
    pub fn set_timeout_backtrace(&mut self, lines: Option<Vec<String>>)
        requires
            old(self).wf(),
        ensures
            final(self).wf(),
            final(self)@ == (StateView { backtrace: lines_of(lines), ..old(self)@ }),
    {
        self.timeout_backtrace = lines;
    }

    /// A copy of the script's stack as it was when a deadline passed. It is kept:
    /// the operations around the one that was stopped name the same frame.
    pub fn peek_timeout_backtrace(&self) -> (lines: Option<Vec<String>>)
        ensures
            lines_of(lines) == self@.backtrace,
    {
        match &self.timeout_backtrace {
            Some(lines) => Some(copy_lines(lines)),
            None => None,
        }
    }

    /// Puts in what resolves imports, and what that has raised, and returns what
    /// was there.
    pub fn swap_instantiate(
        &mut self,
        resolve: Option<E::Resolver>,
        raised: Option<E::Raised>,
    ) -> (was: (Option<E::Resolver>, Option<E::Raised>))
        requires
            old(self).wf(),
        ensures
            final(self).wf(),
            was == (old(self)@.resolve, old(self)@.raised),
            final(self)@ == (StateView { resolve, raised, ..old(self)@ }),
    {
        let mut resolve = resolve;
        let mut raised = raised;
        std::mem::swap(&mut resolve, &mut self.instantiate_resolve);
        std::mem::swap(&mut raised, &mut self.instantiate_raised);
        (resolve, raised)
    }

    /// What resolves imports while a module is being linked.
    pub fn resolver(&self) -> (resolve: Option<&E::Resolver>)
        ensures
            match resolve {
                Some(r) => self@.resolve == Some(*r),
                None => self@.resolve is None,
            },
    {
        self.instantiate_resolve.as_ref()
    }

    /// Keeps what was raised while an import was being resolved.
    pub fn set_raised(&mut self, raised: E::Raised)
        requires
            old(self).wf(),
        ensures
            final(self).wf(),
            final(self)@ == (StateView { raised: Some(raised), ..old(self)@ }),
    {
        self.instantiate_raised = Some(raised);
    }

    /// Lets go of everything that the engine holds, before the isolate goes.
    pub fn teardown(&mut self)
        requires
            old(self).wf(),
        ensures
            final(self).wf(),
            final(self)@ == (StateView {
                main: None,
                realms: Map::<i32, Realm<E>>::empty(),
                next_context_id: 1,
                graveyard: None,
                retiring: seq![],
                host_namespace: None,
                security_token: None,
                handler: None,
                modules: Map::<i32, ModuleEntry<E>>::empty(),
                next_module_id: 0,
                scripts: Map::<i32, ScriptEntry<E>>::empty(),
                next_script_id: 0,
                resolve: None,
                ..old(self)@
            }),
    {
        broadcast use vstd::std_specs::hash::group_hash_axioms;

        self.main = None;
        self.realms.clear();
        self.next_context_id = 1;
        self.graveyard = None;
        self.retiring.clear();
        self.host_namespace = None;
        self.security_token = None;
        self.promise_reject_handler = None;
        self.modules.clear();
        self.by_hash.clear();
        self.next_module_id = 0;
        self.scripts.clear();
        self.next_script_id = 0;
        self.instantiate_resolve = None;
    }
}

/// A realm keeps its number and the shared token when it is reset, and every
/// other realm stays as it is. What was compiled in the realm is gone, and what
/// was compiled in others is not.
pub proof fn law_reset_keeps_the_realm<E: Engine>(
    state: StateView<E>,
    context_id: i32,
    fresh: Realm<E>,
    other: i32,
    id: i32,
)
    requires
        other != context_id,
    ensures
        ({
            let after = state.after_reset(context_id, fresh);
            &&& after.realm(context_id) == Some(fresh)
            &&& after.realm(other) == state.realm(other)
            &&& after.security_token == state.security_token
            &&& after.host_namespace == state.host_namespace
            &&& after.modules.contains_key(id) == (state.modules.contains_key(id)
                && state.modules[id].context_id != context_id)
            &&& after.modules.contains_key(id) ==> after.modules[id] == state.modules[id]
            &&& after.scripts.contains_key(id) == (state.scripts.contains_key(id)
                && state.scripts[id].context_id != context_id)
            &&& after.scripts.contains_key(id) ==> after.scripts[id] == state.scripts[id]
        }),
{
}

/// A realm is not reset while queues are being drained, nor if there is no such
/// realm, nor while an operation is under way in it; in any other case it is.
pub proof fn law_when_reset_is_refused<E: Engine>(state: StateView<E>, context_id: i32)
    ensures
        state.reset_refusal(context_id) is Some <==> state.draining || (context_id != 0
            && state.realm(context_id) is None) || state.active.contains(context_id),
{
}

/// Operations leave the list of realms under way as they found it, however they
/// nest.
pub proof fn law_operations_balance<E: Engine>(
    before: StateView<E>,
    after: StateView<E>,
    ticket: Ticket,
)
    requires
        after.active == before.begun(ticket.realm).active,
    ensures
        after.ended(ticket).active == before.active,
{
    assert(before.begun(ticket.realm).active.len() > 0 ==> ticket.realm is Some ==> before.begun(
        ticket.realm,
    ).active.drop_last() =~= before.active);
}

/// An operation that is under way in a realm keeps that realm from being reset or
/// disposed of by whatever is nested in it.
pub proof fn law_realm_under_way_stays<E: Engine>(
    state: StateView<E>,
    request: Request,
    context_id: i32,
)
    requires
        state.realm_of(request) == Some(context_id),
    ensures
        state.begun(state.realm_of(request)).reset_refusal(context_id) is Some,
        state.begun(state.realm_of(request)).dispose_refusal(context_id) is Some,
{
    let active = state.begun(state.realm_of(request)).active;
    assert(active.last() == context_id);
}

/// An outermost operation leaves nothing behind that could touch the next one: no
/// deadline that has passed, and no retired realm.
pub proof fn law_outermost_operation_sweeps<E: Engine>(state: StateView<E>, ticket: Ticket)
    requires
        ticket.outermost,
        state.graveyard is Some,
    ensures
        !state.ended(ticket).watchdog_fired,
        state.ended(ticket).retiring.len() == 0,
{
}

/// The realm that counts as under way is the one that the operation runs in: the one
/// that the request names, the one that its module or script was compiled in, or for
/// a drain the isolate's own. Other operations run in none.
pub proof fn law_operations_mark_their_realm<E: Engine>(state: StateView<E>, request: Request)
    ensures
        match request {
            Request::Eval { context_id, .. } => state.realm_of(request) == Some(context_id),
            Request::Call { context_id, .. } => state.realm_of(request) == Some(context_id),
            Request::Attach { context_id, .. } => state.realm_of(request) == Some(context_id),
            Request::AttachMany { context_id, .. } => state.realm_of(request) == Some(context_id),
            Request::CompileModule { context_id, .. } => state.realm_of(request) == Some(
                context_id,
            ),
            Request::CompileScript { context_id, .. } => state.realm_of(request) == Some(
                context_id,
            ),
            Request::DrainMicrotasks { .. } => state.realm_of(request) == Some(0i32),
            Request::InstantiateModule { module_id }
            | Request::ModuleNamespace { module_id }
            | Request::EvaluateModule { module_id, .. } => if state.modules.contains_key(
                module_id,
            ) {
                state.realm_of(request) == Some(state.modules[module_id].context_id)
            } else {
                state.realm_of(request) is None
            },
            Request::RunScript { script_id, .. } => if state.scripts.contains_key(script_id) {
                state.realm_of(request) == Some(state.scripts[script_id].context_id)
            } else {
                state.realm_of(request) is None
            },
            _ => state.realm_of(request) is None,
        },
{
}

/// An operation that begins changes nothing but the list of realms under way; one
/// that ends gives back its own place in that list, and if it is nested changes
/// nothing else. An outermost one besides forgets a deadline that passed, and lets
/// go of retired realms if there is a queue to leave their contexts with.
pub proof fn law_operations_touch_little<E: Engine>(
    state: StateView<E>,
    realm: Option<i32>,
    ticket: Ticket,
)
    ensures
        state.begun(realm) == (StateView { active: state.begun(realm).active, ..state }),
        realm matches Some(id) ==> state.begun(realm).active == state.active.push(id),
        realm is None ==> state.begun(realm).active == state.active,
        ({
            let after = state.ended(ticket);
            &&& ticket.realm is Some && state.active.len() > 0 ==> after.active
                == state.active.drop_last()
            &&& ticket.realm is None ==> after.active == state.active
            &&& !ticket.outermost ==> after == (StateView { active: after.active, ..state })
            &&& ticket.outermost ==> after == (StateView {
                active: after.active,
                watchdog_fired: false,
                retiring: after.retiring,
                ..state
            })
            &&& ticket.outermost && state.graveyard is None ==> after.retiring == state.retiring
            &&& ticket.outermost && state.graveyard is Some ==> after.retiring.len() == 0
        }),
{
}

/// A realm that is disposed of goes for good, and what it had compiled with it; a
/// module or a script elsewhere keeps its realm. Why it is refused is told apart.
pub proof fn law_when_disposal_is_refused<E: Engine>(state: StateView<E>, context_id: i32)
    ensures
        state.draining <==> state.dispose_refusal(context_id) == Some(
            Refusal::DisposeWhileDraining,
        ),
        !state.draining && state.active.contains(context_id) <==> state.dispose_refusal(context_id)
            == Some(Refusal::DisposeWhileSuspended),
        !state.draining && !state.active.contains(context_id) <==> state.dispose_refusal(
            context_id,
        ) is None,
{
}

/// A heap that has come up to its limit gets room for the script to be unwound:
/// twice what it had, as far as that can be said.
pub proof fn law_full_heap_gets_room(current: usize)
    ensures
        0 < current < usize::MAX ==> raised_limit(current) > current,
        2 * current <= usize::MAX ==> raised_limit(current) == 2 * current,
        2 * current > usize::MAX ==> raised_limit(current) == usize::MAX,
{
}

/// Once a heap has come up to its limit, that is known until the isolate recovers
/// from it, and the heap goes back to the limit that was asked for, or to the one
/// that it had at first. Nothing else changes by it.
pub proof fn law_heap_limit_goes_back<E: Engine>(
    state: StateView<E>,
    initial: usize,
    memory_limit: usize,
)
    ensures
        state.near_limit(initial).oom_fired,
        state.near_limit(initial) == (StateView {
            oom_fired: true,
            oom_initial_limit: initial,
            ..state
        }),
        memory_limit > 0 ==> state.near_limit(initial).restored_limit(memory_limit) == Some(
            memory_limit,
        ),
        state.near_limit(initial).restored_limit(0) == Some(initial),
        !state.oom_fired ==> state.restored_limit(memory_limit) is None,
{
}

/// Only an outermost operation takes back a termination: one left over from before
/// as it begins, and one that came too late as it ends. A termination during an
/// operation inside another may be aimed at that other one.
pub proof fn law_only_outermost_takes_terminations_back<E: Engine>(
    state: StateView<E>,
    request: Request,
    outermost: bool,
    ticket: Ticket,
)
    ensures
        state.ticket_for(request, outermost).0.realm == state.realm_of(request),
        state.ticket_for(request, outermost).0.outermost == outermost,
        state.ticket_for(request, outermost).1 <==> outermost,
        state.left_to_do(ticket).0 <==> ticket.outermost && state.watchdog_fired,
{
}

/// A retired realm is let go of once, and none is lost: at the end of an operation
/// it is either handed out or kept.
pub proof fn law_retired_realms_are_let_go_of_once<E: Engine>(state: StateView<E>, ticket: Ticket)
    ensures
        state.left_to_do(ticket).1 + state.ended(ticket).retiring == state.retiring,
        state.left_to_do(ticket).1.len() > 0 ==> ticket.outermost && state.graveyard is Some,
        ticket.outermost && state.graveyard is Some ==> state.left_to_do(ticket).1
            == state.retiring,
{
    assert(state.left_to_do(ticket).1 + state.ended(ticket).retiring =~= state.retiring);
}

/// A function that hears of rejected promises does so until another is registered,
/// or none, or its own realm goes; what becomes of other realms is nothing to it.
pub proof fn law_handler_goes_with_its_realm<E: Engine>(
    state: StateView<E>,
    function: E::Function,
    realm: i32,
    other: i32,
)
    requires
        other != realm,
    ensures
        state.heard_by(Some(function), Some(realm)).handler == Some((realm, function)),
        state.heard_by(Some(function), None).handler == Some((0i32, function)),
        state.heard_by(None, Some(realm)).handler is None,
        state.heard_by(None, None).handler is None,
        state.heard_by(Some(function), Some(realm)).without_artifacts(realm).handler is None,
        state.heard_by(Some(function), Some(realm)).without_artifacts(other).handler == Some(
            (realm, function),
        ),
{
}

} // verus!
