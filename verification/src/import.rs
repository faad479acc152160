//! How imports are resolved, and how a dynamic import is carried out.

use vstd::prelude::*;

use crate::error::plain_error;
use crate::error::ErrorClass;
use crate::error::ErrorView;
use crate::error::RubyError;
use crate::jobs::Fault;
use crate::jobs::Got;
use crate::jobs::Turn;
use crate::request::ModuleStatus;
use crate::state::Engine;
use crate::state::IsolateState;
use crate::state::StateView;

verus! {

/// What a resolver returned.
#[derive(Debug, Clone, Copy, PartialEq, Eq)]
pub enum Resolved {
    Nil,
    /// Something that is no module.
    Other,
    Module { module_id: i32, same_isolate: bool, disposed: bool },
}

/// The module that a resolver names: none if it returned nil or a module that was
/// disposed of. It is an error to return anything but a module of this isolate.
pub open spec fn named_module(resolved: Resolved) -> Result<Option<i32>, ErrorView> {
    match resolved {
        Resolved::Nil => Ok(None),
        Resolved::Other => Err(
            plain_error(
                ErrorClass::Base,
                "module resolver must return a RustyRacer::Module or nil"@,
            ),
        ),
        Resolved::Module { module_id, same_isolate, disposed } => if !same_isolate {
            Err(
                plain_error(
                    ErrorClass::Runtime,
                    "module resolver returned a Module from a different Context"@,
                ),
            )
        } else if disposed {
            Ok(None)
        } else {
            Ok(Some(module_id))
        },
    }
}

pub fn resolve_module_via_ruby(resolved: Resolved) -> (out: Result<Option<i32>, RubyError>)
    ensures
        match out {
            Ok(id) => named_module(resolved) == Ok::<Option<i32>, ErrorView>(id),
            Err(error) => named_module(resolved) == Err::<Option<i32>, ErrorView>(error@),
        },
{
    match resolved {
        Resolved::Nil => Ok(None),
        Resolved::Other => Err(
            RubyError::plain(
                ErrorClass::Base,
                "module resolver must return a RustyRacer::Module or nil".to_owned(),
            ),
        ),
        Resolved::Module { module_id, same_isolate, disposed } => if !same_isolate {
            Err(
                RubyError::plain(
                    ErrorClass::Runtime,
                    "module resolver returned a Module from a different Context".to_owned(),
                ),
            )
        } else if disposed {
            Ok(None)
        } else {
            Ok(Some(module_id))
        },
    }
}

/// Who is asked to resolve an import.
#[derive(Debug, Clone, Copy, PartialEq, Eq, Structural)]
pub enum Resolver {
    /// Nobody: the import is not resolved.
    Nobody,
    /// What was given with the operation that links the module.
    Given,
    /// The isolate's resolver of dynamic imports, which is told the realm.
    Dynamic { initiating: i32 },
}

impl<E: Engine> StateView<E> {
    /// Who resolves an import. `known` says that the module that imports is known,
    /// `here` is the realm being linked in, and `dynamic` says that the isolate has
    /// a resolver of dynamic imports.
    pub open spec fn import_resolver(
        self,
        known: bool,
        here: Option<i32>,
        dynamic: bool,
    ) -> Resolver {
        if !known {
            Resolver::Nobody
        } else if self.resolve is Some {
            Resolver::Given
        } else if dynamic {
            Resolver::Dynamic {
                initiating: match here {
                    Some(id) => id,
                    None => 0,
                },
            }
        } else {
            Resolver::Nobody
        }
    }

    /// The module that a resolver named, and the state once it has answered.
    pub open spec fn heard(
        self,
        resolver: Resolver,
        answer: Result<Option<i32>, Option<E::Raised>>,
    ) -> (Option<i32>, StateView<E>) {
        match answer {
            Ok(id) => (id, self),
            Err(Some(raised)) => (
                None,
                if resolver is Given {
                    StateView { raised: Some(raised), ..self }
                } else {
                    self
                },
            ),
            Err(None) => (None, self),
        }
    }

    /// The module that an import comes to. It must have been compiled in the realm
    /// that it is imported in.
    pub open spec fn importable(self, id: Option<i32>, here: Option<i32>) -> bool {
        id matches Some(k) && self.modules.contains_key(k) && Some(self.modules[k].context_id)
            == here
    }
}

impl<E: Engine> IsolateState<E> {
    /// Who is asked to resolve an import while a module is being linked.
    pub fn import_resolver(&self, known: bool, here: Option<i32>, dynamic: bool) -> (resolver:
        Resolver)
        ensures
            resolver == self@.import_resolver(known, here, dynamic),
    {
        if !known {
            Resolver::Nobody
        } else if self.resolver().is_some() {
            Resolver::Given
        } else if dynamic {
            let initiating: i32 = match here {
                Some(id) => id,
                None => 0,
            };
            Resolver::Dynamic { initiating }
        } else {
            Resolver::Nobody
        }
    }

    /// Takes a resolver's answer. What the given resolver raised is kept, for the
    /// operation that links the module to raise it again; what another raised only
    /// leaves the import unresolved.
    pub fn resolver_answered(
        &mut self,
        resolver: Resolver,
        answer: Result<Option<i32>, Option<E::Raised>>,
    ) -> (id: Option<i32>)
        requires
            old(self).wf(),
        ensures
            final(self).wf(),
            id == (match answer {
                Ok(id) => id,
                Err(_) => None,
            }),
            final(self)@ == (match answer {
                Err(Some(raised)) if resolver is Given => StateView {
                    raised: Some(raised),
                    ..old(self)@
                },
                _ => old(self)@,
            }),
            (id, final(self)@) == old(self)@.heard(resolver, answer),
    {
        match answer {
            Ok(id) => id,
            Err(Some(raised)) => {
                match resolver {
                    Resolver::Given => {
                        self.set_raised(raised);
                    },
                    _ => {},
                }
                None
            },
            Err(None) => None,
        }
    }

    /// The module that an import comes to, if it may be imported here.
    pub fn resolve_imported(&self, id: Option<i32>, here: Option<i32>) -> (found: Option<
        &E::Module,
    >)
        ensures
            match found {
                Some(handle) => self@.importable(id, here) && self@.modules[id->0].handle
                    == *handle,
                None => !self@.importable(id, here),
            },
    {
        let k: i32 = match id {
            Some(k) => k,
            None => {
                return None;
            },
        };
        match self.module_handle(k) {
            Some((handle, context_id)) => match here {
                Some(realm) => if realm == context_id {
                    Some(handle)
                } else {
                    None
                },
                None => None,
            },
            None => None,
        }
    }
}

/// Why a dynamic import is rejected, where no script has thrown.
#[derive(Debug, Clone, Copy, PartialEq, Eq, Structural)]
pub enum ImportFault {
    NoOwner,
    NotResolved,
    NotFound,
    LinkNested,
    LinkFailed,
    NoPromise,
    NotSettled,
    EvaluateFailed,
    Busy,
}

impl ImportFault {
    pub open spec fn spelled(self) -> Seq<char> {
        match self {
            ImportFault::NoOwner => "dynamic import has no owner"@,
            ImportFault::NotResolved => "import() was not resolved to a module"@,
            ImportFault::NotFound => "resolved module not found"@,
            ImportFault::LinkNested => "cannot link a dynamic import while another module is instantiating"@,
            ImportFault::LinkFailed => "failed to link dynamically imported module"@,
            ImportFault::NoPromise => "module evaluation did not yield a promise"@,
            ImportFault::NotSettled => "failed to settle dynamic import"@,
            ImportFault::EvaluateFailed => "dynamically imported module failed to evaluate"@,
            ImportFault::Busy => "dynamically imported module is busy (instantiating/evaluating)"@,
        }
    }

    pub fn message(self) -> (text: &'static str)
        ensures
            text@ == self.spelled(),
    {
        match self {
            ImportFault::NoOwner => "dynamic import has no owner",
            ImportFault::NotResolved => "import() was not resolved to a module",
            ImportFault::NotFound => "resolved module not found",
            ImportFault::LinkNested => "cannot link a dynamic import while another module is instantiating",
            ImportFault::LinkFailed => "failed to link dynamically imported module",
            ImportFault::NoPromise => "module evaluation did not yield a promise",
            ImportFault::NotSettled => "failed to settle dynamic import",
            ImportFault::EvaluateFailed => "dynamically imported module failed to evaluate",
            ImportFault::Busy => "dynamically imported module is busy (instantiating/evaluating)",
        }
    }
}

/// Is there somebody to ask for a dynamic import? `owned` says that the isolate is
/// wired up, `dynamic` that it has a resolver.
pub fn dynamic_import_cb(owned: bool, dynamic: bool) -> (fault: Option<ImportFault>)
    ensures
        fault == (if !owned {
            Some(ImportFault::NoOwner)
        } else if !dynamic {
            Some(ImportFault::NotResolved)
        } else {
            None
        }),
{
    if !owned {
        Some(ImportFault::NoOwner)
    } else if !dynamic {
        Some(ImportFault::NotResolved)
    } else {
        None
    }
}

impl<E: Engine> IsolateState<E> {
    /// The module that a dynamic import comes to, or why it is rejected. `here` is
    /// the realm that the import runs in.
    pub fn dynamic_target(&self, id: Option<i32>, here: Option<i32>) -> (found: Result<
        &E::Module,
        ImportFault,
    >)
        ensures
            match found {
                Ok(handle) => self@.importable(id, here) && self@.modules[id->0].handle == *handle,
                Err(fault) => !self@.importable(id, here) && fault == (if id is None {
                    ImportFault::NotResolved
                } else {
                    ImportFault::NotFound
                }),
            },
    {
        match self.resolve_imported(id, here) {
            Some(handle) => Ok(handle),
            None => if id.is_none() {
                Err(ImportFault::NotResolved)
            } else {
                Err(ImportFault::NotFound)
            },
        }
    }
}

/// What becomes of the promise of a dynamic import.
#[derive(Debug, Clone, Copy, PartialEq, Eq, Structural)]
pub enum ImportEnd {
    /// It is rejected with an error of this text.
    Rejected(ImportFault),
    /// It is rejected with what was thrown.
    Threw,
    /// It is rejected with the module's own exception.
    ModuleThrew,
    /// It follows the module's evaluation.
    Follows,
    /// It stays pending: the script is being stopped, which is for the operation
    /// around it to tell.
    Pending,
}

/// Links and evaluates a module that was imported dynamically.
#[derive(Debug, Clone, Copy, PartialEq, Eq, Structural)]
pub enum ImportStep {
    AskStatus,
    Link,
    AskStatusAgain,
    Evaluate,
    AskPromise,
    /// Chain the module's namespace to its evaluation.
    Chain,
}

/// What becomes of the promise if a step fails.
pub open spec fn import_failed(got: Got, fault: ImportFault) -> ImportEnd {
    match got {
        Got::Failed(f) => if f.terminated {
            ImportEnd::Pending
        } else if f.message is Some && fault !is NotSettled {
            ImportEnd::Threw
        } else {
            ImportEnd::Rejected(fault)
        },
        _ => ImportEnd::Rejected(fault),
    }
}

fn fail(got: Got, fault: ImportFault) -> (end: ImportEnd)
    ensures
        end == import_failed(got, fault),
{
    match got {
        Got::Failed(f) => if f.terminated {
            ImportEnd::Pending
        } else {
            match fault {
                ImportFault::NotSettled => ImportEnd::Rejected(fault),
                _ => if f.message.is_some() {
                    ImportEnd::Threw
                } else {
                    ImportEnd::Rejected(fault)
                },
            }
        },
        _ => ImportEnd::Rejected(fault),
    }
}

impl ImportStep {
    /// How it goes on with a linked module, or one that is past that.
    pub open spec fn judged(got: Got) -> Turn<ImportStep, ImportEnd> {
        match got {
            Got::Status(ModuleStatus::Errored) => Turn::Over(ImportEnd::ModuleThrew),
            Got::Status(ModuleStatus::Instantiated) | Got::Status(ModuleStatus::Evaluated)
                => Turn::Again(ImportStep::Evaluate),
            _ => Turn::Over(ImportEnd::Rejected(ImportFault::Busy)),
        }
    }

    pub open spec fn after<E: Engine>(self, state: StateView<E>, got: Got) -> (
        Turn<ImportStep, ImportEnd>,
        StateView<E>,
    ) {
        match self {
            ImportStep::AskStatus => if got == Got::Status(ModuleStatus::Uninstantiated) {
                if state.instantiating {
                    (Turn::Over(ImportEnd::Rejected(ImportFault::LinkNested)), state)
                } else {
                    (Turn::Again(ImportStep::Link), StateView { instantiating: true, ..state })
                }
            } else {
                (Self::judged(got), state)
            },
            ImportStep::Link => (
                if got is Yes {
                    Turn::Again(ImportStep::AskStatusAgain)
                } else {
                    Turn::Over(import_failed(got, ImportFault::LinkFailed))
                },
                StateView { instantiating: false, ..state },
            ),
            ImportStep::AskStatusAgain => (Self::judged(got), state),
            ImportStep::Evaluate => (
                if got is Yes {
                    Turn::Again(ImportStep::AskPromise)
                } else {
                    Turn::Over(import_failed(got, ImportFault::EvaluateFailed))
                },
                state,
            ),
            ImportStep::AskPromise => (
                if got is Yes {
                    Turn::Again(ImportStep::Chain)
                } else {
                    Turn::Over(ImportEnd::Rejected(ImportFault::NoPromise))
                },
                state,
            ),
            ImportStep::Chain => (
                if got is Yes {
                    Turn::Over(ImportEnd::Follows)
                } else {
                    Turn::Over(import_failed(got, ImportFault::NotSettled))
                },
                state,
            ),
        }
    }

    fn judge(got: Got) -> (turn: Turn<ImportStep, ImportEnd>)
        ensures
            turn == Self::judged(got),
    {
        match got {
            Got::Status(ModuleStatus::Errored) => Turn::Over(ImportEnd::ModuleThrew),
            Got::Status(ModuleStatus::Instantiated) | Got::Status(ModuleStatus::Evaluated)
                => Turn::Again(ImportStep::Evaluate),
            _ => Turn::Over(ImportEnd::Rejected(ImportFault::Busy)),
        }
    }

    /// A module that is not linked yet is linked, unless another is being linked;
    /// then it is evaluated. One that has failed rejects with its own exception.
    pub fn finish_dynamic_import<E: Engine>(self, state: &mut IsolateState<E>, got: Got) -> (turn:
        Turn<ImportStep, ImportEnd>)
        requires
            old(state).wf(),
        ensures
            final(state).wf(),
            (turn, final(state)@) == self.after(old(state)@, got),
    {
        match self {
            ImportStep::AskStatus => match got {
                Got::Status(ModuleStatus::Uninstantiated) => if state.is_instantiating() {
                    Turn::Over(ImportEnd::Rejected(ImportFault::LinkNested))
                } else {
                    state.set_instantiating(true);
                    Turn::Again(ImportStep::Link)
                },
                other => Self::judge(other),
            },
            ImportStep::Link => {
                state.set_instantiating(false);
                match got {
                    Got::Yes => Turn::Again(ImportStep::AskStatusAgain),
                    other => Turn::Over(fail(other, ImportFault::LinkFailed)),
                }
            },
            ImportStep::AskStatusAgain => Self::judge(got),
            ImportStep::Evaluate => match got {
                Got::Yes => Turn::Again(ImportStep::AskPromise),
                other => Turn::Over(fail(other, ImportFault::EvaluateFailed)),
            },
            ImportStep::AskPromise => match got {
                Got::Yes => Turn::Again(ImportStep::Chain),
                _ => Turn::Over(ImportEnd::Rejected(ImportFault::NoPromise)),
            },
            ImportStep::Chain => match got {
                Got::Yes => Turn::Over(ImportEnd::Follows),
                other => Turn::Over(fail(other, ImportFault::NotSettled)),
            },
        }
    }
}

/// A script that is stopped while a dynamic import links, evaluates or settles
/// leaves the promise pending: nested work does not absorb what is aimed at the
/// operation around it.
pub proof fn law_stop_leaves_import_pending<E: Engine>(
    step: ImportStep,
    state: StateView<E>,
    fault: Fault,
)
    requires
        fault.terminated,
        step is Link || step is Evaluate || step is Chain,
    ensures
        step.after(state, Got::Failed(fault)).0 == Turn::<ImportStep, ImportEnd>::Over(
            ImportEnd::Pending,
        ),
{
}

/// Linking for a dynamic import is marked while it lasts and at no other time, and
/// it is not begun while another module is being linked.
pub proof fn law_import_links_alone<E: Engine>(step: ImportStep, state: StateView<E>, got: Got)
    ensures
        ({
            let (turn, after) = step.after(state, got);
            &&& turn == Turn::<ImportStep, ImportEnd>::Again(ImportStep::Link)
                ==> !state.instantiating && after.instantiating
            &&& step is Link ==> !after.instantiating
            &&& step !is Link && turn != Turn::<ImportStep, ImportEnd>::Again(ImportStep::Link)
                ==> after == state
        }),
{
}

/// How a dynamic import goes by the module's status. One that is linked, whether or
/// not it has run, goes on to be evaluated: that gives back the promise of the
/// evaluation there has been, if there has been one. One that has failed rejects
/// with its own exception. One that is not linked is linked first, unless another
/// is being linked. One that is being linked or evaluated, and only such a one, is
/// busy; so is one that is still not linked once it has been.
pub proof fn law_import_goes_by_the_status<E: Engine>(state: StateView<E>, status: ModuleStatus)
    ensures
        ({
            let (turn, after) = ImportStep::AskStatus.after(state, Got::Status(status));
            let (again, unchanged) = ImportStep::AskStatusAgain.after(state, Got::Status(status));
            let busy = Turn::<ImportStep, ImportEnd>::Over(ImportEnd::Rejected(ImportFault::Busy));
            &&& status is Instantiated || status is Evaluated <==> turn == Turn::<
                ImportStep,
                ImportEnd,
            >::Again(ImportStep::Evaluate)
            &&& status is Instantiated || status is Evaluated <==> again == Turn::<
                ImportStep,
                ImportEnd,
            >::Again(ImportStep::Evaluate)
            &&& status is Errored <==> turn == Turn::<ImportStep, ImportEnd>::Over(
                ImportEnd::ModuleThrew,
            )
            &&& status is Errored <==> again == Turn::<ImportStep, ImportEnd>::Over(
                ImportEnd::ModuleThrew,
            )
            &&& status is Instantiating || status is Evaluating <==> turn == busy
            &&& status is Instantiating || status is Evaluating || status is Uninstantiated
                <==> again == busy
            &&& status is Uninstantiated && !state.instantiating <==> turn == Turn::<
                ImportStep,
                ImportEnd,
            >::Again(ImportStep::Link)
            &&& status is Uninstantiated && state.instantiating <==> turn == Turn::<
                ImportStep,
                ImportEnd,
            >::Over(ImportEnd::Rejected(ImportFault::LinkNested))
            &&& unchanged == state
            &&& turn != Turn::<ImportStep, ImportEnd>::Again(ImportStep::Link) ==> after == state
            &&& turn == Turn::<ImportStep, ImportEnd>::Again(ImportStep::Link) ==> after == (
            StateView { instantiating: true, ..state })
        }),
{
}

/// A dynamic import in which nothing goes wrong follows the module's evaluation:
/// a module that is not linked is linked, then evaluated; one that is linked is
/// evaluated; and the isolate is left as it was.
pub proof fn law_import_follows_the_evaluation<E: Engine>(
    state: StateView<E>,
    linked: ModuleStatus,
)
    requires
        linked is Instantiated || linked is Evaluated,
        !state.instantiating,
    ensures
        import_run(
            ImportStep::AskStatus,
            state,
            seq![Got::Status(linked), Got::Yes, Got::Yes, Got::Yes],
        ) == (Turn::<ImportStep, ImportEnd>::Over(ImportEnd::Follows), state),
        import_run(
            ImportStep::AskStatus,
            state,
            seq![
                Got::Status(ModuleStatus::Uninstantiated),
                Got::Yes,
                Got::Status(linked),
                Got::Yes,
                Got::Yes,
                Got::Yes,
            ],
        ) == (Turn::<ImportStep, ImportEnd>::Over(ImportEnd::Follows), state),
{
    reveal_with_fuel(import_run, 7);
    let short = seq![Got::Status(linked), Got::Yes, Got::Yes, Got::Yes];
    assert(short.drop_first() =~= seq![Got::Yes, Got::Yes, Got::Yes]);
    assert(short.drop_first().drop_first() =~= seq![Got::Yes, Got::Yes]);
    assert(short.drop_first().drop_first().drop_first() =~= seq![Got::Yes]);
    let long = seq![Got::Status(ModuleStatus::Uninstantiated), Got::Yes] + short;
    assert(long =~= seq![
        Got::Status(ModuleStatus::Uninstantiated),
        Got::Yes,
        Got::Status(linked),
        Got::Yes,
        Got::Yes,
        Got::Yes,
    ]);
    assert(long.drop_first() =~= seq![Got::Yes] + short);
    assert(long.drop_first().drop_first() =~= short);
}

/// A dynamic import that is given one answer after the other, to its end.
pub open spec fn import_run<E: Engine>(
    step: ImportStep,
    state: StateView<E>,
    answers: Seq<Got>,
) -> (Turn<ImportStep, ImportEnd>, StateView<E>)
    decreases answers.len(),
{
    if answers.len() == 0 {
        (Turn::Again(step), state)
    } else {
        match step.after(state, answers[0]) {
            (Turn::Again(next), after) => import_run(next, after, answers.drop_first()),
            over => over,
        }
    }
}

/// What a dynamic import fails with. What linking or evaluating threw is what the
/// promise is rejected with; if nothing was thrown, or the promise could not be
/// settled, it is rejected with an error that says what failed.
pub proof fn law_import_failures_reject<E: Engine>(
    step: ImportStep,
    state: StateView<E>,
    fault: Fault,
    got: Got,
)
    requires
        !fault.terminated,
        got !is Yes && got !is Failed,
        !(step is AskStatus || step is AskStatusAgain),
    ensures
        ({
            let thrown = step.after(state, Got::Failed(fault)).0;
            let plain = step.after(state, got).0;
            let why = if step is Link {
                ImportFault::LinkFailed
            } else if step is Evaluate {
                ImportFault::EvaluateFailed
            } else if step is AskPromise {
                ImportFault::NoPromise
            } else {
                ImportFault::NotSettled
            };
            &&& plain == Turn::<ImportStep, ImportEnd>::Over(ImportEnd::Rejected(why))
            &&& thrown == Turn::<ImportStep, ImportEnd>::Over(
                if (step is Link || step is Evaluate) && fault.message is Some {
                    ImportEnd::Threw
                } else {
                    ImportEnd::Rejected(why)
                },
            )
        }),
{
}

/// Who is asked to resolve an import: nobody on behalf of a module that is not
/// known; otherwise the resolver given with the operation, if there is one, and
/// else the isolate's own, which is told the realm that is being linked in.
pub proof fn law_given_resolver_wins<E: Engine>(
    state: StateView<E>,
    known: bool,
    here: Option<i32>,
    dynamic: bool,
)
    ensures
        ({
            let resolver = state.import_resolver(known, here, dynamic);
            &&& resolver is Given <==> known && state.resolve is Some
            &&& resolver is Dynamic <==> known && state.resolve is None && dynamic
            &&& resolver is Nobody <==> !known || (state.resolve is None && !dynamic)
            &&& resolver matches Resolver::Dynamic { initiating } ==> (here matches Some(id)
                ==> initiating == id) && (here is None ==> initiating == 0)
        }),
{
}

/// What is imported is the module that the resolver named, and it is taken only in
/// the realm that it was compiled in.
pub proof fn law_imports_stay_in_their_realm<E: Engine>(
    state: StateView<E>,
    id: Option<i32>,
    here: Option<i32>,
    k: i32,
    realm: i32,
)
    ensures
        state.importable(Some(k), Some(realm)) <==> state.modules.contains_key(k)
            && state.modules[k].context_id == realm,
        id is None || here is None ==> !state.importable(id, here),
{
}

/// A resolver names a module of this isolate that is still there, or none; nothing
/// else is taken from it. A module of another isolate is told apart from something
/// that is no module.
pub proof fn law_resolver_names_a_module(
    module_id: i32,
    same_isolate: bool,
    disposed: bool,
)
    ensures
        named_module(Resolved::Nil) == Ok::<Option<i32>, ErrorView>(None),
        named_module(Resolved::Other) matches Err(error) && error.class is Base,
        ({
            let named = named_module(Resolved::Module { module_id, same_isolate, disposed });
            &&& same_isolate && !disposed <==> named == Ok::<Option<i32>, ErrorView>(
                Some(module_id),
            )
            &&& same_isolate && disposed <==> named == Ok::<Option<i32>, ErrorView>(None)
            &&& !same_isolate <==> named is Err
            &&& named matches Err(error) ==> error.class is Runtime
        }),
{
}

/// What a resolver names is what is imported. One that raises names nothing; what the
/// given resolver raised is kept, to be raised again, and what another raised is
/// not.
pub proof fn law_resolvers_are_heard<E: Engine>(
    state: StateView<E>,
    resolver: Resolver,
    id: Option<i32>,
    raised: E::Raised,
)
    ensures
        state.heard(resolver, Ok(id)) == (id, state),
        state.heard(resolver, Err(Some(raised))).0 is None,
        state.heard(resolver, Err(None)) == (None::<i32>, state),
        state.heard(Resolver::Given, Err(Some(raised))).1.raised == Some(raised),
        resolver !is Given ==> state.heard(resolver, Err(Some(raised))).1 == state,
{
}

/// What happened to a promise.
#[derive(Debug, Clone, Copy, PartialEq, Eq, Structural)]
pub enum RejectEvent {
    RejectWithNoHandler,
    HandlerAddedAfterReject,
    RejectAfterResolved,
    ResolveAfterResolved,
}

impl RejectEvent {
    /// The number that the script's recorder is told.
    pub fn code(self) -> (code: i32)
        ensures
            code == (match self {
                RejectEvent::RejectWithNoHandler => 0i32,
                RejectEvent::HandlerAddedAfterReject => 1,
                RejectEvent::RejectAfterResolved => 2,
                RejectEvent::ResolveAfterResolved => 3,
            }),
    {
        match self {
            RejectEvent::RejectWithNoHandler => 0,
            RejectEvent::HandlerAddedAfterReject => 1,
            RejectEvent::RejectAfterResolved => 2,
            RejectEvent::ResolveAfterResolved => 3,
        }
    }
}

} // verus!
