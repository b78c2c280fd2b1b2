//! The store that an application talks to: a slot for one state manager,
//! and dispatch that tells whether the state changed.

use vstd::prelude::*;
use crate::codec::ToJson;
use crate::equality::{lemma_structural_equality_reflexive, states_are_equal, structurally_equal};
use crate::error::{ErrorView, RstateError};
use crate::models::{get_state, Action, ActionView, RstateManager};
use crate::path::state_at;
use crate::state_builder::{handler_for, poison_error, poison_text, BuiltStateManager};
use crate::value::{Json, JsonValue};

verus! {

/// The name of the event that announces a changed state.
pub const STATE_UPDATE_EVENT: &'static str = "rstate://state-update";

/// What a dispatch gave: the state after it, and whether it differs from the
/// state before it. A changed state is to be announced, once.
#[derive(Debug)]
pub struct Dispatched {
    /// The state after the dispatch.
    pub state: JsonValue,
    /// Whether the state before the dispatch was not structurally equal to it.
    pub changed: bool,
}

impl Dispatched {
    /// The state to announce: the new state where it changed, else nothing.
    pub open spec fn announcement(self) -> Option<JsonValue> {
        if self.changed {
            Some(self.state)
        } else {
            None
        }
    }

    /// The state to announce: the new state where it changed, else nothing.
    pub fn notification(&self) -> (r: Option<&JsonValue>)
        ensures
            r == match self.announcement() {
                Some(state) => Some(&state),
                None => None,
            },
    {
        if self.changed {
            Some(&self.state)
        } else {
            None
        }
    }

    /// The result of the dispatch once the announcement was tried: the new
    /// state, or an emission error where a due announcement failed.
    pub fn finish(self, delivery: Result<(), String>) -> (r: Result<JsonValue, RstateError>)
        ensures
            match delivery {
                Err(reason) if self.changed => r is Err && r->Err_0@ == ErrorView::Emit(reason@),
                _ => r == Ok::<JsonValue, RstateError>(self.state),
            },
    {
        match delivery {
            Err(reason) => if self.changed {
                Err(RstateError::Emit(reason))
            } else {
                Ok(self.state)
            },
            Ok(_) => Ok(self.state),
        }
    }
}

/// The store: empty until a state manager is registered, and never empty again.
pub struct Rstate<M: RstateManager> {
    manager: Option<M>,
    poisoned: bool,
}

/// What handing an action to a state manager gives. The manager reported
/// `before`, its dispatch gave `outcome`, and the store returns `r`: the
/// state that the manager returned, marked as changed unless it is
/// structurally equal to `before`, or the manager's error as it is.
pub open spec fn handed_over<M: RstateManager>(
    start: M,
    before: JsonValue,
    manager: &mut M,
    action: Action,
    outcome: Result<JsonValue, RstateError>,
    r: Result<Dispatched, RstateError>,
) -> bool {
    &&& call_ensures(M::get_initial_state, (&start,), before)
    &&& *manager == start
    &&& call_ensures(M::dispatch, (manager, &action), outcome)
    &&& match outcome {
        Ok(after) => r == Ok::<Dispatched, RstateError>(
            Dispatched { state: after, changed: !structurally_equal(before@, after@) },
        ),
        Err(e) => r == Err::<Dispatched, RstateError>(e),
    }
}

/// A store with the given state manager registered.
pub fn init<M: RstateManager>(state_manager: M) -> (store: Rstate<M>)
    ensures
        store.manager() == Some(state_manager),
        !store.poisoned(),
{
    Rstate { manager: Some(state_manager), poisoned: false }
}

/// A store without a state manager; one is registered later.
pub fn init_empty<M: RstateManager>() -> (store: Rstate<M>)
    ensures
        store.manager() is None,
        !store.poisoned(),
{
    Rstate { manager: None, poisoned: false }
}

impl<M: RstateManager> Rstate<M> {
    /// The registered state manager, if any.
    pub closed spec fn manager(&self) -> Option<M> {
        self.manager
    }

    /// Whether an earlier dispatch broke off while it held the manager.
    pub closed spec fn poisoned(&self) -> bool {
        self.poisoned
    }

    /// The error that stands in the way of an access, if any: no manager is
    /// registered, or the store is poisoned.
    pub open spec fn barrier(&self) -> Option<ErrorView> {
        if self.manager() is None {
            Some(ErrorView::NotRegistered)
        } else if self.poisoned() {
            Some(ErrorView::LockPoisoned(poison_text()))
        } else {
            None
        }
    }

    /// The barrier as an error value.
    fn check(&self) -> (r: Option<RstateError>)
        ensures
            match r {
                Some(e) => self.barrier() == Some(e@),
                None => self.barrier() is None,
            },
    {
        if self.manager.is_none() {
            Some(RstateError::NotRegistered)
        } else if self.poisoned {
            Some(poison_error())
        } else {
            None
        }
    }

    /// The name of the event that announces a changed state.
    pub fn get_event_name(&self) -> (name: &'static str)
        ensures
            name@ == STATE_UPDATE_EVENT@,
    {
        STATE_UPDATE_EVENT
    }

    /// Whether a state manager is registered.
    pub fn is_registered(&self) -> (r: bool)
        ensures
            r == (self.manager() is Some),
    {
        self.manager.is_some()
    }

    /// The state that the manager reports.
    pub fn get_initial_state(&self) -> (r: Result<JsonValue, RstateError>)
        ensures
            match r {
                Ok(tree) => self.barrier() is None && call_ensures(
                    M::get_initial_state,
                    (&self.manager().unwrap(),),
                    tree,
                ),
                Err(e) => self.barrier() == Some(e@),
            },
    {
        if let Some(e) = self.check() {
            return Err(e);
        }
        match &self.manager {
            Some(manager) => Ok(manager.get_initial_state()),
            None => Err(RstateError::NotRegistered),
        }
    }

    /// The part of the state under a dotted key; the whole state for the
    /// empty key, and nothing where the key leads nowhere.
    pub fn get_state(&self, key: &str) -> (r: Result<Option<JsonValue>, RstateError>)
        ensures
            match r {
                Ok(part) => self.barrier() is None && exists|tree: JsonValue|
                    call_ensures(M::get_initial_state, (&self.manager().unwrap(),), tree) && (
                    match part {
                        Some(v) => state_at(tree@, key@) == Some(v@),
                        None => state_at(tree@, key@) is None,
                    }),
                Err(e) => self.barrier() == Some(e@),
            },
    {
        match self.get_initial_state() {
            Ok(tree) => Ok(get_state(&tree, key)),
            Err(e) => Err(e),
        }
    }

    /// Hands the action to the state manager. The result holds the state
    /// that the manager returns, and says whether it is structurally equal
    /// to the state that the manager reported before. An error of the
    /// manager is returned as it is.
    pub fn dispatch(&mut self, action: Action) -> (r: Result<Dispatched, RstateError>)
        ensures
            (final(self).manager() is Some) == (old(self).manager() is Some),
            final(self).poisoned() == old(self).poisoned(),
            old(self).barrier() is Some ==> r is Err && Some(r->Err_0@) == old(self).barrier()
                && final(self).manager() == old(self).manager(),
            old(self).barrier() is None ==> exists|
                before: JsonValue,
                manager: &mut M,
                outcome: Result<JsonValue, RstateError>,
            |
                handed_over(old(self).manager().unwrap(), before, manager, action, outcome, r)
                    && *final(manager) == final(self).manager().unwrap(),
    {
        if let Some(e) = self.check() {
            return Err(e);
        }
        let ghost start = self.manager.unwrap();
        let ghost seen: JsonValue;
        let ghost given: Result<JsonValue, RstateError>;
        let r: Result<Dispatched, RstateError> = match &mut self.manager {
            Some(manager) => {
                let before: JsonValue = manager.get_initial_state();
                self.poisoned = true;
                let outcome: Result<JsonValue, RstateError> = manager.dispatch(&action);
                self.poisoned = false;
                proof {
                    seen = before;
                    given = outcome;
                }
                match outcome {
                    Ok(after) => {
                        let changed: bool = !states_are_equal(&before, &after);
                        Ok(Dispatched { state: after, changed })
                    },
                    Err(e) => Err(e),
                }
            },
            None => {
                proof {
                    seen = JsonValue::Null;
                    given = Err(RstateError::NotRegistered);
                }
                Err(RstateError::NotRegistered)
            },
        };
        proof {
            let end = self.manager.unwrap();
            assert(exists|manager: &mut M|
                *manager == start && *final(manager) == end && call_ensures(
                    M::dispatch,
                    (manager, &action),
                    given,
                ));
            let witness = choose|manager: &mut M|
                *manager == start && *final(manager) == end && call_ensures(
                    M::dispatch,
                    (manager, &action),
                    given,
                );
            assert(handed_over(start, seen, witness, action, given, r));
        }
        r
    }

    /// Dispatches an action of the given kind without a payload.
    pub fn dispatch_kind(&mut self, kind: &str) -> (r: Result<Dispatched, RstateError>)
        ensures
            (final(self).manager() is Some) == (old(self).manager() is Some),
            final(self).poisoned() == old(self).poisoned(),
            old(self).barrier() is Some ==> r is Err && Some(r->Err_0@) == old(self).barrier()
                && final(self).manager() == old(self).manager(),
            old(self).barrier() is None ==> exists|
                action: Action,
                before: JsonValue,
                manager: &mut M,
                outcome: Result<JsonValue, RstateError>,
            |
                action@ == (ActionView { kind: kind@, payload: None }) && handed_over(
                    old(self).manager().unwrap(),
                    before,
                    manager,
                    action,
                    outcome,
                    r,
                ) && *final(manager) == final(self).manager().unwrap(),
    {
        self.dispatch(Action::new(kind))
    }

    /// Dispatches an action of the given kind whose payload is the JSON
    /// tree of `payload`. Where the payload has no tree, the serialization
    /// error is returned and the manager is not asked.
    pub fn dispatch_with<T: ToJson>(&mut self, kind: &str, payload: T) -> (r: Result<
        Dispatched,
        RstateError,
    >)
        ensures
            (final(self).manager() is Some) == (old(self).manager() is Some),
            final(self).poisoned() == old(self).poisoned(),
            exists|built: Result<Action, RstateError>|
                Action::built_with(kind@, payload, built) && match built {
                    Err(e) => r == Err::<Dispatched, RstateError>(e) && final(self).manager()
                        == old(self).manager(),
                    Ok(action) => if old(self).barrier() is Some {
                        r is Err && Some(r->Err_0@) == old(self).barrier()
                            && final(self).manager() == old(self).manager()
                    } else {
                        exists|
                            before: JsonValue,
                            manager: &mut M,
                            outcome: Result<JsonValue, RstateError>,
                        |
                            handed_over(
                                old(self).manager().unwrap(),
                                before,
                                manager,
                                action,
                                outcome,
                                r,
                            ) && *final(manager) == final(self).manager().unwrap()
                    },
                },
    {
        match Action::with_payload(kind, payload) {
            Ok(action) => {
                let ghost built = Ok::<Action, RstateError>(action);
                let r = self.dispatch(action);
                proof {
                    assert(Action::built_with(kind@, payload, built));
                }
                r
            },
            Err(e) => {
                let ghost built = Err::<Action, RstateError>(e);
                proof {
                    assert(Action::built_with(kind@, payload, built));
                }
                Err(e)
            },
        }
    }

    /// Registers the state manager. It takes the place of one registered before.
    pub fn register_state_manager(&mut self, state_manager: M) -> (r: Result<(), RstateError>)
        ensures
            r is Ok,
            final(self).manager() == Some(state_manager),
            !final(self).poisoned(),
    {
        self.manager = Some(state_manager);
        self.poisoned = false;
        Ok(())
    }
}

/// Whether `T` writes the given tree for the state, and nothing else.
pub open spec fn writes_only<T: ToJson>(state: T, tree: Json) -> bool {
    forall|r: Result<JsonValue, String>| #[trigger]
        call_ensures(T::to_json, (&state,), r) ==> r is Ok && r->Ok_0@ == tree
}

/// An action whose kind has no handler, dispatched where there is no default
/// handler either, leaves the state as it is, and the store returns the tree
/// of that state and marks it as unchanged.
pub proof fn lemma_unmatched_action_changes_nothing<
    T: ToJson,
    H: Fn(&mut T, &Action) -> Result<(), RstateError>,
>(
    start: BuiltStateManager<T, H>,
    before: JsonValue,
    manager: &mut BuiltStateManager<T, H>,
    action: Action,
    outcome: Result<JsonValue, RstateError>,
    r: Result<Dispatched, RstateError>,
    tree: Json,
)
    requires
        handed_over(start, before, manager, action, outcome, r),
        !start.poisoned(),
        handler_for(start.handlers(), start.default_handler(), action.kind@) is None,
        writes_only(start.state(), tree),
        tree.well_formed(),
    ensures
        final(manager).state() == start.state(),
        before@ == tree,
        r is Ok,
        r->Ok_0.state@ == tree,
        !r->Ok_0.changed,
{
    lemma_structural_equality_reflexive(tree);
}

/// An action whose handler does nothing, which is to say that it succeeds
/// and leaves every state as it is, is not announced: the store returns the
/// tree of the state as it was, and marks it as unchanged.
pub proof fn lemma_idle_handler_not_announced<
    T: ToJson,
    H: Fn(&mut T, &Action) -> Result<(), RstateError>,
>(
    start: BuiltStateManager<T, H>,
    before: JsonValue,
    manager: &mut BuiltStateManager<T, H>,
    action: Action,
    outcome: Result<JsonValue, RstateError>,
    r: Result<Dispatched, RstateError>,
    tree: Json,
)
    requires
        handed_over(start, before, manager, action, outcome, r),
        !start.poisoned(),
        handler_for(start.handlers(), start.default_handler(), action.kind@) is Some,
        forall|state: &mut T, given: &Action, done: Result<(), RstateError>| #[trigger]
            call_ensures(
                handler_for(start.handlers(), start.default_handler(), action.kind@).unwrap(),
                (state, given),
                done,
            ) ==> done is Ok && *final(state) == *state,
        writes_only(start.state(), tree),
        tree.well_formed(),
    ensures
        final(manager).state() == start.state(),
        r is Ok,
        r->Ok_0.state@ == tree,
        r->Ok_0.announcement() is None,
{
    lemma_structural_equality_reflexive(tree);
}

/// A dispatch that the manager completes is announced exactly when the tree
/// after it is not structurally equal to the tree before it, and what is
/// announced is the tree after it.
pub proof fn lemma_announced_exactly_on_change<M: RstateManager>(
    start: M,
    before: JsonValue,
    manager: &mut M,
    action: Action,
    outcome: Result<JsonValue, RstateError>,
    r: Result<Dispatched, RstateError>,
)
    requires
        handed_over(start, before, manager, action, outcome, r),
        outcome is Ok,
    ensures
        r is Ok,
        r->Ok_0.state == outcome->Ok_0,
        r->Ok_0.announcement() == if structurally_equal(before@, outcome->Ok_0@) {
            None
        } else {
            Some(outcome->Ok_0)
        },
{
}

} // verus!
