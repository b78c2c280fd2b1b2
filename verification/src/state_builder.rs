//! Building a state manager from a state and a handler for each kind of action.

use vstd::prelude::*;
use std::marker::PhantomData;
use vstd::string::StringExecFns;
use crate::codec::ToJson;
use crate::error::{ErrorView, RstateError};
use crate::models::{Action, RstateManager};
use crate::value::{Json, JsonValue};

verus! {

/// A handler that can be stored whatever closure it was made from: the
/// handler type to build a manager with where the handlers differ in type.
pub type ActionHandler<T> = Box<dyn Fn(&mut T, &Action) -> Result<(), RstateError> + Send + Sync>;

/// The handlers that a list of registrations leaves in force: for each kind
/// the one that was registered last.
spec fn registered<H>(entries: Seq<(String, H)>) -> Map<Seq<char>, H>
    decreases entries.len(),
{
    if entries.len() == 0 {
        Map::empty()
    } else {
        registered(entries.drop_last()).insert(entries.last().0@, entries.last().1)
    }
}

/// The handler that takes an action of the given kind: the one registered
/// for the kind, else the default handler, else none.
pub open spec fn handler_for<H>(
    handlers: Map<Seq<char>, H>,
    default_handler: Option<H>,
    kind: Seq<char>,
) -> Option<H> {
    if handlers.contains_key(kind) {
        Some(handlers[kind])
    } else {
        default_handler
    }
}

/// Whether a handler can be called on every state and every action.
pub open spec fn accepts_all<T, H: Fn(&mut T, &Action) -> Result<(), RstateError>>(
    handler: H,
) -> bool {
    forall|state: &mut T, action: &Action| call_requires(handler, (state, action))
}

/// What writing a state as a JSON tree may give: a tree that `T` writes for
/// it, or a serialization error with the reason that `T` gives.
pub open spec fn serialized<T: ToJson>(state: T, r: Result<JsonValue, RstateError>) -> bool {
    match r {
        Ok(tree) => call_ensures(T::to_json, (&state,), Ok::<JsonValue, String>(tree)),
        Err(e) => exists|reason: String|
            call_ensures(T::to_json, (&state,), Err::<JsonValue, String>(reason)) && e@
                == ErrorView::Serialization(reason@),
    }
}

/// The text of the error that a poisoned manager reports.
pub open spec fn poison_text() -> Seq<char> {
    "poisoned lock: another task failed inside"@
}

/// The error that reports poison: an earlier access broke off, and what it
/// left behind may be half done.
pub fn poison_error() -> (e: RstateError)
    ensures
        e@ == ErrorView::LockPoisoned(poison_text()),
{
    RstateError::lock_poisoned("poisoned lock: another task failed inside")
}

/// The handlers of a manager in the order of their registration, and the
/// default handler. Each of them can be called on every state and action.
struct Registry<T, H: Fn(&mut T, &Action) -> Result<(), RstateError>> {
    handlers: Vec<(String, H)>,
    default_handler: Option<H>,
    state: PhantomData<T>,
}

/// Collects an initial state, handlers by kind of action and a default
/// handler, and builds the state manager from them.
pub struct StateBuilder<T: ToJson, H: Fn(&mut T, &Action) -> Result<(), RstateError>> {
    initial_state: T,
    registry: Registry<T, H>,
}

/// A state manager made by a [`StateBuilder`]: it owns the state, hands each
/// action to the handler of its kind, and writes the state as a JSON tree.
pub struct BuiltStateManager<T: ToJson, H: Fn(&mut T, &Action) -> Result<(), RstateError>> {
    state: T,
    poisoned: bool,
    registry: Registry<T, H>,
}

/// Every handler of a list can be called on every state and action.
spec fn all_accept<T, H: Fn(&mut T, &Action) -> Result<(), RstateError>>(
    entries: Seq<(String, H)>,
    default_handler: Option<H>,
) -> bool {
    &&& forall|i: int| 0 <= i < entries.len() ==> accepts_all::<T, H>((#[trigger] entries[i]).1)
    &&& default_handler is Some ==> accepts_all::<T, H>(default_handler.unwrap())
}

/// The place of the registration in force for a kind, if there is one.
fn find_handler<H>(entries: &Vec<(String, H)>, kind: &String) -> (r: Option<usize>)
    ensures
        match r {
            Some(i) => i < entries.len() && registered(entries@).contains_key(kind@) && registered(
                entries@,
            )[kind@] == entries@[i as int].1,
            None => !registered(entries@).contains_key(kind@),
        },
{
    let mut i: usize = entries.len();
    proof {
        assert(entries@.take(i as int) =~= entries@);
    }
    while i > 0
        invariant
            i <= entries.len(),
            registered(entries@).contains_key(kind@) == registered(
                entries@.take(i as int),
            ).contains_key(kind@),
            registered(entries@).contains_key(kind@) ==> registered(entries@)[kind@] == registered(
                entries@.take(i as int),
            )[kind@],
        decreases i,
    {
        proof {
            let head = entries@.take(i as int);
            assert(head.drop_last() =~= entries@.take(i - 1));
            assert(head.last() == entries@[i - 1]);
        }
        if entries[i - 1].0 == *kind {
            return Some(i - 1);
        }
        i = i - 1;
    }
    None
}

impl<T, H: Fn(&mut T, &Action) -> Result<(), RstateError>> Registry<T, H> {
    #[verifier::type_invariant]
    spec fn handlers_accept(&self) -> bool {
        all_accept::<T, H>(self.handlers@, self.default_handler)
    }

    /// The handler in force for each kind.
    spec fn by_kind(&self) -> Map<Seq<char>, H> {
        registered(self.handlers@)
    }

    /// The handler for the kinds that have none of their own.
    spec fn fallback(&self) -> Option<H> {
        self.default_handler
    }

    /// A registry without handlers.
    fn new() -> (registry: Self)
        ensures
            registry.by_kind() == Map::<Seq<char>, H>::empty(),
            registry.fallback() is None,
    {
        Registry { handlers: Vec::new(), default_handler: None, state: PhantomData }
    }

    /// The registry with one more registration.
    fn with_handler(self, kind: &str, handler: H) -> (registry: Self)
        requires
            accepts_all::<T, H>(handler),
        ensures
            registry.by_kind() == self.by_kind().insert(kind@, handler),
            registry.fallback() == self.fallback(),
    {
        proof {
            use_type_invariant(&self);
        }
        let ghost before = self.handlers@;
        let Registry { handlers, default_handler, state } = self;
        let mut handlers = handlers;
        handlers.push((String::from_str(kind), handler));
        proof {
            assert(handlers@.drop_last() =~= before);
        }
        Registry { handlers, default_handler, state }
    }

    /// The registry with another default handler.
    fn with_default(self, handler: H) -> (registry: Self)
        requires
            accepts_all::<T, H>(handler),
        ensures
            registry.by_kind() == self.by_kind(),
            registry.fallback() == Some(handler),
    {
        proof {
            use_type_invariant(&self);
        }
        let Registry { handlers, default_handler, state } = self;
        Registry { handlers, default_handler: Some(handler), state }
    }

    /// The handler that takes an action of the given kind.
    fn select(&self, kind: &String) -> (r: Option<&H>)
        ensures
            match r {
                Some(handler) => handler_for(self.by_kind(), self.fallback(), kind@) == Some(
                    *handler,
                ) && accepts_all::<T, H>(*handler),
                None => handler_for(self.by_kind(), self.fallback(), kind@) is None,
            },
    {
        proof {
            use_type_invariant(self);
        }
        match find_handler(&self.handlers, kind) {
            Some(i) => Some(&self.handlers[i].1),
            None => match &self.default_handler {
                Some(handler) => Some(handler),
                None => None,
            },
        }
    }
}

impl<T: ToJson, H: Fn(&mut T, &Action) -> Result<(), RstateError>> StateBuilder<T, H> {
    /// The state that the manager will start from.
    pub closed spec fn initial_state(&self) -> T {
        self.initial_state
    }

    /// The handler in force for each kind.
    pub closed spec fn handlers(&self) -> Map<Seq<char>, H> {
        self.registry.by_kind()
    }

    /// The handler for the kinds that have none of their own.
    pub closed spec fn default_handler(&self) -> Option<H> {
        self.registry.fallback()
    }

    /// A builder with the given initial state and no handler.
    pub fn new(initial_state: T) -> (builder: Self)
        ensures
            builder.initial_state() == initial_state,
            builder.handlers() == Map::<Seq<char>, H>::empty(),
            builder.default_handler() is None,
    {
        StateBuilder { initial_state, registry: Registry::new() }
    }

    /// Registers the handler for a kind of action. It takes the place of a
    /// handler registered for that kind before.
    #[must_use]
    pub fn on(self, action_kind: &str, handler: H) -> (builder: Self)
        requires
            accepts_all::<T, H>(handler),
        ensures
            builder.handlers() == self.handlers().insert(action_kind@, handler),
            builder.initial_state() == self.initial_state(),
            builder.default_handler() == self.default_handler(),
    {
        StateBuilder {
            initial_state: self.initial_state,
            registry: self.registry.with_handler(action_kind, handler),
        }
    }

    /// Sets the handler for actions whose kind has no handler of its own.
    /// Without one, such actions leave the state as it is.
    #[must_use]
    pub fn on_default(self, handler: H) -> (builder: Self)
        requires
            accepts_all::<T, H>(handler),
        ensures
            builder.default_handler() == Some(handler),
            builder.handlers() == self.handlers(),
            builder.initial_state() == self.initial_state(),
    {
        StateBuilder {
            initial_state: self.initial_state,
            registry: self.registry.with_default(handler),
        }
    }

    /// The state manager with the collected state and handlers.
    pub fn build(self) -> (manager: BuiltStateManager<T, H>)
        ensures
            manager.state() == self.initial_state(),
            manager.handlers() == self.handlers(),
            manager.default_handler() == self.default_handler(),
            !manager.poisoned(),
    {
        BuiltStateManager { state: self.initial_state, poisoned: false, registry: self.registry }
    }
}

impl<T: ToJson + Default, H: Fn(&mut T, &Action) -> Result<(), RstateError>> Default for StateBuilder<
    T,
    H,
> {
    /// A builder that starts from the state type's default value.
    fn default() -> (builder: Self)
        ensures
            call_ensures(T::default, (), builder.initial_state()),
            builder.handlers() == Map::<Seq<char>, H>::empty(),
            builder.default_handler() is None,
    {
        Self::new(T::default())
    }
}

impl<T: ToJson, H: Fn(&mut T, &Action) -> Result<(), RstateError>> BuiltStateManager<T, H> {
    /// The state as it is now.
    pub closed spec fn state(&self) -> T {
        self.state
    }

    /// Whether an earlier access broke off while it held the state.
    pub closed spec fn poisoned(&self) -> bool {
        self.poisoned
    }

    /// The handler in force for each kind.
    pub closed spec fn handlers(&self) -> Map<Seq<char>, H> {
        self.registry.by_kind()
    }

    /// The handler for the kinds that have none of their own.
    pub closed spec fn default_handler(&self) -> Option<H> {
        self.registry.fallback()
    }

    /// Calls `f` on the state and returns what it returns.
    pub fn with_state<R, F: FnOnce(&T) -> R>(&self, f: F) -> (r: Result<R, RstateError>)
        requires
            !self.poisoned() ==> call_requires(f, (&self.state(),)),
        ensures
            match r {
                Ok(v) => !self.poisoned() && call_ensures(f, (&self.state(),), v),
                Err(e) => self.poisoned() && e@ == ErrorView::LockPoisoned(poison_text()),
            },
    {
        if self.poisoned {
            return Err(poison_error());
        }
        Ok(f(&self.state))
    }

    /// Calls `f` on the state, which it may change, and returns what it returns.
    pub fn with_state_mut<R, F: FnOnce(&mut T) -> R>(&mut self, f: F) -> (r: Result<
        R,
        RstateError,
    >)
        requires
            !old(self).poisoned() ==> forall|state: &mut T|
                *state == old(self).state() ==> call_requires(f, (state,)),
        ensures
            final(self).handlers() == old(self).handlers(),
            final(self).default_handler() == old(self).default_handler(),
            final(self).poisoned() == old(self).poisoned(),
            match r {
                Ok(v) => !old(self).poisoned() && exists|state: &mut T|
                    *state == old(self).state() && *final(state) == final(self).state()
                        && call_ensures(f, (state,), v),
                Err(e) => old(self).poisoned() && e@ == ErrorView::LockPoisoned(poison_text())
                    && final(self).state() == old(self).state(),
            },
    {
        if self.poisoned {
            return Err(poison_error());
        }
        self.poisoned = true;
        let v = f(&mut self.state);
        self.poisoned = false;
        Ok(v)
    }

    /// A copy of the state.
    pub fn get_state_clone(&self) -> (r: Result<T, RstateError>) where T: Clone
        ensures
            match r {
                Ok(v) => !self.poisoned() && cloned::<T>(self.state(), v),
                Err(e) => self.poisoned() && e@ == ErrorView::LockPoisoned(poison_text()),
            },
    {
        if self.poisoned {
            return Err(poison_error());
        }
        Ok(self.state.clone())
    }
}

impl<T: ToJson, H: Fn(&mut T, &Action) -> Result<(), RstateError>> RstateManager for BuiltStateManager<
    T,
    H,
> {
    /// The state as a JSON tree; `null` where the state cannot be written
    /// as one, or the manager is poisoned.
    fn get_initial_state(&self) -> (tree: JsonValue)
        ensures
            self.poisoned() ==> tree@ == Json::Null,
            !self.poisoned() ==> call_ensures(
                T::to_json,
                (&self.state(),),
                Ok::<JsonValue, String>(tree),
            ) || (tree@ == Json::Null && exists|reason: String|
                call_ensures(T::to_json, (&self.state(),), Err::<JsonValue, String>(reason))),
    {
        if self.poisoned {
            return JsonValue::Null;
        }
        match self.state.to_json() {
            Ok(tree) => tree,
            Err(_) => JsonValue::Null,
        }
    }

    /// Hands the action to the handler of its kind, else to the default
    /// handler, and returns the state that results as a JSON tree. Without
    /// either handler the state stays as it is. An error of the handler is
    /// returned as it is, and what the handler did to the state before stays.
    fn dispatch(&mut self, action: &Action) -> (r: Result<JsonValue, RstateError>)
        ensures
            final(self).handlers() == old(self).handlers(),
            final(self).default_handler() == old(self).default_handler(),
            final(self).poisoned() == old(self).poisoned(),
            old(self).poisoned() ==> final(self).state() == old(self).state() && r is Err
                && r->Err_0@ == ErrorView::LockPoisoned(poison_text()),
            !old(self).poisoned() ==> match handler_for(
                old(self).handlers(),
                old(self).default_handler(),
                action.kind@,
            ) {
                Some(handler) => exists|state: &mut T, outcome: Result<(), RstateError>|
                    *state == old(self).state() && *final(state) == final(self).state()
                        && call_ensures(handler, (state, action), outcome) && match outcome {
                        Ok(_) => serialized(final(self).state(), r),
                        Err(e) => r == Err::<JsonValue, RstateError>(e),
                    },
                None => final(self).state() == old(self).state() && serialized(
                    final(self).state(),
                    r,
                ),
            },
    {
        if self.poisoned {
            return Err(poison_error());
        }
        self.poisoned = true;
        let ghost before = self.state;
        let ghost chosen = handler_for(self.handlers(), self.default_handler(), action.kind@);
        let outcome: Result<(), RstateError> = match self.registry.select(&action.kind) {
            Some(handler) => {
                let outcome = handler(&mut self.state, action);
                assert(exists|state: &mut T|
                    *state == before && *final(state) == self.state && call_ensures(
                        chosen.unwrap(),
                        (state, action),
                        outcome,
                    ));
                outcome
            },
            None => Ok(()),
        };
        self.poisoned = false;
        let r: Result<JsonValue, RstateError> = match outcome {
            Err(e) => Err(e),
            Ok(_) => match self.state.to_json() {
                Ok(tree) => Ok(tree),
                Err(reason) => Err(RstateError::Serialization(reason)),
            },
        };
        proof {
            if chosen is Some {
                let ghost end = self.state;
                let witness = choose|state: &mut T|
                    *state == before && *final(state) == end && call_ensures(
                        chosen.unwrap(),
                        (state, action),
                        outcome,
                    );
                assert(call_ensures(chosen.unwrap(), (witness, action), outcome));
                assert(exists|state: &mut T, outcome: Result<(), RstateError>|
                    *state == before && *final(state) == self.state && call_ensures(
                        chosen.unwrap(),
                        (state, action),
                        outcome,
                    ) && match outcome {
                        Ok(_) => serialized(self.state, r),
                        Err(e) => r == Err::<JsonValue, RstateError>(e),
                    });
            }
        }
        r
    }
}

} // verus!
