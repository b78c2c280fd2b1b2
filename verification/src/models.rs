//! Actions, the interface of a state manager, and reading parts of a state.

use vstd::prelude::*;
use vstd::string::StringExecFns;
use crate::codec::{reads_back, FromJson, ToJson};
use crate::equality::{states_are_equal, structurally_equal};
use crate::error::{ErrorView, RstateError};
use crate::path::{resolve_path, split_key, state_at};
use crate::value::{Json, JsonValue};

verus! {

/// A request to change the state: a kind, and a payload where the kind needs
/// one. An action without a payload is not the same as one whose payload is
/// `null`.
#[derive(Debug)]
pub struct Action {
    /// The label that selects the handler, such as `INCREMENT`.
    pub kind: String,
    /// The data that comes with the action, if any.
    pub payload: Option<JsonValue>,
}

/// The mathematical value of an [`Action`].
pub ghost struct ActionView {
    pub kind: Seq<char>,
    pub payload: Option<Json>,
}

impl View for Action {
    type V = ActionView;

    open spec fn view(&self) -> ActionView {
        ActionView {
            kind: self.kind@,
            payload: match self.payload {
                Some(v) => Some(v@),
                None => None,
            },
        }
    }
}

impl Clone for Action {
    fn clone(&self) -> (r: Self)
        ensures
            r@ == self@,
    {
        let payload: Option<JsonValue> = match &self.payload {
            Some(v) => Some(v.clone()),
            None => None,
        };
        Action { kind: self.kind.clone(), payload }
    }
}

/// What reading a payload of type `T` from a tree may give: the value that
/// `T` reads from it, or an invalid-payload error with the reason that `T` gives.
pub open spec fn payload_read<T: FromJson>(tree: JsonValue, r: Result<T, RstateError>) -> bool {
    match r {
        Ok(v) => call_ensures(T::from_json, (&tree,), Ok::<T, String>(v)),
        Err(e) => exists|reason: String|
            call_ensures(T::from_json, (&tree,), Err::<T, String>(reason)) && e@
                == ErrorView::InvalidPayload(reason@),
    }
}

impl Action {
    /// What building an action of some kind around `payload` may give: the
    /// action with a tree that `T` writes for the payload, or a serialization
    /// error with the reason that `T` gives.
    pub open spec fn built_with<T: ToJson>(
        kind: Seq<char>,
        payload: T,
        r: Result<Action, RstateError>,
    ) -> bool {
        match r {
            Ok(action) => action.kind@ == kind && action.payload is Some && call_ensures(
                T::to_json,
                (&payload,),
                Ok::<JsonValue, String>(action.payload.unwrap()),
            ),
            Err(e) => exists|reason: String|
                call_ensures(T::to_json, (&payload,), Err::<JsonValue, String>(reason)) && e@
                    == ErrorView::Serialization(reason@),
        }
    }

    /// What asking for the payload as a `T` may give: a missing-payload
    /// error with the action's kind where there is no payload, else what
    /// reading the payload gives.
    pub open spec fn payload_required<T: FromJson>(&self, r: Result<T, RstateError>) -> bool {
        match self.payload {
            None => r is Err && r->Err_0@ == ErrorView::MissingPayload(self.kind@),
            Some(tree) => payload_read(tree, r),
        }
    }

    /// What looking at the payload as a `T` may give: nothing where there
    /// is no payload, else what reading the payload gives.
    pub open spec fn payload_seen<T: FromJson>(&self, r: Result<Option<T>, RstateError>) -> bool {
        match self.payload {
            None => r is Ok && r->Ok_0 is None,
            Some(tree) => match r {
                Ok(seen) => seen is Some && payload_read(tree, Ok::<T, RstateError>(seen.unwrap())),
                Err(e) => payload_read(tree, Err::<T, RstateError>(e)),
            },
        }
    }

    /// An action of the given kind without a payload.
    pub fn new(kind: &str) -> (action: Self)
        ensures
            action@ == (ActionView { kind: kind@, payload: None }),
    {
        Action { kind: String::from_str(kind), payload: None }
    }

    /// An action of the given kind whose payload is the JSON tree of `payload`.
    pub fn with_payload<T: ToJson>(kind: &str, payload: T) -> (r: Result<Self, RstateError>)
        ensures
            Self::built_with(kind@, payload, r),
    {
        match payload.to_json() {
            Ok(tree) => Ok(Action { kind: String::from_str(kind), payload: Some(tree) }),
            Err(reason) => Err(RstateError::Serialization(reason)),
        }
    }

    /// An action of the given kind with the given JSON tree as its payload.
    pub fn with_json(kind: &str, payload: JsonValue) -> (action: Self)
        ensures
            action.kind@ == kind@,
            action.payload == Some(payload),
    {
        Action { kind: String::from_str(kind), payload: Some(payload) }
    }

    /// The payload as a `T`, where there is one.
    pub fn payload_as<T: FromJson>(&self) -> (r: Result<Option<T>, RstateError>)
        ensures
            self.payload_seen(r),
    {
        match &self.payload {
            Some(tree) => match T::from_json(tree) {
                Ok(v) => Ok(Some(v)),
                Err(reason) => Err(RstateError::InvalidPayload(reason)),
            },
            None => Ok(None),
        }
    }

    /// The payload as a `T`; an error where there is none.
    pub fn require_payload<T: FromJson>(&self) -> (r: Result<T, RstateError>)
        ensures
            self.payload_required(r),
    {
        match &self.payload {
            Some(tree) => match T::from_json(tree) {
                Ok(v) => Ok(v),
                Err(reason) => Err(RstateError::InvalidPayload(reason)),
            },
            None => Err(RstateError::MissingPayload(self.kind.clone())),
        }
    }

    /// Whether the action has a payload.
    pub fn has_payload(&self) -> (r: bool)
        ensures
            r == (self@.payload is Some),
    {
        self.payload.is_some()
    }

    /// Whether the action is of the given kind.
    pub fn is(&self, kind: &str) -> (r: bool)
        ensures
            r == (self@.kind == kind@),
    {
        let wanted: String = String::from_str(kind);
        self.kind == wanted
    }
}

/// Asking an action without a payload for its payload fails with a
/// missing-payload error that names the action's kind.
pub proof fn lemma_payload_missing<T: FromJson>(action: Action, r: Result<T, RstateError>)
    requires
        action@.payload is None,
        action.payload_required(r),
    ensures
        r is Err,
        r->Err_0@ == ErrorView::MissingPayload(action@.kind),
{
}

/// An action built around a payload gives the payload back unchanged,
/// for every type that reads back what it writes.
pub proof fn lemma_payload_round_trip<T: ToJson + FromJson>(
    kind: Seq<char>,
    payload: T,
    built: Result<Action, RstateError>,
    read: Result<T, RstateError>,
)
    requires
        reads_back(payload),
        Action::built_with(kind, payload, built),
        built is Ok,
        built->Ok_0.payload_required(read),
    ensures
        read == Ok::<T, RstateError>(payload),
{
    let tree = built->Ok_0.payload.unwrap();
    match read {
        Ok(v) => {
            assert(call_ensures(T::from_json, (&tree,), Ok::<T, String>(v)));
        },
        Err(e) => {
            let reason = choose|reason: String|
                call_ensures(T::from_json, (&tree,), Err::<T, String>(reason)) && e@
                    == ErrorView::InvalidPayload(reason@);
            assert(call_ensures(T::from_json, (&tree,), Err::<T, String>(reason)));
        },
    }
}

/// What manages the state of an application: it reports the state as a
/// JSON tree, and applies actions to it.
pub trait RstateManager {
    /// The state as it is now.
    fn get_initial_state(&self) -> JsonValue;

    /// Applies an action to the state and returns the state that results.
    fn dispatch(&mut self, action: &Action) -> Result<JsonValue, RstateError>;
}

/// Whether the part of a state under a key differs between two states:
/// present in one and absent in the other, or present in both and not
/// structurally equal.
pub open spec fn changed_at(before: Json, after: Json, key: Seq<char>) -> bool {
    match (state_at(before, key), state_at(after, key)) {
        (Some(a), Some(b)) => !structurally_equal(a, b),
        (None, None) => false,
        _ => true,
    }
}

/// The part of a state under a dotted key; the whole state for the empty key.
pub fn get_state(state: &JsonValue, key: &str) -> (r: Option<JsonValue>)
    ensures
        match r {
            Some(v) => state_at(state@, key@) == Some(v@),
            None => state_at(state@, key@) is None,
        },
{
    if key.is_empty() {
        return Some(state.clone());
    }
    let segments: Vec<String> = split_key(key);
    match resolve_path(state, &segments) {
        Some(v) => Some(v.clone()),
        None => None,
    }
}

/// Whether the part of the state under a dotted key has changed.
pub fn state_changed(old_state: &JsonValue, new_state: &JsonValue, key: &str) -> (r: bool)
    ensures
        r == changed_at(old_state@, new_state@, key@),
{
    if key.is_empty() {
        return !states_are_equal(old_state, new_state);
    }
    let segments: Vec<String> = split_key(key);
    match (resolve_path(old_state, &segments), resolve_path(new_state, &segments)) {
        (Some(a), Some(b)) => !states_are_equal(a, b),
        (None, None) => false,
        _ => true,
    }
}

} // verus!
