//! The failures that the store reports.

use vstd::prelude::*;
use vstd::string::StringExecFns;

verus! {

/// Everything that can go wrong while a store is read or an action is
/// dispatched. Every variant but `NotRegistered` carries a detail text.
#[derive(Debug, PartialEq, Eq)]
pub enum RstateError {
    /// A failure that a handler reports about the state itself.
    State(String),
    /// The change notification could not be delivered.
    Emit(String),
    /// A value could not be turned into a JSON tree.
    Serialization(String),
    /// No handler accepts the action; raised by default handlers.
    ActionNotFound(String),
    /// The payload is present but has the wrong shape.
    InvalidPayload(String),
    /// The action needs a payload and has none; holds the action's kind.
    MissingPayload(String),
    /// No state manager has been registered.
    NotRegistered,
    /// An earlier access failed while it held the state.
    LockPoisoned(String),
}

/// The mathematical value of an [`RstateError`]: texts as sequences of characters.
pub ghost enum ErrorView {
    State(Seq<char>),
    Emit(Seq<char>),
    Serialization(Seq<char>),
    ActionNotFound(Seq<char>),
    InvalidPayload(Seq<char>),
    MissingPayload(Seq<char>),
    NotRegistered,
    LockPoisoned(Seq<char>),
}

impl View for RstateError {
    type V = ErrorView;

    open spec fn view(&self) -> ErrorView {
        match self {
            RstateError::State(m) => ErrorView::State(m@),
            RstateError::Emit(m) => ErrorView::Emit(m@),
            RstateError::Serialization(m) => ErrorView::Serialization(m@),
            RstateError::ActionNotFound(m) => ErrorView::ActionNotFound(m@),
            RstateError::InvalidPayload(m) => ErrorView::InvalidPayload(m@),
            RstateError::MissingPayload(m) => ErrorView::MissingPayload(m@),
            RstateError::NotRegistered => ErrorView::NotRegistered,
            RstateError::LockPoisoned(m) => ErrorView::LockPoisoned(m@),
        }
    }
}

impl ErrorView {
    /// The text that stands before the detail in the rendered message.
    pub open spec fn prefix(self) -> Seq<char> {
        match self {
            ErrorView::State(_) => "State error: "@,
            ErrorView::Emit(_) => "Event emission error: "@,
            ErrorView::Serialization(_) => "Serialization error: "@,
            ErrorView::ActionNotFound(_) => "Action not found: "@,
            ErrorView::InvalidPayload(_) => "Invalid payload: "@,
            ErrorView::MissingPayload(_) => "Missing payload for action: "@,
            ErrorView::NotRegistered => "State manager not registered"@,
            ErrorView::LockPoisoned(_) => "Lock poisoned: "@,
        }
    }

    /// The detail text; empty for `NotRegistered`.
    pub open spec fn detail(self) -> Seq<char> {
        match self {
            ErrorView::State(m) => m,
            ErrorView::Emit(m) => m,
            ErrorView::Serialization(m) => m,
            ErrorView::ActionNotFound(m) => m,
            ErrorView::InvalidPayload(m) => m,
            ErrorView::MissingPayload(m) => m,
            ErrorView::NotRegistered => Seq::empty(),
            ErrorView::LockPoisoned(m) => m,
        }
    }

    /// The rendered message: the variant's prefix, then the detail. The
    /// prefixes differ, so the message keeps the variant apart.
    pub open spec fn message(self) -> Seq<char> {
        self.prefix() + self.detail()
    }
}

impl RstateError {
    /// A state error with the given message.
    pub fn state(msg: &str) -> (e: Self)
        ensures
            e@ == ErrorView::State(msg@),
    {
        RstateError::State(String::from_str(msg))
    }

    /// An invalid-payload error with the given message.
    pub fn invalid_payload(msg: &str) -> (e: Self)
        ensures
            e@ == ErrorView::InvalidPayload(msg@),
    {
        RstateError::InvalidPayload(String::from_str(msg))
    }

    /// A missing-payload error for the action of the given kind.
    pub fn missing_payload(action: &str) -> (e: Self)
        ensures
            e@ == ErrorView::MissingPayload(action@),
    {
        RstateError::MissingPayload(String::from_str(action))
    }

    /// An action-not-found error for the given kind.
    pub fn action_not_found(action: &str) -> (e: Self)
        ensures
            e@ == ErrorView::ActionNotFound(action@),
    {
        RstateError::ActionNotFound(String::from_str(action))
    }

    /// A serialization error with the given message.
    pub fn serialization(msg: &str) -> (e: Self)
        ensures
            e@ == ErrorView::Serialization(msg@),
    {
        RstateError::Serialization(String::from_str(msg))
    }

    /// An emission error with the given message.
    pub fn emit(msg: &str) -> (e: Self)
        ensures
            e@ == ErrorView::Emit(msg@),
    {
        RstateError::Emit(String::from_str(msg))
    }

    /// A poisoned-lock error with the given message.
    pub fn lock_poisoned(msg: &str) -> (e: Self)
        ensures
            e@ == ErrorView::LockPoisoned(msg@),
    {
        RstateError::LockPoisoned(String::from_str(msg))
    }

    /// The error as a text for people: the variant's prefix and the detail.
    pub fn to_string(&self) -> (s: String)
        ensures
            s@ == self@.message(),
    {
        match self {
            RstateError::State(m) => String::from_str("State error: ").concat(m.as_str()),
            RstateError::Emit(m) => String::from_str("Event emission error: ").concat(m.as_str()),
            RstateError::Serialization(m) => String::from_str("Serialization error: ").concat(
                m.as_str(),
            ),
            RstateError::ActionNotFound(m) => String::from_str("Action not found: ").concat(
                m.as_str(),
            ),
            RstateError::InvalidPayload(m) => String::from_str("Invalid payload: ").concat(
                m.as_str(),
            ),
            RstateError::MissingPayload(m) => String::from_str(
                "Missing payload for action: ",
            ).concat(m.as_str()),
            RstateError::NotRegistered => {
                assert("State manager not registered"@ + Seq::<char>::empty()
                    =~= "State manager not registered"@);
                String::from_str("State manager not registered")
            },
            RstateError::LockPoisoned(m) => String::from_str("Lock poisoned: ").concat(m.as_str()),
        }
    }
}

} // verus!
