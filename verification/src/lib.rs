//! An action-dispatch state container: a store holds one application state,
//! takes named actions, runs the handler registered for the action's kind and
//! reports the state as a JSON tree, together with whether it changed.

pub mod error;
pub mod number;
pub mod value;
pub mod equality;
pub mod path;
pub mod codec;
pub mod models;
pub mod state_builder;
pub mod store;

pub use crate::codec::{FromJson, ToJson};
pub use crate::equality::{states_are_equal, structurally_equal};
pub use crate::error::{ErrorView, RstateError};
pub use crate::models::{get_state, state_changed, Action, ActionView, RstateManager};
pub use crate::number::JsonNumber;
pub use crate::state_builder::{ActionHandler, BuiltStateManager, StateBuilder};
pub use crate::store::{init, init_empty, Dispatched, Rstate, STATE_UPDATE_EVENT};
pub use crate::value::{Json, JsonValue};
