use rstate::{
    get_state, Action, ActionHandler, BuiltStateManager, JsonValue, RstateError, RstateManager,
    StateBuilder, ToJson,
};

type Handler<T> = ActionHandler<T>;

#[derive(Default, Clone, Debug, PartialEq)]
struct TestState {
    counter: i32,
    message: String,
}

impl ToJson for TestState {
    fn to_json(&self) -> Result<JsonValue, String> {
        Ok(JsonValue::Object(vec![
            ("counter".to_string(), JsonValue::from_i64(self.counter as i64)),
            ("message".to_string(), JsonValue::from_str(&self.message)),
        ]))
    }
}

struct Unwritable;

impl ToJson for Unwritable {
    fn to_json(&self) -> Result<JsonValue, String> {
        Err("key must be a string".to_string())
    }
}

fn field(state: &JsonValue, key: &str) -> JsonValue {
    get_state(state, key).unwrap()
}

fn increment() -> Handler<TestState> {
    Box::new(|state: &mut TestState, _: &Action| {
        state.counter += 1;
        Ok(())
    })
}

fn counting_manager(initial: TestState) -> BuiltStateManager<TestState, Handler<TestState>> {
    StateBuilder::new(initial).on("INCREMENT", increment()).build()
}

#[test]
fn test_state_builder_basic() {
    let set_message: Handler<TestState> = Box::new(|state: &mut TestState, action: &Action| {
        state.message = action.require_payload()?;
        Ok(())
    });
    let mut manager = StateBuilder::new(TestState::default())
        .on("INCREMENT", increment())
        .on("SET_MESSAGE", set_message)
        .build();

    let initial = manager.get_initial_state();
    assert_eq!(field(&initial, "counter"), JsonValue::from_i64(0));
    assert_eq!(field(&initial, "message"), JsonValue::from_str(""));

    let action = Action::new("INCREMENT");
    let result = manager.dispatch(&action).unwrap();
    assert_eq!(field(&result, "counter"), JsonValue::from_i64(1));

    let action = Action::with_payload("SET_MESSAGE", "Hello").unwrap();
    let result = manager.dispatch(&action).unwrap();
    assert_eq!(field(&result, "message"), JsonValue::from_str("Hello"));
}

#[test]
fn test_state_builder_default_handler() {
    let reject: Handler<TestState> = Box::new(|_state: &mut TestState, action: &Action| {
        Err(RstateError::action_not_found(&action.kind))
    });
    let mut manager = StateBuilder::new(TestState::default()).on_default(reject).build();

    let action = Action::new("UNKNOWN");
    let result = manager.dispatch(&action);
    assert!(result.is_err());
    assert_eq!(result.unwrap_err(), RstateError::ActionNotFound("UNKNOWN".to_string()));
}

#[test]
fn test_state_builder_unknown_action_ignored() {
    let mut manager = counting_manager(TestState { counter: 5, message: "test".into() });

    let action = Action::new("UNKNOWN");
    let result = manager.dispatch(&action).unwrap();
    assert_eq!(field(&result, "counter"), JsonValue::from_i64(5));
    assert_eq!(field(&result, "message"), JsonValue::from_str("test"));
}

#[test]
fn test_action_helpers() {
    let action = Action::new("TEST");
    assert_eq!(action.kind, "TEST");
    assert!(!action.has_payload());

    let action = Action::with_payload("SET", 42i32).unwrap();
    assert_eq!(action.kind, "SET");
    assert!(action.has_payload());
    assert_eq!(action.require_payload::<i32>().unwrap(), 42);

    assert!(action.is("SET"));
    assert!(!action.is("GET"));

    let opt: Option<i32> = action.payload_as().unwrap();
    assert_eq!(opt, Some(42));
}

#[test]
fn later_registration_takes_the_place_of_an_earlier_one() {
    let by_ten: Handler<TestState> = Box::new(|state: &mut TestState, _: &Action| {
        state.counter += 10;
        Ok(())
    });
    let mut manager = StateBuilder::new(TestState::default())
        .on("INCREMENT", increment())
        .on("OTHER", increment())
        .on("INCREMENT", by_ten)
        .build();
    let result = manager.dispatch(&Action::new("INCREMENT")).unwrap();
    assert_eq!(field(&result, "counter"), JsonValue::from_i64(10));
    let result = manager.dispatch(&Action::new("OTHER")).unwrap();
    assert_eq!(field(&result, "counter"), JsonValue::from_i64(11));
}

#[test]
fn handler_of_the_kind_comes_before_the_default_handler() {
    let reject: Handler<TestState> = Box::new(|_state: &mut TestState, action: &Action| {
        Err(RstateError::action_not_found(&action.kind))
    });
    let mut manager = StateBuilder::new(TestState::default())
        .on_default(reject)
        .on("INCREMENT", increment())
        .build();
    let result = manager.dispatch(&Action::new("INCREMENT")).unwrap();
    assert_eq!(field(&result, "counter"), JsonValue::from_i64(1));
    assert_eq!(
        manager.dispatch(&Action::new("DECREMENT")),
        Err(RstateError::ActionNotFound("DECREMENT".to_string()))
    );
}

#[test]
fn later_default_handler_takes_the_place_of_an_earlier_one() {
    let reject: Handler<TestState> = Box::new(|_state: &mut TestState, action: &Action| {
        Err(RstateError::action_not_found(&action.kind))
    });
    let mut manager =
        StateBuilder::new(TestState::default()).on_default(reject).on_default(increment()).build();
    let result = manager.dispatch(&Action::new("ANYTHING")).unwrap();
    assert_eq!(field(&result, "counter"), JsonValue::from_i64(1));
}

#[test]
fn handler_error_is_returned_and_its_changes_stay() {
    let half_done: Handler<TestState> = Box::new(|state: &mut TestState, _: &Action| {
        state.counter = 7;
        Err(RstateError::state("stopped half way"))
    });
    let mut manager = StateBuilder::new(TestState::default()).on("BREAK", half_done).build();
    let result = manager.dispatch(&Action::new("BREAK"));
    assert_eq!(result, Err(RstateError::State("stopped half way".to_string())));
    assert_eq!(field(&manager.get_initial_state(), "counter"), JsonValue::from_i64(7));
}

#[test]
fn missing_payload_is_reported_by_the_handler() {
    let set_message: Handler<TestState> = Box::new(|state: &mut TestState, action: &Action| {
        state.message = action.require_payload()?;
        Ok(())
    });
    let mut manager = StateBuilder::new(TestState::default()).on("SET_MESSAGE", set_message).build();
    let result = manager.dispatch(&Action::new("SET_MESSAGE"));
    assert_eq!(result, Err(RstateError::MissingPayload("SET_MESSAGE".to_string())));
    let result = manager.dispatch(&Action::with_payload("SET_MESSAGE", 3i64).unwrap());
    assert!(matches!(result, Err(RstateError::InvalidPayload(_))));
    assert_eq!(field(&manager.get_initial_state(), "message"), JsonValue::from_str(""));
}

#[test]
fn state_without_a_tree_gives_null_and_a_serialization_error() {
    let noop: Handler<Unwritable> = Box::new(|_: &mut Unwritable, _: &Action| Ok(()));
    let mut manager = StateBuilder::new(Unwritable).on("NOOP", noop).build();
    assert_eq!(manager.get_initial_state(), JsonValue::Null);
    assert_eq!(
        manager.dispatch(&Action::new("NOOP")),
        Err(RstateError::Serialization("key must be a string".to_string()))
    );
    assert_eq!(
        manager.dispatch(&Action::new("UNKNOWN")),
        Err(RstateError::Serialization("key must be a string".to_string()))
    );
}

#[test]
fn state_can_be_read_changed_and_copied() {
    let mut manager = counting_manager(TestState { counter: 2, message: "hi".into() });
    assert_eq!(manager.with_state(|state| state.counter), Ok(2));
    assert_eq!(
        manager.with_state_mut(|state| {
            state.counter += 40;
            state.counter
        }),
        Ok(42)
    );
    assert_eq!(manager.get_state_clone(), Ok(TestState { counter: 42, message: "hi".into() }));
    let result = manager.dispatch(&Action::new("INCREMENT")).unwrap();
    assert_eq!(field(&result, "counter"), JsonValue::from_i64(43));
}

#[test]
fn builder_without_handlers_ignores_every_action() {
    let mut manager =
        StateBuilder::<TestState, Handler<TestState>>::new(TestState { counter: 5, message: String::new() })
            .build();
    let before = manager.get_initial_state();
    let after = manager.dispatch(&Action::new("NOOP")).unwrap();
    assert_eq!(before, after);
    assert!(rstate::states_are_equal(&before, &after));
}
