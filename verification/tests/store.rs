use rstate::{
    init, init_empty, Action, ActionHandler, BuiltStateManager, JsonValue, Rstate, RstateError,
    StateBuilder, ToJson, STATE_UPDATE_EVENT,
};

type Handler = ActionHandler<Counter>;
type Manager = BuiltStateManager<Counter, Handler>;

#[derive(Default, Clone, Debug, PartialEq)]
struct Counter {
    counter: i32,
}

impl ToJson for Counter {
    fn to_json(&self) -> Result<JsonValue, String> {
        Ok(JsonValue::Object(vec![(
            "counter".to_string(),
            JsonValue::from_i64(self.counter as i64),
        )]))
    }
}

fn tree(counter: i64) -> JsonValue {
    JsonValue::Object(vec![("counter".to_string(), JsonValue::from_i64(counter))])
}

fn manager(initial: i32) -> Manager {
    let increment: Handler = Box::new(|state: &mut Counter, _: &Action| {
        state.counter += 1;
        Ok(())
    });
    let set_count: Handler = Box::new(|state: &mut Counter, action: &Action| {
        state.counter = action.require_payload::<i32>()?;
        Ok(())
    });
    let touch: Handler = Box::new(|_: &mut Counter, _: &Action| Ok(()));
    let fail: Handler = Box::new(|_: &mut Counter, _: &Action| Err(RstateError::state("no")));
    StateBuilder::new(Counter { counter: initial })
        .on("INCREMENT", increment)
        .on("SET_COUNT", set_count)
        .on("TOUCH", touch)
        .on("FAIL", fail)
        .build()
}

/// Dispatches and delivers the announcement into `sent`, as a host would.
fn dispatch_and_announce(
    store: &mut Rstate<Manager>,
    action: Action,
    sent: &mut Vec<JsonValue>,
) -> Result<JsonValue, RstateError> {
    let dispatched = store.dispatch(action)?;
    if let Some(state) = dispatched.notification() {
        sent.push(state.clone());
    }
    dispatched.finish(Ok(()))
}

#[test]
fn three_increments_give_three_and_three_announcements() {
    let mut store = init(manager(0));
    let mut sent = Vec::new();
    for _ in 0..3 {
        dispatch_and_announce(&mut store, Action::new("INCREMENT"), &mut sent).unwrap();
    }
    assert_eq!(store.get_initial_state(), Ok(tree(3)));
    assert_eq!(sent, vec![tree(1), tree(2), tree(3)]);
}

#[test]
fn action_without_a_handler_changes_and_announces_nothing() {
    let empty: Manager = StateBuilder::new(Counter { counter: 5 }).build();
    let mut store = init(empty);
    let mut sent = Vec::new();
    let result = dispatch_and_announce(&mut store, Action::new("NOOP"), &mut sent);
    assert_eq!(result, Ok(tree(5)));
    assert!(sent.is_empty());
    assert_eq!(store.get_initial_state(), Ok(tree(5)));
}

#[test]
fn payload_sets_the_counter_and_is_announced_once() {
    let mut store = init(manager(0));
    let mut sent = Vec::new();
    let action = Action::with_payload("SET_COUNT", 42).unwrap();
    let result = dispatch_and_announce(&mut store, action, &mut sent);
    assert_eq!(result, Ok(tree(42)));
    assert_eq!(sent, vec![tree(42)]);
}

#[test]
fn handler_that_changes_nothing_is_not_announced() {
    let mut store = init(manager(1));
    let dispatched = store.dispatch(Action::new("TOUCH")).unwrap();
    assert!(!dispatched.changed);
    assert_eq!(dispatched.notification(), None);
    assert_eq!(dispatched.state, tree(1));
    let dispatched = store.dispatch(Action::with_payload("SET_COUNT", 1).unwrap()).unwrap();
    assert!(!dispatched.changed);
    let dispatched = store.dispatch(Action::with_payload("SET_COUNT", 2).unwrap()).unwrap();
    assert!(dispatched.changed);
    assert_eq!(dispatched.notification(), Some(&tree(2)));
}

#[test]
fn store_without_a_manager_reports_that() {
    let mut store: Rstate<Manager> = init_empty();
    assert!(!store.is_registered());
    assert_eq!(store.get_initial_state(), Err(RstateError::NotRegistered));
    assert_eq!(store.get_state("counter"), Err(RstateError::NotRegistered));
    assert_eq!(store.dispatch(Action::new("INCREMENT")).unwrap_err(), RstateError::NotRegistered);
    assert_eq!(store.dispatch_kind("INCREMENT").unwrap_err(), RstateError::NotRegistered);
    assert_eq!(store.dispatch_with("SET_COUNT", 1).unwrap_err(), RstateError::NotRegistered);
    assert!(!store.is_registered());
}

#[test]
fn manager_can_be_registered_later_and_replaced() {
    let mut store: Rstate<Manager> = init_empty();
    assert_eq!(store.register_state_manager(manager(7)), Ok(()));
    assert!(store.is_registered());
    assert_eq!(store.get_initial_state(), Ok(tree(7)));
    assert_eq!(store.register_state_manager(manager(9)), Ok(()));
    assert!(store.is_registered());
    assert_eq!(store.get_initial_state(), Ok(tree(9)));
    assert_eq!(store.dispatch_kind("INCREMENT").unwrap().state, tree(10));
}

#[test]
fn parts_of_the_state_are_read_by_key() {
    let store = init(manager(4));
    assert_eq!(store.get_state(""), Ok(Some(tree(4))));
    assert_eq!(store.get_state("counter"), Ok(Some(JsonValue::from_i64(4))));
    assert_eq!(store.get_state("missing.key"), Ok(None));
    assert_eq!(store.get_event_name(), "rstate://state-update");
    assert_eq!(STATE_UPDATE_EVENT, "rstate://state-update");
}

#[test]
fn dispatch_by_kind_and_with_a_payload() {
    let mut store = init(manager(0));
    let dispatched = store.dispatch_kind("INCREMENT").unwrap();
    assert!(dispatched.changed);
    assert_eq!(dispatched.state, tree(1));
    let dispatched = store.dispatch_with("SET_COUNT", 42).unwrap();
    assert!(dispatched.changed);
    assert_eq!(dispatched.state, tree(42));
    assert_eq!(store.get_state("counter"), Ok(Some(JsonValue::from_i64(42))));
}

#[test]
fn errors_of_the_manager_pass_through_the_store() {
    let mut store = init(manager(0));
    assert_eq!(
        store.dispatch_kind("FAIL").unwrap_err(),
        RstateError::State("no".to_string())
    );
    assert_eq!(
        store.dispatch_kind("SET_COUNT").unwrap_err(),
        RstateError::MissingPayload("SET_COUNT".to_string())
    );
    assert!(matches!(
        store.dispatch_with("SET_COUNT", "many").unwrap_err(),
        RstateError::InvalidPayload(_)
    ));
    assert_eq!(store.get_initial_state(), Ok(tree(0)));
    assert!(store.is_registered());
}

#[test]
fn failed_delivery_is_an_emission_error() {
    let mut store = init(manager(0));
    let dispatched = store.dispatch_kind("INCREMENT").unwrap();
    assert_eq!(
        dispatched.finish(Err("channel closed".to_string())),
        Err(RstateError::Emit("channel closed".to_string()))
    );
    assert_eq!(store.get_initial_state(), Ok(tree(1)));
}

#[test]
fn two_thousand_increments_in_a_row_lose_no_update() {
    let mut store = init(manager(0));
    let mut announced = 0;
    for _ in 0..2000 {
        if store.dispatch_kind("INCREMENT").unwrap().changed {
            announced += 1;
        }
    }
    assert_eq!(store.get_state("counter"), Ok(Some(JsonValue::from_i64(2000))));
    assert_eq!(announced, 2000);
}
