use rstate::{Action, FromJson, JsonNumber, JsonValue, RstateError, ToJson};

fn float(v: f64) -> JsonValue {
    JsonValue::Number(JsonNumber::from_f64_bits(v.to_bits()).unwrap())
}

#[test]
fn values_are_written_as_trees() {
    assert_eq!(true.to_json(), Ok(JsonValue::Bool(true)));
    assert_eq!(42i32.to_json(), Ok(JsonValue::Number(JsonNumber::PosInt(42))));
    assert_eq!((-42i32).to_json(), Ok(JsonValue::Number(JsonNumber::NegInt(-42))));
    assert_eq!(i64::MIN.to_json(), Ok(JsonValue::Number(JsonNumber::NegInt(i64::MIN))));
    assert_eq!(u64::MAX.to_json(), Ok(JsonValue::Number(JsonNumber::PosInt(u64::MAX))));
    assert_eq!("Hello".to_json(), Ok(JsonValue::String("Hello".to_string())));
    assert_eq!("Hello".to_string().to_json(), Ok(JsonValue::String("Hello".to_string())));
    assert_eq!(JsonValue::Array(vec![JsonValue::Null]).to_json(), Ok(JsonValue::Array(vec![JsonValue::Null])));
}

#[test]
fn trees_are_read_as_values() {
    assert_eq!(bool::from_json(&JsonValue::Bool(false)), Ok(false));
    assert_eq!(i32::from_json(&JsonValue::from_i64(-7)), Ok(-7));
    assert_eq!(i32::from_json(&JsonValue::from_i64(i32::MAX as i64)), Ok(i32::MAX));
    assert_eq!(i32::from_json(&JsonValue::from_i64(i32::MIN as i64)), Ok(i32::MIN));
    assert_eq!(i64::from_json(&JsonValue::from_i64(i64::MIN)), Ok(i64::MIN));
    assert_eq!(i64::from_json(&JsonValue::from_u64(i64::MAX as u64)), Ok(i64::MAX));
    assert_eq!(u64::from_json(&JsonValue::from_u64(u64::MAX)), Ok(u64::MAX));
    assert_eq!(String::from_json(&JsonValue::from_str("x")), Ok("x".to_string()));
    assert_eq!(JsonValue::from_json(&JsonValue::Null), Ok(JsonValue::Null));
}

#[test]
fn trees_of_the_wrong_shape_are_refused() {
    assert!(bool::from_json(&JsonValue::from_i64(1)).is_err());
    assert!(bool::from_json(&JsonValue::Null).is_err());
    assert!(i32::from_json(&JsonValue::from_i64(i32::MAX as i64 + 1)).is_err());
    assert!(i32::from_json(&JsonValue::from_i64(i32::MIN as i64 - 1)).is_err());
    assert!(i32::from_json(&JsonValue::from_u64(u64::MAX)).is_err());
    assert!(i32::from_json(&float(1.0)).is_err());
    assert!(i32::from_json(&JsonValue::from_str("1")).is_err());
    assert!(i64::from_json(&JsonValue::from_u64(i64::MAX as u64 + 1)).is_err());
    assert!(i64::from_json(&float(1.0)).is_err());
    assert!(i64::from_json(&JsonValue::Bool(true)).is_err());
    assert!(u64::from_json(&JsonValue::from_i64(-1)).is_err());
    assert!(u64::from_json(&float(1.0)).is_err());
    assert!(u64::from_json(&JsonValue::Null).is_err());
    assert!(String::from_json(&JsonValue::from_i64(1)).is_err());
    assert!(String::from_json(&JsonValue::Array(vec![])).is_err());
}

#[test]
fn payload_comes_back_as_it_went_in() {
    let action = Action::with_payload("SET", 42i32).unwrap();
    assert_eq!(action.require_payload::<i32>(), Ok(42));
    let action = Action::with_payload("SET", -9_000_000_000i64).unwrap();
    assert_eq!(action.require_payload::<i64>(), Ok(-9_000_000_000));
    let action = Action::with_payload("SET", u64::MAX).unwrap();
    assert_eq!(action.require_payload::<u64>(), Ok(u64::MAX));
    let action = Action::with_payload("SET", true).unwrap();
    assert_eq!(action.require_payload::<bool>(), Ok(true));
    let action = Action::with_payload("SET", "text".to_string()).unwrap();
    assert_eq!(action.require_payload::<String>(), Ok("text".to_string()));
    let tree = JsonValue::Object(vec![("a".to_string(), JsonValue::Array(vec![JsonValue::Null]))]);
    let action = Action::with_payload("SET", tree.clone()).unwrap();
    assert_eq!(action.require_payload::<JsonValue>(), Ok(tree));
}

#[test]
fn action_without_payload_has_none_to_give() {
    let action = Action::new("INCREMENT");
    assert_eq!(action.kind, "INCREMENT");
    assert_eq!(action.payload, None);
    assert_eq!(
        action.require_payload::<i32>(),
        Err(RstateError::MissingPayload("INCREMENT".to_string()))
    );
    assert_eq!(
        action.require_payload::<JsonValue>(),
        Err(RstateError::MissingPayload("INCREMENT".to_string()))
    );
    assert_eq!(action.payload_as::<i32>(), Ok(None));
    assert!(!action.has_payload());
}

#[test]
fn null_payload_is_a_payload() {
    let action = Action::with_json("CLEAR", JsonValue::Null);
    assert!(action.has_payload());
    assert_eq!(action.payload, Some(JsonValue::Null));
    assert_eq!(action.require_payload::<JsonValue>(), Ok(JsonValue::Null));
    assert_eq!(action.payload_as::<JsonValue>(), Ok(Some(JsonValue::Null)));
    assert!(matches!(action.require_payload::<i32>(), Err(RstateError::InvalidPayload(_))));
    assert!(matches!(action.payload_as::<i32>(), Err(RstateError::InvalidPayload(_))));
}

#[test]
fn payload_of_the_wrong_shape_is_invalid() {
    let action = Action::with_payload("SET", "many").unwrap();
    assert_eq!(
        action.require_payload::<i32>(),
        Err(RstateError::InvalidPayload("invalid type: expected i32".to_string()))
    );
    assert_eq!(
        action.payload_as::<bool>(),
        Err(RstateError::InvalidPayload("invalid type: expected a boolean".to_string()))
    );
    let action = Action::with_payload("SET", 5_000_000_000i64).unwrap();
    assert_eq!(
        action.require_payload::<i32>(),
        Err(RstateError::InvalidPayload("invalid value: expected i32".to_string()))
    );
}

struct Unwritable;

impl ToJson for Unwritable {
    fn to_json(&self) -> Result<JsonValue, String> {
        Err("no tree for this".to_string())
    }
}

#[test]
fn payload_without_a_tree_is_a_serialization_error() {
    assert_eq!(
        Action::with_payload("SET", Unwritable).unwrap_err(),
        RstateError::Serialization("no tree for this".to_string())
    );
}

#[test]
fn action_is_copied_with_its_payload() {
    let action = Action::with_json("SET_CONFIG", JsonValue::from_str("dark"));
    let copy = action.clone();
    assert_eq!(copy.kind, "SET_CONFIG");
    assert_eq!(copy.payload, Some(JsonValue::from_str("dark")));
    assert!(copy.is("SET_CONFIG"));
    assert!(!copy.is("SET_CONFI"));
    assert!(!copy.is("set_config"));
}
