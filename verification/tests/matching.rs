use hamalert::json::{JsonNumber, JsonObject, JsonValue};
use hamalert::trigger::{triggers_match, EditableTrigger, StoredTrigger, Trigger};

fn text(value: &str) -> JsonValue {
    JsonValue::Text(value.to_string())
}

fn callsign_conditions(callsign: &str) -> JsonValue {
    let mut members = JsonObject::new();
    members.insert("callsign".to_string(), text(callsign));
    JsonValue::Object(members)
}

fn stored(callsign: &str, actions: &[&str], comment: &str) -> StoredTrigger {
    StoredTrigger {
        conditions: callsign_conditions(callsign),
        actions: actions.iter().map(|a| a.to_string()).collect(),
        comment: comment.to_string(),
        options: None,
    }
}

#[test]
fn test_triggers_match_identical() {
    let t1 = stored("W1ABC", &["app"], "Test trigger");
    let t2 = stored("W1ABC", &["app"], "Test trigger");
    assert!(triggers_match(&t1, &t2));
}

#[test]
fn test_triggers_match_different_callsign() {
    let t1 = stored("W1ABC", &["app"], "Test trigger");
    let t2 = stored("K2DEF", &["app"], "Test trigger");
    assert!(!triggers_match(&t1, &t2));
}

#[test]
fn test_triggers_match_different_comment() {
    let t1 = stored("W1ABC", &["app"], "Comment A");
    let t2 = stored("W1ABC", &["app"], "Comment B");
    assert!(!triggers_match(&t1, &t2));
}

#[test]
fn test_triggers_match_ignores_actions() {
    let t1 = stored("W1ABC", &["app"], "Test");
    let t2 = stored("W1ABC", &["url", "app"], "Test");
    assert!(triggers_match(&t1, &t2));
}

#[test]
fn matching_is_symmetric_and_reflexive() {
    let a = stored("W1ABC", &["app"], "A");
    let b = stored("W1ABC", &["url"], "A");
    let c = stored("K2DEF", &["app"], "A");
    assert!(triggers_match(&a, &a));
    assert!(triggers_match(&c, &c));
    assert_eq!(triggers_match(&a, &b), triggers_match(&b, &a));
    assert_eq!(triggers_match(&a, &c), triggers_match(&c, &a));
    assert!(triggers_match(&a, &b));
    assert!(!triggers_match(&a, &c));
}

#[test]
fn matching_ignores_options() {
    let a = stored("W1ABC", &["app"], "A");
    let mut b = stored("W1ABC", &["app"], "A");
    let mut options = JsonObject::new();
    options.insert("speak".to_string(), JsonValue::Bool(true));
    b.options = Some(JsonValue::Object(options));
    assert!(triggers_match(&a, &b));
    assert_ne!(a, b);
}

#[test]
fn matching_ignores_the_order_of_condition_keys() {
    let mut first = JsonObject::new();
    first.insert("callsign".to_string(), text("W1ABC"));
    first.insert("mode".to_string(), text("cw"));
    let mut second = JsonObject::new();
    second.insert("mode".to_string(), text("cw"));
    second.insert("callsign".to_string(), text("W1ABC"));
    let a = StoredTrigger {
        conditions: JsonValue::Object(first),
        actions: vec!["app".to_string()],
        comment: "Same".to_string(),
        options: None,
    };
    let b = StoredTrigger {
        conditions: JsonValue::Object(second),
        actions: vec!["app".to_string()],
        comment: "Same".to_string(),
        options: None,
    };
    assert!(triggers_match(&a, &b));
    assert!(triggers_match(&b, &a));
    assert_eq!(a, b);
}

#[test]
fn matching_tells_conditions_with_more_keys_apart() {
    let mut with_mode = JsonObject::new();
    with_mode.insert("callsign".to_string(), text("W1ABC"));
    with_mode.insert("mode".to_string(), text("cw"));
    let a = StoredTrigger {
        conditions: JsonValue::Object(with_mode),
        actions: vec![],
        comment: "A".to_string(),
        options: None,
    };
    let b = stored("W1ABC", &[], "A");
    assert!(!triggers_match(&a, &b));
    assert!(!triggers_match(&b, &a));
}

#[test]
fn json_values_compare_by_structure() {
    let list = |items: Vec<JsonValue>| JsonValue::Array(items);
    assert_eq!(JsonValue::Null, JsonValue::Null);
    assert_ne!(JsonValue::Null, JsonValue::Bool(false));
    assert_ne!(JsonValue::Bool(true), JsonValue::Bool(false));
    assert_eq!(
        JsonValue::Number(JsonNumber::PosInt(7)),
        JsonValue::Number(JsonNumber::PosInt(7))
    );
    assert_ne!(
        JsonValue::Number(JsonNumber::PosInt(7)),
        JsonValue::Number(JsonNumber::Float(7))
    );
    assert_ne!(
        JsonValue::Number(JsonNumber::NegInt(-1)),
        JsonValue::Number(JsonNumber::NegInt(-2))
    );
    assert_ne!(text("7"), JsonValue::Number(JsonNumber::PosInt(7)));
    assert_eq!(list(vec![text("a"), text("b")]), list(vec![text("a"), text("b")]));
    assert_ne!(list(vec![text("a"), text("b")]), list(vec![text("b"), text("a")]));
    assert_ne!(list(vec![text("a")]), list(vec![text("a"), text("a")]));
    assert_ne!(list(vec![]), JsonValue::Object(JsonObject::new()));
}

#[test]
fn json_objects_compare_members_in_depth() {
    let mut inner_a = JsonObject::new();
    inner_a.insert("x".to_string(), JsonValue::Array(vec![text("1"), JsonValue::Null]));
    inner_a.insert("y".to_string(), JsonValue::Bool(true));
    let mut inner_b = JsonObject::new();
    inner_b.insert("y".to_string(), JsonValue::Bool(true));
    inner_b.insert("x".to_string(), JsonValue::Array(vec![text("1"), JsonValue::Null]));
    let mut a = JsonObject::new();
    a.insert("in".to_string(), JsonValue::Object(inner_a));
    let mut b = JsonObject::new();
    b.insert("in".to_string(), JsonValue::Object(inner_b));
    assert_eq!(a, b);
    let mut c = b.clone();
    c.insert("in".to_string(), JsonValue::Null);
    assert_ne!(a, c);
    assert_eq!(c.len(), 1);
}

#[test]
fn json_object_insert_replaces_and_get_finds() {
    let mut object = JsonObject::new();
    assert_eq!(object.len(), 0);
    assert!(object.get("mode").is_none());
    object.insert("mode".to_string(), text("cw"));
    object.insert("callsign".to_string(), text("W1ABC"));
    object.insert("mode".to_string(), text("ssb"));
    assert_eq!(object.len(), 2);
    assert_eq!(object.get("mode"), Some(&text("ssb")));
    assert_eq!(object.get("callsign"), Some(&text("W1ABC")));
    assert!(object.get("band").is_none());
    let keys: Vec<&str> = object.members().iter().map(|m| m.0.as_str()).collect();
    assert_eq!(keys, vec!["mode", "callsign"]);
    let value = JsonValue::Object(object);
    assert_eq!(value.get("mode").and_then(|v| v.as_str()), Some("ssb"));
    assert!(value.get("band").is_none());
    assert!(text("x").get("mode").is_none());
    assert_eq!(text("x").as_str(), Some("x"));
    assert!(JsonValue::Null.as_str().is_none());
}

#[test]
fn json_clone_is_equal_to_its_source() {
    let mut object = JsonObject::new();
    object.insert("a".to_string(), JsonValue::Array(vec![JsonValue::Number(JsonNumber::NegInt(-3))]));
    object.insert("b".to_string(), text("t"));
    let value = JsonValue::Object(object);
    let copy = value.clone();
    assert_eq!(copy, value);
    assert_ne!(copy, JsonValue::Object(JsonObject::new()));
}

fn sample_trigger() -> Trigger {
    let mut options = JsonObject::new();
    options.insert("speak".to_string(), JsonValue::Bool(false));
    Trigger {
        id: "abc123".to_string(),
        user_id: Some("u1".to_string()),
        conditions: callsign_conditions("W1ABC"),
        actions: vec!["app".to_string(), "url".to_string()],
        comment: "Friend".to_string(),
        match_count: Some(4),
        disabled: Some(false),
        options: Some(JsonValue::Object(options)),
    }
}

#[test]
fn stored_trigger_keeps_what_the_service_did_not_assign() {
    let trigger = sample_trigger();
    let kept = StoredTrigger::from_trigger(&trigger);
    assert_eq!(kept.conditions, trigger.conditions);
    assert_eq!(kept.actions, trigger.actions);
    assert_eq!(kept.comment, trigger.comment);
    assert_eq!(kept.options, trigger.options);
}

#[test]
fn editable_trigger_round_trip_changes_only_the_edited_part() {
    let mut trigger = sample_trigger();
    let mut editable = EditableTrigger::from_trigger(&trigger);
    assert_eq!(editable.conditions, trigger.conditions);
    assert_eq!(editable.actions, trigger.actions);
    assert_eq!(editable.comment, "Friend");
    assert_eq!(editable.options, trigger.options);
    assert_eq!(editable, EditableTrigger::from_trigger(&trigger));
    editable.comment = "Old friend".to_string();
    editable.actions = vec!["threema".to_string()];
    editable.conditions = callsign_conditions("K2DEF");
    editable.options = None;
    assert_ne!(editable, EditableTrigger::from_trigger(&trigger));
    editable.apply_to_trigger(&mut trigger);
    assert_eq!(trigger.id, "abc123");
    assert_eq!(trigger.user_id, Some("u1".to_string()));
    assert_eq!(trigger.match_count, Some(4));
    assert_eq!(trigger.disabled, Some(false));
    assert_eq!(trigger.comment, "Old friend");
    assert_eq!(trigger.actions, vec!["threema"]);
    assert_eq!(trigger.conditions, callsign_conditions("K2DEF"));
    assert_eq!(trigger.options, None);
}

#[test]
fn stored_trigger_clone_and_equality_cover_every_field() {
    let a = stored("W1ABC", &["app"], "A");
    let copy = a.clone();
    assert_eq!(copy, a);
    assert_ne!(a, stored("W1ABC", &["url"], "A"));
    assert_ne!(a, stored("W1ABC", &["app"], "B"));
    assert_ne!(a, stored("K2DEF", &["app"], "A"));
    let trigger = sample_trigger();
    let again = trigger.clone();
    assert_eq!(again.id, trigger.id);
    assert_eq!(again.user_id, trigger.user_id);
    assert_eq!(again.conditions, trigger.conditions);
    assert_eq!(again.options, trigger.options);
    assert_eq!(again.match_count, trigger.match_count);
}
