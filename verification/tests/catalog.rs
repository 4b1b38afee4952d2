use hamalert::catalog::{profile_file_name, profile_name_of, profile_names};
use hamalert::json::{JsonObject, JsonValue};
use hamalert::profile::same_triggers;
use hamalert::trigger::{stored_triggers, StoredTrigger, Trigger};

fn names(items: &[&str]) -> Vec<String> {
    items.iter().map(|s| s.to_string()).collect()
}

#[test]
fn profile_file_has_the_json_extension() {
    assert_eq!(profile_file_name("home"), "home.json");
    assert_eq!(profile_file_name("field.day"), "field.day.json");
    assert_eq!(profile_file_name(""), ".json");
}

#[test]
fn profile_name_is_the_stem_of_a_json_file() {
    assert_eq!(profile_name_of("home.json"), Some("home".to_string()));
    assert_eq!(profile_name_of("field.day.json"), Some("field.day".to_string()));
    assert_eq!(profile_name_of(".hidden.json"), Some(".hidden".to_string()));
    assert_eq!(profile_name_of("a..json"), Some("a.".to_string()));
    assert_eq!(profile_name_of(".json"), None);
    assert_eq!(profile_name_of("json"), None);
    assert_eq!(profile_name_of("home.JSON"), None);
    assert_eq!(profile_name_of("home.json.bak"), None);
    assert_eq!(profile_name_of("home.jso"), None);
    assert_eq!(profile_name_of("home.jsonx"), None);
    assert_eq!(profile_name_of("home."), None);
    assert_eq!(profile_name_of("home"), None);
    assert_eq!(profile_name_of(""), None);
}

#[test]
fn profile_name_agrees_with_the_path_functions() {
    for file in ["a.json", ".json", "x.y.json", "json", "..json", "a.json.", "ä.json", ".a.json"] {
        let path = std::path::Path::new(file);
        let expected = if path.extension().map(|e| e == "json").unwrap_or(false) {
            path.file_stem().map(|s| s.to_string_lossy().to_string())
        } else {
            None
        };
        assert_eq!(profile_name_of(file), expected, "{}", file);
    }
}

#[test]
fn saved_profile_is_found_under_its_name() {
    for name in ["home", "a.b", "x", ".dot", "with space"] {
        assert_eq!(profile_name_of(&profile_file_name(name)), Some(name.to_string()));
    }
}

#[test]
fn profile_names_are_listed_in_ascending_order() {
    let files = names(&["zulu.json", "notes.txt", "alpha.json", "Mike.json", ".json", "alpha.json.bak", "é.json", "b.a.json"]);
    assert_eq!(profile_names(&files), vec!["Mike", "alpha", "b.a", "zulu", "é"]);
    assert!(profile_names(&[]).is_empty());
    assert!(profile_names(&names(&["a.txt"])).is_empty());
    assert_eq!(profile_names(&names(&["b.json", "a.json", "b.json"])), vec!["a", "b", "b"]);
}

fn stored(callsign: &str, actions: &[&str], comment: &str) -> StoredTrigger {
    let mut members = JsonObject::new();
    members.insert("callsign".to_string(), JsonValue::Text(callsign.to_string()));
    StoredTrigger {
        conditions: JsonValue::Object(members),
        actions: actions.iter().map(|a| a.to_string()).collect(),
        comment: comment.to_string(),
        options: None,
    }
}

#[test]
fn same_triggers_compares_every_field_in_order() {
    let a = vec![stored("W1ABC", &["app"], "A"), stored("K2DEF", &[], "B")];
    let b = vec![stored("W1ABC", &["app"], "A"), stored("K2DEF", &[], "B")];
    assert!(same_triggers(&a, &b));
    assert!(same_triggers(&[], &[]));
    assert!(!same_triggers(&a, &b[..1]));
    let reversed = vec![stored("K2DEF", &[], "B"), stored("W1ABC", &["app"], "A")];
    assert!(!same_triggers(&a, &reversed));
    let other_actions = vec![stored("W1ABC", &["url"], "A"), stored("K2DEF", &[], "B")];
    assert!(!same_triggers(&a, &other_actions));
}

#[test]
fn stored_triggers_follow_the_triggers() {
    let trigger = |id: &str, callsign: &str| Trigger {
        id: id.to_string(),
        user_id: None,
        conditions: stored(callsign, &[], "").conditions,
        actions: vec!["app".to_string()],
        comment: format!("about {}", callsign),
        match_count: Some(1),
        disabled: None,
        options: Some(JsonValue::Null),
    };
    let all = stored_triggers(&[trigger("1", "W1ABC"), trigger("2", "K2DEF")]);
    assert_eq!(all.len(), 2);
    assert_eq!(all[0].comment, "about W1ABC");
    assert_eq!(all[1].comment, "about K2DEF");
    assert_eq!(all[1].conditions, stored("K2DEF", &[], "").conditions);
    assert_eq!(all[0].actions, vec!["app"]);
    assert_eq!(all[0].options, Some(JsonValue::Null));
    assert!(stored_triggers(&[]).is_empty());
}
