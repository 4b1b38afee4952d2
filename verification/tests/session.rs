use hamalert::display::{describe, display_lines, format_stored_trigger, format_trigger_for_display};
use hamalert::json::{JsonNumber, JsonObject, JsonValue};
use hamalert::options::{Action, CallsignFormat, Mode};
use hamalert::request::{action_names, join_callsigns, mode_name, TriggerUpdate};
use hamalert::session::{
    best_match, current_profile_name, is_confirmed, is_quit, parse_selection, permanent_positions,
    restore_changes, selected_positions, suggests_other_profile, unselected_positions,
    RemoteChange, Selection,
};
use hamalert::text::char_is_whitespace;
use hamalert::trigger::{StoredTrigger, Trigger};

fn conditions(callsign: Option<&str>, mode: Option<&str>) -> JsonValue {
    let mut members = JsonObject::new();
    if let Some(callsign) = callsign {
        members.insert("callsign".to_string(), JsonValue::Text(callsign.to_string()));
    }
    if let Some(mode) = mode {
        members.insert("mode".to_string(), JsonValue::Text(mode.to_string()));
    }
    JsonValue::Object(members)
}

fn trigger(id: &str, callsign: &str, comment: &str) -> Trigger {
    Trigger {
        id: id.to_string(),
        user_id: None,
        conditions: conditions(Some(callsign), None),
        actions: vec!["app".to_string()],
        comment: comment.to_string(),
        match_count: None,
        disabled: None,
        options: None,
    }
}

fn stored(callsign: &str, comment: &str) -> StoredTrigger {
    StoredTrigger {
        conditions: conditions(Some(callsign), None),
        actions: vec![],
        comment: comment.to_string(),
        options: None,
    }
}

fn lines(items: &[&str]) -> Vec<String> {
    items.iter().map(|s| s.to_string()).collect()
}

#[test]
fn action_and_mode_names() {
    assert_eq!(Action::Url.as_str(), "url");
    assert_eq!(Action::App.as_str(), "app");
    assert_eq!(Action::Threema.as_str(), "threema");
    assert_eq!(Action::Telnet.as_str(), "telnet");
    assert_eq!(Mode::CW.as_str(), "cw");
    assert_eq!(Mode::FT8.as_str(), "ft8");
    assert_eq!(Mode::SSB.as_str(), "ssb");
    assert_eq!(action_names(&[Action::Telnet, Action::App]), vec!["telnet", "app"]);
    assert!(action_names(&[]).is_empty());
    assert_eq!(mode_name(Some(Mode::FT8)), Some("ft8".to_string()));
    assert_eq!(mode_name(None), None);
}

#[test]
fn callsign_format_from_flags() {
    assert_eq!(CallsignFormat::from_flags(false, false), CallsignFormat::Default);
    assert_eq!(CallsignFormat::from_flags(true, false), CallsignFormat::Compact);
    assert_eq!(CallsignFormat::from_flags(false, true), CallsignFormat::OnePerLine);
    assert_eq!(CallsignFormat::from_flags(true, true), CallsignFormat::Compact);
    assert_eq!(CallsignFormat::default(), CallsignFormat::Default);
    assert_eq!(CallsignFormat::Default.separator(), ", ");
    assert_eq!(CallsignFormat::Compact.separator(), ",");
    assert_eq!(CallsignFormat::OnePerLine.separator(), "\n");
}

#[test]
fn callsigns_are_joined_in_each_format() {
    let callsigns = lines(&["N0CALL", "K0TEST", "W0XYZ"]);
    assert_eq!(join_callsigns(&callsigns, CallsignFormat::Default), "N0CALL, K0TEST, W0XYZ");
    assert_eq!(join_callsigns(&callsigns, CallsignFormat::Compact), "N0CALL,K0TEST,W0XYZ");
    assert_eq!(join_callsigns(&callsigns, CallsignFormat::OnePerLine), "N0CALL\nK0TEST\nW0XYZ");
    assert_eq!(join_callsigns(&callsigns[..1], CallsignFormat::Default), "N0CALL");
    assert_eq!(join_callsigns(&[], CallsignFormat::Default), "");
    assert_eq!(join_callsigns(&lines(&["", ""]), CallsignFormat::Compact), ",");
}

#[test]
fn trigger_is_described_by_mode_callsign_and_comment() {
    assert_eq!(
        describe(&conditions(Some("W1ABC"), Some("cw")), "Friend"),
        "[cw] W1ABC - \"Friend\""
    );
    assert_eq!(describe(&conditions(Some("W1ABC"), None), "Friend"), "[any] W1ABC - \"Friend\"");
    assert_eq!(describe(&conditions(None, Some("ssb")), ""), "[ssb] ? - \"\"");
    assert_eq!(describe(&JsonValue::Null, "x"), "[any] ? - \"x\"");
    let mut odd = JsonObject::new();
    odd.insert("mode".to_string(), JsonValue::Number(JsonNumber::PosInt(3)));
    odd.insert("callsign".to_string(), JsonValue::Array(vec![]));
    assert_eq!(describe(&JsonValue::Object(odd), "x"), "[any] ? - \"x\"");
    let one = trigger("1", "K2DEF", "B");
    assert_eq!(format_trigger_for_display(&one), "[any] K2DEF - \"B\"");
    assert_eq!(format_stored_trigger(&stored("K2DEF", "B")), "[any] K2DEF - \"B\"");
    let all = display_lines(&[trigger("1", "K2DEF", "B"), trigger("2", "W1ABC", "A")]);
    assert_eq!(all, vec!["[any] K2DEF - \"B\"", "[any] W1ABC - \"A\""]);
}

#[test]
fn update_that_creates_a_trigger() {
    let update = TriggerUpdate::create(
        "N0CALL, K0TEST",
        "Club",
        vec!["app".to_string()],
        Some("cw".to_string()),
    );
    assert_eq!(update.id, None);
    assert_eq!(update.conditions, conditions(Some("N0CALL, K0TEST"), Some("cw")));
    assert_eq!(update.actions, vec!["app"]);
    assert_eq!(update.comment, "Club");
    assert_eq!(update.options, JsonValue::Object(JsonObject::new()));
    let plain = TriggerUpdate::create("N0CALL", "", vec![], None);
    assert_eq!(plain.conditions, conditions(Some("N0CALL"), None));
    assert_eq!(plain.conditions.get("mode"), None);
}

#[test]
fn update_from_backup_drops_the_identifier() {
    let mut source = trigger("abc", "W1ABC", "A");
    let update = TriggerUpdate::from_backup(&source);
    assert_eq!(update.id, None);
    assert_eq!(update.conditions, source.conditions);
    assert_eq!(update.actions, source.actions);
    assert_eq!(update.comment, "A");
    assert_eq!(update.options, JsonValue::Object(JsonObject::new()));
    let mut options = JsonObject::new();
    options.insert("speak".to_string(), JsonValue::Bool(true));
    source.options = Some(JsonValue::Object(options.clone()));
    let with_options = TriggerUpdate::from_backup(&source);
    assert_eq!(with_options.options, JsonValue::Object(options.clone()));
    let replace = TriggerUpdate::update(&source);
    assert_eq!(replace.id, Some("abc".to_string()));
    assert_eq!(replace.conditions, source.conditions);
    assert_eq!(replace.actions, source.actions);
    assert_eq!(replace.comment, "A");
    assert_eq!(replace.options, JsonValue::Object(options));
}

#[test]
fn selection_answers() {
    assert_eq!(parse_selection("q", 3), Selection::Quit);
    assert_eq!(parse_selection("  Q\n", 3), Selection::Quit);
    assert_eq!(parse_selection("1\n", 3), Selection::Chosen(0));
    assert_eq!(parse_selection(" 3 ", 3), Selection::Chosen(2));
    assert_eq!(parse_selection("+2", 3), Selection::Chosen(1));
    assert_eq!(parse_selection("007", 9), Selection::Chosen(6));
    assert_eq!(parse_selection("0", 3), Selection::OutOfRange);
    assert_eq!(parse_selection("4", 3), Selection::OutOfRange);
    assert_eq!(parse_selection("1", 0), Selection::OutOfRange);
    assert_eq!(parse_selection("", 3), Selection::Invalid);
    assert_eq!(parse_selection("   ", 3), Selection::Invalid);
    assert_eq!(parse_selection("+", 3), Selection::Invalid);
    assert_eq!(parse_selection("-1", 3), Selection::Invalid);
    assert_eq!(parse_selection("1 2", 3), Selection::Invalid);
    assert_eq!(parse_selection("two", 3), Selection::Invalid);
    assert_eq!(parse_selection("qq", 3), Selection::Invalid);
    assert_eq!(parse_selection("1.0", 3), Selection::Invalid);
    assert_eq!(parse_selection("٣", 3), Selection::Invalid);
}

#[test]
fn selection_at_the_limit_of_the_machine() {
    let max = usize::MAX.to_string();
    assert_eq!(parse_selection(&max, usize::MAX), Selection::Chosen(usize::MAX - 1));
    assert_eq!(parse_selection(&max, 5), Selection::OutOfRange);
    let beyond = format!("{}0", max);
    assert_eq!(parse_selection(&beyond, usize::MAX), Selection::Invalid);
    assert_eq!(parse_selection("99999999999999999999999999999999999999999", 5), Selection::Invalid);
    assert_eq!(parse_selection(&max, 5), match max.parse::<usize>() {
        Ok(_) => Selection::OutOfRange,
        Err(_) => Selection::Invalid,
    });
}

#[test]
fn confirmation_and_quit_answers() {
    assert!(is_confirmed("y"));
    assert!(is_confirmed(" Y\n"));
    assert!(!is_confirmed(""));
    assert!(!is_confirmed("yes"));
    assert!(!is_confirmed("n"));
    assert!(!is_confirmed("y y"));
    assert!(is_quit("q\n"));
    assert!(is_quit("\tQ"));
    assert!(!is_quit(""));
    assert!(!is_quit("quit"));
    assert!(!is_quit("y"));
}

#[test]
fn profile_name_from_marker_text() {
    assert_eq!(current_profile_name("home\n"), Some("home".to_string()));
    assert_eq!(current_profile_name("  field day \n"), Some("field day".to_string()));
    assert_eq!(current_profile_name(""), None);
    assert_eq!(current_profile_name(" \n\t"), None);
    assert_eq!(current_profile_name("x"), Some("x".to_string()));
}

#[test]
fn white_space_is_what_the_standard_library_calls_white_space() {
    let mut code = 0u32;
    while code <= 0x10FFFF {
        if let Some(c) = char::from_u32(code) {
            assert_eq!(char_is_whitespace(c), c.is_whitespace(), "U+{:04X}", code);
        }
        code += 1;
    }
}

#[test]
fn positions_of_selected_and_unselected_lines() {
    let all = lines(&["a", "b", "c", "b", "d"]);
    assert_eq!(selected_positions(&all, &lines(&["b", "d"])), vec![1, 3, 4]);
    assert_eq!(unselected_positions(&all, &lines(&["b", "d"])), vec![0, 2]);
    assert_eq!(selected_positions(&all, &[]), Vec::<usize>::new());
    assert_eq!(unselected_positions(&all, &[]), vec![0, 1, 2, 3, 4]);
    assert_eq!(unselected_positions(&all, &all), Vec::<usize>::new());
    assert_eq!(selected_positions(&[], &all), Vec::<usize>::new());
    assert_eq!(selected_positions(&all, &lines(&["x", "c"])), vec![2]);
}

#[test]
fn positions_of_permanent_triggers() {
    let triggers = vec![stored("W1ABC", "A"), stored("K2DEF", "B"), stored("W1ABC", "A")];
    let permanent = vec![stored("W1ABC", "A")];
    assert_eq!(permanent_positions(&triggers, &permanent), vec![0, 2]);
    assert_eq!(permanent_positions(&triggers, &[]), Vec::<usize>::new());
    assert_eq!(permanent_positions(&triggers, &triggers), vec![0, 1, 2]);
}

#[test]
fn best_match_is_the_first_with_the_most_matched() {
    assert_eq!(best_match(&[]), None);
    assert_eq!(best_match(&[(0, 4)]), Some(0));
    assert_eq!(best_match(&[(1, 4), (3, 3), (3, 9), (2, 2)]), Some(1));
    assert_eq!(best_match(&[(0, 0), (0, 1)]), Some(0));
    assert_eq!(best_match(&[(1, 1), (2, 5), (5, 5)]), Some(2));
}

#[test]
fn other_profile_is_suggested_only_when_fully_matched() {
    assert!(suggests_other_profile((3, 3), false));
    assert!(!suggests_other_profile((3, 3), true));
    assert!(!suggests_other_profile((2, 3), false));
    assert!(!suggests_other_profile((0, 0), false));
}

#[test]
fn restore_deletes_everything_then_creates_the_backup() {
    let current = vec![trigger("id1", "W1ABC", "A"), trigger("id2", "K2DEF", "B")];
    let backup = vec![trigger("old9", "N3GHI", "C")];
    let changes = restore_changes(&current, &backup);
    assert_eq!(changes.len(), 3);
    assert!(matches!(&changes[0], RemoteChange::Delete(id) if id == "id1"));
    assert!(matches!(&changes[1], RemoteChange::Delete(id) if id == "id2"));
    match &changes[2] {
        RemoteChange::Update(update) => {
            assert_eq!(update.id, None);
            assert_eq!(update.comment, "C");
            assert_eq!(update.conditions, backup[0].conditions);
            assert_eq!(update.actions, backup[0].actions);
            assert_eq!(update.options, JsonValue::Object(JsonObject::new()));
        }
        RemoteChange::Delete(_) => panic!("the last change creates a trigger"),
    }
    assert!(restore_changes(&[], &[]).is_empty());
}
