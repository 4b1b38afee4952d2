//! What is sent to the alert service to create or to update a trigger.

use crate::json::{Json, JsonObject, JsonValue};
use crate::options::{Action, CallsignFormat, Mode};
use crate::trigger::{copy_texts, optional_json, optional_text, Trigger, TriggerView};
use vstd::prelude::*;
use vstd::string::StringExecFns;

verus! {

/// What a trigger update says.
pub ghost struct TriggerUpdateView {
    pub id: Option<Seq<char>>,
    pub conditions: Json,
    pub actions: Seq<Seq<char>>,
    pub comment: Seq<char>,
    pub options: Json,
}

/// The body of a request that creates a trigger (no identifier) or replaces
/// the trigger with the given identifier.
#[derive(Debug)]
pub struct TriggerUpdate {
    pub id: Option<String>,
    pub conditions: JsonValue,
    pub actions: Vec<String>,
    pub comment: String,
    pub options: JsonValue,
}

impl View for TriggerUpdate {
    type V = TriggerUpdateView;

    open spec fn view(&self) -> TriggerUpdateView {
        TriggerUpdateView {
            id: match self.id {
                Some(id) => Some(id@),
                None => None,
            },
            conditions: self.conditions@,
            actions: self.actions.deep_view(),
            comment: self.comment@,
            options: self.options@,
        }
    }
}

/// The parts of `parts`, with `separator` between each two.
pub open spec fn joined(parts: Seq<Seq<char>>, separator: Seq<char>) -> Seq<char>
    decreases parts.len(),
{
    if parts.len() == 0 {
        Seq::empty()
    } else if parts.len() == 1 {
        parts[0]
    } else {
        joined(parts.drop_last(), separator) + separator + parts.last()
    }
}

/// The object without members.
pub open spec fn empty_object() -> Json {
    Json::Object(Map::empty())
}

/// The conditions of a trigger on a callsign, limited to a mode where one is
/// given.
pub open spec fn callsign_conditions(callsign: Seq<char>, mode: Option<Seq<char>>) -> Json {
    let on_callsign = Map::<Seq<char>, Json>::empty().insert("callsign"@, Json::Text(callsign));
    match mode {
        Some(name) => Json::Object(on_callsign.insert("mode"@, Json::Text(name))),
        None => Json::Object(on_callsign),
    }
}

/// The options to send for a trigger: its own, or the empty object where it
/// has none.
pub open spec fn options_or_empty(options: Option<Json>) -> Json {
    match options {
        Some(json) => json,
        None => empty_object(),
    }
}

/// The update that creates a trigger on `callsign`: no identifier, the
/// conditions on the callsign and the mode, and no options.
pub open spec fn creation(
    callsign: Seq<char>,
    comment: Seq<char>,
    actions: Seq<Seq<char>>,
    mode: Option<Seq<char>>,
) -> TriggerUpdateView {
    TriggerUpdateView {
        id: None,
        conditions: callsign_conditions(callsign, mode),
        actions,
        comment,
        options: empty_object(),
    }
}

/// The update that creates anew a trigger that says what `trigger` says.
pub open spec fn recreation(trigger: TriggerView) -> TriggerUpdateView {
    TriggerUpdateView {
        id: None,
        conditions: trigger.body.conditions,
        actions: trigger.body.actions,
        comment: trigger.body.comment,
        options: options_or_empty(trigger.body.options),
    }
}

/// The update that makes the trigger with the identifier of `trigger` say
/// what `trigger` says.
pub open spec fn replacement(trigger: TriggerView) -> TriggerUpdateView {
    TriggerUpdateView { id: Some(trigger.id), ..recreation(trigger) }
}

/// The callsigns as one string, in the given format.
pub fn join_callsigns(callsigns: &[String], format: CallsignFormat) -> (text: String)
    ensures
        text@ == joined(callsigns.deep_view(), format.separator_text()),
{
    let ghost parts = callsigns.deep_view();
    let separator = format.separator();
    let mut text = String::new();
    let mut i: usize = 0;
    assert(parts.take(0) =~= Seq::empty());
    while i < callsigns.len()
        invariant
            i <= callsigns@.len(),
            parts == callsigns.deep_view(),
            separator@ == format.separator_text(),
            text@ == joined(parts.take(i as int), separator@),
        decreases callsigns@.len() - i,
    {
        let ghost before = text@;
        if i > 0 {
            text.append(separator);
        }
        text.append(callsigns[i].as_str());
        proof {
            let next = parts.take(i + 1);
            assert(next.drop_last() =~= parts.take(i as int));
            assert(next.last() == callsigns@[i as int]@);
            if i == 0 {
                assert(text@ =~= next[0]);
            } else {
                assert(text@ =~= before + separator@ + next.last());
            }
        }
        i += 1;
    }
    assert(parts.take(i as int) =~= parts);
    text
}

/// The service's names for `actions`, in their order.
pub fn action_names(actions: &[Action]) -> (names: Vec<String>)
    ensures
        names.deep_view() == actions@.map_values(|action: Action| action.name()),
{
    let mut names: Vec<String> = Vec::new();
    let mut i: usize = 0;
    while i < actions.len()
        invariant
            i <= actions@.len(),
            names@.len() == i,
            forall|j: int| 0 <= j < i ==> (#[trigger] names@[j])@ == actions@[j].name(),
        decreases actions@.len() - i,
    {
        names.push(String::from_str(actions[i].as_str()));
        i += 1;
    }
    assert(names.deep_view() =~= actions@.map_values(|action: Action| action.name()));
    names
}

/// The service's name for `mode`, where one is given.
pub open spec fn mode_text(mode: Option<Mode>) -> Option<Seq<char>> {
    match mode {
        Some(given) => Some(given.name()),
        None => None,
    }
}

/// The service's name for `mode`, where one is given.
pub fn mode_name(mode: Option<Mode>) -> (name: Option<String>)
    ensures
        optional_text(name) == mode_text(mode),
{
    match mode {
        Some(m) => Some(String::from_str(m.as_str())),
        None => None,
    }
}

fn options_to_send(options: &Option<JsonValue>) -> (sent: JsonValue)
    ensures
        sent@ == options_or_empty(optional_json(*options)),
{
    match options {
        Some(json) => json.clone(),
        None => JsonValue::Object(JsonObject::new()),
    }
}

impl TriggerUpdate {
    /// The request that creates a trigger on `callsign`.
    pub fn create(callsign: &str, comment: &str, actions: Vec<String>, mode: Option<String>) -> (update:
        TriggerUpdate)
        ensures
            update@ == creation(callsign@, comment@, actions.deep_view(), optional_text(mode)),
    {
        let mut conditions = JsonObject::new();
        conditions.insert(String::from_str("callsign"), JsonValue::Text(String::from_str(callsign)));
        match mode {
            Some(name) => {
                conditions.insert(String::from_str("mode"), JsonValue::Text(name));
            },
            None => {},
        }
        TriggerUpdate {
            id: None,
            conditions: JsonValue::Object(conditions),
            actions,
            comment: String::from_str(comment),
            options: JsonValue::Object(JsonObject::new()),
        }
    }

    /// The request that creates a trigger anew from one that was backed up:
    /// all of it but the identifier, so that the service assigns a new one.
    pub fn from_backup(trigger: &Trigger) -> (update: TriggerUpdate)
        ensures
            update@ == recreation(trigger@),
    {
        TriggerUpdate {
            id: None,
            conditions: trigger.conditions.clone(),
            actions: copy_texts(&trigger.actions),
            comment: trigger.comment.clone(),
            options: options_to_send(&trigger.options),
        }
    }

    /// The request that replaces the trigger that has the identifier of
    /// `trigger` by what `trigger` says.
    pub fn update(trigger: &Trigger) -> (update: TriggerUpdate)
        ensures
            update@ == replacement(trigger@),
    {
        TriggerUpdate {
            id: Some(trigger.id.clone()),
            conditions: trigger.conditions.clone(),
            actions: copy_texts(&trigger.actions),
            comment: trigger.comment.clone(),
            options: options_to_send(&trigger.options),
        }
    }
}

} // verus!
