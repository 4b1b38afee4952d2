//! One line of text for a trigger, as lists and prompts show it.

use crate::json::{Json, JsonValue};
use crate::trigger::{StoredTrigger, Trigger};
use vstd::prelude::*;
use vstd::string::StringExecFns;

verus! {

/// The string under `key` in `conditions`; `fallback` where `conditions` is
/// no object, has no such member, or holds something other than a string
/// there.
pub open spec fn label(conditions: Json, key: Seq<char>, fallback: Seq<char>) -> Seq<char> {
    match conditions.member(key) {
        Some(value) => match value.text() {
            Some(text) => text,
            None => fallback,
        },
        None => fallback,
    }
}

/// The line that describes a trigger: its mode in brackets (`any` where it
/// has none), its callsign (`?` where it has none) and its comment in
/// quotes.
pub open spec fn description(conditions: Json, comment: Seq<char>) -> Seq<char> {
    "["@ + label(conditions, "mode"@, "any"@) + "] "@ + label(conditions, "callsign"@, "?"@)
        + " - \""@ + comment + "\""@
}

fn label_of<'a>(conditions: &'a JsonValue, key: &str, fallback: &'a str) -> (text: &'a str)
    ensures
        text@ == label(conditions@, key@, fallback@),
{
    match conditions.get(key) {
        Some(value) => match value.as_str() {
            Some(text) => text,
            None => fallback,
        },
        None => fallback,
    }
}

/// The line that describes a trigger with these conditions and this comment.
pub fn describe(conditions: &JsonValue, comment: &str) -> (line: String)
    ensures
        line@ == description(conditions@, comment@),
{
    let mut line = String::from_str("[");
    line.append(label_of(conditions, "mode", "any"));
    line.append("] ");
    line.append(label_of(conditions, "callsign", "?"));
    line.append(" - \"");
    line.append(comment);
    line.append("\"");
    line
}

/// The line that describes `trigger` in a list.
pub fn format_trigger_for_display(trigger: &Trigger) -> (line: String)
    ensures
        line@ == description(trigger@.body.conditions, trigger@.body.comment),
{
    describe(&trigger.conditions, trigger.comment.as_str())
}

/// The line that describes a stored trigger in a list.
pub fn format_stored_trigger(trigger: &StoredTrigger) -> (line: String)
    ensures
        line@ == description(trigger@.conditions, trigger@.comment),
{
    describe(&trigger.conditions, trigger.comment.as_str())
}

/// The lines that describe `triggers`, in their order.
pub fn display_lines(triggers: &[Trigger]) -> (lines: Vec<String>)
    ensures
        lines@.len() == triggers@.len(),
        forall|i: int|
            0 <= i < triggers@.len() ==> (#[trigger] lines@[i])@ == description(
                triggers@[i]@.body.conditions,
                triggers@[i]@.body.comment,
            ),
{
    let mut lines: Vec<String> = Vec::new();
    let mut i: usize = 0;
    while i < triggers.len()
        invariant
            i <= triggers@.len(),
            lines@.len() == i,
            forall|j: int|
                0 <= j < i ==> (#[trigger] lines@[j])@ == description(
                    triggers@[j]@.body.conditions,
                    triggers@[j]@.body.comment,
                ),
        decreases triggers@.len() - i,
    {
        lines.push(format_trigger_for_display(&triggers[i]));
        i += 1;
    }
    lines
}

} // verus!
