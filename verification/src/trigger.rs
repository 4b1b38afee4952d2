//! Triggers as the alert service holds them, as they are stored on disk and
//! as they are edited, and the rule that says when two stored triggers are
//! the same one.

use crate::json::{Json, JsonValue};
use vstd::prelude::*;

verus! {

/// What a stored or editable trigger says: the parts of a trigger that the
/// service does not assign.
pub ghost struct TriggerBody {
    pub conditions: Json,
    pub actions: Seq<Seq<char>>,
    pub comment: Seq<char>,
    pub options: Option<Json>,
}

/// What a trigger of the service says.
pub ghost struct TriggerView {
    pub id: Seq<char>,
    pub user_id: Option<Seq<char>>,
    pub body: TriggerBody,
    pub match_count: Option<u64>,
    pub disabled: Option<bool>,
}

/// A trigger as the service reports it.
#[derive(Debug)]
pub struct Trigger {
    pub id: String,
    pub user_id: Option<String>,
    pub conditions: JsonValue,
    pub actions: Vec<String>,
    pub comment: String,
    pub match_count: Option<u64>,
    pub disabled: Option<bool>,
    pub options: Option<JsonValue>,
}

/// The part of a trigger that a user may edit.
#[derive(Debug)]
pub struct EditableTrigger {
    pub conditions: JsonValue,
    pub actions: Vec<String>,
    pub comment: String,
    pub options: Option<JsonValue>,
}

/// A trigger as profiles and the permanent list keep it: without the
/// identifier, owner and counter that the service assigns.
#[derive(Debug)]
pub struct StoredTrigger {
    pub conditions: JsonValue,
    pub actions: Vec<String>,
    pub comment: String,
    pub options: Option<JsonValue>,
}

/// The document that `value` holds, if it holds one.
pub open spec fn optional_json(value: Option<JsonValue>) -> Option<Json> {
    match value {
        Some(json) => Some(json@),
        None => None,
    }
}

/// The characters of the string that `value` holds, if it holds one.
pub open spec fn optional_text(value: Option<String>) -> Option<Seq<char>> {
    match value {
        Some(text) => Some(text@),
        None => None,
    }
}

impl View for StoredTrigger {
    type V = TriggerBody;

    open spec fn view(&self) -> TriggerBody {
        TriggerBody {
            conditions: self.conditions@,
            actions: self.actions.deep_view(),
            comment: self.comment@,
            options: optional_json(self.options),
        }
    }
}

impl DeepView for StoredTrigger {
    type V = TriggerBody;

    open spec fn deep_view(&self) -> TriggerBody {
        self@
    }
}

impl View for EditableTrigger {
    type V = TriggerBody;

    open spec fn view(&self) -> TriggerBody {
        TriggerBody {
            conditions: self.conditions@,
            actions: self.actions.deep_view(),
            comment: self.comment@,
            options: optional_json(self.options),
        }
    }
}

impl View for Trigger {
    type V = TriggerView;

    open spec fn view(&self) -> TriggerView {
        TriggerView {
            id: self.id@,
            user_id: optional_text(self.user_id),
            body: TriggerBody {
                conditions: self.conditions@,
                actions: self.actions.deep_view(),
                comment: self.comment@,
                options: optional_json(self.options),
            },
            match_count: self.match_count,
            disabled: self.disabled,
        }
    }
}

impl DeepView for Trigger {
    type V = TriggerView;

    open spec fn deep_view(&self) -> TriggerView {
        self@
    }
}

/// A copy of `texts`.
pub fn copy_texts(texts: &Vec<String>) -> (copy: Vec<String>)
    ensures
        copy.deep_view() == texts.deep_view(),
{
    let mut copy: Vec<String> = Vec::new();
    let mut i: usize = 0;
    while i < texts.len()
        invariant
            i <= texts@.len(),
            copy@.len() == i,
            forall|j: int| 0 <= j < i ==> (#[trigger] copy@[j])@ == texts@[j]@,
        decreases texts@.len() - i,
    {
        copy.push(texts[i].clone());
        i += 1;
    }
    assert(copy.deep_view() =~= texts.deep_view());
    copy
}

/// Whether `a` and `b` hold the same strings in the same order.
pub fn same_texts(a: &Vec<String>, b: &Vec<String>) -> (same: bool)
    ensures
        same == (a.deep_view() == b.deep_view()),
{
    if a.len() != b.len() {
        assert(a.deep_view().len() != b.deep_view().len());
        return false;
    }
    let mut i: usize = 0;
    while i < a.len()
        invariant
            i <= a@.len(),
            a@.len() == b@.len(),
            forall|j: int| 0 <= j < i ==> (#[trigger] a@[j])@ == b@[j]@,
        decreases a@.len() - i,
    {
        if a[i] != b[i] {
            assert(a.deep_view()[i as int] != b.deep_view()[i as int]);
            return false;
        }
        i += 1;
    }
    assert(a.deep_view() =~= b.deep_view());
    true
}

fn copy_optional_json(value: &Option<JsonValue>) -> (copy: Option<JsonValue>)
    ensures
        optional_json(copy) == optional_json(*value),
{
    match value {
        Some(json) => Some(json.clone()),
        None => None,
    }
}

fn same_optional_json(a: &Option<JsonValue>, b: &Option<JsonValue>) -> (same: bool)
    ensures
        same == (optional_json(*a) == optional_json(*b)),
{
    match a {
        Some(x) => match b {
            Some(y) => x == y,
            None => false,
        },
        None => match b {
            Some(_) => false,
            None => true,
        },
    }
}

fn copy_optional_text(value: &Option<String>) -> (copy: Option<String>)
    ensures
        optional_text(copy) == optional_text(*value),
{
    match value {
        Some(text) => Some(text.clone()),
        None => None,
    }
}

impl Clone for StoredTrigger {
    fn clone(&self) -> (copy: StoredTrigger)
        ensures
            copy@ == self@,
    {
        StoredTrigger {
            conditions: self.conditions.clone(),
            actions: copy_texts(&self.actions),
            comment: self.comment.clone(),
            options: copy_optional_json(&self.options),
        }
    }
}

impl Clone for EditableTrigger {
    fn clone(&self) -> (copy: EditableTrigger)
        ensures
            copy@ == self@,
    {
        EditableTrigger {
            conditions: self.conditions.clone(),
            actions: copy_texts(&self.actions),
            comment: self.comment.clone(),
            options: copy_optional_json(&self.options),
        }
    }
}

impl Clone for Trigger {
    fn clone(&self) -> (copy: Trigger)
        ensures
            copy@ == self@,
    {
        Trigger {
            id: self.id.clone(),
            user_id: copy_optional_text(&self.user_id),
            conditions: self.conditions.clone(),
            actions: copy_texts(&self.actions),
            comment: self.comment.clone(),
            match_count: self.match_count,
            disabled: self.disabled,
            options: copy_optional_json(&self.options),
        }
    }
}

impl PartialEq for StoredTrigger {
    /// Equality of everything a stored trigger says, actions and options
    /// included. Identity is a weaker relation: see [`triggers_match`].
    fn eq(&self, other: &StoredTrigger) -> (same: bool) {
        self.conditions == other.conditions && same_texts(&self.actions, &other.actions)
            && self.comment == other.comment && same_optional_json(&self.options, &other.options)
    }
}

impl vstd::std_specs::cmp::PartialEqSpecImpl for StoredTrigger {
    open spec fn obeys_eq_spec() -> bool {
        true
    }

    open spec fn eq_spec(&self, other: &StoredTrigger) -> bool {
        self@ == other@
    }
}

impl PartialEq for EditableTrigger {
    fn eq(&self, other: &EditableTrigger) -> (same: bool) {
        self.conditions == other.conditions && same_texts(&self.actions, &other.actions)
            && self.comment == other.comment && same_optional_json(&self.options, &other.options)
    }
}

impl vstd::std_specs::cmp::PartialEqSpecImpl for EditableTrigger {
    open spec fn obeys_eq_spec() -> bool {
        true
    }

    open spec fn eq_spec(&self, other: &EditableTrigger) -> bool {
        self@ == other@
    }
}

impl EditableTrigger {
    /// The editable part of `trigger`.
    pub fn from_trigger(trigger: &Trigger) -> (editable: EditableTrigger)
        ensures
            editable@ == trigger@.body,
    {
        EditableTrigger {
            conditions: trigger.conditions.clone(),
            actions: copy_texts(&trigger.actions),
            comment: trigger.comment.clone(),
            options: copy_optional_json(&trigger.options),
        }
    }

    /// Writes the edited part into `trigger` and leaves what the service
    /// assigned as it was.
    pub fn apply_to_trigger(self, trigger: &mut Trigger)
        ensures
            final(trigger)@ == (TriggerView { body: self@, ..old(trigger)@ }),
    {
        trigger.conditions = self.conditions;
        trigger.actions = self.actions;
        trigger.comment = self.comment;
        trigger.options = self.options;
    }
}

impl StoredTrigger {
    /// What is kept of `trigger` on disk.
    pub fn from_trigger(trigger: &Trigger) -> (stored: StoredTrigger)
        ensures
            stored@ == trigger@.body,
    {
        StoredTrigger {
            conditions: trigger.conditions.clone(),
            actions: copy_texts(&trigger.actions),
            comment: trigger.comment.clone(),
            options: copy_optional_json(&trigger.options),
        }
    }
}

/// What is kept on disk of each of `triggers`, in their order.
pub fn stored_triggers(triggers: &[Trigger]) -> (stored: Vec<StoredTrigger>)
    ensures
        stored.deep_view() == triggers.deep_view().map_values(|trigger: TriggerView| trigger.body),
{
    let mut stored: Vec<StoredTrigger> = Vec::new();
    let mut i: usize = 0;
    while i < triggers.len()
        invariant
            i <= triggers@.len(),
            stored@.len() == i,
            forall|j: int| 0 <= j < i ==> (#[trigger] stored@[j])@ == triggers@[j]@.body,
        decreases triggers@.len() - i,
    {
        stored.push(StoredTrigger::from_trigger(&triggers[i]));
        i += 1;
    }
    assert(stored.deep_view() =~= triggers.deep_view().map_values(
        |trigger: TriggerView| trigger.body,
    ));
    stored
}

/// Two triggers are the same logical trigger when their conditions denote
/// the same document and their comments are equal. Actions and options take
/// no part in it.
pub open spec fn same_trigger(a: TriggerBody, b: TriggerBody) -> bool {
    a.conditions == b.conditions && a.comment == b.comment
}

/// Whether `a` and `b` are the same logical trigger.
pub fn triggers_match(a: &StoredTrigger, b: &StoredTrigger) -> (matching: bool)
    ensures
        matching == same_trigger(a@, b@),
{
    a.conditions == b.conditions && a.comment == b.comment
}

/// Identity does not depend on the order of its arguments.
pub proof fn lemma_match_symmetric(a: TriggerBody, b: TriggerBody)
    ensures
        same_trigger(a, b) == same_trigger(b, a),
{
}

/// Every trigger is the same trigger as itself.
pub proof fn lemma_match_reflexive(a: TriggerBody)
    ensures
        same_trigger(a, a),
{
}

/// Triggers that are the same as a third are the same as each other.
pub proof fn lemma_match_transitive(a: TriggerBody, b: TriggerBody, c: TriggerBody)
    requires
        same_trigger(a, b),
        same_trigger(b, c),
    ensures
        same_trigger(a, c),
{
}

/// Triggers with equal conditions and equal comments are the same trigger,
/// whatever their actions and options are.
pub proof fn lemma_match_by_conditions_and_comment(a: TriggerBody, b: TriggerBody)
    requires
        a.conditions == b.conditions,
        a.comment == b.comment,
    ensures
        same_trigger(a, b),
{
}

/// Giving a trigger other actions and options does not change which
/// triggers it is the same as.
pub proof fn lemma_match_ignores_actions_and_options(
    a: TriggerBody,
    b: TriggerBody,
    actions: Seq<Seq<char>>,
    options: Option<Json>,
)
    ensures
        same_trigger((TriggerBody { actions, options, ..a }), b) == same_trigger(a, b),
        same_trigger(b, (TriggerBody { actions, options, ..a })) == same_trigger(b, a),
{
}

} // verus!
