//! Reconciling the triggers that are active with the permanent list and with
//! a profile: which triggers stay out of a profile, how much of a profile is
//! active, and which active triggers nothing accounts for.

use crate::trigger::{same_trigger, triggers_match, StoredTrigger, TriggerBody};
use vstd::prelude::*;

verus! {

/// Some trigger of `among` is the same logical trigger as `trigger`.
pub open spec fn matches_any(trigger: TriggerBody, among: Seq<TriggerBody>) -> bool {
    exists|i: int| 0 <= i < among.len() && same_trigger(trigger, #[trigger] among[i])
}

/// The test "is among `current`".
pub open spec fn present_in(current: Seq<TriggerBody>) -> spec_fn(TriggerBody) -> bool {
    |trigger: TriggerBody| matches_any(trigger, current)
}

/// The test "is not among `permanent`".
pub open spec fn absent_from(permanent: Seq<TriggerBody>) -> spec_fn(TriggerBody) -> bool {
    |trigger: TriggerBody| !matches_any(trigger, permanent)
}

/// The test "is neither among `permanent` nor, where a profile is given,
/// among its triggers".
pub open spec fn unaccounted_for(
    permanent: Seq<TriggerBody>,
    profile: Option<Seq<TriggerBody>>,
) -> spec_fn(TriggerBody) -> bool {
    |trigger: TriggerBody|
        !matches_any(trigger, permanent) && !(profile is Some && matches_any(
            trigger,
            profile->0,
        ))
}

/// The triggers of `profile` that are among `current`, in the order of
/// `profile`.
pub open spec fn covered(current: Seq<TriggerBody>, profile: Seq<TriggerBody>) -> Seq<
    TriggerBody,
> {
    profile.filter(present_in(current))
}

/// The triggers of `triggers` that are not among `permanent`, in the order
/// of `triggers`.
pub open spec fn without_permanent(
    triggers: Seq<TriggerBody>,
    permanent: Seq<TriggerBody>,
) -> Seq<TriggerBody> {
    triggers.filter(absent_from(permanent))
}

/// The triggers of `current` that neither the permanent list nor the
/// profile accounts for, in the order of `current`.
pub open spec fn unexpected(
    current: Seq<TriggerBody>,
    permanent: Seq<TriggerBody>,
    profile: Option<Seq<TriggerBody>>,
) -> Seq<TriggerBody> {
    current.filter(unaccounted_for(permanent, profile))
}

/// What the triggers of `profile` say, where a profile is given.
pub open spec fn optional_triggers(profile: Option<&[StoredTrigger]>) -> Option<Seq<TriggerBody>> {
    match profile {
        Some(triggers) => Some(triggers.deep_view()),
        None => None,
    }
}

/// The share of a profile that is matched, in whole percent, rounded down.
/// A profile without triggers counts as fully matched.
pub open spec fn percentage(matched: nat, total: nat) -> nat {
    if total == 0 {
        100
    } else {
        (matched * 100 / total) as nat
    }
}

/// Whether some trigger of `among` is the same logical trigger as `trigger`.
pub fn matches_any_of(trigger: &StoredTrigger, among: &[StoredTrigger]) -> (found: bool)
    ensures
        found == matches_any(trigger@, among.deep_view()),
{
    let mut i: usize = 0;
    while i < among.len()
        invariant
            i <= among@.len(),
            forall|j: int| 0 <= j < i ==> !same_trigger(trigger@, #[trigger] among.deep_view()[j]),
        decreases among@.len() - i,
    {
        if triggers_match(trigger, &among[i]) {
            assert(same_trigger(trigger@, among.deep_view()[i as int]));
            return true;
        }
        i += 1;
    }
    false
}

/// How many triggers of `profile` are among `current`, and how many triggers
/// `profile` has. Triggers of `current` that are in no profile do not count
/// against the profile.
pub fn calculate_profile_match(current: &[StoredTrigger], profile: &[StoredTrigger]) -> (counts: (
    usize,
    usize,
))
    ensures
        counts.0 == covered(current.deep_view(), profile.deep_view()).len(),
        counts.1 == profile@.len(),
        counts.0 <= counts.1,
{
    let ghost wanted = profile.deep_view();
    let ghost test = present_in(current.deep_view());
    let mut matched: usize = 0;
    let mut i: usize = 0;
    assert(wanted.take(0) =~= Seq::empty());
    proof {
        reveal(Seq::filter);
    }
    while i < profile.len()
        invariant
            i <= profile@.len(),
            wanted == profile.deep_view(),
            test == present_in(current.deep_view()),
            matched == wanted.take(i as int).filter(test).len(),
            matched <= i,
        decreases profile@.len() - i,
    {
        let found = matches_any_of(&profile[i], current);
        proof {
            assert(wanted.take(i + 1) =~= wanted.take(i as int).push(wanted[i as int]));
            wanted.take(i as int).lemma_filter_push(wanted[i as int], test);
            assert(found == test(wanted[i as int]));
        }
        if found {
            matched += 1;
        }
        i += 1;
    }
    assert(wanted.take(i as int) =~= wanted);
    (matched, profile.len())
}

/// The triggers of `triggers` that are not on the permanent list, in their
/// order.
pub fn filter_out_permanent(triggers: &[StoredTrigger], permanent: &[StoredTrigger]) -> (remaining:
    Vec<StoredTrigger>)
    ensures
        remaining.deep_view() == without_permanent(triggers.deep_view(), permanent.deep_view()),
{
    let ghost all = triggers.deep_view();
    let ghost test = absent_from(permanent.deep_view());
    let mut remaining: Vec<StoredTrigger> = Vec::new();
    let mut i: usize = 0;
    assert(all.take(0) =~= Seq::empty());
    proof {
        reveal(Seq::filter);
    }
    assert(remaining.deep_view() =~= all.take(0).filter(test));
    while i < triggers.len()
        invariant
            i <= triggers@.len(),
            all == triggers.deep_view(),
            test == absent_from(permanent.deep_view()),
            remaining.deep_view() == all.take(i as int).filter(test),
        decreases triggers@.len() - i,
    {
        let permanent_one = matches_any_of(&triggers[i], permanent);
        let ghost before = remaining.deep_view();
        proof {
            assert(all.take(i + 1) =~= all.take(i as int).push(all[i as int]));
            all.take(i as int).lemma_filter_push(all[i as int], test);
            assert(!permanent_one == test(all[i as int]));
        }
        if !permanent_one {
            remaining.push(triggers[i].clone());
            assert(remaining.deep_view() =~= before.push(all[i as int]));
        }
        i += 1;
    }
    assert(all.take(i as int) =~= all);
    remaining
}

/// The triggers of `current` that are neither on the permanent list nor,
/// where a profile is given, in that profile, in their order.
pub fn find_unexpected_triggers(
    current: &[StoredTrigger],
    permanent: &[StoredTrigger],
    profile: Option<&[StoredTrigger]>,
) -> (found: Vec<StoredTrigger>)
    ensures
        found.deep_view() == unexpected(
            current.deep_view(),
            permanent.deep_view(),
            optional_triggers(profile),
        ),
{
    let ghost all = current.deep_view();
    let ghost wanted = optional_triggers(profile);
    let ghost test = unaccounted_for(permanent.deep_view(), wanted);
    let mut found: Vec<StoredTrigger> = Vec::new();
    let mut i: usize = 0;
    assert(all.take(0) =~= Seq::empty());
    proof {
        reveal(Seq::filter);
    }
    assert(found.deep_view() =~= all.take(0).filter(test));
    while i < current.len()
        invariant
            i <= current@.len(),
            all == current.deep_view(),
            wanted == optional_triggers(profile),
            test == unaccounted_for(permanent.deep_view(), wanted),
            found.deep_view() == all.take(i as int).filter(test),
        decreases current@.len() - i,
    {
        let is_permanent = matches_any_of(&current[i], permanent);
        let is_in_profile = match profile {
            Some(triggers) => matches_any_of(&current[i], triggers),
            None => false,
        };
        let ghost before = found.deep_view();
        proof {
            assert(all.take(i + 1) =~= all.take(i as int).push(all[i as int]));
            all.take(i as int).lemma_filter_push(all[i as int], test);
            assert((!is_permanent && !is_in_profile) == test(all[i as int]));
        }
        if !is_permanent && !is_in_profile {
            found.push(current[i].clone());
            assert(found.deep_view() =~= before.push(all[i as int]));
        }
        i += 1;
    }
    assert(all.take(i as int) =~= all);
    found
}

/// The share of a profile that is matched, in whole percent. The share of a
/// part of a whole is at most 100 (see [`lemma_percentage_of_part`]); the
/// function takes any counts whose share the machine can hold.
pub fn match_percentage(matched: usize, total: usize) -> (percent: usize)
    requires
        percentage(matched as nat, total as nat) <= usize::MAX,
    ensures
        percent == percentage(matched as nat, total as nat),
{
    if total == 0 {
        100
    } else {
        let scaled: u128 = matched as u128 * 100;
        let share: u128 = scaled / (total as u128);
        share as usize
    }
}

/// Whether `a` and `b` hold triggers that say the same, one by one, actions
/// and options included.
pub fn same_triggers(a: &[StoredTrigger], b: &[StoredTrigger]) -> (same: bool)
    ensures
        same == (a.deep_view() == b.deep_view()),
{
    if a.len() != b.len() {
        assert(a.deep_view().len() != b.deep_view().len());
        return false;
    }
    let mut i: usize = 0;
    while i < a.len()
        invariant
            i <= a@.len(),
            a@.len() == b@.len(),
            forall|j: int| 0 <= j < i ==> (#[trigger] a@[j])@ == b@[j]@,
        decreases a@.len() - i,
    {
        if a[i] != b[i] {
            assert(a.deep_view()[i as int] != b.deep_view()[i as int]);
            return false;
        }
        i += 1;
    }
    assert(a.deep_view() =~= b.deep_view());
    true
}

/// The share of a part of a whole is at most 100 percent.
pub proof fn lemma_percentage_of_part(matched: nat, total: nat)
    requires
        matched <= total,
    ensures
        percentage(matched, total) <= 100,
{
    if total > 0 {
        assert(matched * 100 / total <= 100) by (nonlinear_arith)
            requires
                matched <= total,
                total > 0,
        ;
    }
}

/// A profile without triggers has nothing to match: the counts are zero and
/// the profile counts as matched in full.
pub proof fn lemma_empty_profile(current: Seq<TriggerBody>)
    ensures
        covered(current, Seq::empty()).len() == 0,
        percentage(0, 0) == 100,
{
    reveal(Seq::filter);
}

/// Where every trigger of a profile is among the current triggers, all of
/// the profile is matched.
pub proof fn lemma_profile_within_current(current: Seq<TriggerBody>, profile: Seq<TriggerBody>)
    requires
        forall|i: int| 0 <= i < profile.len() ==> matches_any(#[trigger] profile[i], current),
    ensures
        covered(current, profile) == profile,
        covered(current, profile).len() == profile.len(),
        percentage(covered(current, profile).len(), profile.len()) == 100,
    decreases profile.len(),
{
    reveal(Seq::filter);
    if profile.len() > 0 {
        let front = profile.drop_last();
        assert forall|i: int| 0 <= i < front.len() implies matches_any(
            #[trigger] front[i],
            current,
        ) by {
            assert(front[i] == profile[i]);
        }
        lemma_profile_within_current(current, front);
        assert(matches_any(profile[profile.len() - 1], current));
        assert(present_in(current)(profile.last()));
        assert(front.push(profile.last()) =~= profile);
        let n = profile.len();
        assert(n * 100 / n == 100) by (nonlinear_arith)
            requires
                n > 0,
        ;
    } else {
        assert(covered(current, profile) =~= profile);
    }
}

/// A profile taken from the current triggers themselves is matched in full.
pub proof fn lemma_profile_of_current(current: Seq<TriggerBody>)
    ensures
        covered(current, current) == current,
{
    assert forall|i: int| 0 <= i < current.len() implies matches_any(
        #[trigger] current[i],
        current,
    ) by {
        assert(same_trigger(current[i], current[i]));
    }
    lemma_profile_within_current(current, current);
}

/// With an empty permanent list, nothing is filtered out.
pub proof fn lemma_nothing_permanent(triggers: Seq<TriggerBody>)
    ensures
        without_permanent(triggers, Seq::empty()) == triggers,
    decreases triggers.len(),
{
    reveal(Seq::filter);
    if triggers.len() > 0 {
        let front = triggers.drop_last();
        lemma_nothing_permanent(front);
        assert(absent_from(Seq::empty())(triggers.last()));
        assert(front.push(triggers.last()) =~= triggers);
    } else {
        assert(without_permanent(triggers, Seq::empty()) =~= triggers);
    }
}

/// Without a profile, the unexpected triggers are those that are not
/// permanent.
pub proof fn lemma_unexpected_without_profile(
    current: Seq<TriggerBody>,
    permanent: Seq<TriggerBody>,
)
    ensures
        unexpected(current, permanent, None) == without_permanent(current, permanent),
    decreases current.len(),
{
    reveal(Seq::filter);
    if current.len() > 0 {
        lemma_unexpected_without_profile(current.drop_last(), permanent);
        assert(unaccounted_for(permanent, None)(current.last()) == absent_from(permanent)(
            current.last(),
        ));
    }
}

/// Triggers that are active besides those of a profile take nothing from
/// its match.
pub proof fn lemma_more_current_keeps_match(
    current: Seq<TriggerBody>,
    extra: Seq<TriggerBody>,
    profile: Seq<TriggerBody>,
)
    ensures
        covered(current, profile).len() <= covered(current + extra, profile).len(),
    decreases profile.len(),
{
    reveal(Seq::filter);
    if profile.len() > 0 {
        lemma_more_current_keeps_match(current, extra, profile.drop_last());
        let last = profile.last();
        if matches_any(last, current) {
            let i = choose|i: int| 0 <= i < current.len() && same_trigger(last, #[trigger] current[i]);
            assert((current + extra)[i] == current[i]);
            assert(same_trigger(last, (current + extra)[i]));
            assert(matches_any(last, current + extra));
        }
        assert(present_in(current)(last) ==> present_in(current + extra)(last));
    }
}


/// What is left after the permanent triggers are taken out holds no
/// permanent trigger, and every trigger that is not permanent is left.
pub proof fn lemma_remaining_are_not_permanent(
    triggers: Seq<TriggerBody>,
    permanent: Seq<TriggerBody>,
)
    ensures
        forall|i: int|
            0 <= i < without_permanent(triggers, permanent).len() ==> !matches_any(
                #[trigger] without_permanent(triggers, permanent)[i],
                permanent,
            ),
        forall|i: int|
            0 <= i < triggers.len() && !matches_any(#[trigger] triggers[i], permanent)
                ==> without_permanent(triggers, permanent).contains(triggers[i]),
{
    let test = absent_from(permanent);
    let left = without_permanent(triggers, permanent);
    assert forall|i: int| 0 <= i < left.len() implies !matches_any(#[trigger] left[i], permanent) by {
        triggers.lemma_filter_pred(test, i);
        assert(test(left[i]));
    }
    assert forall|i: int|
        0 <= i < triggers.len() && !matches_any(#[trigger] triggers[i], permanent) implies left.contains(
        triggers[i],
    ) by {
        assert(test(triggers[i]));
        triggers.lemma_filter_contains(test, i);
    }
}

/// Taking the permanent triggers out a second time changes nothing.
pub proof fn lemma_filter_again(triggers: Seq<TriggerBody>, permanent: Seq<TriggerBody>)
    ensures
        without_permanent(without_permanent(triggers, permanent), permanent) == without_permanent(
            triggers,
            permanent,
        ),
    decreases triggers.len(),
{
    reveal(Seq::filter);
    let test = absent_from(permanent);
    if triggers.len() > 0 {
        let front = triggers.drop_last();
        lemma_filter_again(front, permanent);
        if test(triggers.last()) {
            front.filter(test).lemma_filter_push(triggers.last(), test);
        }
    }
}

/// The unexpected triggers are among those that are not permanent: a
/// profile can only account for more.
pub proof fn lemma_unexpected_are_not_permanent(
    current: Seq<TriggerBody>,
    permanent: Seq<TriggerBody>,
    profile: Option<Seq<TriggerBody>>,
)
    ensures
        unexpected(current, permanent, profile).len() <= without_permanent(current, permanent).len(),
        forall|i: int|
            0 <= i < unexpected(current, permanent, profile).len() ==> {
                let trigger = #[trigger] unexpected(current, permanent, profile)[i];
                &&& !matches_any(trigger, permanent)
                &&& profile is Some ==> !matches_any(trigger, profile->0)
            },
    decreases current.len(),
{
    reveal(Seq::filter);
    let test = unaccounted_for(permanent, profile);
    let found = unexpected(current, permanent, profile);
    assert forall|i: int| 0 <= i < found.len() implies {
        let trigger = #[trigger] found[i];
        &&& !matches_any(trigger, permanent)
        &&& profile is Some ==> !matches_any(trigger, profile->0)
    } by {
        current.lemma_filter_pred(test, i);
        assert(test(found[i]));
    }
    if current.len() > 0 {
        lemma_unexpected_are_not_permanent(current.drop_last(), permanent, profile);
        assert(test(current.last()) ==> absent_from(permanent)(current.last()));
    }
}

} // verus!
