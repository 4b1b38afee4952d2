//! The decisions of an interactive session: what an answer at a prompt
//! means, which triggers a selection stands for, which profile fits best,
//! and in which order a restore changes the service.

use crate::profile::{matches_any, matches_any_of};
use crate::request::{recreation, TriggerUpdate, TriggerUpdateView};
use crate::text::{chars_of, is_letter, text_of, trim_bounds, trimmed};
use crate::trigger::{StoredTrigger, Trigger, TriggerBody, TriggerView};
use vstd::prelude::*;

verus! {

/// What an answer to "which trigger?" means.
#[derive(Clone, Copy, Debug, PartialEq, Eq, Structural)]
pub enum Selection {
    /// The user gave up.
    Quit,
    /// The trigger at this position of the list, counted from zero.
    Chosen(usize),
    /// The answer is no number.
    Invalid,
    /// The answer is a number for which the list has no trigger.
    OutOfRange,
}

/// `c` is a decimal digit.
pub open spec fn is_digit(c: char) -> bool {
    0x30 <= c as u32 <= 0x39
}

/// The number that the digits of `digits` write in base ten.
pub open spec fn decimal_value(digits: Seq<char>) -> nat
    decreases digits.len(),
{
    if digits.len() == 0 {
        0
    } else {
        (decimal_value(digits.drop_last()) * 10 + (digits.last() as u32 - 0x30)) as nat
    }
}

/// The digits of a number as it may be written: after a `+` sign, if there
/// is one.
pub open spec fn unsigned_part(text: Seq<char>) -> Seq<char> {
    if text.len() > 0 && text[0] == '+' {
        text.drop_first()
    } else {
        text
    }
}

/// The number that `text` writes: one or more decimal digits, with or
/// without a `+` sign before them, and nothing else. `None` where `text` is
/// not of that form.
pub open spec fn number_in(text: Seq<char>) -> Option<nat> {
    let digits = unsigned_part(text);
    if digits.len() > 0 && (forall|i: int| 0 <= i < digits.len() ==> is_digit(#[trigger] digits[i])) {
        Some(decimal_value(digits))
    } else {
        None
    }
}

/// What `input` means as an answer to "which of `count` triggers?": `q` in
/// either case gives up, a number from 1 to `count` chooses, white space
/// round the answer does not count.
pub open spec fn selection(input: Seq<char>, count: nat) -> Selection {
    let answer = trimmed(input);
    if is_letter(answer, 'q', 'Q') {
        Selection::Quit
    } else {
        match number_in(answer) {
            Some(number) => if number > usize::MAX {
                Selection::Invalid
            } else if 1 <= number <= count {
                Selection::Chosen((number - 1) as usize)
            } else {
                Selection::OutOfRange
            },
            None => Selection::Invalid,
        }
    }
}

/// A number does not get smaller when digits are written after it.
proof fn lemma_decimal_grows(digits: Seq<char>, i: int)
    requires
        0 <= i <= digits.len(),
        forall|j: int| 0 <= j < digits.len() ==> is_digit(#[trigger] digits[j]),
    ensures
        decimal_value(digits.take(i)) <= decimal_value(digits),
    decreases digits.len() - i,
{
    if i < digits.len() {
        lemma_decimal_grows(digits, i + 1);
        assert(digits.take(i + 1).drop_last() =~= digits.take(i));
        assert(is_digit(digits[i]));
        assert(digits.take(i + 1).last() == digits[i]);
    } else {
        assert(digits.take(i) =~= digits);
    }
}

/// The number that `text` writes in `from..to`, where it fits the machine.
fn parse_number(text: &Vec<char>, from: usize, to: usize) -> (number: Option<usize>)
    requires
        from <= to <= text@.len(),
    ensures
        number == match number_in(text@.subrange(from as int, to as int)) {
            Some(value) => if value <= usize::MAX {
                Some(value as usize)
            } else {
                None
            },
            None => None,
        },
{
    let ghost answer = text@.subrange(from as int, to as int);
    let first: usize = if from < to && text[from] == '+' {
        from + 1
    } else {
        from
    };
    let ghost digits = unsigned_part(answer);
    assert(digits =~= text@.subrange(first as int, to as int));
    if first == to {
        return None;
    }
    let mut value: usize = 0;
    let mut i: usize = first;
    assert(digits.take(0) =~= Seq::empty());
    while i < to
        invariant
            from <= first <= i <= to <= text@.len(),
            first < to,
            digits == unsigned_part(text@.subrange(from as int, to as int)),
            digits == text@.subrange(first as int, to as int),
            forall|j: int| 0 <= j < i - first ==> is_digit(#[trigger] digits[j]),
            value == decimal_value(digits.take(i - first)),
        decreases to - i,
    {
        let code: u32 = text[i] as u32;
        assert(digits[i - first] == text@[i as int]);
        if code < 0x30 || code > 0x39 {
            assert(!is_digit(digits[i - first]));
            return None;
        }
        let digit: usize = (code - 0x30) as usize;
        proof {
            assert(digits.take(i - first + 1).drop_last() =~= digits.take(i - first));
            assert(digits.take(i - first + 1).last() == digits[i - first]);
        }
        if value > (usize::MAX - digit) / 10 {
            proof {
                assert(decimal_value(digits.take(i - first + 1)) > usize::MAX);
                if forall|j: int| 0 <= j < digits.len() ==> is_digit(#[trigger] digits[j]) {
                    lemma_decimal_grows(digits, i - first + 1);
                }
            }
            return None;
        }
        value = value * 10 + digit;
        i += 1;
    }
    assert(digits.take(i - first) =~= digits);
    Some(value)
}

/// What `input` means as an answer to "which of `count` triggers?".
pub fn parse_selection(input: &str, count: usize) -> (chosen: Selection)
    ensures
        chosen == selection(input@, count as nat),
{
    let text = chars_of(input);
    let (start, end) = trim_bounds(&text);
    let ghost answer = trimmed(text@);
    assert(answer.len() == end - start);
    if end - start == 1 && (text[start] == 'q' || text[start] == 'Q') {
        assert(answer[0] == text@[start as int]);
        return Selection::Quit;
    }
    if end - start == 1 {
        assert(answer[0] == text@[start as int]);
    }
    match parse_number(&text, start, end) {
        Some(number) => {
            if 1 <= number && number <= count {
                Selection::Chosen(number - 1)
            } else {
                Selection::OutOfRange
            }
        },
        None => Selection::Invalid,
    }
}

/// Whether `answer` says yes: the letter `y`, in either case, with or
/// without white space round it.
pub fn is_confirmed(answer: &str) -> (yes: bool)
    ensures
        yes == is_letter(trimmed(answer@), 'y', 'Y'),
{
    let text = chars_of(answer);
    let (start, end) = trim_bounds(&text);
    if end - start == 1 {
        assert(trimmed(text@)[0] == text@[start as int]);
        text[start] == 'y' || text[start] == 'Y'
    } else {
        false
    }
}

/// Whether `answer` gives up: the letter `q`, in either case, with or
/// without white space round it.
pub fn is_quit(answer: &str) -> (quit: bool)
    ensures
        quit == is_letter(trimmed(answer@), 'q', 'Q'),
{
    let text = chars_of(answer);
    let (start, end) = trim_bounds(&text);
    if end - start == 1 {
        assert(trimmed(text@)[0] == text@[start as int]);
        text[start] == 'q' || text[start] == 'Q'
    } else {
        false
    }
}

/// The name of the profile that a marker file records: its text without the
/// white space round it, and none where nothing is left.
pub fn current_profile_name(marker: &str) -> (name: Option<String>)
    ensures
        match name {
            Some(text) => text@ == trimmed(marker@) && text@.len() > 0,
            None => trimmed(marker@).len() == 0,
        },
{
    let text = chars_of(marker);
    let (start, end) = trim_bounds(&text);
    if start == end {
        None
    } else {
        Some(text_of(&text, start, end))
    }
}

/// The positions below `count` that pass `test`, in rising order.
pub open spec fn positions(count: nat, test: spec_fn(int) -> bool) -> Seq<int> {
    Seq::new(count, |i: int| i).filter(test)
}

/// The positions that `chosen` holds.
pub open spec fn positions_view(chosen: Seq<usize>) -> Seq<int> {
    chosen.map_values(|i: usize| i as int)
}

/// The test "the line at this position is among `selected`".
pub open spec fn line_selected(lines: Seq<Seq<char>>, selected: Seq<Seq<char>>) -> spec_fn(
    int,
) -> bool {
    |i: int| selected.contains(lines[i])
}

/// The test "the line at this position is not among `selected`".
pub open spec fn line_not_selected(lines: Seq<Seq<char>>, selected: Seq<Seq<char>>) -> spec_fn(
    int,
) -> bool {
    |i: int| !selected.contains(lines[i])
}

/// The test "the trigger at this position is on the permanent list".
pub open spec fn is_permanent(triggers: Seq<TriggerBody>, permanent: Seq<TriggerBody>) -> spec_fn(
    int,
) -> bool {
    |i: int| matches_any(triggers[i], permanent)
}

proof fn lemma_positions_step(count: nat, test: spec_fn(int) -> bool)
    ensures
        positions(count + 1, test) == if test(count as int) {
            positions(count, test).push(count as int)
        } else {
            positions(count, test)
        },
        positions(0, test) == Seq::<int>::empty(),
{
    reveal(Seq::filter);
    let shorter = Seq::new(count, |i: int| i);
    let longer = Seq::new(count + 1, |i: int| i);
    assert(longer =~= shorter.push(count as int));
    shorter.lemma_filter_push(count as int, test);
    assert(Seq::new(0, |i: int| i).filter(test) =~= Seq::<int>::empty());
}

fn contains_line(lines: &[String], line: &String) -> (found: bool)
    ensures
        found == lines.deep_view().contains(line@),
{
    let mut i: usize = 0;
    while i < lines.len()
        invariant
            i <= lines@.len(),
            forall|j: int| 0 <= j < i ==> #[trigger] lines.deep_view()[j] != line@,
        decreases lines@.len() - i,
    {
        if lines[i] == *line {
            assert(lines.deep_view()[i as int] == line@);
            return true;
        }
        i += 1;
    }
    false
}

/// The positions of the lines of `lines` that are among `selected`. Lines
/// that read the same are selected together.
pub fn selected_positions(lines: &[String], selected: &[String]) -> (chosen: Vec<usize>)
    ensures
        positions_view(chosen@) == positions(
            lines@.len(),
            line_selected(lines.deep_view(), selected.deep_view()),
        ),
{
    let ghost test = line_selected(lines.deep_view(), selected.deep_view());
    let mut chosen: Vec<usize> = Vec::new();
    let mut i: usize = 0;
    proof {
        lemma_positions_step(0, test);
    }
    assert(positions_view(chosen@) =~= positions(0, test));
    while i < lines.len()
        invariant
            i <= lines@.len(),
            test == line_selected(lines.deep_view(), selected.deep_view()),
            positions_view(chosen@) == positions(i as nat, test),
        decreases lines@.len() - i,
    {
        let ghost before = positions_view(chosen@);
        proof {
            lemma_positions_step(i as nat, test);
        }
        if contains_line(selected, &lines[i]) {
            chosen.push(i);
            assert(positions_view(chosen@) =~= before.push(i as int));
        }
        i += 1;
    }
    chosen
}

/// The positions of the lines of `lines` that are not among `kept`. Lines
/// that read the same are kept together.
pub fn unselected_positions(lines: &[String], kept: &[String]) -> (rest: Vec<usize>)
    ensures
        positions_view(rest@) == positions(
            lines@.len(),
            line_not_selected(lines.deep_view(), kept.deep_view()),
        ),
{
    let ghost test = line_not_selected(lines.deep_view(), kept.deep_view());
    let mut rest: Vec<usize> = Vec::new();
    let mut i: usize = 0;
    proof {
        lemma_positions_step(0, test);
    }
    assert(positions_view(rest@) =~= positions(0, test));
    while i < lines.len()
        invariant
            i <= lines@.len(),
            test == line_not_selected(lines.deep_view(), kept.deep_view()),
            positions_view(rest@) == positions(i as nat, test),
        decreases lines@.len() - i,
    {
        let ghost before = positions_view(rest@);
        proof {
            lemma_positions_step(i as nat, test);
        }
        if !contains_line(kept, &lines[i]) {
            rest.push(i);
            assert(positions_view(rest@) =~= before.push(i as int));
        }
        i += 1;
    }
    rest
}

/// The positions of the triggers of `triggers` that are on the permanent
/// list.
pub fn permanent_positions(triggers: &[StoredTrigger], permanent: &[StoredTrigger]) -> (chosen:
    Vec<usize>)
    ensures
        positions_view(chosen@) == positions(
            triggers@.len(),
            is_permanent(triggers.deep_view(), permanent.deep_view()),
        ),
{
    let ghost test = is_permanent(triggers.deep_view(), permanent.deep_view());
    let mut chosen: Vec<usize> = Vec::new();
    let mut i: usize = 0;
    proof {
        lemma_positions_step(0, test);
    }
    assert(positions_view(chosen@) =~= positions(0, test));
    while i < triggers.len()
        invariant
            i <= triggers@.len(),
            test == is_permanent(triggers.deep_view(), permanent.deep_view()),
            positions_view(chosen@) == positions(i as nat, test),
        decreases triggers@.len() - i,
    {
        let ghost before = positions_view(chosen@);
        proof {
            lemma_positions_step(i as nat, test);
        }
        if matches_any_of(&triggers[i], permanent) {
            chosen.push(i);
            assert(positions_view(chosen@) =~= before.push(i as int));
        }
        i += 1;
    }
    chosen
}

/// The position of the best of `counts`, each a pair of how many triggers of
/// a profile are matched and how many it has: the first with the greatest
/// number of matched triggers.
pub open spec fn is_best(counts: Seq<(usize, usize)>, best: int) -> bool {
    &&& 0 <= best < counts.len()
    &&& forall|i: int| 0 <= i < counts.len() ==> (#[trigger] counts[i]).0 <= counts[best].0
    &&& forall|i: int| 0 <= i < best ==> (#[trigger] counts[i]).0 < counts[best].0
}

/// The profile that matches best, by position: the first among those with
/// the greatest number of matched triggers; none where there is no profile.
pub fn best_match(counts: &[(usize, usize)]) -> (best: Option<usize>)
    ensures
        match best {
            Some(position) => is_best(counts@, position as int),
            None => counts@.len() == 0,
        },
{
    if counts.len() == 0 {
        return None;
    }
    let mut best: usize = 0;
    let mut i: usize = 1;
    while i < counts.len()
        invariant
            1 <= i <= counts@.len(),
            best < i,
            forall|j: int| 0 <= j < i ==> (#[trigger] counts@[j]).0 <= counts@[best as int].0,
            forall|j: int| 0 <= j < best ==> (#[trigger] counts@[j]).0 < counts@[best as int].0,
        decreases counts@.len() - i,
    {
        if counts[i].0 > counts[best].0 {
            best = i;
        }
        i += 1;
    }
    Some(best)
}

/// Whether the best match speaks against the profile on record: it is
/// another profile, it has triggers, and all of them are matched.
pub fn suggests_other_profile(best: (usize, usize), best_is_recorded: bool) -> (suggests: bool)
    ensures
        suggests == (!best_is_recorded && best.0 == best.1 && best.1 > 0),
{
    !best_is_recorded && best.0 == best.1 && best.1 > 0
}

/// What one request changes at the service.
pub ghost enum RemoteChangeView {
    Delete(Seq<char>),
    Update(TriggerUpdateView),
}

/// One request that changes the service: delete the trigger with an
/// identifier, or create or replace a trigger.
#[derive(Debug)]
pub enum RemoteChange {
    Delete(String),
    Update(TriggerUpdate),
}

impl View for RemoteChange {
    type V = RemoteChangeView;

    open spec fn view(&self) -> RemoteChangeView {
        match self {
            RemoteChange::Delete(id) => RemoteChangeView::Delete(id@),
            RemoteChange::Update(update) => RemoteChangeView::Update(update@),
        }
    }
}

impl DeepView for RemoteChange {
    type V = RemoteChangeView;

    open spec fn deep_view(&self) -> RemoteChangeView {
        self@
    }
}

/// One deletion for each of `triggers`, in their order.
pub open spec fn deletions(triggers: Seq<TriggerView>) -> Seq<RemoteChangeView> {
    Seq::new(triggers.len(), |i: int| RemoteChangeView::Delete(triggers[i].id))
}

/// One creation for each of `triggers`, in their order.
pub open spec fn creations(triggers: Seq<TriggerView>) -> Seq<RemoteChangeView> {
    Seq::new(triggers.len(), |i: int| RemoteChangeView::Update(recreation(triggers[i])))
}

/// The requests of a restore, in the order in which they are sent: every
/// current trigger is deleted, then every trigger of the backup is created.
pub fn restore_changes(current: &[Trigger], backup: &[Trigger]) -> (changes: Vec<RemoteChange>)
    ensures
        changes.deep_view() == deletions(current.deep_view()) + creations(backup.deep_view()),
{
    let mut changes: Vec<RemoteChange> = Vec::new();
    let mut i: usize = 0;
    while i < current.len()
        invariant
            i <= current@.len(),
            changes@.len() == i,
            forall|j: int|
                0 <= j < i ==> (#[trigger] changes@[j])@ == RemoteChangeView::Delete(
                    current@[j]@.id,
                ),
        decreases current@.len() - i,
    {
        changes.push(RemoteChange::Delete(current[i].id.clone()));
        i += 1;
    }
    let mut k: usize = 0;
    while k < backup.len()
        invariant
            k <= backup@.len(),
            changes@.len() == current@.len() + k,
            forall|j: int|
                0 <= j < current@.len() ==> (#[trigger] changes@[j])@ == RemoteChangeView::Delete(
                    current@[j]@.id,
                ),
            forall|j: int|
                0 <= j < k ==> (#[trigger] changes@[current@.len() + j])@
                    == RemoteChangeView::Update(recreation(backup@[j]@)),
        decreases backup@.len() - k,
    {
        changes.push(RemoteChange::Update(TriggerUpdate::from_backup(&backup[k])));
        k += 1;
    }
    proof {
        let sent = changes.deep_view();
        let planned = deletions(current.deep_view()) + creations(backup.deep_view());
        assert(sent.len() == planned.len());
        assert forall|j: int| 0 <= j < sent.len() implies sent[j] == planned[j] by {
            if j < current@.len() {
                assert(changes@[j]@ == RemoteChangeView::Delete(current@[j]@.id));
            } else {
                let at = j - current@.len();
                assert(changes@[current@.len() + at]@ == RemoteChangeView::Update(
                    recreation(backup@[at]@),
                ));
            }
        }
        assert(sent =~= planned);
    }
    changes
}

} // verus!
