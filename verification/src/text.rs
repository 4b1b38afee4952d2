//! Characters and strings: white space, scanning, and the few operations on
//! `String` that the rest of the library builds on.

use vstd::prelude::*;

verus! {

/// `==` on `str` (`PartialEq::eq`), of the standard library: two strings
/// are equal when they hold the same characters.
pub assume_specification[ <str as PartialEq>::eq ](text: &str, other: &str) -> (same: bool)
    ensures
        same == (text@ == other@),
;

/// `String::push`, of the standard library: `c` is appended to `text`, and
/// what `text` held stays in front of it.
pub assume_specification[ String::push ](text: &mut String, c: char)
    ensures
        final(text)@ == old(text)@.push(c),
;

/// The characters with the Unicode property `White_Space`.
pub open spec fn is_whitespace(c: char) -> bool {
    let code = c as u32;
    ||| 0x09 <= code <= 0x0D
    ||| code == 0x20
    ||| code == 0x85
    ||| code == 0xA0
    ||| code == 0x1680
    ||| 0x2000 <= code <= 0x200A
    ||| code == 0x2028
    ||| code == 0x2029
    ||| code == 0x202F
    ||| code == 0x205F
    ||| code == 0x3000
}

/// Whether `c` is white space.
pub fn char_is_whitespace(c: char) -> (blank: bool)
    ensures
        blank == is_whitespace(c),
{
    let code: u32 = c as u32;
    (0x09 <= code && code <= 0x0D) || code == 0x20 || code == 0x85 || code == 0xA0 || code
        == 0x1680 || (0x2000 <= code && code <= 0x200A) || code == 0x2028 || code == 0x2029
        || code == 0x202F || code == 0x205F || code == 0x3000
}

/// The first position in `from..end` whose character is white space (where
/// `blank` holds) or is not (where it does not); `end` where there is none.
pub open spec fn scan(text: Seq<char>, from: int, end: int, blank: bool) -> int
    decreases end - from,
{
    if from >= end {
        end
    } else if is_whitespace(text[from]) == blank {
        from
    } else {
        scan(text, from + 1, end, blank)
    }
}

/// What `scan` finds: a position in `from..=end` before which, from `from`
/// on, no character is of the kind looked for, and which holds one unless it
/// is `end`.
pub proof fn lemma_scan(text: Seq<char>, from: int, end: int, blank: bool)
    requires
        from <= end,
    ensures
        from <= scan(text, from, end, blank) <= end,
        forall|i: int|
            from <= i < scan(text, from, end, blank) ==> is_whitespace(#[trigger] text[i]) != blank,
        scan(text, from, end, blank) < end ==> is_whitespace(text[scan(text, from, end, blank)])
            == blank,
    decreases end - from,
{
    if from < end && is_whitespace(text[from]) != blank {
        lemma_scan(text, from + 1, end, blank);
    }
}

/// The first position in `from..end` whose character is white space or is
/// not, as `blank` asks; `end` where there is none.
pub fn scan_chars(text: &Vec<char>, from: usize, end: usize, blank: bool) -> (found: usize)
    requires
        from <= end <= text@.len(),
    ensures
        found == scan(text@, from as int, end as int, blank),
        from <= found <= end,
{
    let mut i: usize = from;
    while i < end && char_is_whitespace(text[i]) != blank
        invariant
            from <= i <= end <= text@.len(),
            scan(text@, i as int, end as int, blank) == scan(text@, from as int, end as int, blank),
        decreases end - i,
    {
        i += 1;
    }
    i
}

/// The characters of `text`.
pub fn chars_of(text: &str) -> (chars: Vec<char>)
    ensures
        chars@ == text@,
{
    let mut chars: Vec<char> = Vec::new();
    for c in it: text.chars()
        invariant
            chars@ == it.seq().take(it.index() as int),
    {
        chars.push(c);
    }
    chars
}

/// The string made of the characters of `chars` in `from..to`.
pub fn text_of(chars: &Vec<char>, from: usize, to: usize) -> (text: String)
    requires
        from <= to <= chars@.len(),
    ensures
        text@ == chars@.subrange(from as int, to as int),
{
    let mut text = String::new();
    let mut i: usize = from;
    while i < to
        invariant
            from <= i <= to <= chars@.len(),
            text@ == chars@.subrange(from as int, i as int),
        decreases to - i,
    {
        text.push(chars[i]);
        assert(chars@.subrange(from as int, i + 1) =~= chars@.subrange(from as int, i as int).push(
            chars@[i as int],
        ));
        i += 1;
    }
    text
}


/// The end of the last run of characters without white space in
/// `start..end` of `text`: the position after its last character; `start`
/// where that range holds white space only.
pub open spec fn scan_back(text: Seq<char>, start: int, end: int) -> int
    decreases end - start,
{
    if end <= start {
        start
    } else if !is_whitespace(text[end - 1]) {
        end
    } else {
        scan_back(text, start, end - 1)
    }
}

/// What `scan_back` finds: a position in `start..=end` from which on, up to
/// `end`, all is white space, and before which stands a character that is
/// none unless the position is `start`.
pub proof fn lemma_scan_back(text: Seq<char>, start: int, end: int)
    requires
        start <= end,
    ensures
        start <= scan_back(text, start, end) <= end,
        forall|i: int| scan_back(text, start, end) <= i < end ==> is_whitespace(#[trigger] text[i]),
        scan_back(text, start, end) > start ==> !is_whitespace(
            text[scan_back(text, start, end) - 1],
        ),
    decreases end - start,
{
    if start < end && is_whitespace(text[end - 1]) {
        lemma_scan_back(text, start, end - 1);
    }
}

/// Where `text` without the white space at its beginning begins.
pub open spec fn trim_start(text: Seq<char>) -> int {
    scan(text, 0, text.len() as int, false)
}

/// Where `text` without the white space at its end ends.
pub open spec fn trim_end(text: Seq<char>) -> int {
    scan_back(text, trim_start(text), text.len() as int)
}

/// `text` without the white space at its beginning and at its end.
pub open spec fn trimmed(text: Seq<char>) -> Seq<char> {
    text.subrange(trim_start(text), trim_end(text))
}

/// The range of `text` that is left when the white space at its beginning
/// and at its end is taken away.
pub fn trim_bounds(text: &Vec<char>) -> (bounds: (usize, usize))
    ensures
        bounds.0 == trim_start(text@),
        bounds.1 == trim_end(text@),
        bounds.0 <= bounds.1 <= text@.len(),
{
    let start = scan_chars(text, 0, text.len(), false);
    let mut end: usize = text.len();
    while end > start && char_is_whitespace(text[end - 1])
        invariant
            start <= end <= text@.len(),
            scan_back(text@, start as int, end as int) == scan_back(
                text@,
                start as int,
                text@.len() as int,
            ),
        decreases end - start,
    {
        end -= 1;
    }
    (start, end)
}

/// What `trimmed` leaves: it neither begins nor ends with white space, and
/// what it leaves out before and after is white space only.
pub proof fn lemma_trimmed(text: Seq<char>)
    ensures
        0 <= trim_start(text) <= trim_end(text) <= text.len(),
        forall|i: int| 0 <= i < trim_start(text) ==> is_whitespace(#[trigger] text[i]),
        forall|i: int| trim_end(text) <= i < text.len() ==> is_whitespace(#[trigger] text[i]),
        trimmed(text).len() > 0 ==> !is_whitespace(trimmed(text).first()) && !is_whitespace(
            trimmed(text).last(),
        ),
{
    lemma_scan(text, 0, text.len() as int, false);
    lemma_scan_back(text, trim_start(text), text.len() as int);
}

/// `text` is one letter: `lower` or `upper`.
pub open spec fn is_letter(text: Seq<char>, lower: char, upper: char) -> bool {
    text.len() == 1 && (text[0] == lower || text[0] == upper)
}

} // verus!
