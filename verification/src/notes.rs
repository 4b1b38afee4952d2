//! Callsign notes: a text with one callsign per line, each optionally
//! followed by a remark, with blank lines and comment lines in between.

use crate::options::CallsignFormat;
use crate::request::joined;
use crate::text::{chars_of, is_whitespace, lemma_scan, scan, scan_chars, text_of};
use vstd::prelude::*;

verus! {

/// The position of the first line feed at or after `from`; the length of
/// `text` where there is none.
pub open spec fn line_end(text: Seq<char>, from: int) -> int
    decreases text.len() - from,
{
    if from >= text.len() {
        text.len() as int
    } else if text[from] == '\n' {
        from
    } else {
        line_end(text, from + 1)
    }
}

/// What `line_end` finds: a position in `from..=len` before which, from
/// `from` on, there is no line feed, and which holds one unless it is the
/// end of the text.
pub proof fn lemma_line_end(text: Seq<char>, from: int)
    requires
        0 <= from <= text.len(),
    ensures
        from <= line_end(text, from) <= text.len(),
        forall|i: int| from <= i < line_end(text, from) ==> #[trigger] text[i] != '\n',
        line_end(text, from) < text.len() ==> text[line_end(text, from)] == '\n',
    decreases text.len() - from,
{
    if from < text.len() && text[from] != '\n' {
        lemma_line_end(text, from + 1);
    }
}

/// A token that marks its line as a comment: one that begins with `#` or
/// with `//`.
pub open spec fn is_comment(token: Seq<char>) -> bool {
    (token.len() >= 1 && token[0] == '#') || (token.len() >= 2 && token[0] == '/' && token[1]
        == '/')
}

/// The first run of characters without white space in `from..end` of
/// `text`; empty where that range holds white space only.
pub open spec fn first_token(text: Seq<char>, from: int, end: int) -> Seq<char> {
    let start = scan(text, from, end, false);
    let stop = scan(text, start, end, true);
    text.subrange(start, stop)
}

/// The callsign on the line that is `from..end` of `text`: its first token,
/// unless the line is blank or a comment.
pub open spec fn line_callsign(text: Seq<char>, from: int, end: int) -> Option<Seq<char>> {
    let token = first_token(text, from, end);
    if token.len() == 0 || is_comment(token) {
        None
    } else {
        Some(token)
    }
}

/// The callsigns on the lines of `text` that begin at or after `from`, where
/// a line begins at `from`.
pub open spec fn callsigns_from(text: Seq<char>, from: int) -> Seq<Seq<char>>
    decreases text.len() - from,
{
    if from < 0 || from >= text.len() {
        Seq::empty()
    } else {
        let end = line_end(text, from);
        proof {
            lemma_line_end(text, from);
        }
        let rest = if end < text.len() {
            callsigns_from(text, end + 1)
        } else {
            Seq::empty()
        };
        match line_callsign(text, from, end) {
            Some(callsign) => seq![callsign] + rest,
            None => rest,
        }
    }
}

/// The callsigns that a notes text lists, line by line: of each line that is
/// neither blank nor a comment, the first token.
pub open spec fn notes_callsigns(text: Seq<char>) -> Seq<Seq<char>> {
    callsigns_from(text, 0)
}

fn find_line_end(text: &Vec<char>, from: usize) -> (end: usize)
    requires
        from <= text@.len(),
    ensures
        end == line_end(text@, from as int),
        from <= end <= text@.len(),
{
    let mut i: usize = from;
    while i < text.len() && text[i] != '\n'
        invariant
            from <= i <= text@.len(),
            line_end(text@, i as int) == line_end(text@, from as int),
        decreases text@.len() - i,
    {
        i += 1;
    }
    i
}

/// Reads the callsigns out of a notes text. Lines end at a line feed; white
/// space round a line is ignored; blank lines and lines that begin with `#`
/// or `//` are skipped; of any other line the first token is the callsign.
pub fn parse_polo_notes_content(content: &str) -> (callsigns: Vec<String>)
    ensures
        callsigns.deep_view() == notes_callsigns(content@),
{
    let text = chars_of(content);
    let mut callsigns: Vec<String> = Vec::new();
    let mut from: usize = 0;
    assert(callsigns.deep_view() + callsigns_from(text@, 0) =~= notes_callsigns(text@));
    while from < text.len()
        invariant
            from <= text@.len(),
            callsigns.deep_view() + callsigns_from(text@, from as int) == notes_callsigns(text@),
        decreases text@.len() - from,
    {
        let end = find_line_end(&text, from);
        let start = scan_chars(&text, from, end, false);
        let stop = scan_chars(&text, start, end, true);
        let ghost before = callsigns.deep_view();
        let ghost rest = if end < text@.len() {
            callsigns_from(text@, end + 1)
        } else {
            Seq::empty()
        };
        let ghost token = first_token(text@, from as int, end as int);
        assert(token.len() == stop - start);
        let comment = (stop - start >= 1 && text[start] == '#') || (stop - start >= 2 && text[start]
            == '/' && text[start + 1] == '/');
        assert(comment == is_comment(token));
        if start < stop && !comment {
            callsigns.push(text_of(&text, start, stop));
            assert(callsigns.deep_view() =~= before.push(token));
            assert(before.push(token) + rest =~= before + (seq![token] + rest));
        }
        if end < text.len() {
            from = end + 1;
        } else {
            from = end;
        }
    }
    assert(callsigns_from(text@, from as int) =~= Seq::empty());
    assert(callsigns.deep_view() + Seq::<Seq<char>>::empty() =~= callsigns.deep_view());
    callsigns
}

/// A callsign as a notes text can list it: not empty, without white space,
/// and not beginning like a comment.
pub open spec fn is_callsign(token: Seq<char>) -> bool {
    &&& token.len() > 0
    &&& !is_comment(token)
    &&& forall|i: int| 0 <= i < token.len() ==> !is_whitespace(#[trigger] token[i])
}

/// Every callsign read from a notes text is a token of it: it is not empty,
/// holds no white space and does not begin like a comment.
pub proof fn lemma_callsigns_are_tokens(text: Seq<char>, from: int)
    requires
        0 <= from,
    ensures
        forall|i: int|
            0 <= i < callsigns_from(text, from).len() ==> is_callsign(
                #[trigger] callsigns_from(text, from)[i],
            ),
    decreases text.len() - from,
{
    if from < text.len() {
        let end = line_end(text, from);
        lemma_line_end(text, from);
        if end < text.len() {
            lemma_callsigns_are_tokens(text, end + 1);
        }
        let start = scan(text, from, end, false);
        lemma_scan(text, from, end, false);
        lemma_scan(text, start, end, true);
        let rest = if end < text.len() {
            callsigns_from(text, end + 1)
        } else {
            Seq::empty()
        };
        match line_callsign(text, from, end) {
            Some(callsign) => {
                let all = callsigns_from(text, from);
                assert(all =~= seq![callsign] + rest);
                assert(is_callsign(callsign));
                assert forall|i: int| 0 <= i < all.len() implies is_callsign(#[trigger] all[i]) by {
                    if i == 0 {
                        assert(all[0] == callsign);
                    } else {
                        assert(all[i] == rest[i - 1]);
                    }
                }
            },
            None => {},
        }
    }
}

/// Where `b` holds from `from + shift` on what `a` holds in `from..end`,
/// scanning finds the same place in both.
proof fn lemma_scan_same(
    a: Seq<char>,
    b: Seq<char>,
    from: int,
    end: int,
    shift: int,
    blank: bool,
)
    requires
        0 <= from <= end <= a.len(),
        0 <= from + shift,
        end + shift <= b.len(),
        forall|i: int| from <= i < end ==> #[trigger] a[i] == b[i + shift],
    ensures
        scan(b, from + shift, end + shift, blank) == scan(a, from, end, blank) + shift,
    decreases end - from,
{
    if from < end {
        assert(a[from] == b[from + shift]);
        if is_whitespace(a[from]) != blank {
            lemma_scan_same(a, b, from + 1, end, shift, blank);
        }
    }
}

/// Where `b` holds from `from + shift` on what `a` holds from `from` on, and
/// either ends where `a` ends or goes on after a line of `a` that is
/// complete, the line that begins there ends at the same place in both.
proof fn lemma_line_end_same(a: Seq<char>, b: Seq<char>, from: int, shift: int)
    requires
        0 <= from <= a.len(),
        0 <= shift,
        a.len() + shift <= b.len(),
        forall|i: int| from <= i < a.len() ==> #[trigger] a[i] == b[i + shift],
        b.len() == a.len() + shift || line_end(a, from) < a.len(),
    ensures
        line_end(b, from + shift) == line_end(a, from) + shift,
    decreases a.len() - from,
{
    if from < a.len() {
        assert(a[from] == b[from + shift]);
        if a[from] != '\n' {
            lemma_line_end_same(a, b, from + 1, shift);
        }
    }
}

/// Where `b` holds from `from + shift` on what `a` holds in `from..end`,
/// the line `from..end` of `a` and the line of `b` in the same place list
/// the same callsign.
proof fn lemma_line_callsign_same(a: Seq<char>, b: Seq<char>, from: int, end: int, shift: int)
    requires
        0 <= from <= end <= a.len(),
        0 <= from + shift,
        end + shift <= b.len(),
        forall|i: int| from <= i < end ==> #[trigger] a[i] == b[i + shift],
    ensures
        line_callsign(b, from + shift, end + shift) == line_callsign(a, from, end),
{
    lemma_scan_same(a, b, from, end, shift, false);
    lemma_scan(a, from, end, false);
    let start = scan(a, from, end, false);
    assert forall|i: int| start <= i < end implies #[trigger] a[i] == b[i + shift] by {}
    lemma_scan_same(a, b, start, end, shift, true);
    lemma_scan(a, start, end, true);
    let stop = scan(a, start, end, true);
    assert(b.subrange(start + shift, stop + shift) =~= a.subrange(start, stop));
}

/// What stands before a line has no part in what is read from that line on.
proof fn lemma_callsigns_after(before: Seq<char>, text: Seq<char>, from: int)
    requires
        0 <= from <= text.len(),
    ensures
        callsigns_from(before + text, before.len() + from) == callsigns_from(text, from),
    decreases text.len() - from,
{
    let whole = before + text;
    let shift = before.len() as int;
    if from < text.len() {
        let end = line_end(text, from);
        lemma_line_end(text, from);
        assert forall|i: int| from <= i < text.len() implies #[trigger] text[i] == whole[i
            + shift] by {}
        lemma_line_end_same(text, whole, from, shift);
        lemma_line_callsign_same(text, whole, from, end, shift);
        if end < text.len() {
            lemma_callsigns_after(before, text, end + 1);
        }
    }
}

/// A text that ends with a line feed, or is empty, can be read apart from
/// what follows it.
proof fn lemma_callsigns_of_parts(text: Seq<char>, more: Seq<char>, from: int)
    requires
        0 <= from <= text.len(),
        text.len() == 0 || text.last() == '\n',
    ensures
        callsigns_from(text + more, from) == callsigns_from(text, from) + callsigns_from(more, 0),
    decreases text.len() - from,
{
    let whole = text + more;
    if from < text.len() {
        let end = line_end(text, from);
        lemma_line_end(text, from);
        if end == text.len() {
            assert(text[text.len() - 1] != '\n');
        }
        assert forall|i: int| from <= i < text.len() implies #[trigger] text[i] == whole[i + 0] by {}
        lemma_line_end_same(text, whole, from, 0);
        lemma_line_callsign_same(text, whole, from, end, 0);
        lemma_callsigns_of_parts(text, more, end + 1);
        let read = callsigns_from(text, end + 1);
        let rest = callsigns_from(more, 0);
        match line_callsign(text, from, end) {
            Some(callsign) => {
                assert(seq![callsign] + (read + rest) =~= (seq![callsign] + read) + rest);
            },
            None => {},
        }
    } else {
        lemma_callsigns_after(text, more, 0);
        assert(callsigns_from(text, from) + callsigns_from(more, 0) =~= callsigns_from(more, 0));
    }
}

/// A line feed at the end of a text adds no callsign.
proof fn lemma_final_line_feed(text: Seq<char>, from: int)
    requires
        0 <= from <= text.len(),
    ensures
        callsigns_from(text + seq!['\n'], from) == callsigns_from(text, from),
    decreases text.len() - from,
{
    let whole = text + seq!['\n'];
    let len = text.len() as int;
    assert(whole[len] == '\n');
    if from < text.len() {
        let end = line_end(text, from);
        lemma_line_end(text, from);
        lemma_line_end(whole, from);
        assert forall|i: int| from <= i < text.len() implies #[trigger] text[i] == whole[i + 0] by {}
        if end < text.len() {
            lemma_line_end_same(text, whole, from, 0);
            lemma_final_line_feed(text, end + 1);
        } else {
            let found = line_end(whole, from);
            if found < len {
                assert(text[found] == whole[found + 0]);
                assert(text[found] != '\n');
            }
            if found > len {
                assert(whole[len] != '\n');
            }
            assert(found == len);
            assert(callsigns_from(whole, len + 1) =~= Seq::empty());
        }
        lemma_line_callsign_same(text, whole, from, end, 0);
    } else {
        assert(line_end(whole, len) == len);
        assert(scan(whole, len, len, false) == len);
        assert(scan(whole, len, len, true) == len);
        assert(first_token(whole, len, len).len() == 0);
        assert(callsigns_from(whole, len + 1) =~= Seq::empty());
    }
}

/// A text that is one callsign lists that callsign.
proof fn lemma_one_callsign(callsign: Seq<char>)
    requires
        is_callsign(callsign),
    ensures
        callsigns_from(callsign, 0) == seq![callsign],
{
    let len = callsign.len() as int;
    lemma_line_end(callsign, 0);
    let end = line_end(callsign, 0);
    if end < len {
        assert(is_whitespace(callsign[end]));
    }
    lemma_scan(callsign, 0, len, false);
    assert(!is_whitespace(callsign[0]));
    assert(scan(callsign, 0, len, false) == 0);
    lemma_scan(callsign, 0, len, true);
    let stop = scan(callsign, 0, len, true);
    if stop < len {
        assert(!is_whitespace(callsign[stop]));
    }
    assert(callsign.subrange(0, len) =~= callsign);
    assert(seq![callsign] + Seq::<Seq<char>>::empty() =~= seq![callsign]);
}

/// Callsigns that are written one per line are read back as they were: the
/// notes text that joins them with line feeds lists exactly them, in their
/// order.
pub proof fn lemma_one_per_line_is_read_back(callsigns: Seq<Seq<char>>)
    requires
        forall|i: int| 0 <= i < callsigns.len() ==> is_callsign(#[trigger] callsigns[i]),
    ensures
        notes_callsigns(joined(callsigns, CallsignFormat::OnePerLine.separator_text()))
            == callsigns,
    decreases callsigns.len(),
{
    reveal_strlit("\n");
    let feed = CallsignFormat::OnePerLine.separator_text();
    assert(feed =~= seq!['\n']);
    if callsigns.len() == 0 {
        assert(callsigns =~= Seq::empty());
    } else if callsigns.len() == 1 {
        lemma_one_callsign(callsigns[0]);
        assert(callsigns =~= seq![callsigns[0]]);
    } else {
        let front = callsigns.drop_last();
        let last = callsigns.last();
        assert forall|i: int| 0 <= i < front.len() implies is_callsign(#[trigger] front[i]) by {
            assert(front[i] == callsigns[i]);
        }
        lemma_one_per_line_is_read_back(front);
        let lines = joined(front, feed);
        let ended = lines + seq!['\n'];
        lemma_final_line_feed(lines, 0);
        assert(ended.last() == '\n');
        lemma_callsigns_of_parts(ended, last, 0);
        assert(is_callsign(callsigns[callsigns.len() - 1]));
        lemma_one_callsign(last);
        assert(joined(callsigns, feed) =~= ended + last);
        assert(front + seq![last] =~= callsigns);
    }
}

} // verus!
