//! The profiles on disk, by the names of their files: a profile `name` is
//! kept in the file `name.json`.

use crate::text::{chars_of, text_of};
use vstd::prelude::*;
use vstd::string::StringExecFns;

verus! {

/// The position of the last `.` of `name`; -1 where it has none.
pub open spec fn last_dot(name: Seq<char>) -> int
    decreases name.len(),
{
    if name.len() == 0 {
        -1
    } else if name.last() == '.' {
        name.len() - 1
    } else {
        last_dot(name.drop_last())
    }
}

/// What `last_dot` finds: a position that holds a `.` after which there is
/// none, or -1 and no `.` at all.
pub proof fn lemma_last_dot(name: Seq<char>)
    ensures
        -1 <= last_dot(name) < name.len(),
        last_dot(name) >= 0 ==> name[last_dot(name)] == '.',
        forall|i: int| last_dot(name) < i < name.len() ==> #[trigger] name[i] != '.',
    decreases name.len(),
{
    if name.len() > 0 && name.last() != '.' {
        let front = name.drop_last();
        lemma_last_dot(front);
        assert forall|i: int| last_dot(name) < i < name.len() implies #[trigger] name[i]
            != '.' by {
            if i < front.len() {
                assert(front[i] == name[i]);
            }
        }
    }
}

/// The name of the profile that the file `file_name` keeps: what stands
/// before the extension `json`. None where the file has another extension or
/// none; a name that only begins with a `.` has none.
pub open spec fn profile_name(file_name: Seq<char>) -> Option<Seq<char>> {
    let dot = last_dot(file_name);
    if dot > 0 && file_name.subrange(dot + 1, file_name.len() as int) == "json"@ {
        Some(file_name.subrange(0, dot))
    } else {
        None
    }
}

/// The name of the file that keeps the profile `name`.
pub open spec fn profile_file(name: Seq<char>) -> Seq<char> {
    name + ".json"@
}

/// The profiles that the files `file_names` keep, in the order of the files.
pub open spec fn kept_profiles(file_names: Seq<Seq<char>>) -> Seq<Seq<char>>
    decreases file_names.len(),
{
    if file_names.len() == 0 {
        Seq::empty()
    } else {
        let front = kept_profiles(file_names.drop_last());
        match profile_name(file_names.last()) {
            Some(name) => front.push(name),
            None => front,
        }
    }
}

/// `a` does not come after `b` in the order of strings: the order of the
/// first character in which they differ, by code point, and a string before
/// each that it begins.
pub open spec fn text_le(a: Seq<char>, b: Seq<char>) -> bool
    decreases a.len(),
{
    if a.len() == 0 {
        true
    } else if b.len() == 0 {
        false
    } else if a[0] != b[0] {
        (a[0] as u32) < (b[0] as u32)
    } else {
        text_le(a.drop_first(), b.drop_first())
    }
}

/// No string of `texts` comes after a later one.
pub open spec fn ascending(texts: Seq<Seq<char>>) -> bool {
    forall|i: int, j: int| 0 <= i < j < texts.len() ==> text_le(#[trigger] texts[i], #[trigger] texts[j])
}

/// `sort` on a vector of strings, of the standard library: it keeps every
/// string as often as it occurs and puts them in ascending order, which for
/// strings is the order of their bytes and so of their code points.
#[verifier::external_body]
fn sort_names(names: &mut Vec<String>)
    ensures
        final(names).deep_view().to_multiset() == old(names).deep_view().to_multiset(),
        ascending(final(names).deep_view()),
{
    names.sort();
}

/// The name of the file that keeps the profile `name`.
pub fn profile_file_name(name: &str) -> (file_name: String)
    ensures
        file_name@ == profile_file(name@),
{
    let mut file_name = String::from_str(name);
    file_name.append(".json");
    file_name
}

/// The name of the profile that the file `file_name` keeps, if it keeps one.
pub fn profile_name_of(file_name: &str) -> (name: Option<String>)
    ensures
        match name {
            Some(text) => profile_name(file_name@) == Some(text@),
            None => profile_name(file_name@) is None,
        },
{
    let text = chars_of(file_name);
    let mut end: usize = text.len();
    assert(text@.take(end as int) =~= text@);
    while end > 0 && text[end - 1] != '.'
        invariant
            end <= text@.len(),
            last_dot(text@.take(end as int)) == last_dot(text@),
        decreases end,
    {
        assert(text@.take(end as int).drop_last() =~= text@.take(end - 1));
        end -= 1;
    }
    proof {
        reveal_strlit("json");
        if end > 0 {
            assert(text@.take(end as int).last() == '.');
        }
    }
    if end < 2 {
        return None;
    }
    let dot: usize = end - 1;
    assert(last_dot(text@) == dot as int);
    let ghost extension = text@.subrange(dot + 1, text@.len() as int);
    if text.len() - end == 4 && text[end] == 'j' && text[end + 1] == 's' && text[end + 2] == 'o'
        && text[end + 3] == 'n' {
        assert(extension =~= "json"@);
        let name = text_of(&text, 0, dot);
        assert(profile_name(text@) == Some(name@));
        Some(name)
    } else {
        proof {
            if extension == "json"@ {
                assert(extension.len() == 4);
                assert(extension[0] == 'j' && extension[0] == text@[end as int]);
                assert(extension[1] == 's' && extension[1] == text@[end + 1]);
                assert(extension[2] == 'o' && extension[2] == text@[end + 2]);
                assert(extension[3] == 'n' && extension[3] == text@[end + 3]);
            }
            assert(profile_name(text@) is None);
        }
        None
    }
}

/// The names of the profiles that a directory with the files `file_names`
/// keeps, in ascending order.
pub fn profile_names(file_names: &[String]) -> (names: Vec<String>)
    ensures
        names.deep_view().to_multiset() == kept_profiles(file_names.deep_view()).to_multiset(),
        ascending(names.deep_view()),
{
    let ghost files = file_names.deep_view();
    let mut names: Vec<String> = Vec::new();
    let mut i: usize = 0;
    assert(files.take(0) =~= Seq::empty());
    assert(names.deep_view() =~= kept_profiles(files.take(0)));
    while i < file_names.len()
        invariant
            i <= file_names@.len(),
            files == file_names.deep_view(),
            names.deep_view() == kept_profiles(files.take(i as int)),
        decreases file_names@.len() - i,
    {
        let ghost before = names.deep_view();
        assert(files.take(i + 1).drop_last() =~= files.take(i as int));
        assert(files.take(i + 1).last() == file_names@[i as int]@);
        match profile_name_of(file_names[i].as_str()) {
            Some(name) => {
                let ghost kept = name@;
                names.push(name);
                assert(names.deep_view() =~= before.push(kept));
            },
            None => {},
        }
        i += 1;
    }
    assert(files.take(i as int) =~= files);
    sort_names(&mut names);
    names
}

/// A profile with a name that is not empty is found again under that name
/// in the file it is kept in.
pub proof fn lemma_profile_file_keeps_name(name: Seq<char>)
    requires
        name.len() > 0,
    ensures
        profile_name(profile_file(name)) == Some(name),
{
    reveal_strlit(".json");
    reveal_strlit("json");
    let file = profile_file(name);
    let n = name.len() as int;
    assert(file.len() == n + 5);
    assert(file[n] == '.');
    assert(file[n + 1] == 'j');
    assert(file[n + 2] == 's');
    assert(file[n + 3] == 'o');
    assert(file[n + 4] == 'n');
    lemma_last_dot(file);
    let dot = last_dot(file);
    if dot < n {
        assert(file[n] != '.');
    }
    assert(dot == n);
    assert(file.subrange(n + 1, file.len() as int) =~= "json"@);
    assert(file.subrange(0, n) =~= name);
}

} // verus!
