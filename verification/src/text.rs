//! Character-level helpers on strings: turning a string into its characters,
//! cutting a piece out of it, and searching for the first occurrence of a
//! pattern.

use vstd::prelude::*;
use vstd::string::{StrSliceExecFns, StringExecFns};

verus! {

/// The views of a sequence of strings.
pub open spec fn string_views(strings: Seq<String>) -> Seq<Seq<char>> {
    strings.map_values(|s: String| s@)
}

/// The view of a string that may be missing.
pub open spec fn text_of(found: Option<String>) -> Option<Seq<char>> {
    match found {
        Some(text) => Some(text@),
        None => None,
    }
}

/// `text` without the characters `c` that it begins with.
pub open spec fn trim_leading(text: Seq<char>, c: char) -> Seq<char>
    decreases text.len(),
{
    if text.len() > 0 && text[0] == c {
        trim_leading(text.drop_first(), c)
    } else {
        text
    }
}

/// The texts `parts`, joined by `separator` between each two of them.
pub open spec fn joined(parts: Seq<Seq<char>>, separator: Seq<char>) -> Seq<char>
    decreases parts.len(),
{
    if parts.len() == 0 {
        Seq::empty()
    } else if parts.len() == 1 {
        parts[0]
    } else {
        joined(parts.drop_last(), separator) + separator + parts.last()
    }
}

/// `pattern` stands in `text` at position `at`.
pub open spec fn occurs_at(text: Seq<char>, pattern: Seq<char>, at: int) -> bool {
    &&& 0 <= at
    &&& at + pattern.len() <= text.len()
    &&& text.subrange(at, at + pattern.len()) == pattern
}

/// `pattern` stands in `text` at position `at`, and at no position between
/// `from` and `at`.
pub open spec fn is_first_occurrence_from(
    text: Seq<char>,
    pattern: Seq<char>,
    from: int,
    at: int,
) -> bool {
    &&& from <= at
    &&& occurs_at(text, pattern, at)
    &&& forall|earlier: int| from <= earlier < at ==> !occurs_at(text, pattern, earlier)
}

/// The least position at or after `from` at which `pattern` stands in `text`,
/// if there is one.
pub open spec fn first_occurrence_from(text: Seq<char>, pattern: Seq<char>, from: int) -> Option<
    int,
> {
    if exists|at: int| is_first_occurrence_from(text, pattern, from, at) {
        Some(choose|at: int| is_first_occurrence_from(text, pattern, from, at))
    } else {
        None
    }
}

/// The least position at which `pattern` stands in `text`, if there is one.
pub open spec fn first_occurrence(text: Seq<char>, pattern: Seq<char>) -> Option<int> {
    first_occurrence_from(text, pattern, 0)
}

/// `pattern` stands somewhere in `text`.
pub open spec fn contains_pattern(text: Seq<char>, pattern: Seq<char>) -> bool {
    exists|at: int| occurs_at(text, pattern, at)
}

/// A first occurrence is the first occurrence: the least position is unique.
pub proof fn lemma_first_occurrence_is(text: Seq<char>, pattern: Seq<char>, from: int, at: int)
    requires
        is_first_occurrence_from(text, pattern, from, at),
    ensures
        first_occurrence_from(text, pattern, from) == Some(at),
{
    let chosen = choose|c: int| is_first_occurrence_from(text, pattern, from, c);
    assert(is_first_occurrence_from(text, pattern, from, chosen));
    if chosen < at {
        assert(!occurs_at(text, pattern, chosen));
    } else if at < chosen {
        assert(!occurs_at(text, pattern, at));
    }
}

/// Where `pattern` stands nowhere at or after `from`, there is no first
/// occurrence.
pub proof fn lemma_no_occurrence(text: Seq<char>, pattern: Seq<char>, from: int)
    requires
        forall|at: int| from <= at ==> !occurs_at(text, pattern, at),
    ensures
        first_occurrence_from(text, pattern, from) is None,
{
}

/// The characters of `s`, in order.
pub fn chars_of(s: &str) -> (chars: Vec<char>)
    ensures
        chars@ == s@,
{
    let mut chars: Vec<char> = Vec::new();
    for c in it: s.chars()
        invariant
            it.seq() == s@,
            chars@ == s@.take(it.index()),
    {
        chars.push(c);
    }
    chars
}

/// Tells whether `pattern` stands in `text` at position `at`.
pub fn matches_at(text: &Vec<char>, pattern: &Vec<char>, at: usize) -> (hit: bool)
    ensures
        hit == occurs_at(text@, pattern@, at as int),
{
    if pattern.len() > text.len() || at > text.len() - pattern.len() {
        return false;
    }
    let mut k: usize = 0;
    while k < pattern.len()
        invariant
            k <= pattern.len(),
            at + pattern.len() <= text.len(),
            forall|j: int| 0 <= j < k ==> text@[at + j] == pattern@[j],
        decreases pattern.len() - k,
    {
        if text[at + k] != pattern[k] {
            assert(text@.subrange(at as int, at + pattern.len())[k as int] != pattern@[k as int]);
            return false;
        }
        k += 1;
    }
    assert(text@.subrange(at as int, at + pattern.len()) =~= pattern@);
    true
}

/// Searches `text` for `pattern`, starting at position `from`.
///
/// Returns the least position at or after `from` at which `pattern` stands,
/// and `None` where it stands at none. An empty pattern stands at every
/// position up to the length of `text`.
pub fn find_from(text: &Vec<char>, pattern: &Vec<char>, from: usize) -> (found: Option<usize>)
    ensures
        match found {
            Some(at) => first_occurrence_from(text@, pattern@, from as int) == Some(at as int),
            None => first_occurrence_from(text@, pattern@, from as int) is None,
        },
{
    if from > text.len() {
        proof {
            lemma_no_occurrence(text@, pattern@, from as int);
        }
        return None;
    }
    let mut at: usize = from;
    loop
        invariant
            from <= at <= text.len(),
            forall|earlier: int| from <= earlier < at ==> !occurs_at(text@, pattern@, earlier),
        ensures
            forall|later: int| from <= later ==> !occurs_at(text@, pattern@, later),
        decreases text.len() - at,
    {
        if matches_at(text, pattern, at) {
            proof {
                lemma_first_occurrence_is(text@, pattern@, from as int, at as int);
            }
            return Some(at);
        }
        if at == text.len() {
            break ;
        }
        at += 1;
    }
    proof {
        lemma_no_occurrence(text@, pattern@, from as int);
    }
    None
}

/// Searches `text` for `pattern` from its beginning.
pub fn find(text: &Vec<char>, pattern: &Vec<char>) -> (found: Option<usize>)
    ensures
        match found {
            Some(at) => first_occurrence(text@, pattern@) == Some(at as int),
            None => first_occurrence(text@, pattern@) is None,
        },
{
    find_from(text, pattern, 0)
}

/// The piece of `s` from character `from` up to, not including, character
/// `to`, as a string of its own.
pub fn piece(s: &str, from: usize, to: usize) -> (cut: String)
    requires
        from <= to <= s@.len(),
    ensures
        cut@ == s@.subrange(from as int, to as int),
{
    s.substring_char(from, to).to_owned()
}

/// `s` without the characters `c` that it begins with.
pub fn without_leading(s: &str, c: char) -> (rest: String)
    ensures
        rest@ == trim_leading(s@, c),
{
    let chars = chars_of(s);
    let mut skip: usize = 0;
    assert(s@.skip(0) =~= s@);
    while skip < chars.len() && chars[skip] == c
        invariant
            skip <= chars.len(),
            chars@ == s@,
            trim_leading(s@, c) == trim_leading(s@.skip(skip as int), c),
        decreases chars.len() - skip,
    {
        assert(s@.skip(skip as int).drop_first() =~= s@.skip(skip + 1));
        skip += 1;
    }
    assert(s@.skip(skip as int) =~= s@.subrange(skip as int, s@.len() as int));
    piece(s, skip, chars.len())
}

/// Joins `parts` by `separator` between each two of them.
pub fn join_text(parts: &Vec<String>, separator: &str) -> (text: String)
    ensures
        text@ == joined(string_views(parts@), separator@),
{
    let ghost views = string_views(parts@);
    let mut text = String::new();
    let mut at: usize = 0;
    assert(views.take(0) =~= Seq::empty());
    while at < parts.len()
        invariant
            at <= parts.len(),
            views == string_views(parts@),
            text@ == joined(views.take(at as int), separator@),
        decreases parts.len() - at,
    {
        proof {
            assert(views.take(at + 1).drop_last() =~= views.take(at as int));
            assert(views.take(at + 1).last() == parts@[at as int]@);
        }
        if at > 0 {
            text.append(separator);
        }
        text.append(parts[at].as_str());
        proof {
            if at == 0 {
                assert(text@ =~= parts@[0]@);
                assert(views.take(1)[0] == parts@[0]@);
            }
        }
        at += 1;
    }
    assert(views.take(at as int) =~= views);
    text
}

} // verus!
