//! Wildcards in the last segment of a path: `*` stands for any run of
//! characters, the empty one too, and `?` for exactly one character.
//!
//! A wildcard segment is translated into a regular expression that is anchored
//! at both ends and in which each wildcard stands for any character, the line
//! feed too, and the names of the candidates are matched by the `regex` crate.

use crate::remote::{object_views, RemoteObject, RemoteObjectView};
use crate::text::chars_of;
use vstd::prelude::*;
use vstd::string::StringExecFns;

verus! {

/// A compiled regular expression of the `regex` crate.
#[verifier::external_type_specification]
#[verifier::external_body]
pub struct ExRegex(regex::Regex);

/// The pattern that a regular expression was compiled from, which is what
/// `regex::Regex::as_str` returns.
pub uninterp spec fn regex_source(re: regex::Regex) -> Seq<char>;

/// Whether `regex::Regex::is_match` finds a match of the regular expression
/// anywhere in `text`.
pub uninterp spec fn regex_matches(re: regex::Regex, text: Seq<char>) -> bool;

/// Calls `regex::Regex::new`. The contract says that a regular expression
/// that comes back keeps the pattern as its source, and nothing of when the
/// pattern is rejected: that may depend on the size that the compiled form
/// takes on the machine. A rejection comes with the text of the error.
#[verifier::external_body]
fn compile_regex(pattern: &str) -> (compiled: Result<regex::Regex, String>)
    ensures
        compiled matches Ok(re) ==> regex_source(re) == pattern@,
{
    match regex::Regex::new(pattern) {
        Ok(re) => Ok(re),
        Err(error) => Err(error.to_string()),
    }
}

/// Calls `regex::Regex::is_match`. The contract gives the answer a name and
/// says nothing of when it is yes.
#[verifier::external_body]
fn regex_is_match(re: &regex::Regex, text: &str) -> (found: bool)
    ensures
        found == regex_matches(*re, text@),
{
    re.is_match(text)
}

/// Whether a character is one of the two wildcards.
pub open spec fn is_wildcard(c: char) -> bool {
    c == '*' || c == '?'
}

/// Whether a segment holds a wildcard.
pub open spec fn holds_wildcard(segment: Seq<char>) -> bool {
    exists|i: int| 0 <= i < segment.len() && is_wildcard(#[trigger] segment[i])
}

/// Whether a character has a meaning of its own in a regular expression and
/// stands for itself only behind a backslash.
pub open spec fn is_special(c: char) -> bool {
    c == '.' || c == '+' || c == '(' || c == ')' || c == '[' || c == ']' || c == '{' || c == '}'
        || c == '\\' || c == '^' || c == '$' || c == '|'
}

/// What stands for any one character in the regular expression: a dot under
/// the flag that lets it take the line feed too.
pub open spec fn any_character() -> Seq<char> {
    seq!['(', '?', 's', ':', '.', ')']
}

/// What one character of a wildcard segment becomes in the regular
/// expression: `?` any one character, `*` any run of them, a special
/// character itself behind a backslash, and any other character itself.
pub open spec fn translate_char(c: char) -> Seq<char> {
    if c == '*' {
        any_character().push('*')
    } else if c == '?' {
        any_character()
    } else if is_special(c) {
        seq!['\\', c]
    } else {
        seq![c]
    }
}

/// What the characters of a wildcard segment become, one after the other.
pub open spec fn translate(pattern: Seq<char>) -> Seq<char>
    decreases pattern.len(),
{
    if pattern.len() == 0 {
        Seq::empty()
    } else {
        translate(pattern.drop_last()) + translate_char(pattern.last())
    }
}

/// The regular expression for a wildcard segment: the translation of its
/// characters between `^` and `$`, so that a name matches as a whole or not at
/// all.
pub open spec fn wildcard_regex(pattern: Seq<char>) -> Seq<char> {
    seq!['^'] + translate(pattern) + seq!['$']
}

/// Whether a segment holds a wildcard.
pub fn has_wildcard(segment: &str) -> (found: bool)
    ensures
        found == holds_wildcard(segment@),
{
    let chars = chars_of(segment);
    let mut i: usize = 0;
    while i < chars.len()
        invariant
            i <= chars.len(),
            chars@ == segment@,
            forall|k: int| 0 <= k < i ==> !is_wildcard(#[trigger] chars[k]),
        decreases chars.len() - i,
    {
        if chars[i] == '*' || chars[i] == '?' {
            return true;
        }
        i = i + 1;
    }
    false
}

/// Translates a wildcard segment into a regular expression.
pub fn wildcard_to_regex(pattern: &str) -> (regex: String)
    ensures
        regex@ == wildcard_regex(pattern@),
{
    let chars = chars_of(pattern);
    let mut regex = String::from_str("^");
    proof {
        reveal_strlit("^");
        reveal_strlit("(?s:.)");
        assert("^"@ =~= seq!['^']);
        assert("(?s:.)"@ =~= any_character());
    }
    let mut i: usize = 0;
    while i < chars.len()
        invariant
            i <= chars.len(),
            "(?s:.)"@ == any_character(),
            regex@ == seq!['^'] + translate(chars@.take(i as int)),
        decreases chars.len() - i,
    {
        let c = chars[i];
        proof {
            assert(chars@.take(i + 1).drop_last() == chars@.take(i as int));
            assert(chars@.take(i + 1).last() == c);
        }
        if c == '*' {
            regex.append("(?s:.)");
            regex.push('*');
        } else if c == '?' {
            regex.append("(?s:.)");
        } else if c == '.' || c == '+' || c == '(' || c == ')' || c == '[' || c == ']' || c == '{'
            || c == '}' || c == '\\' || c == '^' || c == '$' || c == '|' {
            regex.push('\\');
            regex.push(c);
        } else {
            regex.push(c);
        }
        i = i + 1;
    }
    assert(chars@.take(chars.len() as int) == chars@);
    regex.push('$');
    regex
}

/// Compiles the regular expression for a wildcard segment. Where the `regex`
/// crate rejects the expression, the text of its error comes back.
pub fn compile_wildcard(segment: &str) -> (compiled: Result<regex::Regex, String>)
    ensures
        compiled matches Ok(re) ==> regex_source(re) == wildcard_regex(segment@),
{
    let pattern = wildcard_to_regex(segment);
    compile_regex(pattern.as_str())
}

/// Whether an object has a name and the regular expression matches it.
pub open spec fn name_matches(re: regex::Regex, object: RemoteObjectView) -> bool {
    match object.name {
        Some(name) => regex_matches(re, name),
        None => false,
    }
}

/// Those of the first `n` of `objects` that are marked, in order. An object
/// is marked if `marks` holds `true` at its position.
pub open spec fn marked(objects: Seq<RemoteObjectView>, marks: Seq<bool>, n: int) -> Seq<
    RemoteObjectView,
>
    decreases n,
{
    if n <= 0 {
        Seq::empty()
    } else {
        let before = marked(objects, marks, n - 1);
        if n - 1 < marks.len() && marks[n - 1] {
            before.push(objects[n - 1])
        } else {
            before
        }
    }
}

/// For each object, whether it has a name that the regular expression matches.
pub open spec fn match_marks(re: regex::Regex, objects: Seq<RemoteObjectView>) -> Seq<bool> {
    Seq::new(objects.len(), |i: int| name_matches(re, objects[i]))
}

/// Those of `objects` whose name the regular expression matches, in order.
pub open spec fn matching(re: regex::Regex, objects: Seq<RemoteObjectView>) -> Seq<
    RemoteObjectView,
> {
    marked(objects, match_marks(re, objects), objects.len() as int)
}

/// Says of each object whether it has a name that the regular expression
/// matches.
pub fn match_names(re: &regex::Regex, objects: &Vec<RemoteObject>) -> (marks: Vec<bool>)
    ensures
        marks@ == match_marks(*re, object_views(objects@)),
{
    let mut marks: Vec<bool> = Vec::new();
    let mut i: usize = 0;
    while i < objects.len()
        invariant
            i <= objects.len(),
            marks.len() == i,
            forall|k: int|
                0 <= k < i ==> marks[k] == name_matches(*re, #[trigger] object_views(objects@)[k]),
        decreases objects.len() - i,
    {
        assert(object_views(objects@)[i as int] == objects[i as int]@);
        let mark = match &objects[i].name {
            Some(name) => regex_is_match(re, name.as_str()),
            None => false,
        };
        marks.push(mark);
        i = i + 1;
    }
    assert(marks@ =~= match_marks(*re, object_views(objects@)));
    marks
}

/// The objects that are marked, in the order in which they were listed. An
/// object is marked if `marks` holds `true` at its position; where `marks` is
/// the shorter list, the objects beyond its end are not marked.
pub fn select_marked(objects: Vec<RemoteObject>, marks: &Vec<bool>) -> (selected: Vec<
    RemoteObject,
>)
    ensures
        object_views(selected@) == marked(object_views(objects@), marks@, objects.len() as int),
{
    broadcast use vstd::std_specs::vec::axiom_spec_into_iter;

    let ghost listed = objects@;
    let ghost all = object_views(objects@);
    let mut selected: Vec<RemoteObject> = Vec::new();
    let mut position: usize = 0;
    assert(object_views(selected@) =~= marked(all, marks@, 0));
    let count = objects.len();
    assert(listed.len() == count);
    for object in it: objects
        invariant
            it.seq() == listed,
            listed.len() <= usize::MAX,
            all == object_views(listed),
            position == it.index(),
            object_views(selected@) == marked(all, marks@, it.index()),
    {
        assert(all[it.index()] == object@);
        if position < marks.len() && marks[position] {
            let ghost kept = object_views(selected@);
            selected.push(object);
            assert(object_views(selected@) =~= kept.push(object@));
        }
        position = position + 1;
    }
    selected
}

/// The objects whose name the regular expression matches, in the order in
/// which they were listed. An object without a name matches nothing.
pub fn filter_matching(re: &regex::Regex, objects: Vec<RemoteObject>) -> (matched: Vec<
    RemoteObject,
>)
    ensures
        object_views(matched@) == matching(*re, object_views(objects@)),
{
    let marks = match_names(re, &objects);
    select_marked(objects, &marks)
}

} // verus!
