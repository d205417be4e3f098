//! Media types of the objects that are sent to the store.

use crate::text::chars_of;
use vstd::prelude::*;
use vstd::string::StringExecFns;

verus! {

/// The media type by which the store tells a folder from a file.
pub open spec fn folder_media_type_text() -> Seq<char> {
    "application/vnd.google-apps.folder"@
}

/// The media type of a file about which nothing else is known.
pub open spec fn fallback_media_type_text() -> Seq<char> {
    "application/octet-stream"@
}

/// What `mime::Mime::from_str` makes of a text: nothing where it rejects the
/// text, else the accepted media type as `Mime` prints it.
pub uninterp spec fn mime_normal_form(text: Seq<char>) -> Option<Seq<char>>;

/// Calls `mime::Mime::from_str` on `text`. The contract names the outcome and
/// says no more of it: an accepted media type comes back as the `Mime` prints
/// it, a rejected one as `None`.
#[verifier::external_body]
fn parse_mime(text: &str) -> (parsed: Option<String>)
    ensures
        parsed.deep_view() == mime_normal_form(text@),
{
    match text.parse::<::mime::Mime>() {
        Ok(media_type) => Some(media_type.to_string()),
        Err(_) => None,
    }
}

/// The media type that was asked for on the command line, if one was and it is
/// well formed; a malformed one counts as none.
pub fn explicit_media_type(asked: Option<String>) -> (media_type: Option<String>)
    ensures
        media_type.deep_view() == match asked {
            Some(text) => mime_normal_form(text@),
            None => None,
        },
{
    match asked {
        Some(text) => parse_mime(text.as_str()),
        None => None,
    }
}

/// The media type that `mime_guess::from_ext` puts first for a file name
/// extension; `None` where it knows none.
pub uninterp spec fn guessed_media_type(extension: Seq<char>) -> Option<Seq<char>>;

/// Calls `mime_guess::from_ext` and takes the first media type of the guess.
/// The contract names the outcome, and says of it only that an empty
/// extension gives no media type.
#[verifier::external_body]
fn guess_by_extension(extension: &str) -> (guess: Option<String>)
    ensures
        guess.deep_view() == guessed_media_type(extension@),
        extension@.len() == 0 ==> guess is None,
{
    match mime_guess::from_ext(extension).first_raw() {
        Some(media_type) => Some(media_type.to_string()),
        None => None,
    }
}

/// Where the last dot of `name` stands, or -1 where `name` holds no dot.
pub open spec fn last_dot(name: Seq<char>) -> int
    decreases name.len(),
{
    if name.len() == 0 {
        -1
    } else if name.last() == '.' {
        name.len() - 1
    } else {
        last_dot(name.drop_last())
    }
}

/// The extension of a file name: what follows its last dot, unless the name
/// holds no dot or only the one that it begins with.
pub open spec fn extension_of(name: Seq<char>) -> Option<Seq<char>> {
    if last_dot(name) > 0 {
        Some(name.skip(last_dot(name) + 1))
    } else {
        None
    }
}

/// The media type that a file name suggests: the one that goes with its
/// extension, if it has one and one goes with it.
pub open spec fn sniffed_media_type(name: Seq<char>) -> Option<Seq<char>> {
    match extension_of(name) {
        Some(extension) => guessed_media_type(extension),
        None => None,
    }
}

proof fn lemma_last_dot_of_prefix(name: Seq<char>, n: int)
    requires
        0 <= n <= name.len(),
        forall|i: int| n <= i < name.len() ==> name[i] != '.',
    ensures
        last_dot(name) == last_dot(name.take(n)),
    decreases name.len() - n,
{
    if n < name.len() {
        assert(name.drop_last().take(n) == name.take(n));
        lemma_last_dot_of_prefix(name.drop_last(), n);
    } else {
        assert(name.take(n) == name);
    }
}

/// The extension of a file name, if it has one.
pub fn extension(name: &str) -> (found: Option<String>)
    ensures
        found.deep_view() == extension_of(name@),
{
    let chars = chars_of(name);
    let mut end: usize = chars.len();
    while end > 0 && chars[end - 1] != '.'
        invariant
            end <= chars.len(),
            forall|i: int| end <= i < chars.len() ==> chars[i] != '.',
        decreases end,
    {
        end = end - 1;
    }
    proof {
        lemma_last_dot_of_prefix(chars@, end as int);
        if end > 0 {
            assert(chars@.take(end as int).last() == '.');
        }
        assert(last_dot(chars@) == end - 1);
    }
    if end > 1 {
        let mut found = String::new();
        let mut i: usize = end;
        while i < chars.len()
            invariant
                end <= i <= chars.len(),
                found@ == chars@.subrange(end as int, i as int),
            decreases chars.len() - i,
        {
            found.push(chars[i]);
            i = i + 1;
        }
        assert(chars@.subrange(end as int, chars.len() as int) == chars@.skip(end as int));
        Some(found)
    } else {
        None
    }
}

/// The media type that a file name suggests, if it suggests one.
pub fn sniff_media_type(name: &str) -> (media_type: Option<String>)
    ensures
        media_type.deep_view() == sniffed_media_type(name@),
{
    match extension(name) {
        Some(found) => guess_by_extension(found.as_str()),
        None => None,
    }
}

/// The media type that a file is sent with.
pub open spec fn chosen_media_type(
    explicit: Option<Seq<char>>,
    sniffed: Option<Seq<char>>,
) -> Seq<char> {
    match explicit {
        Some(media_type) => media_type,
        None => match sniffed {
            Some(media_type) => media_type,
            None => fallback_media_type_text(),
        },
    }
}

/// The media type that a file is sent with: the one asked for, else the one
/// that its name suggests, else the type of arbitrary bytes.
pub fn choose_media_type(explicit: &Option<String>, sniffed: &Option<String>) -> (media_type:
    String)
    ensures
        media_type@ == chosen_media_type(explicit.deep_view(), sniffed.deep_view()),
{
    match explicit {
        Some(media_type) => media_type.clone(),
        None => match sniffed {
            Some(media_type) => media_type.clone(),
            None => String::from_str("application/octet-stream"),
        },
    }
}

/// The media type of a folder.
pub fn folder_media_type() -> (media_type: String)
    ensures
        media_type@ == folder_media_type_text(),
{
    String::from_str("application/vnd.google-apps.folder")
}

} // verus!
