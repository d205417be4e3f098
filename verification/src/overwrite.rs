//! The guard against overwriting: before anything is sent, the names about to
//! be sent are held against the names that the destination already holds, and
//! the operator is asked where they meet.
//!
//! The guard looks at the top level only. What lies deeper in a directory is
//! sent without a question.

use crate::error::{Error, ErrorView};
use crate::path::{file_name, path_segments};
use crate::remote::{
    object_views,
    RemoteObject,
    RemoteObjectView,
    Request,
    RequestView,
    OVERWRITE_PAGE_SIZE,
};
use crate::text::chars_of;
use crate::upload::{Config, ConfigView};
use vstd::prelude::*;
use vstd::string::StringExecFns;

verus! {

/// Whether Unicode gives a character the property `White_Space`: the
/// characters from tab to carriage return, the space, the next-line
/// character, the no-break space, the ogham space mark, the spaces from en
/// quad to hair space, the line and the paragraph separator, the narrow
/// no-break space, the medium mathematical space and the ideographic space.
pub open spec fn is_white_space(c: char) -> bool {
    ||| '\u{9}' <= c <= '\u{d}'
    ||| c == ' '
    ||| c == '\u{85}'
    ||| c == '\u{a0}'
    ||| c == '\u{1680}'
    ||| '\u{2000}' <= c <= '\u{200a}'
    ||| c == '\u{2028}'
    ||| c == '\u{2029}'
    ||| c == '\u{202f}'
    ||| c == '\u{205f}'
    ||| c == '\u{3000}'
}

/// Whether Unicode gives a character the property `White_Space`.
pub fn is_space(c: char) -> (b: bool)
    ensures
        b == is_white_space(c),
{
    ('\u{9}' <= c && c <= '\u{d}') || c == ' ' || c == '\u{85}' || c == '\u{a0}' || c
        == '\u{1680}' || ('\u{2000}' <= c && c <= '\u{200a}') || c == '\u{2028}' || c
        == '\u{2029}' || c == '\u{202f}' || c == '\u{205f}' || c == '\u{3000}'
}

/// `text` without the whitespace at its end.
pub open spec fn trim_end(text: Seq<char>) -> Seq<char>
    decreases text.len(),
{
    if text.len() > 0 && is_white_space(text.last()) {
        trim_end(text.drop_last())
    } else {
        text
    }
}

/// `text` without the whitespace at its start.
pub open spec fn trim_start(text: Seq<char>) -> Seq<char>
    decreases text.len(),
{
    if text.len() > 0 && is_white_space(text.first()) {
        trim_start(text.drop_first())
    } else {
        text
    }
}

/// `text` without the whitespace at its start and at its end.
pub open spec fn trim(text: Seq<char>) -> Seq<char> {
    trim_end(trim_start(text))
}

/// A capital letter of the English alphabet as the small one, any other
/// character as it is.
pub open spec fn fold_case(c: char) -> char {
    if 'A' <= c <= 'Z' {
        ((c as u8) + 32) as char
    } else {
        c
    }
}

/// `text` with every capital letter of the English alphabet made small.
pub open spec fn folded(text: Seq<char>) -> Seq<char> {
    Seq::new(text.len(), |i: int| fold_case(text[i]))
}

/// An answer is a yes if it reads `y` or `yes`, in capital or small letters,
/// with or without whitespace around it. Anything else is a no, the empty
/// answer too.
pub open spec fn is_yes(answer: Seq<char>) -> bool {
    reads_yes(trim(answer))
}

/// A capital letter of the English alphabet as the small one, any other
/// character as it is.
pub fn to_small(c: char) -> (small: char)
    ensures
        small == fold_case(c),
{
    if 'A' <= c && c <= 'Z' {
        ((c as u8) + 32) as char
    } else {
        c
    }
}

proof fn lemma_trim_start_skips(text: Seq<char>, n: int)
    requires
        0 <= n <= text.len(),
        forall|i: int| 0 <= i < n ==> is_white_space(text[i]),
    ensures
        trim_start(text) == trim_start(text.skip(n)),
    decreases n,
{
    if n > 0 {
        assert(text.drop_first() == text.skip(1));
        assert(text.skip(1).skip(n - 1) == text.skip(n));
        lemma_trim_start_skips(text.skip(1), n - 1);
    } else {
        assert(text.skip(0) == text);
    }
}

proof fn lemma_trim_end_drops(text: Seq<char>, n: int)
    requires
        0 <= n <= text.len(),
        forall|i: int| n <= i < text.len() ==> is_white_space(text[i]),
    ensures
        trim_end(text) == trim_end(text.take(n)),
    decreases text.len() - n,
{
    if n < text.len() {
        assert(text.drop_last().take(n) == text.take(n));
        lemma_trim_end_drops(text.drop_last(), n);
    } else {
        assert(text.take(n) == text);
    }
}

/// The characters of `answer` without the whitespace at its start and at its
/// end.
pub fn trimmed(answer: &str) -> (core: Vec<char>)
    ensures
        core@ == trim(answer@),
{
    let chars = chars_of(answer);
    let mut start: usize = 0;
    while start < chars.len() && is_space(chars[start])
        invariant
            start <= chars.len(),
            forall|i: int| 0 <= i < start ==> is_white_space(chars[i]),
        decreases chars.len() - start,
    {
        start = start + 1;
    }
    let mut end: usize = chars.len();
    while end > start && is_space(chars[end - 1])
        invariant
            start <= end <= chars.len(),
            forall|i: int| end <= i < chars.len() ==> is_white_space(chars[i]),
        decreases end,
    {
        end = end - 1;
    }
    let ghost rest = chars@.skip(start as int);
    proof {
        lemma_trim_start_skips(chars@, start as int);
        assert(trim_start(rest) == rest);
        assert(rest.take(end - start) == chars@.subrange(start as int, end as int));
        lemma_trim_end_drops(rest, end - start);
        assert(trim_end(rest.take(end - start)) == rest.take(end - start));
    }
    let mut core: Vec<char> = Vec::new();
    let mut i: usize = start;
    while i < end
        invariant
            start <= i <= end <= chars.len(),
            core@ == chars@.subrange(start as int, i as int),
        decreases end - i,
    {
        core.push(chars[i]);
        i = i + 1;
    }
    core
}

/// Whether `word` reads `y` or `yes`, in capital or small letters.
pub open spec fn reads_yes(word: Seq<char>) -> bool {
    folded(word) == seq!['y'] || folded(word) == seq!['y', 'e', 's']
}

/// Whether `word` reads `y` or `yes`, in capital or small letters.
pub fn is_yes_word(word: &Vec<char>) -> (yes: bool)
    ensures
        yes == reads_yes(word@),
{
    let ghost short = seq!['y'];
    let ghost long = seq!['y', 'e', 's'];
    assert(short.len() == 1 && long.len() == 3);
    assert(short[0] == 'y' && long[0] == 'y' && long[1] == 'e' && long[2] == 's');
    assert(folded(word@).len() == word.len());
    if word.len() == 1 {
        let yes = to_small(word[0]) == 'y';
        proof {
            if yes {
                assert(folded(word@) =~= seq!['y']);
            } else {
                assert(folded(word@)[0] != 'y');
            }
        }
        yes
    } else if word.len() == 3 {
        let yes = to_small(word[0]) == 'y' && to_small(word[1]) == 'e' && to_small(word[2])
            == 's';
        proof {
            if yes {
                assert(folded(word@) =~= seq!['y', 'e', 's']);
            } else {
                assert(folded(word@)[0] != 'y' || folded(word@)[1] != 'e' || folded(word@)[2]
                    != 's');
            }
        }
        yes
    } else {
        assert(folded(word@).len() != 1 && folded(word@).len() != 3);
        false
    }
}

/// Whether an answer is a yes.
pub fn confirm_overwrite(answer: &str) -> (yes: bool)
    ensures
        yes == is_yes(answer@),
{
    let word = trimmed(answer);
    is_yes_word(&word)
}

/// A name about to be sent, and whether a directory or a file goes by it.
#[derive(Debug, Clone, PartialEq, Eq)]
pub struct LocalName {
    pub name: String,
    pub is_dir: bool,
}

pub ghost struct LocalNameView {
    pub name: Seq<char>,
    pub is_dir: bool,
}

impl View for LocalName {
    type V = LocalNameView;

    open spec fn view(&self) -> LocalNameView {
        LocalNameView { name: self.name@, is_dir: self.is_dir }
    }
}

/// The views of the names of `names`, in order.
pub open spec fn local_name_views(names: Seq<LocalName>) -> Seq<LocalNameView> {
    Seq::new(names.len(), |i: int| names[i]@)
}

/// Whether one of `taken` has the name `name`.
pub open spec fn name_taken(taken: Seq<RemoteObjectView>, name: Seq<char>) -> bool {
    exists|i: int| 0 <= i < taken.len() && (#[trigger] taken[i]).name == Some(name)
}

/// Those of the first `n` of `names` that one of `taken` has, in order.
pub open spec fn collisions(
    names: Seq<LocalNameView>,
    taken: Seq<RemoteObjectView>,
    n: int,
) -> Seq<LocalNameView>
    decreases n,
{
    if n <= 0 {
        Seq::empty()
    } else {
        let before = collisions(names, taken, n - 1);
        if name_taken(taken, names[n - 1].name) {
            before.push(names[n - 1])
        } else {
            before
        }
    }
}

/// The collisions are the names that occur on both sides: a name is among
/// them if and only if it is one of `names` and one of `taken` has it.
pub proof fn lemma_collisions_are_common_names(
    names: Seq<LocalNameView>,
    taken: Seq<RemoteObjectView>,
    n: int,
    name: LocalNameView,
)
    requires
        0 <= n <= names.len(),
    ensures
        collisions(names, taken, n).contains(name) <==> names.take(n).contains(name) && name_taken(
            taken,
            name.name,
        ),
    decreases n,
{
    if n > 0 {
        lemma_collisions_are_common_names(names, taken, n - 1, name);
        let before = collisions(names, taken, n - 1);
        let all = collisions(names, taken, n);
        let shorter = names.take(n - 1);
        let longer = names.take(n);
        assert(longer[n - 1] == names[n - 1]);
        if shorter.contains(name) {
            let i = choose|i: int| 0 <= i < shorter.len() && shorter[i] == name;
            assert(longer[i] == name);
        }
        if longer.contains(name) && !shorter.contains(name) {
            let i = choose|i: int| 0 <= i < longer.len() && longer[i] == name;
            if i < n - 1 {
                assert(shorter[i] == name);
            }
            assert(names[n - 1] == name);
        }
        if before.contains(name) {
            let i = choose|i: int| 0 <= i < before.len() && before[i] == name;
            assert(all[i] == name);
        }
        if all.contains(name) && !before.contains(name) {
            let i = choose|i: int| 0 <= i < all.len() && all[i] == name;
            if i < before.len() {
                assert(before[i] == name);
            }
            assert(names[n - 1] == name && name_taken(taken, name.name));
        }
        if name_taken(taken, names[n - 1].name) {
            assert(all[all.len() - 1] == names[n - 1]);
        }
    }
}

/// Whether one of `taken` has the name `name`.
pub fn is_name_taken(taken: &Vec<RemoteObject>, name: &String) -> (found: bool)
    ensures
        found == name_taken(object_views(taken@), name@),
{
    let mut i: usize = 0;
    while i < taken.len()
        invariant
            i <= taken.len(),
            forall|k: int| 0 <= k < i ==> (#[trigger] object_views(taken@)[k]).name != Some(name@),
        decreases taken.len() - i,
    {
        assert(object_views(taken@)[i as int] == taken[i as int]@);
        let same = match &taken[i].name {
            Some(other) => *other == *name,
            None => false,
        };
        if same {
            return true;
        }
        i = i + 1;
    }
    false
}

/// Those of `names` that one of `taken` has, in the order of `names`.
pub fn find_collisions(names: &Vec<LocalName>, taken: &Vec<RemoteObject>) -> (found: Vec<
    LocalName,
>)
    ensures
        local_name_views(found@) == collisions(
            local_name_views(names@),
            object_views(taken@),
            names.len() as int,
        ),
{
    let mut found: Vec<LocalName> = Vec::new();
    let mut i: usize = 0;
    assert(local_name_views(found@) =~= Seq::empty());
    while i < names.len()
        invariant
            i <= names.len(),
            local_name_views(found@) == collisions(
                local_name_views(names@),
                object_views(taken@),
                i as int,
            ),
        decreases names.len() - i,
    {
        assert(local_name_views(names@)[i as int] == names[i as int]@);
        if is_name_taken(taken, &names[i].name) {
            let ghost before = local_name_views(found@);
            let copy = LocalName { name: names[i].name.clone(), is_dir: names[i].is_dir };
            found.push(copy);
            assert(local_name_views(found@) =~= before.push(names[i as int]@));
        }
        i = i + 1;
    }
    found
}

/// What a name is shown as: the name, and in brackets whether it is that of a
/// directory or of a file.
pub open spec fn shown(name: LocalNameView) -> Seq<char> {
    name.name + if name.is_dir {
        " (directory)"@
    } else {
        " (file)"@
    }
}

/// The lines that name the collisions, one to a line.
pub open spec fn collision_lines(names: Seq<LocalNameView>, n: int) -> Seq<char>
    decreases n,
{
    if n <= 0 {
        Seq::empty()
    } else {
        collision_lines(names, n - 1) + "  - "@ + shown(names[n - 1]) + seq!['\n']
    }
}

/// The question that the operator is asked.
pub open spec fn prompt_text(names: Seq<LocalNameView>) -> Seq<char> {
    "The following files/directories will be overwritten:\n"@ + collision_lines(
        names,
        names.len() as int,
    ) + "Do you want to continue? [y/N]"@
}

/// The question that the operator is asked: the names that would be
/// overwritten, one to a line and each with its kind, and whether to go on.
pub fn overwrite_prompt(names: &Vec<LocalName>) -> (text: String)
    ensures
        text@ == prompt_text(local_name_views(names@)),
{
    let mut text = String::from_str("The following files/directories will be overwritten:\n");
    let ghost head = text@;
    let mut i: usize = 0;
    while i < names.len()
        invariant
            i <= names.len(),
            text@ == head + collision_lines(local_name_views(names@), i as int),
        decreases names.len() - i,
    {
        assert(local_name_views(names@)[i as int] == names[i as int]@);
        text.append("  - ");
        text.append(names[i].name.as_str());
        if names[i].is_dir {
            text.append(" (directory)");
        } else {
            text.append(" (file)");
        }
        text.push('\n');
        i = i + 1;
    }
    text.append("Do you want to continue? [y/N]");
    text
}

/// The question that the operator is asked about a single file.
pub open spec fn file_prompt_text(name: Seq<char>) -> Seq<char> {
    "File '"@ + name
        + "' already exists in the destination.\nDo you want to overwrite it? [y/N]"@
}

/// The question that the operator is asked about a single file: that a file
/// of its name exists, and whether to overwrite it.
pub fn file_prompt(name: &str) -> (text: String)
    ensures
        text@ == file_prompt_text(name@),
{
    let mut text = String::from_str("File '");
    text.append(name);
    text.append("' already exists in the destination.\nDo you want to overwrite it? [y/N]");
    text
}

/// What the guard asks to have done.
#[derive(Debug, Clone, PartialEq, Eq)]
pub enum GuardRequest {
    /// Ask the store for the children of the destination.
    List(Request),
    /// Ask the operator whether these names may be overwritten.
    Confirm(Vec<LocalName>),
    /// Ask the operator whether the file of this name, the only one that is
    /// sent, may be overwritten.
    ConfirmFile(String),
}

pub ghost enum GuardRequestView {
    List(RequestView),
    Confirm(Seq<LocalNameView>),
    ConfirmFile(Seq<char>),
}

impl View for GuardRequest {
    type V = GuardRequestView;

    open spec fn view(&self) -> GuardRequestView {
        match *self {
            GuardRequest::List(request) => GuardRequestView::List(request@),
            GuardRequest::Confirm(names) => GuardRequestView::Confirm(local_name_views(names@)),
            GuardRequest::ConfirmFile(name) => GuardRequestView::ConfirmFile(name@),
        }
    }
}

/// What came of a request of the guard.
#[derive(Debug, Clone, PartialEq, Eq)]
pub enum GuardReply {
    /// The children that the store listed.
    Listed(Vec<RemoteObject>),
    /// The line that the operator gave.
    Answer(String),
    /// The store failed to list the children; the text is the store's own.
    Failed(String),
}

pub ghost enum GuardReplyView {
    Listed(Seq<RemoteObjectView>),
    Answer(Seq<char>),
    Failed(Seq<char>),
}

impl View for GuardReply {
    type V = GuardReplyView;

    open spec fn view(&self) -> GuardReplyView {
        match *self {
            GuardReply::Listed(objects) => GuardReplyView::Listed(object_views(objects@)),
            GuardReply::Answer(line) => GuardReplyView::Answer(line@),
            GuardReply::Failed(text) => GuardReplyView::Failed(text@),
        }
    }
}

/// The guard while it waits for a reply.
#[derive(Debug, Clone, PartialEq, Eq)]
pub struct OverwriteGuard {
    /// The names about to be sent.
    names: Vec<LocalName>,
    /// Whether a single file is sent, and no directory.
    single: bool,
    /// Whether the operator was asked, and the answer is what is waited for.
    asked: bool,
}

pub ghost struct OverwriteGuardView {
    pub names: Seq<LocalNameView>,
    pub single: bool,
    pub asked: bool,
}

impl View for OverwriteGuard {
    type V = OverwriteGuardView;

    closed spec fn view(&self) -> OverwriteGuardView {
        OverwriteGuardView {
            names: local_name_views(self.names@),
            single: self.single,
            asked: self.asked,
        }
    }
}

/// What the guard has come to.
#[derive(Debug, Clone, PartialEq, Eq)]
pub enum GuardStep {
    /// The request is to be carried out and the guard advanced with the reply.
    Pending(OverwriteGuard, GuardRequest),
    /// The upload may begin.
    Proceed,
    /// The operator said no: nothing is to be sent.
    Abort,
    Failed(Error),
}

pub ghost enum GuardStepView {
    Pending(OverwriteGuardView, GuardRequestView),
    Proceed,
    Abort,
    Failed(ErrorView),
}

impl View for GuardStep {
    type V = GuardStepView;

    open spec fn view(&self) -> GuardStepView {
        match *self {
            GuardStep::Pending(guard, request) => GuardStepView::Pending(guard@, request@),
            GuardStep::Proceed => GuardStepView::Proceed,
            GuardStep::Abort => GuardStepView::Abort,
            GuardStep::Failed(e) => GuardStepView::Failed(e@),
        }
    }
}

/// The text of the error for a reply that answers another request than the
/// one that was made.
pub open spec fn unexpected_reply_text() -> Seq<char> {
    "Unexpected reply to a request of the overwrite check"@
}

/// The remote folder that is looked into: the one the upload goes to, or the
/// root where none is named.
pub open spec fn checked_folder(config: ConfigView) -> Seq<char> {
    match config.destination() {
        Some(parent) => parent,
        None => "root"@,
    }
}

/// The names that are held against those of the destination: for a directory
/// the names of what lies directly in it, for a file its own name.
pub open spec fn checked_names(
    config: ConfigView,
    is_directory: bool,
    top_level: Seq<LocalNameView>,
) -> Seq<LocalNameView> {
    if is_directory {
        top_level
    } else if path_segments(config.file_path).len() > 0 {
        seq![LocalNameView { name: path_segments(config.file_path).last(), is_dir: false }]
    } else {
        Seq::empty()
    }
}

/// The first step of the guard.
pub open spec fn begin_check(
    config: ConfigView,
    is_directory: bool,
    top_level: Seq<LocalNameView>,
    overwrite: bool,
) -> GuardStepView {
    if is_directory && !config.upload_directories {
        GuardStepView::Failed(ErrorView::IsDirectory(config.file_path))
    } else if overwrite {
        GuardStepView::Proceed
    } else {
        GuardStepView::Pending(
            OverwriteGuardView {
                names: checked_names(config, is_directory, top_level),
                single: !is_directory,
                asked: false,
            },
            GuardRequestView::List(
                RequestView::Find {
                    parent_id: checked_folder(config),
                    name_filter: None,
                    limit: OVERWRITE_PAGE_SIZE,
                },
            ),
        )
    }
}

/// The question about the collisions `found`, of which there is one at
/// least: about the one file where a single file is sent, else about the
/// list.
pub open spec fn question(single: bool, found: Seq<LocalNameView>) -> GuardRequestView {
    if single {
        GuardRequestView::ConfirmFile(found[0].name)
    } else {
        GuardRequestView::Confirm(found)
    }
}

impl GuardRequestView {
    /// The text of a question to the operator; a listing has none.
    pub open spec fn prompt(self) -> Option<Seq<char>> {
        match self {
            GuardRequestView::List(_) => None,
            GuardRequestView::Confirm(names) => Some(prompt_text(names)),
            GuardRequestView::ConfirmFile(name) => Some(file_prompt_text(name)),
        }
    }
}

impl GuardRequest {
    /// The text of a question to the operator; a listing has none.
    pub fn prompt(&self) -> (text: Option<String>)
        ensures
            text.deep_view() == self@.prompt(),
    {
        match self {
            GuardRequest::List(_) => None,
            GuardRequest::Confirm(names) => Some(overwrite_prompt(names)),
            GuardRequest::ConfirmFile(name) => Some(file_prompt(name.as_str())),
        }
    }
}

impl OverwriteGuardView {
    /// The step that the reply to the pending request leads to.
    pub open spec fn advance(self, reply: GuardReplyView) -> GuardStepView {
        if !self.asked {
            match reply {
                GuardReplyView::Listed(taken) => {
                    let found = collisions(self.names, taken, self.names.len() as int);
                    if found.len() == 0 {
                        GuardStepView::Proceed
                    } else {
                        GuardStepView::Pending(
                            OverwriteGuardView { asked: true, ..self },
                            question(self.single, found),
                        )
                    }
                },
                GuardReplyView::Failed(text) => GuardStepView::Failed(ErrorView::Other(text)),
                GuardReplyView::Answer(_) => GuardStepView::Failed(
                    ErrorView::Other(unexpected_reply_text()),
                ),
            }
        } else {
            match reply {
                GuardReplyView::Answer(line) => if is_yes(line) {
                    GuardStepView::Proceed
                } else {
                    GuardStepView::Abort
                },
                _ => GuardStepView::Failed(ErrorView::Other(unexpected_reply_text())),
            }
        }
    }
}

fn unexpected_reply() -> (e: Error)
    ensures
        e@ == ErrorView::Other(unexpected_reply_text()),
{
    Error::Other(String::from_str("Unexpected reply to a request of the overwrite check"))
}

impl OverwriteGuard {
    /// Takes the reply to the pending request and says how the guard goes on.
    pub fn advance(self, reply: GuardReply) -> (step: GuardStep)
        ensures
            step@ == self@.advance(reply@),
    {
        if !self.asked {
            match reply {
                GuardReply::Listed(taken) => {
                    let found = find_collisions(&self.names, &taken);
                    if found.len() == 0 {
                        GuardStep::Proceed
                    } else {
                        assert(local_name_views(found@)[0] == found[0]@);
                        let request = if self.single {
                            GuardRequest::ConfirmFile(found[0].name.clone())
                        } else {
                            GuardRequest::Confirm(found)
                        };
                        GuardStep::Pending(
                            OverwriteGuard { names: self.names, single: self.single, asked: true },
                            request,
                        )
                    }
                },
                GuardReply::Failed(text) => GuardStep::Failed(Error::Other(text)),
                GuardReply::Answer(_) => GuardStep::Failed(unexpected_reply()),
            }
        } else {
            match reply {
                GuardReply::Answer(line) => {
                    if confirm_overwrite(line.as_str()) {
                        GuardStep::Proceed
                    } else {
                        GuardStep::Abort
                    }
                },
                _ => GuardStep::Failed(unexpected_reply()),
            }
        }
    }
}

/// Begins the check before an upload. `is_directory` says whether the path of
/// the configuration leads to a directory, `top_level` names what lies
/// directly in that directory, and `overwrite` says that the operator has
/// allowed overwriting beforehand, so that nothing is listed and nobody asked.
pub fn upload_with_overwrite_check(
    config: &Config,
    is_directory: bool,
    top_level: Vec<LocalName>,
    overwrite: bool,
) -> (step: GuardStep)
    ensures
        step@ == begin_check(config@, is_directory, local_name_views(top_level@), overwrite),
{
    if is_directory && !config.upload_directories {
        return GuardStep::Failed(Error::IsDirectory(config.file_path.clone()));
    }
    if overwrite {
        return GuardStep::Proceed;
    }
    let names = if is_directory {
        top_level
    } else {
        let mut names: Vec<LocalName> = Vec::new();
        match file_name(config.file_path.as_str()) {
            Some(name) => {
                let only = LocalName { name, is_dir: false };
                names.push(only);
                assert(local_name_views(names@) =~= seq![only@]);
            },
            None => {
                assert(local_name_views(names@) =~= Seq::empty());
            },
        }
        names
    };
    let parent_id = match config.destination() {
        Some(parent) => parent,
        None => String::from_str("root"),
    };
    GuardStep::Pending(
        OverwriteGuard { names, single: !is_directory, asked: false },
        GuardRequest::List(
            Request::Find { parent_id, name_filter: None, limit: OVERWRITE_PAGE_SIZE },
        ),
    )
}

/// Whether a request leaves the store as it is: it is a question to the
/// operator, or it asks the store for a listing.
pub open spec fn is_harmless(request: GuardRequestView) -> bool {
    match request {
        GuardRequestView::Confirm(_) => true,
        GuardRequestView::ConfirmFile(_) => true,
        GuardRequestView::List(RequestView::Find { .. }) => true,
        GuardRequestView::List(RequestView::CreateFolder { .. }) => false,
    }
}

/// The guard writes nothing to the store: whatever it asks for, at its first
/// step or after any reply, is a listing or a question to the operator. The
/// operator is asked only about names that collide, and only once the store
/// has listed them.
pub proof fn lemma_guard_writes_nothing(
    config: ConfigView,
    is_directory: bool,
    top_level: Seq<LocalNameView>,
    overwrite: bool,
    first: GuardReplyView,
    second: GuardReplyView,
)
    ensures
        ({
            let begun = begin_check(config, is_directory, top_level, overwrite);
            &&& begun matches GuardStepView::Pending(guard, request) ==> {
                &&& is_harmless(request)
                &&& request is List
                &&& !overwrite
                &&& guard.advance(first) matches GuardStepView::Pending(asked, question) ==> {
                    &&& first is Listed
                    &&& collisions(guard.names, first->Listed_0, guard.names.len() as int).len()
                        > 0
                    &&& question == self::question(
                        !is_directory,
                        collisions(guard.names, first->Listed_0, guard.names.len() as int),
                    )
                    &&& is_harmless(question)
                    &&& !(asked.advance(second) is Pending)
                    &&& asked.advance(second) is Proceed ==> second is Answer && is_yes(
                        second->Answer_0,
                    )
                }
            }
        }),
{
}

} // verus!
