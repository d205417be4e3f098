//! Slash-separated remote paths.
//!
//! A path is read as the sequence of its non-empty segments, so leading,
//! trailing and repeated slashes make no difference, and the empty sequence
//! stands for the root.

use crate::text::chars_of;
use vstd::prelude::*;
use vstd::std_specs::iter::IteratorSpec;
use vstd::string::StringExecFns;

verus! {

/// What a left-to-right scan of `s` has collected: the segments that a slash has
/// closed so far, and the characters read since the last slash.
pub open spec fn scan(s: Seq<char>) -> (Seq<Seq<char>>, Seq<char>)
    decreases s.len(),
{
    if s.len() == 0 {
        (Seq::empty(), Seq::empty())
    } else {
        let (closed, open) = scan(s.drop_last());
        if s.last() == '/' {
            (close_segment(closed, open), Seq::empty())
        } else {
            (closed, open.push(s.last()))
        }
    }
}

/// Adds `open` to `closed` unless it is empty.
pub open spec fn close_segment(closed: Seq<Seq<char>>, open: Seq<char>) -> Seq<Seq<char>> {
    if open.len() > 0 {
        closed.push(open)
    } else {
        closed
    }
}

/// The segments of a path: the maximal slash-free runs of characters, in order.
pub open spec fn path_segments(s: Seq<char>) -> Seq<Seq<char>> {
    close_segment(scan(s).0, scan(s).1)
}

/// A well-formed segment is non-empty and holds no slash.
pub open spec fn is_segment(seg: Seq<char>) -> bool {
    seg.len() > 0 && !seg.contains('/')
}

/// Every element of `segs` is a well-formed segment.
pub open spec fn all_segments(segs: Seq<Seq<char>>) -> bool {
    forall|i: int| 0 <= i < segs.len() ==> is_segment(#[trigger] segs[i])
}

proof fn lemma_scan_well_formed(s: Seq<char>)
    ensures
        all_segments(scan(s).0),
        !scan(s).1.contains('/'),
    decreases s.len(),
{
    if s.len() > 0 {
        lemma_scan_well_formed(s.drop_last());
        let (closed, open) = scan(s.drop_last());
        if s.last() != '/' {
            let next = open.push(s.last());
            assert forall|i: int| 0 <= i < next.len() implies next[i] != '/' by {
                if i < open.len() {
                    assert(open.contains(open[i]));
                }
            }
        }
    }
}

/// Splitting yields only non-empty segments, none of which holds a slash.
pub proof fn lemma_segments_well_formed(s: Seq<char>)
    ensures
        all_segments(path_segments(s)),
{
    lemma_scan_well_formed(s);
}

/// A text without any slash is its own single segment, or no segment if empty.
pub proof fn lemma_segments_of_slash_free(s: Seq<char>)
    requires
        !s.contains('/'),
    ensures
        scan(s) == (Seq::<Seq<char>>::empty(), s),
        s.len() > 0 ==> path_segments(s) == seq![s],
        s.len() == 0 ==> path_segments(s) == Seq::<Seq<char>>::empty(),
    decreases s.len(),
{
    if s.len() > 0 {
        let front = s.drop_last();
        assert forall|c: char| front.contains(c) implies s.contains(c) by {
            let i = choose|i: int| 0 <= i < front.len() && front[i] == c;
            assert(s[i] == c);
        }
        assert(s.contains(s.last()));
        lemma_segments_of_slash_free(front);
        assert(front.push(s.last()) == s);
    }
}

/// A path made of slashes alone, the empty path among them, has no segment:
/// it names the root.
pub proof fn lemma_only_slashes_is_root(s: Seq<char>)
    requires
        forall|i: int| 0 <= i < s.len() ==> s[i] == '/',
    ensures
        scan(s) == (Seq::<Seq<char>>::empty(), Seq::<char>::empty()),
        path_segments(s) == Seq::<Seq<char>>::empty(),
    decreases s.len(),
{
    if s.len() > 0 {
        lemma_only_slashes_is_root(s.drop_last());
    }
}

/// The segments joined by single slashes.
pub open spec fn joined(segments: Seq<Seq<char>>) -> Seq<char>
    decreases segments.len(),
{
    if segments.len() == 0 {
        Seq::empty()
    } else if segments.len() == 1 {
        segments[0]
    } else {
        joined(segments.drop_last()) + seq!['/'] + segments.last()
    }
}

proof fn lemma_scan_appended(s: Seq<char>, t: Seq<char>)
    requires
        !t.contains('/'),
    ensures
        scan(s + t) == (scan(s).0, scan(s).1 + t),
    decreases t.len(),
{
    if t.len() == 0 {
        assert(s + t == s);
        assert(scan(s).1 + t == scan(s).1);
    } else {
        let front = t.drop_last();
        assert forall|c: char| front.contains(c) implies t.contains(c) by {
            let i = choose|i: int| 0 <= i < front.len() && front[i] == c;
            assert(t[i] == c);
        }
        assert(t.contains(t.last()));
        lemma_scan_appended(s, front);
        assert((s + t).drop_last() == s + front);
        assert((s + t).last() == t.last());
        assert((scan(s).1 + front).push(t.last()) == scan(s).1 + t);
    }
}

proof fn lemma_scan_of_joined(segments: Seq<Seq<char>>)
    requires
        all_segments(segments),
        segments.len() > 0,
    ensures
        scan(joined(segments)) == (segments.drop_last(), segments.last()),
    decreases segments.len(),
{
    let last = segments.last();
    assert(is_segment(last));
    if segments.len() == 1 {
        lemma_segments_of_slash_free(last);
        assert(segments.drop_last() == Seq::<Seq<char>>::empty());
    } else {
        let front = segments.drop_last();
        assert forall|i: int| 0 <= i < front.len() implies is_segment(#[trigger] front[i]) by {
            assert(front[i] == segments[i]);
        }
        lemma_scan_of_joined(front);
        let head = joined(front) + seq!['/'];
        assert(head.drop_last() == joined(front));
        assert(head.last() == '/');
        assert(is_segment(front.last()));
        assert(front.drop_last().push(front.last()) == front);
        assert(scan(head) == (front, Seq::<char>::empty()));
        lemma_scan_appended(head, last);
        assert(Seq::<char>::empty() + last == last);
    }
}

/// Joining well-formed segments and splitting the result gives the segments
/// back.
pub proof fn lemma_split_of_joined(segments: Seq<Seq<char>>)
    requires
        all_segments(segments),
    ensures
        path_segments(joined(segments)) == segments,
{
    if segments.len() > 0 {
        lemma_scan_of_joined(segments);
        assert(is_segment(segments.last()));
        assert(segments.drop_last().push(segments.last()) == segments);
    }
}

/// Joins segments by single slashes.
pub fn join_path(segments: &Vec<String>) -> (path: String)
    ensures
        path@ == joined(segments.deep_view()),
{
    let mut path = String::new();
    let mut i: usize = 0;
    while i < segments.len()
        invariant
            i <= segments.len(),
            path@ == joined(segments.deep_view().take(i as int)),
        decreases segments.len() - i,
    {
        let ghost before = segments.deep_view().take(i as int);
        let ghost after = segments.deep_view().take(i + 1);
        assert(after.drop_last() == before);
        assert(after.last() == segments[i as int]@);
        if i > 0 {
            path.push('/');
        }
        path.append(segments[i].as_str());
        i = i + 1;
    }
    assert(segments.deep_view().take(segments.len() as int) == segments.deep_view());
    path
}

/// The last segment of a path: the name of what the path leads to.
pub fn file_name(path: &str) -> (name: Option<String>)
    ensures
        name.deep_view() == if path_segments(path@).len() > 0 {
            Some(path_segments(path@).last())
        } else {
            None
        },
{
    let mut segments = parse_path(path);
    let ghost all = segments.deep_view();
    let last = segments.pop();
    proof {
        if all.len() > 0 {
            assert(last->0@ == all.last());
        }
    }
    last
}

/// Where an upload to `path` goes: into the folder that all segments lead
/// to where the path ends in a slash or has no segment, else into the folder
/// that the segments before the last lead to, under the last one as its name.
pub open spec fn destination_of(path: Seq<char>) -> (Seq<Seq<char>>, Option<Seq<char>>) {
    let segments = path_segments(path);
    if segments.len() == 0 || path.last() == '/' {
        (segments, None)
    } else {
        (segments.drop_last(), Some(segments.last()))
    }
}

/// Splits the remote path of an upload into the folder to upload into and the
/// name to upload under, if the path gives one.
pub fn split_destination(path: &str) -> (destination: (Vec<String>, Option<String>))
    ensures
        destination.0.deep_view() == destination_of(path@).0,
        destination.1.deep_view() == destination_of(path@).1,
{
    let chars = chars_of(path);
    let mut segments = parse_path(path);
    proof {
        if chars.len() == 0 {
            assert(path@ =~= Seq::empty());
            assert(path_segments(Seq::empty()) =~= Seq::<Seq<char>>::empty());
        }
    }
    if segments.len() == 0 || chars[chars.len() - 1] == '/' {
        (segments, None)
    } else {
        let ghost all = segments.deep_view();
        let name = segments.pop();
        assert(segments.deep_view() =~= all.drop_last());
        assert(name->0@ == all.last());
        (segments, name)
    }
}

/// Splits a path into its segments.
pub fn parse_path(path: &str) -> (segments: Vec<String>)
    ensures
        segments.deep_view() == path_segments(path@),
        all_segments(segments.deep_view()),
{
    broadcast use vstd::string::group_string_axioms;

    let mut segments: Vec<String> = Vec::new();
    let mut open = String::new();
    let mut chars = path.chars();
    let ghost mut read: Seq<char> = Seq::empty();
    loop
        invariant
            read + chars.remaining() == path@,
            segments.deep_view() == scan(read).0,
            open@ == scan(read).1,
            chars.decrease() is Some,
        ensures
            segments.deep_view() == scan(path@).0,
            open@ == scan(path@).1,
        decreases chars.decrease()->0,
    {
        let ghost before = chars.remaining();
        match chars.next() {
            Some(c) => {
                proof {
                    assert(read.push(c).drop_last() == read);
                    assert(read.push(c) + chars.remaining() == read + before);
                    read = read.push(c);
                }
                if c == '/' {
                    if !open.as_str().is_empty() {
                        let ghost old_segments = segments.deep_view();
                        segments.push(open);
                        assert(segments.deep_view() == old_segments.push(open@));
                    }
                    open = String::new();
                } else {
                    open.push(c);
                }
            },
            None => {
                assert(read == path@);
                break ;
            },
        }
    }
    if !open.as_str().is_empty() {
        let ghost old_segments = segments.deep_view();
        segments.push(open);
        assert(segments.deep_view() == old_segments.push(open@));
    }
    proof {
        lemma_segments_well_formed(path@);
    }
    segments
}

} // verus!
