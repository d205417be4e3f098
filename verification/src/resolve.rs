//! Resolving a slash-separated path into an object of the store.
//!
//! The walk starts at the root and takes one segment at a time: it asks the
//! store for a child of the object reached so far that has the name of the
//! segment and is not trashed, and goes on with the first one listed. A walk
//! asked to create what is missing makes a folder where it finds nothing.

use crate::error::{PathResolutionError, PathResolutionErrorView};
use crate::path::{parse_path, path_segments};
use crate::remote::{
    object_views,
    RemoteObject,
    RemoteObjectView,
    Reply,
    ReplyView,
    Request,
    RequestView,
    SEGMENT_LOOKUP_LIMIT,
    WILDCARD_PAGE_SIZE,
};
use crate::wildcard::{
    compile_wildcard,
    filter_matching,
    has_wildcard,
    holds_wildcard,
    matching,
    regex_source,
    wildcard_regex,
};
use vstd::prelude::*;
use vstd::string::StringExecFns;

verus! {

/// Which reply a walk waits for.
#[derive(Debug, Clone, Copy, PartialEq, Eq, Structural)]
pub enum Awaiting {
    /// The listing of the children that have the name of the segment.
    Lookup,
    /// The folder that was asked to be created for the segment.
    Creation,
}

pub ghost struct PathWalkView {
    /// The segments of the path.
    pub segments: Seq<Seq<char>>,
    /// The segment that is being resolved.
    pub position: int,
    /// The identifier of the object reached so far.
    pub parent_id: Seq<char>,
    /// Whether a folder is made where a segment is missing.
    pub create_missing: bool,
    pub awaiting: Awaiting,
}

/// Where a walk stands after a step.
pub ghost enum WalkStepView {
    /// The request is to be carried out and the walk advanced with the reply.
    Pending(PathWalkView, RequestView),
    /// The path leads to this object.
    Resolved(RemoteObjectView),
    Failed(PathResolutionErrorView),
}

/// The text of the error for a reply that answers another request than the
/// lookup that was made.
pub open spec fn unexpected_reply_text() -> Seq<char> {
    "Unexpected reply to a lookup"@
}

/// The text of the error for a request to create a folder that was answered
/// with something else than the folder.
pub open spec fn no_folder_text() -> Seq<char> {
    "The store did not return the folder"@
}

impl PathWalkView {
    /// A walk stands at one of its segments, and makes folders only if it was
    /// asked to.
    pub open spec fn wf(self) -> bool {
        &&& 0 <= self.position < self.segments.len()
        &&& self.awaiting == Awaiting::Creation ==> self.create_missing
    }

    /// The segment that is being resolved.
    pub open spec fn segment(self) -> Seq<char> {
        self.segments[self.position]
    }

    /// The request for the child that has the name of the segment.
    pub open spec fn lookup_request(self) -> RequestView {
        RequestView::Find {
            parent_id: self.parent_id,
            name_filter: Some(self.segment()),
            limit: SEGMENT_LOOKUP_LIMIT,
        }
    }

    /// The request to make a folder for the segment.
    pub open spec fn creation_request(self) -> RequestView {
        RequestView::CreateFolder { name: self.segment(), parent_id: self.parent_id }
    }

    /// Goes on below `object`, which the segment led to and whose children are
    /// found under `id`; ends there if the segment was the last.
    pub open spec fn descend(self, object: RemoteObjectView, id: Seq<char>) -> WalkStepView {
        if self.position + 1 < self.segments.len() {
            let next = PathWalkView {
                position: self.position + 1,
                parent_id: id,
                awaiting: Awaiting::Lookup,
                ..self
            };
            WalkStepView::Pending(next, next.lookup_request())
        } else {
            WalkStepView::Resolved(object)
        }
    }

    /// The step that the reply to the pending request leads to.
    pub open spec fn advance(self, reply: ReplyView) -> WalkStepView {
        match self.awaiting {
            Awaiting::Lookup => match reply {
                ReplyView::Found(objects) => if objects.len() > 0 {
                    self.descend(objects[0], objects[0].id_or_empty())
                } else if self.create_missing {
                    let next = PathWalkView { awaiting: Awaiting::Creation, ..self };
                    WalkStepView::Pending(next, next.creation_request())
                } else {
                    WalkStepView::Failed(PathResolutionErrorView::NotFound(self.segment()))
                },
                ReplyView::Failed(text) => WalkStepView::Failed(
                    PathResolutionErrorView::ApiError(text),
                ),
                ReplyView::Created(_) => WalkStepView::Failed(
                    PathResolutionErrorView::ApiError(unexpected_reply_text()),
                ),
            },
            Awaiting::Creation => match reply {
                ReplyView::Created(object) => match object.id {
                    Some(id) => self.descend(object, id),
                    None => WalkStepView::Failed(PathResolutionErrorView::MissingId),
                },
                ReplyView::Failed(text) => WalkStepView::Failed(
                    PathResolutionErrorView::ApiError(text),
                ),
                ReplyView::Found(_) => WalkStepView::Failed(
                    PathResolutionErrorView::CreateDirectoryError(no_folder_text()),
                ),
            },
        }
    }
}

/// The first step of a walk along `segments`: the root at once where there is
/// no segment, else the lookup of the first segment below the root.
pub open spec fn begin_walk(segments: Seq<Seq<char>>, create_missing: bool) -> WalkStepView {
    if segments.len() == 0 {
        WalkStepView::Resolved(RemoteObjectView::root())
    } else {
        let walk = PathWalkView {
            segments,
            position: 0,
            parent_id: RemoteObjectView::root().id_or_empty(),
            create_missing,
            awaiting: Awaiting::Lookup,
        };
        WalkStepView::Pending(walk, walk.lookup_request())
    }
}

/// A walk that waits for the reply to its pending request.
#[derive(Debug, PartialEq, Eq)]
pub struct PathWalk {
    segments: Vec<String>,
    position: usize,
    parent_id: String,
    create_missing: bool,
    awaiting: Awaiting,
}

impl View for PathWalk {
    type V = PathWalkView;

    closed spec fn view(&self) -> PathWalkView {
        PathWalkView {
            segments: self.segments.deep_view(),
            position: self.position as int,
            parent_id: self.parent_id@,
            create_missing: self.create_missing,
            awaiting: self.awaiting,
        }
    }
}

/// Where a walk stands after a step.
#[derive(Debug, PartialEq, Eq)]
pub enum WalkStep {
    /// The request is to be carried out and the walk advanced with the reply.
    Pending(PathWalk, Request),
    /// The path leads to this object.
    Resolved(RemoteObject),
    Failed(PathResolutionError),
}

impl View for WalkStep {
    type V = WalkStepView;

    open spec fn view(&self) -> WalkStepView {
        match *self {
            WalkStep::Pending(walk, request) => WalkStepView::Pending(walk@, request@),
            WalkStep::Resolved(object) => WalkStepView::Resolved(object@),
            WalkStep::Failed(e) => WalkStepView::Failed(e@),
        }
    }
}

impl PathWalk {
    #[verifier::type_invariant]
    pub open spec fn well_formed(self) -> bool {
        self@.wf()
    }

    fn lookup(segments: Vec<String>, position: usize, parent_id: String, create_missing: bool) -> (step:
        WalkStep)
        requires
            position < segments.len(),
        ensures
            step@ == ({
                let walk = PathWalkView {
                    segments: segments.deep_view(),
                    position: position as int,
                    parent_id: parent_id@,
                    create_missing,
                    awaiting: Awaiting::Lookup,
                };
                WalkStepView::Pending(walk, walk.lookup_request())
            }),
    {
        assert(segments.deep_view()[position as int] == segments[position as int]@);
        let request = Request::Find {
            parent_id: parent_id.clone(),
            name_filter: Some(segments[position].clone()),
            limit: SEGMENT_LOOKUP_LIMIT,
        };
        let walk = PathWalk {
            segments,
            position,
            parent_id,
            create_missing,
            awaiting: Awaiting::Lookup,
        };
        WalkStep::Pending(walk, request)
    }

    fn descend(self, object: RemoteObject, id: String) -> (step: WalkStep)
        ensures
            step@ == self@.descend(object@, id@),
    {
        proof {
            use_type_invariant(&self);
            assert(self@.position < self.segments.deep_view().len());
            assert(self.segments.deep_view().len() == self.segments.len());
        }
        if self.position + 1 < self.segments.len() {
            let PathWalk { segments, position, create_missing, .. } = self;
            PathWalk::lookup(segments, position + 1, id, create_missing)
        } else {
            WalkStep::Resolved(object)
        }
    }

    /// Begins a walk along `segments`.
    pub fn begin(segments: Vec<String>, create_missing: bool) -> (step: WalkStep)
        ensures
            step@ == begin_walk(segments.deep_view(), create_missing),
    {
        if segments.len() == 0 {
            WalkStep::Resolved(RemoteObject::root())
        } else {
            PathWalk::lookup(segments, 0, String::from_str("root"), create_missing)
        }
    }

    /// Takes the reply to the pending request and says how the walk goes on.
    pub fn advance(self, reply: Reply) -> (step: WalkStep)
        ensures
            step@ == self@.advance(reply@),
    {
        proof {
            use_type_invariant(&self);
        }
        assert(self.segments.deep_view()[self.position as int]
            == self.segments[self.position as int]@);
        match self.awaiting {
            Awaiting::Lookup => match reply {
                Reply::Found(objects) => {
                    let mut objects = objects;
                    let ghost listed = object_views(objects@);
                    if objects.len() > 0 {
                        let first = objects.swap_remove(0);
                        assert(first@ == listed[0]);
                        let id = first.id_or_empty();
                        self.descend(first, id)
                    } else if self.create_missing {
                        let request = Request::CreateFolder {
                            name: self.segments[self.position].clone(),
                            parent_id: self.parent_id.clone(),
                        };
                        let PathWalk { segments, position, parent_id, create_missing, .. } = self;
                        let walk = PathWalk {
                            segments,
                            position,
                            parent_id,
                            create_missing,
                            awaiting: Awaiting::Creation,
                        };
                        WalkStep::Pending(walk, request)
                    } else {
                        WalkStep::Failed(
                            PathResolutionError::NotFound(self.segments[self.position].clone()),
                        )
                    }
                },
                Reply::Failed(text) => WalkStep::Failed(PathResolutionError::ApiError(text)),
                Reply::Created(_) => WalkStep::Failed(
                    PathResolutionError::ApiError(String::from_str("Unexpected reply to a lookup")),
                ),
            },
            Awaiting::Creation => match reply {
                Reply::Created(object) => {
                    let id = match &object.id {
                        Some(id) => Some(id.clone()),
                        None => None,
                    };
                    match id {
                        Some(id) => self.descend(object, id),
                        None => WalkStep::Failed(PathResolutionError::MissingId),
                    }
                },
                Reply::Failed(text) => WalkStep::Failed(PathResolutionError::ApiError(text)),
                Reply::Found(_) => WalkStep::Failed(
                    PathResolutionError::CreateDirectoryError(
                        String::from_str("The store did not return the folder"),
                    ),
                ),
            },
        }
    }
}

/// Begins to resolve `path`: every segment must exist. A path without
/// segments, such as the empty path or a single slash, resolves to the root at
/// once.
pub fn resolve_path(path: &str) -> (step: WalkStep)
    ensures
        step@ == begin_walk(path_segments(path@), false),
{
    PathWalk::begin(parse_path(path), false)
}

/// Begins to resolve `path`, making a folder for every segment that is
/// missing.
pub fn resolve_or_create_path(path: &str) -> (step: WalkStep)
    ensures
        step@ == begin_walk(path_segments(path@), true),
{
    PathWalk::begin(parse_path(path), true)
}

/// The wildcard segment of a search and what came of compiling it.
#[derive(Debug)]
pub struct Wildcard {
    /// The segment as it stands in the path.
    pub pattern: String,
    /// The regular expression for the segment, or why there is none.
    pub matcher: Result<regex::Regex, String>,
}

pub ghost struct WildcardView {
    pub pattern: Seq<char>,
    pub matcher: Result<regex::Regex, Seq<char>>,
}

impl View for Wildcard {
    type V = WildcardView;

    open spec fn view(&self) -> WildcardView {
        WildcardView {
            pattern: self.pattern@,
            matcher: match self.matcher {
                Ok(re) => Ok(re),
                Err(text) => Err(text@),
            },
        }
    }
}

impl WildcardView {
    /// The matcher is what came of compiling the regular expression for the
    /// segment: a regular expression with that expression as its source, or
    /// the text of a rejection.
    pub open spec fn compiled(self) -> bool {
        self.matcher matches Ok(re) ==> regex_source(re) == wildcard_regex(self.pattern)
    }
}

/// What a search is doing.
pub ghost enum SearchStageView {
    /// Walking along the segments before the last.
    Walking(PathWalkView),
    /// Waiting for the children of the object that the walk led to.
    Listing,
}

pub ghost struct WildcardSearchView {
    pub stage: SearchStageView,
    /// The wildcard segment; `None` where the path holds no wildcard and the
    /// search is a plain walk along all of it.
    pub wildcard: Option<WildcardView>,
}

/// Where a search stands after a step.
pub ghost enum SearchStepView {
    /// The request is to be carried out and the search advanced with the
    /// reply.
    Pending(WildcardSearchView, RequestView),
    /// The objects that the path stands for; there is at least one.
    Matched(Seq<RemoteObjectView>),
    Failed(PathResolutionErrorView),
}

/// What a search makes of the object that its walk led to: the object itself
/// where the path holds no wildcard, else the request for the children of the
/// object, unless the wildcard gave no regular expression.
pub open spec fn after_walk(object: RemoteObjectView, wildcard: Option<WildcardView>) -> SearchStepView {
    match wildcard {
        None => SearchStepView::Matched(seq![object]),
        Some(w) => match w.matcher {
            Ok(_) => SearchStepView::Pending(
                WildcardSearchView { stage: SearchStageView::Listing, wildcard },
                RequestView::Find {
                    parent_id: object.id_or_empty(),
                    name_filter: None,
                    limit: WILDCARD_PAGE_SIZE,
                },
            ),
            Err(text) => SearchStepView::Failed(PathResolutionErrorView::InvalidWildcard(text)),
        },
    }
}

/// What a search makes of a step of its walk.
pub open spec fn after_step(step: WalkStepView, wildcard: Option<WildcardView>) -> SearchStepView {
    match step {
        WalkStepView::Pending(walk, request) => SearchStepView::Pending(
            WildcardSearchView { stage: SearchStageView::Walking(walk), wildcard },
            request,
        ),
        WalkStepView::Resolved(object) => after_walk(object, wildcard),
        WalkStepView::Failed(e) => SearchStepView::Failed(e),
    }
}

/// What a search ends with when `matched` are the children whose name the
/// wildcard `pattern` matches: the children, unless there is none.
pub open spec fn conclude(pattern: Seq<char>, matched: Seq<RemoteObjectView>) -> SearchStepView {
    if matched.len() > 0 {
        SearchStepView::Matched(matched)
    } else {
        SearchStepView::Failed(PathResolutionErrorView::NoMatchesFound(pattern))
    }
}

impl WildcardSearchView {
    /// A search that lists has a wildcard that gave a regular expression, and
    /// a search that walks has a walk that is well formed.
    pub open spec fn wf(self) -> bool {
        match self.stage {
            SearchStageView::Walking(walk) => walk.wf(),
            SearchStageView::Listing => self.wildcard is Some && self.wildcard->0.matcher is Ok,
        }
    }

    /// The step that the reply to the pending request leads to.
    pub open spec fn advance(self, reply: ReplyView) -> SearchStepView {
        match self.stage {
            SearchStageView::Walking(walk) => after_step(walk.advance(reply), self.wildcard),
            SearchStageView::Listing => match reply {
                ReplyView::Found(objects) => {
                    conclude(
                        self.wildcard->0.pattern,
                        matching(self.wildcard->0.matcher->Ok_0, objects),
                    )
                },
                ReplyView::Failed(text) => SearchStepView::Failed(
                    PathResolutionErrorView::ApiError(text),
                ),
                ReplyView::Created(_) => SearchStepView::Failed(
                    PathResolutionErrorView::ApiError(unexpected_reply_text()),
                ),
            },
        }
    }
}

/// The first step of the search along `segments`. `wildcard` is the last
/// segment with what came of compiling it where that segment holds a wildcard,
/// and `None` where it holds none.
pub open spec fn begin_search(
    segments: Seq<Seq<char>>,
    wildcard: Option<WildcardView>,
) -> SearchStepView {
    if segments.len() == 0 {
        SearchStepView::Failed(PathResolutionErrorView::InvalidPath)
    } else if wildcard is Some {
        after_step(begin_walk(segments.drop_last(), false), wildcard)
    } else {
        after_step(begin_walk(segments, false), None)
    }
}

/// What a search is doing.
#[derive(Debug)]
enum SearchStage {
    Walking(PathWalk),
    Listing,
}

/// A search that waits for the reply to its pending request.
#[derive(Debug)]
pub struct WildcardSearch {
    stage: SearchStage,
    wildcard: Option<Wildcard>,
}

impl View for WildcardSearch {
    type V = WildcardSearchView;

    closed spec fn view(&self) -> WildcardSearchView {
        WildcardSearchView {
            stage: match self.stage {
                SearchStage::Walking(walk) => SearchStageView::Walking(walk@),
                SearchStage::Listing => SearchStageView::Listing,
            },
            wildcard: match self.wildcard {
                Some(w) => Some(w@),
                None => None,
            },
        }
    }
}

/// Where a search stands after a step.
#[derive(Debug)]
pub enum SearchStep {
    /// The request is to be carried out and the search advanced with the
    /// reply.
    Pending(WildcardSearch, Request),
    /// The objects that the path stands for; there is at least one.
    Matched(Vec<RemoteObject>),
    Failed(PathResolutionError),
}

impl View for SearchStep {
    type V = SearchStepView;

    open spec fn view(&self) -> SearchStepView {
        match *self {
            SearchStep::Pending(search, request) => SearchStepView::Pending(search@, request@),
            SearchStep::Matched(objects) => SearchStepView::Matched(object_views(objects@)),
            SearchStep::Failed(e) => SearchStepView::Failed(e@),
        }
    }
}

/// The view of an optional wildcard.
pub open spec fn wildcard_view(wildcard: Option<Wildcard>) -> Option<WildcardView> {
    match wildcard {
        Some(w) => Some(w@),
        None => None,
    }
}

impl WildcardSearch {
    #[verifier::type_invariant]
    pub open spec fn well_formed(self) -> bool {
        self@.wf()
    }

    fn after_step(step: WalkStep, wildcard: Option<Wildcard>) -> (next: SearchStep)
        ensures
            next@ == after_step(step@, wildcard_view(wildcard)),
    {
        match step {
            WalkStep::Pending(walk, request) => {
                proof {
                    use_type_invariant(&walk);
                }
                SearchStep::Pending(
                    WildcardSearch { stage: SearchStage::Walking(walk), wildcard },
                    request,
                )
            },
            WalkStep::Resolved(object) => match wildcard {
                None => {
                    let mut objects: Vec<RemoteObject> = Vec::new();
                    objects.push(object);
                    assert(object_views(objects@) =~= seq![object@]);
                    SearchStep::Matched(objects)
                },
                Some(w) => {
                    let Wildcard { pattern, matcher } = w;
                    match matcher {
                        Ok(re) => SearchStep::Pending(
                            WildcardSearch {
                                stage: SearchStage::Listing,
                                wildcard: Some(Wildcard { pattern, matcher: Ok(re) }),
                            },
                            Request::Find {
                                parent_id: object.id_or_empty(),
                                name_filter: None,
                                limit: WILDCARD_PAGE_SIZE,
                            },
                        ),
                        Err(text) => SearchStep::Failed(PathResolutionError::InvalidWildcard(text)),
                    }
                },
            },
            WalkStep::Failed(e) => SearchStep::Failed(e),
        }
    }

    /// Begins the search along `segments`. `wildcard` is the last segment
    /// with what came of compiling it where that segment holds a wildcard, and
    /// `None` where it holds none.
    pub fn begin(segments: Vec<String>, wildcard: Option<Wildcard>) -> (step: SearchStep)
        ensures
            step@ == begin_search(segments.deep_view(), wildcard_view(wildcard)),
    {
        let mut segments = segments;
        if segments.len() == 0 {
            SearchStep::Failed(PathResolutionError::InvalidPath)
        } else if wildcard.is_some() {
            let ghost all = segments.deep_view();
            segments.pop();
            assert(segments.deep_view() =~= all.drop_last());
            WildcardSearch::after_step(PathWalk::begin(segments, false), wildcard)
        } else {
            WildcardSearch::after_step(PathWalk::begin(segments, false), None)
        }
    }

    /// Ends a search with the children whose name the wildcard `pattern`
    /// matches. That there is none is an error of its own, whether the object
    /// has no children or none of them matches.
    pub fn conclude(pattern: String, matched: Vec<RemoteObject>) -> (step: SearchStep)
        ensures
            step@ == conclude(pattern@, object_views(matched@)),
    {
        if matched.len() > 0 {
            SearchStep::Matched(matched)
        } else {
            SearchStep::Failed(PathResolutionError::NoMatchesFound(pattern))
        }
    }

    /// Takes the reply to the pending request and says how the search goes on.
    pub fn advance(self, reply: Reply) -> (step: SearchStep)
        ensures
            step@ == self@.advance(reply@),
    {
        proof {
            use_type_invariant(&self);
        }
        let WildcardSearch { stage, wildcard } = self;
        match stage {
            SearchStage::Walking(walk) => WildcardSearch::after_step(walk.advance(reply), wildcard),
            SearchStage::Listing => match reply {
                Reply::Found(objects) => {
                    let Wildcard { pattern, matcher } = wildcard.unwrap();
                    match matcher {
                        Ok(re) => WildcardSearch::conclude(pattern, filter_matching(&re, objects)),
                        Err(text) => SearchStep::Failed(PathResolutionError::InvalidWildcard(text)),
                    }
                },
                Reply::Failed(text) => SearchStep::Failed(PathResolutionError::ApiError(text)),
                Reply::Created(_) => SearchStep::Failed(
                    PathResolutionError::ApiError(String::from_str("Unexpected reply to a lookup")),
                ),
            },
        }
    }
}

/// Whether `step` is a first step of the search for `path`: that of the
/// search along the segments of `path`, with the last segment compiled where
/// it holds a wildcard.
pub open spec fn begins_search_for(path: Seq<char>, step: SearchStepView) -> bool {
    let segments = path_segments(path);
    if segments.len() > 0 && holds_wildcard(segments.last()) {
        exists|wildcard: WildcardView|
            wildcard.pattern == segments.last() && wildcard.compiled() && step == #[trigger] begin_search(
                segments,
                Some(wildcard),
            )
    } else {
        step == begin_search(segments, None)
    }
}

/// Begins to resolve a path whose last segment may hold wildcards. Where it
/// holds none, the path is resolved as by [`resolve_path`], except that a path
/// without segments is refused. Where it holds one, the segments before it are
/// walked, the children of the object they lead to are listed, and those are
/// kept whose name the wildcard matches.
pub fn resolve_wildcard_path(path: &str) -> (step: SearchStep)
    ensures
        begins_search_for(path@, step@),
{
    let segments = parse_path(path);
    let n = segments.len();
    if n == 0 {
        return WildcardSearch::begin(segments, None);
    }
    assert(segments.deep_view().last() == segments[n - 1]@);
    if has_wildcard(segments[n - 1].as_str()) {
        let pattern = segments[n - 1].clone();
        let matcher = compile_wildcard(pattern.as_str());
        let wildcard = Wildcard { pattern, matcher };
        assert(wildcard@.compiled());
        WildcardSearch::begin(segments, Some(wildcard))
    } else {
        WildcardSearch::begin(segments, None)
    }
}

} // verus!

verus! {

/// A store as a walk sees it.
pub ghost struct Store {
    /// For an identifier and a name, the child of that name that the store
    /// lists first under that identifier among those that are not trashed.
    pub index: Map<(Seq<char>, Seq<char>), RemoteObjectView>,
    /// For an identifier, the children that the store lists under it among
    /// those that are not trashed, in the order of the listing.
    pub children: Map<Seq<char>, Seq<RemoteObjectView>>,
    /// The folders that the store will return for the requests to create one
    /// that are still to come, in order.
    pub fresh: Seq<RemoteObjectView>,
}

/// The text with which the store of the model fails a request.
pub open spec fn refusal_text() -> Seq<char> {
    "The store refused"@
}

impl Store {
    /// The child named `name` that the store lists first under `parent_id`.
    pub open spec fn child(self, parent_id: Seq<char>, name: Seq<char>) -> Option<
        RemoteObjectView,
    > {
        if self.index.contains_key((parent_id, name)) {
            Some(self.index[(parent_id, name)])
        } else {
            None
        }
    }

    /// The first `limit` of the children that the store lists under
    /// `parent_id`, or all of them where they are fewer.
    pub open spec fn listed(self, parent_id: Seq<char>, limit: usize) -> Seq<RemoteObjectView> {
        if self.children.contains_key(parent_id) {
            let all = self.children[parent_id];
            if all.len() <= limit {
                all
            } else {
                all.take(limit as int)
            }
        } else {
            Seq::empty()
        }
    }

    /// The reply of the store to a request, and the store after it. A lookup
    /// by name and a listing change nothing. A request to create a folder is
    /// answered with the next fresh folder, which is from then on found under
    /// its parent and name; it is refused where no fresh folder is left.
    pub open spec fn serve(self, request: RequestView) -> (ReplyView, Store) {
        match request {
            RequestView::Find { parent_id, name_filter: Some(name), limit } => (
                ReplyView::Found(
                    match self.child(parent_id, name) {
                        Some(object) => if limit > 0 {
                            seq![object]
                        } else {
                            Seq::empty()
                        },
                        None => Seq::empty(),
                    },
                ),
                self,
            ),
            RequestView::Find { parent_id, name_filter: None, limit } => (
                ReplyView::Found(self.listed(parent_id, limit)),
                self,
            ),
            RequestView::CreateFolder { name, parent_id } => if self.fresh.len() > 0 {
                (
                    ReplyView::Created(self.fresh[0]),
                    Store {
                        index: self.index.insert((parent_id, name), self.fresh[0]),
                        fresh: self.fresh.skip(1),
                        ..self
                    },
                )
            } else {
                (ReplyView::Failed(refusal_text()), self)
            },
        }
    }

    /// Every lookup that `self` answers with an object, `later` answers with
    /// the same object.
    pub open spec fn kept_by(self, later: Store) -> bool {
        forall|key: (Seq<char>, Seq<char>)| #[trigger]
            self.index.contains_key(key) ==> later.index.contains_key(key) && later.index[key]
                == self.index[key]
    }

    /// The object that the segments from the `i`-th on lead to below
    /// `parent_id`, or the first segment that leads nowhere.
    pub open spec fn follow(
        self,
        parent_id: Seq<char>,
        segments: Seq<Seq<char>>,
        i: int,
    ) -> Result<RemoteObjectView, Seq<char>>
        decreases segments.len() - i,
    {
        if i < 0 || i >= segments.len() {
            Err(Seq::empty())
        } else {
            match self.child(parent_id, segments[i]) {
                Some(object) => if i + 1 == segments.len() {
                    Ok(object)
                } else {
                    self.follow(object.id_or_empty(), segments, i + 1)
                },
                None => Err(segments[i]),
            }
        }
    }

    /// The object that the segments lead to from the root, which is the root
    /// itself where there is no segment, or the first segment that leads
    /// nowhere.
    pub open spec fn locate(self, segments: Seq<Seq<char>>) -> Result<
        RemoteObjectView,
        Seq<char>,
    > {
        if segments.len() == 0 {
            Ok(RemoteObjectView::root())
        } else {
            self.follow(RemoteObjectView::root().id_or_empty(), segments, 0)
        }
    }
}

/// The number of requests that a walk may still make.
pub open spec fn requests_left(step: WalkStepView) -> int {
    match step {
        WalkStepView::Pending(walk, _) => if walk.wf() {
            2 * (walk.segments.len() - walk.position) - if walk.awaiting == Awaiting::Creation {
                1int
            } else {
                0int
            }
        } else {
            0
        },
        _ => 0,
    }
}

/// Where a walk ends, and what the store is then, when every request of the
/// walk is served by the store.
pub open spec fn walk_to_end(store: Store, step: WalkStepView) -> (WalkStepView, Store)
    decreases requests_left(step),
{
    match step {
        WalkStepView::Pending(walk, request) => if walk.wf() {
            let (reply, next_store) = store.serve(request);
            walk_to_end(next_store, walk.advance(reply))
        } else {
            (step, store)
        },
        _ => (step, store),
    }
}

/// A walk that makes no folders leaves the store as it is and ends at the
/// object that its segments lead to, or at the first segment that leads
/// nowhere.
proof fn lemma_strict_walk(store: Store, walk: PathWalkView)
    requires
        walk.wf(),
        walk.awaiting == Awaiting::Lookup,
        !walk.create_missing,
    ensures
        walk_to_end(store, WalkStepView::Pending(walk, walk.lookup_request())) == (
            match store.follow(walk.parent_id, walk.segments, walk.position) {
                Ok(object) => WalkStepView::Resolved(object),
                Err(segment) => WalkStepView::Failed(PathResolutionErrorView::NotFound(segment)),
            },
            store,
        ),
    decreases walk.segments.len() - walk.position,
{
    let (reply, next_store) = store.serve(walk.lookup_request());
    let step = walk.advance(reply);
    assert(walk_to_end(store, WalkStepView::Pending(walk, walk.lookup_request())) == walk_to_end(
        next_store,
        step,
    ));
    match store.child(walk.parent_id, walk.segment()) {
        Some(object) => {
            if walk.position + 1 < walk.segments.len() {
                let next = step->Pending_0;
                lemma_strict_walk(store, next);
            }
        },
        None => {},
    }
}

/// Following a path that holds no wildcards: the walk ends with the object
/// that is reached by following the segments of the path from the root, one
/// after the other, or fails with the first segment that is not found under
/// the object reached before it. It changes nothing in the store, and for a
/// path without segments it makes no request at all.
pub proof fn lemma_resolve_follows_path(store: Store, path: Seq<char>)
    ensures
        walk_to_end(store, begin_walk(path_segments(path), false)) == (
            match store.locate(path_segments(path)) {
                Ok(object) => WalkStepView::Resolved(object),
                Err(segment) => WalkStepView::Failed(PathResolutionErrorView::NotFound(segment)),
            },
            store,
        ),
        path_segments(path).len() == 0 ==> begin_walk(path_segments(path), false)
            == WalkStepView::Resolved(RemoteObjectView::root()),
{
    let segments = path_segments(path);
    if segments.len() > 0 {
        let start = begin_walk(segments, false);
        lemma_strict_walk(store, start->Pending_0);
    }
}

/// A walk that makes folders and ends at an object leaves in the store all
/// that was there, and when it is made again from where it began, in the
/// store as it left it, it ends at the same object and leaves the store as it
/// found it.
proof fn lemma_creating_walk(store: Store, walk: PathWalkView)
    requires
        walk.wf(),
        walk.awaiting == Awaiting::Lookup,
        walk_to_end(store, WalkStepView::Pending(walk, walk.lookup_request())).0 is Resolved,
    ensures
        ({
            let start = WalkStepView::Pending(walk, walk.lookup_request());
            let (end, after) = walk_to_end(store, start);
            &&& store.kept_by(after)
            &&& walk_to_end(after, start) == (end, after)
        }),
    decreases walk.segments.len() - walk.position,
{
    let start = WalkStepView::Pending(walk, walk.lookup_request());
    let (end, after) = walk_to_end(store, start);
    let key = (walk.parent_id, walk.segment());
    let (reply, same_store) = store.serve(walk.lookup_request());
    let step = walk.advance(reply);
    assert(same_store == store);
    assert(walk_to_end(store, start) == walk_to_end(store, step));
    // What the walk comes to from the first object that the segment leads to,
    // in the store `found_in` where the segment is found.
    let found_in: Store;
    let object: RemoteObjectView;
    match store.child(walk.parent_id, walk.segment()) {
        Some(found) => {
            found_in = store;
            object = found;
        },
        None => {
            assert(step is Pending);
            let creating = step->Pending_0;
            assert(creating == PathWalkView { awaiting: Awaiting::Creation, ..walk });
            assert(creating.wf());
            let (created, grown) = store.serve(creating.creation_request());
            assert(walk_to_end(store, step) == walk_to_end(grown, creating.advance(created)));
            assert(created is Created);
            object = created->Created_0;
            assert(object.id is Some);
            found_in = grown;
            assert(grown.index == store.index.insert(key, object));
            assert(creating.advance(created) == walk.descend(object, object.id_or_empty()));
        },
    }
    let onward = walk.descend(object, object.id_or_empty());
    assert(walk_to_end(store, start) == walk_to_end(found_in, onward));
    assert(store.kept_by(found_in));
    assert(found_in.child(walk.parent_id, walk.segment()) == Some(object));
    if walk.position + 1 < walk.segments.len() {
        let next = onward->Pending_0;
        assert(onward == WalkStepView::Pending(next, next.lookup_request()));
        lemma_creating_walk(found_in, next);
        assert(found_in.kept_by(after));
        assert(found_in.index.contains_key(key));
    } else {
        assert(after == found_in);
    }
    assert(after.child(walk.parent_id, walk.segment()) == Some(object));
    let (again, unchanged) = after.serve(walk.lookup_request());
    assert(unchanged == after);
    assert(again == ReplyView::Found(seq![object]));
    assert(walk.advance(again) == onward);
    assert(walk_to_end(after, start) == walk_to_end(after, onward));
}

/// Resolving a path with the making of folders converges: when the walk has
/// ended at an object, the same walk made once more, in the store as the
/// first left it, ends at the same object, and makes no folder, for it leaves
/// the store as it found it.
pub proof fn lemma_resolve_or_create_converges(store: Store, path: Seq<char>)
    requires
        walk_to_end(store, begin_walk(path_segments(path), true)).0 is Resolved,
    ensures
        ({
            let start = begin_walk(path_segments(path), true);
            let (end, after) = walk_to_end(store, start);
            &&& store.kept_by(after)
            &&& walk_to_end(after, start) == (end, after)
        }),
{
    let segments = path_segments(path);
    if segments.len() > 0 {
        let start = begin_walk(segments, true);
        lemma_creating_walk(store, start->Pending_0);
    }
}

impl Store {
    /// How many of the segments from the `i`-th on are found, one below the
    /// other, when the first is looked for below `parent_id`.
    pub open spec fn found_along(
        self,
        parent_id: Seq<char>,
        segments: Seq<Seq<char>>,
        i: int,
    ) -> int
        decreases segments.len() - i,
    {
        if i < 0 || i >= segments.len() {
            0
        } else {
            match self.child(parent_id, segments[i]) {
                Some(object) => 1 + self.found_along(object.id_or_empty(), segments, i + 1),
                None => 0,
            }
        }
    }

    /// Whether `id` is the identifier of one of the folders that the store
    /// will still make.
    pub open spec fn is_fresh_id(self, id: Seq<char>) -> bool {
        exists|a: int| 0 <= a < self.fresh.len() && (#[trigger] self.fresh[a]).id == Some(id)
    }

    /// The folders that the store will still make have identifiers, each its
    /// own, and nothing is found below such an identifier yet.
    pub open spec fn fresh_ids_unused(self) -> bool {
        &&& forall|a: int| 0 <= a < self.fresh.len() ==> (#[trigger] self.fresh[a]).id is Some
        &&& forall|a: int, b: int|
            0 <= a < b < self.fresh.len() ==> (#[trigger] self.fresh[a]).id != (
            #[trigger] self.fresh[b]).id
        &&& forall|key: (Seq<char>, Seq<char>)| #[trigger]
            self.index.contains_key(key) ==> !self.is_fresh_id(key.0)
    }

    /// The store gives every folder that it makes an identifier that nothing
    /// in it has yet: not the root, no object that a lookup finds, and no
    /// other folder that it will make.
    pub open spec fn assigns_new_ids(self) -> bool {
        &&& self.fresh_ids_unused()
        &&& !self.is_fresh_id(RemoteObjectView::root().id_or_empty())
        &&& forall|key: (Seq<char>, Seq<char>)| #[trigger]
            self.index.contains_key(key) ==> !self.is_fresh_id(self.index[key].id_or_empty())
    }
}

proof fn lemma_found_along_bounded(
    store: Store,
    parent_id: Seq<char>,
    segments: Seq<Seq<char>>,
    i: int,
)
    requires
        0 <= i <= segments.len(),
    ensures
        0 <= store.found_along(parent_id, segments, i) <= segments.len() - i,
    decreases segments.len() - i,
{
    if i < segments.len() {
        match store.child(parent_id, segments[i]) {
            Some(object) => {
                lemma_found_along_bounded(store, object.id_or_empty(), segments, i + 1);
            },
            None => {},
        }
    }
}

/// From a segment that is not found on, a walk that makes folders makes one
/// for every segment that is left.
proof fn lemma_walk_makes_the_rest(store: Store, walk: PathWalkView)
    requires
        walk.wf(),
        walk.awaiting == Awaiting::Lookup,
        walk.create_missing,
        store.fresh_ids_unused(),
        !store.is_fresh_id(walk.parent_id),
        store.child(walk.parent_id, walk.segment()) is None,
        store.fresh.len() >= walk.segments.len() - walk.position,
    ensures
        ({
            let (end, after) = walk_to_end(
                store,
                WalkStepView::Pending(walk, walk.lookup_request()),
            );
            &&& end is Resolved
            &&& after.fresh == store.fresh.skip(walk.segments.len() - walk.position)
        }),
    decreases walk.segments.len() - walk.position,
{
    let start = WalkStepView::Pending(walk, walk.lookup_request());
    let key = (walk.parent_id, walk.segment());
    let missed = store.serve(walk.lookup_request()).0;
    let step = walk.advance(missed);
    assert(walk_to_end(store, start) == walk_to_end(store, step));
    let creating = step->Pending_0;
    assert(creating == PathWalkView { awaiting: Awaiting::Creation, ..walk });
    assert(creating.wf());
    let (created, grown) = store.serve(creating.creation_request());
    assert(walk_to_end(store, step) == walk_to_end(grown, creating.advance(created)));
    let made = store.fresh[0];
    assert(made.id is Some);
    let id = made.id->0;
    assert(store.is_fresh_id(id));
    let onward = creating.advance(created);
    assert(grown.index == store.index.insert(key, made));
    assert(grown.fresh == store.fresh.skip(1));
    if walk.position + 1 < walk.segments.len() {
        let next = onward->Pending_0;
        assert(onward == WalkStepView::Pending(next, next.lookup_request()));
        assert(next.parent_id == id);
        // What is still to be made is as new to the grown store as it was to
        // the store before.
        assert forall|a: int| 0 <= a < grown.fresh.len() implies (
        #[trigger] grown.fresh[a]).id is Some by {
            assert(grown.fresh[a] == store.fresh[a + 1]);
        }
        assert forall|a: int, b: int| 0 <= a < b < grown.fresh.len() implies (
        #[trigger] grown.fresh[a]).id != (#[trigger] grown.fresh[b]).id by {
            assert(grown.fresh[a] == store.fresh[a + 1]);
            assert(grown.fresh[b] == store.fresh[b + 1]);
        }
        assert forall|other: Seq<char>| grown.is_fresh_id(other) implies store.is_fresh_id(
            other,
        ) && other != id by {
            let a = choose|a: int|
                0 <= a < grown.fresh.len() && (#[trigger] grown.fresh[a]).id == Some(other);
            assert(store.fresh[a + 1].id == Some(other));
        }
        assert forall|later: (Seq<char>, Seq<char>)| #[trigger]
            grown.index.contains_key(later) implies !grown.is_fresh_id(later.0) by {
            if later != key {
                assert(store.index.contains_key(later));
            }
        }
        assert(grown.child(id, next.segment()) is None) by {
            let below = (id, next.segment());
            if store.index.contains_key(below) {
                assert(!store.is_fresh_id(below.0));
            }
        }
        lemma_walk_makes_the_rest(grown, next);
        assert(store.fresh.skip(1).skip(walk.segments.len() - walk.position - 1)
            == store.fresh.skip(walk.segments.len() - walk.position));
    }
}

/// A walk that makes folders goes along what is found and makes the rest.
proof fn lemma_walk_finds_then_makes(store: Store, walk: PathWalkView)
    requires
        walk.wf(),
        walk.awaiting == Awaiting::Lookup,
        walk.create_missing,
        store.assigns_new_ids(),
        !store.is_fresh_id(walk.parent_id),
        store.fresh.len() >= walk.segments.len() - walk.position - store.found_along(
            walk.parent_id,
            walk.segments,
            walk.position,
        ),
    ensures
        ({
            let (end, after) = walk_to_end(
                store,
                WalkStepView::Pending(walk, walk.lookup_request()),
            );
            let found = store.found_along(walk.parent_id, walk.segments, walk.position);
            &&& 0 <= found <= walk.segments.len() - walk.position
            &&& end is Resolved
            &&& after.fresh == store.fresh.skip(walk.segments.len() - walk.position - found)
            &&& found == walk.segments.len() - walk.position ==> after == store
        }),
    decreases walk.segments.len() - walk.position,
{
    let start = WalkStepView::Pending(walk, walk.lookup_request());
    let key = (walk.parent_id, walk.segment());
    lemma_found_along_bounded(store, walk.parent_id, walk.segments, walk.position);
    match store.child(walk.parent_id, walk.segment()) {
        Some(object) => {
            lemma_found_along_bounded(
                store,
                object.id_or_empty(),
                walk.segments,
                walk.position + 1,
            );
            let reply = store.serve(walk.lookup_request()).0;
            let step = walk.advance(reply);
            assert(walk_to_end(store, start) == walk_to_end(store, step));
            assert(store.index.contains_key(key));
            assert(!store.is_fresh_id(store.index[key].id_or_empty()));
            if walk.position + 1 < walk.segments.len() {
                let next = step->Pending_0;
                assert(step == WalkStepView::Pending(next, next.lookup_request()));
                lemma_walk_finds_then_makes(store, next);
            } else {
                assert(store.fresh.skip(0) == store.fresh);
            }
        },
        None => {
            lemma_walk_makes_the_rest(store, walk);
        },
    }
}

/// Resolving a path with the making of folders makes exactly what is missing:
/// in a store that gives every new folder an identifier of its own, and that
/// does not refuse, the walk ends at an object, and it has folders made for
/// the segments from the first that is not found on, one for each, and for no
/// other. Where every segment is found it leaves the store as it is.
pub proof fn lemma_resolve_or_create_makes_what_is_missing(store: Store, path: Seq<char>)
    requires
        store.assigns_new_ids(),
        store.fresh.len() >= path_segments(path).len(),
    ensures
        ({
            let segments = path_segments(path);
            let found = store.found_along(RemoteObjectView::root().id_or_empty(), segments, 0);
            let (end, after) = walk_to_end(store, begin_walk(segments, true));
            &&& 0 <= found <= segments.len()
            &&& end is Resolved
            &&& after.fresh == store.fresh.skip(segments.len() - found)
            &&& after.fresh.len() == store.fresh.len() - (segments.len() - found)
            &&& found == segments.len() ==> after == store
        }),
{
    let segments = path_segments(path);
    lemma_found_along_bounded(store, RemoteObjectView::root().id_or_empty(), segments, 0);
    if segments.len() > 0 {
        let start = begin_walk(segments, true);
        let walk = start->Pending_0;
        lemma_walk_finds_then_makes(store, walk);
    } else {
        assert(store.fresh.skip(0) == store.fresh);
    }
}

/// The number of requests that a search may still make.
pub open spec fn search_requests_left(step: SearchStepView) -> int {
    match step {
        SearchStepView::Pending(search, request) => if search.wf() {
            match search.stage {
                SearchStageView::Walking(walk) => 1 + requests_left(
                    WalkStepView::Pending(walk, request),
                ),
                SearchStageView::Listing => 1,
            }
        } else {
            0
        },
        _ => 0,
    }
}

/// Where a search ends when every request of the search is served by the
/// store.
pub open spec fn search_to_end(store: Store, step: SearchStepView) -> SearchStepView
    decreases search_requests_left(step),
{
    match step {
        SearchStepView::Pending(search, request) => if search.wf() {
            search_to_end(store, search.advance(store.serve(request).0))
        } else {
            step
        },
        _ => step,
    }
}

/// What a search comes to once its walk has come to `end`.
pub open spec fn search_after(
    store: Store,
    end: Result<RemoteObjectView, Seq<char>>,
    wildcard: Option<WildcardView>,
) -> SearchStepView {
    match end {
        Err(segment) => SearchStepView::Failed(PathResolutionErrorView::NotFound(segment)),
        Ok(object) => match wildcard {
            None => SearchStepView::Matched(seq![object]),
            Some(w) => match w.matcher {
                Ok(re) => conclude(
                    w.pattern,
                    matching(re, store.listed(object.id_or_empty(), WILDCARD_PAGE_SIZE)),
                ),
                Err(text) => SearchStepView::Failed(
                    PathResolutionErrorView::InvalidWildcard(text),
                ),
            },
        },
    }
}

proof fn lemma_search_after_walk(store: Store, walk: PathWalkView, wildcard: Option<WildcardView>)
    requires
        walk.wf(),
        walk.awaiting == Awaiting::Lookup,
        !walk.create_missing,
    ensures
        search_to_end(
            store,
            after_step(WalkStepView::Pending(walk, walk.lookup_request()), wildcard),
        ) == search_after(
            store,
            store.follow(walk.parent_id, walk.segments, walk.position),
            wildcard,
        ),
    decreases walk.segments.len() - walk.position,
{
    let request = walk.lookup_request();
    let search = WildcardSearchView { stage: SearchStageView::Walking(walk), wildcard };
    let start = SearchStepView::Pending(search, request);
    assert(after_step(WalkStepView::Pending(walk, request), wildcard) == start);
    let reply = store.serve(request).0;
    let step = walk.advance(reply);
    let next = after_step(step, wildcard);
    assert(search.advance(reply) == next);
    assert(search_to_end(store, start) == search_to_end(store, next));
    match store.child(walk.parent_id, walk.segment()) {
        Some(object) => {
            if walk.position + 1 < walk.segments.len() {
                lemma_search_after_walk(store, step->Pending_0, wildcard);
            } else {
                lemma_search_at_object(store, object, wildcard);
            }
        },
        None => {},
    }
}

proof fn lemma_search_at_object(
    store: Store,
    object: RemoteObjectView,
    wildcard: Option<WildcardView>,
)
    ensures
        search_to_end(store, after_walk(object, wildcard)) == search_after(
            store,
            Ok(object),
            wildcard,
        ),
{
    let step = after_walk(object, wildcard);
    match step {
        SearchStepView::Pending(search, request) => {
            assert(search.wf());
            assert(search_to_end(store, step) == search_to_end(
                store,
                search.advance(store.serve(request).0),
            ));
        },
        _ => {},
    }
}

/// Expanding a wildcard: the search walks along the segments before the
/// last, as a plain walk does, and ends with those children of the object
/// reached whose name the wildcard matches, in the order in which the store
/// lists them and out of no more than the store was asked for. It fails where
/// a segment is not found, where the wildcard gave no regular expression, and
/// where no child matches. A search along a path without wildcard ends where
/// the plain walk along the path ends, and one along no segments fails.
pub proof fn lemma_search_follows_path(
    store: Store,
    segments: Seq<Seq<char>>,
    wildcard: Option<WildcardView>,
)
    ensures
        search_to_end(store, begin_search(segments, wildcard)) == if segments.len() == 0 {
            SearchStepView::Failed(PathResolutionErrorView::InvalidPath)
        } else if wildcard is Some {
            search_after(store, store.locate(segments.drop_last()), wildcard)
        } else {
            search_after(store, store.locate(segments), None)
        },
{
    if segments.len() > 0 {
        let walked = if wildcard is Some {
            segments.drop_last()
        } else {
            segments
        };
        let used = if wildcard is Some {
            wildcard
        } else {
            None
        };
        match begin_walk(walked, false) {
            WalkStepView::Pending(walk, request) => {
                lemma_search_after_walk(store, walk, used);
            },
            WalkStepView::Resolved(object) => {
                lemma_search_at_object(store, object, used);
            },
            WalkStepView::Failed(_) => {},
        }
    }
}

} // verus!
