//! The remote store as this crate sees it: objects, the requests that the crate
//! hands out, and the replies that it is advanced with.

use crate::media_type::{folder_media_type, folder_media_type_text};
use crate::text::has_prefix;
use vstd::prelude::*;
use vstd::string::StringExecFns;

verus! {

/// At most this many objects are asked for when one path segment is looked up.
pub const SEGMENT_LOOKUP_LIMIT: usize = 1;

/// At most this many children are listed when a wildcard is expanded.
pub const WILDCARD_PAGE_SIZE: usize = 1000;

/// At most this many children are listed when name collisions are looked for.
pub const OVERWRITE_PAGE_SIZE: usize = 100;

/// What kind of object the store holds.
#[derive(Debug, Clone, Copy, PartialEq, Eq, Structural)]
pub enum ObjectKind {
    Folder,
    File,
    Other,
}

/// What the media types of the objects that are native to the store begin
/// with: documents, sheets, shortcuts and the like, which are no plain files.
pub open spec fn native_prefix_text() -> Seq<char> {
    "application/vnd.google-apps."@
}

/// The kind of an object of the given media type: a folder where that is the
/// media type of folders, something else than a file where the media type is
/// another that is native to the store, and a file in every other case, that
/// of no media type too.
pub open spec fn kind_of_media_type(media_type: Option<Seq<char>>) -> ObjectKind {
    match media_type {
        Some(text) => if text == folder_media_type_text() {
            ObjectKind::Folder
        } else if native_prefix_text().is_prefix_of(text) {
            ObjectKind::Other
        } else {
            ObjectKind::File
        },
        None => ObjectKind::File,
    }
}

/// The kind of an object of the given media type.
pub fn kind_of(media_type: &Option<String>) -> (kind: ObjectKind)
    ensures
        kind == kind_of_media_type(media_type.deep_view()),
{
    match media_type {
        Some(text) => {
            if *text == folder_media_type() {
                ObjectKind::Folder
            } else if has_prefix(text.as_str(), "application/vnd.google-apps.") {
                ObjectKind::Other
            } else {
                ObjectKind::File
            }
        },
        None => ObjectKind::File,
    }
}

/// A snapshot of one object of the store. It may be stale as soon as it is taken.
#[derive(Debug, Clone, PartialEq, Eq)]
pub struct RemoteObject {
    /// The identifier that the store gave the object.
    pub id: Option<String>,
    /// The name, which the store does not keep unique within a parent.
    pub name: Option<String>,
    pub kind: ObjectKind,
    /// Identifiers of the parents; the root has none.
    pub parents: Vec<String>,
    pub trashed: bool,
}

/// [`RemoteObject`] with its texts as sequences of characters.
pub ghost struct RemoteObjectView {
    pub id: Option<Seq<char>>,
    pub name: Option<Seq<char>>,
    pub kind: ObjectKind,
    pub parents: Seq<Seq<char>>,
    pub trashed: bool,
}

impl View for RemoteObject {
    type V = RemoteObjectView;

    open spec fn view(&self) -> RemoteObjectView {
        RemoteObjectView {
            id: self.id.deep_view(),
            name: self.name.deep_view(),
            kind: self.kind,
            parents: self.parents.deep_view(),
            trashed: self.trashed,
        }
    }
}

impl RemoteObjectView {
    /// The root folder of the store.
    pub open spec fn root() -> RemoteObjectView {
        RemoteObjectView {
            id: Some("root"@),
            name: None,
            kind: ObjectKind::Folder,
            parents: Seq::empty(),
            trashed: false,
        }
    }

    /// The identifier under which the children of the object are looked up:
    /// the object's own, or the empty text where it has none.
    pub open spec fn id_or_empty(self) -> Seq<char> {
        match self.id {
            Some(id) => id,
            None => Seq::empty(),
        }
    }
}

/// The views of the objects of `objects`, in order.
pub open spec fn object_views(objects: Seq<RemoteObject>) -> Seq<RemoteObjectView> {
    Seq::new(objects.len(), |i: int| objects[i]@)
}

impl RemoteObject {
    /// The root folder of the store, known without asking the store.
    pub fn root() -> (root: RemoteObject)
        ensures
            root@ == RemoteObjectView::root(),
    {
        let root = RemoteObject {
            id: Some(String::from_str("root")),
            name: None,
            kind: ObjectKind::Folder,
            parents: Vec::new(),
            trashed: false,
        };
        assert(root.parents.deep_view() =~= Seq::empty());
        root
    }

    /// The identifier under which the children of the object are looked up.
    pub fn id_or_empty(&self) -> (id: String)
        ensures
            id@ == self@.id_or_empty(),
    {
        match &self.id {
            Some(id) => id.clone(),
            None => String::new(),
        }
    }

    /// Whether the object is a folder.
    pub fn is_folder(&self) -> (b: bool)
        ensures
            b == (self@.kind == ObjectKind::Folder),
    {
        match self.kind {
            ObjectKind::Folder => true,
            _ => false,
        }
    }
}

/// A request to the store.
#[derive(Debug, Clone, PartialEq, Eq)]
pub enum Request {
    /// List the children of `parent_id` that are not trashed, those with the
    /// name `name_filter` only where one is given, and no more than `limit` of
    /// them.
    Find { parent_id: String, name_filter: Option<String>, limit: usize },
    /// Create a folder named `name` as a child of `parent_id`.
    CreateFolder { name: String, parent_id: String },
}

/// [`Request`] with its texts as sequences of characters.
pub ghost enum RequestView {
    Find { parent_id: Seq<char>, name_filter: Option<Seq<char>>, limit: usize },
    CreateFolder { name: Seq<char>, parent_id: Seq<char> },
}

impl View for Request {
    type V = RequestView;

    open spec fn view(&self) -> RequestView {
        match *self {
            Request::Find { parent_id, name_filter, limit } => RequestView::Find {
                parent_id: parent_id@,
                name_filter: name_filter.deep_view(),
                limit,
            },
            Request::CreateFolder { name, parent_id } => RequestView::CreateFolder {
                name: name@,
                parent_id: parent_id@,
            },
        }
    }
}

/// What came back from the store.
#[derive(Debug, Clone, PartialEq, Eq)]
pub enum Reply {
    /// The objects that a `Find` lists, in the order of the listing.
    Found(Vec<RemoteObject>),
    /// The folder that a `CreateFolder` made.
    Created(RemoteObject),
    /// The request failed; the text is the store's own.
    Failed(String),
}

/// [`Reply`] with its texts as sequences of characters.
pub ghost enum ReplyView {
    Found(Seq<RemoteObjectView>),
    Created(RemoteObjectView),
    Failed(Seq<char>),
}

impl View for Reply {
    type V = ReplyView;

    open spec fn view(&self) -> ReplyView {
        match *self {
            Reply::Found(objects) => ReplyView::Found(object_views(objects@)),
            Reply::Created(object) => ReplyView::Created(object@),
            Reply::Failed(text) => ReplyView::Failed(text@),
        }
    }
}

/// The query text for the children of `parent_id` that are not trashed.
pub open spec fn children_query_text(parent_id: Seq<char>) -> Seq<char> {
    "'"@ + parent_id + "' in parents and trashed = false"@
}

/// The query text for the children of `parent_id` named `name` that are not
/// trashed.
pub open spec fn name_query_text(parent_id: Seq<char>, name: Seq<char>) -> Seq<char> {
    "'"@ + parent_id + "' in parents and name = '"@ + name + "' and trashed = false"@
}

/// The query that lists the children of `parent_id` that are not trashed.
pub fn children_query(parent_id: &str) -> (query: String)
    ensures
        query@ == children_query_text(parent_id@),
{
    let mut query = String::from_str("'");
    query.append(parent_id);
    query.append("' in parents and trashed = false");
    query
}

/// The query that lists the children of `parent_id` named `name` that are not
/// trashed.
pub fn name_query(parent_id: &str, name: &str) -> (query: String)
    ensures
        query@ == name_query_text(parent_id@, name@),
{
    let mut query = String::from_str("'");
    query.append(parent_id);
    query.append("' in parents and name = '");
    query.append(name);
    query.append("' and trashed = false");
    query
}

impl Request {
    /// The query text of a `Find`; a `CreateFolder` has none.
    pub fn query(&self) -> (query: Option<String>)
        ensures
            query.deep_view() == match self@ {
                RequestView::Find { parent_id, name_filter: Some(name), .. } => Some(
                    name_query_text(parent_id, name),
                ),
                RequestView::Find { parent_id, name_filter: None, .. } => Some(
                    children_query_text(parent_id),
                ),
                RequestView::CreateFolder { .. } => None,
            },
    {
        match self {
            Request::Find { parent_id, name_filter: Some(name), .. } => Some(
                name_query(parent_id.as_str(), name.as_str()),
            ),
            Request::Find { parent_id, name_filter: None, .. } => Some(
                children_query(parent_id.as_str()),
            ),
            Request::CreateFolder { .. } => None,
        }
    }
}

} // verus!
