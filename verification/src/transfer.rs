//! The transfer of a local directory tree into a remote folder.
//!
//! The transfer has two phases. The first creates one remote folder for each
//! folder of the tree, the root first and every folder after its parent, and
//! records the identifier that the store gives each. The second sends the
//! files: a file that lies directly in the root goes into the destination,
//! every other file into the remote folder recorded for the folder that holds
//! it. Any failure ends the transfer; what was created stays.

use crate::delegate::UploadDelegateConfig;
use crate::error::{Error, ErrorView};
use crate::media_type::{
    choose_media_type,
    chosen_media_type,
    folder_media_type,
    folder_media_type_text,
    sniff_media_type,
    sniffed_media_type,
};
use crate::path::{join_path, joined};
use crate::remote::{RemoteObject, RemoteObjectView};
use crate::tree::{LocalTree, LocalTreeView, TreeInfo};
use crate::upload::{
    request_for,
    upload_file,
    Config,
    ConfigView,
    FileInfo,
    FileInfoView,
    UploadRequest,
    UploadRequestView,
};
use vstd::prelude::*;
use vstd::string::StringExecFns;

verus! {

/// What the transfer asks to have done.
#[derive(Debug, Clone, PartialEq, Eq)]
pub enum TransferRequest {
    /// Create a folder; it has no content.
    CreateFolder(UploadRequest),
    /// Open file `file` of the tree, found at `path` below the root, and
    /// report its length. The file will go into the remote folder
    /// `parent_id`.
    Inspect { file: usize, path: Vec<String>, parent_id: String },
    /// Send the content of file `file` of the tree, found at `path` below the
    /// root, with `request`.
    SendFile { file: usize, path: Vec<String>, request: UploadRequest },
}

pub ghost enum TransferRequestView {
    CreateFolder(UploadRequestView),
    Inspect { file: int, path: Seq<Seq<char>>, parent_id: Seq<char> },
    SendFile { file: int, path: Seq<Seq<char>>, request: UploadRequestView },
}

impl View for TransferRequest {
    type V = TransferRequestView;

    open spec fn view(&self) -> TransferRequestView {
        match *self {
            TransferRequest::CreateFolder(request) => TransferRequestView::CreateFolder(request@),
            TransferRequest::Inspect { file, path, parent_id } => TransferRequestView::Inspect {
                file: file as int,
                path: path.deep_view(),
                parent_id: parent_id@,
            },
            TransferRequest::SendFile { file, path, request } => TransferRequestView::SendFile {
                file: file as int,
                path: path.deep_view(),
                request: request@,
            },
        }
    }
}

/// What came of a request.
#[derive(Debug, Clone, PartialEq, Eq)]
pub enum TransferReply {
    /// The store created the folder or took the file, and returned the object.
    Stored(RemoteObject),
    /// The file was opened: its length in bytes.
    Inspected { size: u64 },
    /// The store or the network failed; the text is theirs.
    GatewayFailed(String),
    /// The local file could not be opened or read; the text says why.
    LocalFailed(String),
}

pub ghost enum TransferReplyView {
    Stored(RemoteObjectView),
    Inspected { size: u64 },
    GatewayFailed(Seq<char>),
    LocalFailed(Seq<char>),
}

impl View for TransferReply {
    type V = TransferReplyView;

    open spec fn view(&self) -> TransferReplyView {
        match *self {
            TransferReply::Stored(object) => TransferReplyView::Stored(object@),
            TransferReply::Inspected { size } => TransferReplyView::Inspected { size },
            TransferReply::GatewayFailed(text) => TransferReplyView::GatewayFailed(text@),
            TransferReply::LocalFailed(text) => TransferReplyView::LocalFailed(text@),
        }
    }
}

/// Which reply the transfer waits for.
#[derive(Debug, Clone, Copy, PartialEq, Eq, Structural)]
pub enum Stage {
    /// The folder that was asked for last.
    Folder,
    /// Length and media type of this file of the tree.
    Inspection(usize),
    /// The object that the store made of this file of the tree.
    Content(usize),
}

pub ghost enum StageView {
    Folder,
    Inspection(int),
    Content(int),
}

impl View for Stage {
    type V = StageView;

    open spec fn view(&self) -> StageView {
        match *self {
            Stage::Folder => StageView::Folder,
            Stage::Inspection(j) => StageView::Inspection(j as int),
            Stage::Content(j) => StageView::Content(j as int),
        }
    }
}

pub ghost struct TransferView {
    pub tree: LocalTreeView,
    /// The remote folder that the root of the tree is created in.
    pub destination: Seq<char>,
    /// The media type to send every file with, where one was asked for.
    pub mime_type: Option<Seq<char>>,
    /// The number of bytes of one chunk.
    pub chunk_size: u64,
    /// The identifiers of the remote folders created so far: the `i`-th is
    /// that of folder `i` of the tree.
    pub folder_ids: Seq<Seq<char>>,
    pub stage: StageView,
}

/// Where the transfer stands after a step.
pub ghost enum TransferStepView {
    /// The request is to be carried out and the transfer advanced with the
    /// reply.
    Pending(TransferView, TransferRequestView),
    /// All folders were created and all files sent.
    Done(TreeInfo),
    Failed(ErrorView),
}

/// The text of the error for a reply that answers another request than the
/// one that was made.
pub open spec fn unexpected_reply_text() -> Seq<char> {
    "Unexpected reply to a transfer request"@
}

/// The text of the error for an upload of a directory that names no remote
/// folder to upload into.
pub open spec fn no_parent_text(root_name: Seq<char>) -> Seq<char> {
    "No parent specified for root directory "@ + root_name
}

/// Counts and total size of a tree.
pub open spec fn info_of(tree: LocalTreeView) -> TreeInfo {
    TreeInfo {
        file_count: tree.files.len() as usize,
        folder_count: tree.folders.len() as usize,
        total_file_size: tree.total_file_size() as u128,
    }
}

impl TransferView {
    /// The folders created so far are folders of the tree; while folders are
    /// created one is still missing, and afterwards none is.
    pub open spec fn wf(self) -> bool {
        &&& self.tree.wf()
        &&& match self.stage {
            StageView::Folder => self.folder_ids.len() < self.tree.folders.len(),
            StageView::Inspection(j) => self.folder_ids.len() == self.tree.folders.len() && 0
                <= j < self.tree.files.len(),
            StageView::Content(j) => self.folder_ids.len() == self.tree.folders.len() && 0 <= j
                < self.tree.files.len(),
        }
    }

    /// The remote folder that folder `k` of the tree is created in: the
    /// destination for the root, else the folder created for its parent.
    pub open spec fn remote_parent_of_folder(self, k: int) -> Seq<char> {
        if k == 0 {
            self.destination
        } else {
            self.folder_ids[self.tree.folders[k].parent->0]
        }
    }

    /// The remote folder that file `j` of the tree is sent into: the
    /// destination for a file that lies directly in the root, else the folder
    /// created for the folder that holds the file.
    pub open spec fn remote_parent_of_file(self, j: int) -> Seq<char> {
        if self.tree.files[j].parent == 0 {
            self.destination
        } else {
            self.folder_ids[self.tree.files[j].parent]
        }
    }

    /// The request that creates the remote folder for folder `k` of the tree.
    pub open spec fn folder_request(self, k: int) -> TransferRequestView {
        TransferRequestView::CreateFolder(
            request_for(
                None,
                FileInfoView {
                    name: self.tree.folders[k].name,
                    mime_type: folder_media_type_text(),
                    parents: Some(seq![self.remote_parent_of_folder(k)]),
                    size: 0,
                },
                self.chunk_size,
            ),
        )
    }

    /// The request to open file `j` of the tree.
    pub open spec fn inspect_request(self, j: int) -> TransferRequestView {
        TransferRequestView::Inspect {
            file: j,
            path: self.tree.file_path(j),
            parent_id: self.remote_parent_of_file(j),
        }
    }

    /// The request that sends file `j` of the tree, found to be `size` bytes
    /// long. The file goes with the media type that was asked for, else with
    /// the one that its name suggests.
    pub open spec fn send_request(self, j: int, size: u64) -> TransferRequestView {
        TransferRequestView::SendFile {
            file: j,
            path: self.tree.file_path(j),
            request: request_for(
                None,
                FileInfoView {
                    name: self.tree.files[j].name,
                    mime_type: chosen_media_type(
                        self.mime_type,
                        sniffed_media_type(self.tree.files[j].name),
                    ),
                    parents: Some(seq![self.remote_parent_of_file(j)]),
                    size,
                },
                self.chunk_size,
            ),
        }
    }

    /// Goes on with folder `k` of the tree, or with the files if there is none.
    pub open spec fn turn_to_folder(self, k: int) -> TransferStepView {
        if k < self.tree.folders.len() {
            TransferStepView::Pending(
                TransferView { stage: StageView::Folder, ..self },
                self.folder_request(k),
            )
        } else {
            self.turn_to_file(0)
        }
    }

    /// Goes on with file `j` of the tree, or ends if there is none.
    pub open spec fn turn_to_file(self, j: int) -> TransferStepView {
        if j < self.tree.files.len() {
            TransferStepView::Pending(
                TransferView { stage: StageView::Inspection(j), ..self },
                self.inspect_request(j),
            )
        } else {
            TransferStepView::Done(info_of(self.tree))
        }
    }

    /// The step that the reply to the pending request leads to.
    pub open spec fn advance(self, reply: TransferReplyView) -> TransferStepView {
        match self.stage {
            StageView::Folder => match reply {
                TransferReplyView::Stored(object) => match object.id {
                    Some(id) => {
                        let recorded = TransferView {
                            folder_ids: self.folder_ids.push(id),
                            ..self
                        };
                        recorded.turn_to_folder(recorded.folder_ids.len() as int)
                    },
                    None => TransferStepView::Failed(ErrorView::DriveFolderMissingId),
                },
                TransferReplyView::GatewayFailed(text) => TransferStepView::Failed(
                    ErrorView::Upload(text),
                ),
                _ => TransferStepView::Failed(ErrorView::Other(unexpected_reply_text())),
            },
            StageView::Inspection(j) => match reply {
                TransferReplyView::Inspected { size } => TransferStepView::Pending(
                    TransferView { stage: StageView::Content(j), ..self },
                    self.send_request(j, size),
                ),
                TransferReplyView::LocalFailed(text) => TransferStepView::Failed(
                    ErrorView::OpenFile(joined(self.tree.file_path(j)), text),
                ),
                _ => TransferStepView::Failed(ErrorView::Other(unexpected_reply_text())),
            },
            StageView::Content(j) => match reply {
                TransferReplyView::Stored(_) => self.turn_to_file(j + 1),
                TransferReplyView::GatewayFailed(text) => TransferStepView::Failed(
                    ErrorView::Upload(text),
                ),
                TransferReplyView::LocalFailed(text) => TransferStepView::Failed(
                    ErrorView::OpenFile(joined(self.tree.file_path(j)), text),
                ),
                _ => TransferStepView::Failed(ErrorView::Other(unexpected_reply_text())),
            },
        }
    }
}

/// The first step of the transfer of `tree` as `config` asks for it.
pub open spec fn begin_transfer(
    tree: LocalTreeView,
    config: ConfigView,
    chunk_size: u64,
) -> TransferStepView {
    match config.destination() {
        Some(destination) => (TransferView {
            tree,
            destination,
            mime_type: config.mime_type,
            chunk_size,
            folder_ids: Seq::empty(),
            stage: StageView::Folder,
        }).turn_to_folder(0),
        None => TransferStepView::Failed(
            ErrorView::Other(no_parent_text(tree.folders[0].name)),
        ),
    }
}

/// A transfer that waits for the reply to its pending request.
#[derive(Debug, PartialEq, Eq)]
pub struct Transfer {
    tree: LocalTree,
    /// The remote folder that the root of the tree is created in.
    destination: String,
    /// The media type to send every file with, where one was asked for.
    mime_type: Option<String>,
    delegate_config: UploadDelegateConfig,
    /// The identifiers of the remote folders created so far, by folder of
    /// the tree: the `i`-th is that of folder `i`. A folder comes after its
    /// parent in the tree, so the identifier of the parent is here before
    /// the folder is asked for.
    folder_ids: Vec<String>,
    stage: Stage,
}

impl View for Transfer {
    type V = TransferView;

    closed spec fn view(&self) -> TransferView {
        TransferView {
            tree: self.tree@,
            destination: self.destination@,
            mime_type: self.mime_type.deep_view(),
            chunk_size: self.delegate_config.chunk_size@,
            folder_ids: self.folder_ids.deep_view(),
            stage: self.stage@,
        }
    }
}

/// Where the transfer stands after a step.
#[derive(Debug, PartialEq, Eq)]
pub enum TransferStep {
    /// The request is to be carried out and the transfer advanced with the
    /// reply.
    Pending(Transfer, TransferRequest),
    /// All folders were created and all files sent.
    Done(TreeInfo),
    Failed(Error),
}

impl View for TransferStep {
    type V = TransferStepView;

    open spec fn view(&self) -> TransferStepView {
        match *self {
            TransferStep::Pending(transfer, request) => TransferStepView::Pending(
                transfer@,
                request@,
            ),
            TransferStep::Done(info) => TransferStepView::Done(info),
            TransferStep::Failed(e) => TransferStepView::Failed(e@),
        }
    }
}

/// A list that holds `text` alone.
fn single(text: String) -> (list: Vec<String>)
    ensures
        list.deep_view() == seq![text@],
{
    let mut list: Vec<String> = Vec::new();
    list.push(text);
    assert(list.deep_view() =~= seq![text@]);
    list
}

fn unexpected_reply() -> (e: Error)
    ensures
        e@ == ErrorView::Other(unexpected_reply_text()),
{
    Error::Other(String::from_str("Unexpected reply to a transfer request"))
}

/// The remote folder for what lies in folder `holder` of the tree: the
/// destination where that is the root, else the folder created for it.
fn remote_parent(destination: &String, folder_ids: &Vec<String>, holder: usize) -> (id: String)
    requires
        holder < folder_ids.len(),
    ensures
        id@ == if holder == 0 {
            destination@
        } else {
            folder_ids.deep_view()[holder as int]
        },
{
    if holder == 0 {
        destination.clone()
    } else {
        assert(folder_ids.deep_view()[holder as int] == folder_ids[holder as int]@);
        folder_ids[holder].clone()
    }
}

impl Transfer {
    #[verifier::type_invariant]
    pub open spec fn well_formed(self) -> bool {
        self@.wf()
    }

    /// The identifier of the remote folder created for folder `i` of the
    /// tree, once it was created.
    pub fn remote_folder(&self, i: usize) -> (id: Option<String>)
        ensures
            id.deep_view() == if i < self@.folder_ids.len() {
                Some(self@.folder_ids[i as int])
            } else {
                None
            },
    {
        if i < self.folder_ids.len() {
            assert(self.folder_ids.deep_view()[i as int] == self.folder_ids[i as int]@);
            Some(self.folder_ids[i].clone())
        } else {
            None
        }
    }

    /// The tree that is transferred.
    pub fn tree(&self) -> (tree: &LocalTree)
        ensures
            tree@ == self@.tree,
    {
        &self.tree
    }

    fn turn_to_file(self, j: usize) -> (step: TransferStep)
        requires
            self@.folder_ids.len() == self@.tree.folders.len(),
            self@.tree.wf(),
        ensures
            step@ == self@.turn_to_file(j as int),
    {
        if j < self.tree.file_count() {
            let Transfer { tree, destination, mime_type, delegate_config, folder_ids, .. } = self;
            let file = tree.file(j).unwrap();
            let request = TransferRequest::Inspect {
                file: j,
                path: tree.file_path(j).unwrap(),
                parent_id: remote_parent(&destination, &folder_ids, file.parent),
            };
            let next = Transfer {
                tree,
                destination,
                mime_type,
                delegate_config,
                folder_ids,
                stage: Stage::Inspection(j),
            };
            TransferStep::Pending(next, request)
        } else {
            TransferStep::Done(self.tree.info())
        }
    }

    /// Takes the reply to the pending request and says how the transfer goes
    /// on.
    pub fn advance(self, reply: TransferReply) -> (step: TransferStep)
        ensures
            step@ == self@.advance(reply@),
    {
        proof {
            use_type_invariant(&self);
        }
        match self.stage {
            Stage::Folder => match reply {
                TransferReply::Stored(object) => match object.id {
                    Some(id) => {
                        let Transfer {
                            tree,
                            destination,
                            mime_type,
                            delegate_config,
                            folder_ids,
                            ..
                        } = self;
                        let mut folder_ids = folder_ids;
                        let ghost before = folder_ids.deep_view();
                        folder_ids.push(id);
                        assert(folder_ids.deep_view() =~= before.push(id@));
                        let k = folder_ids.len();
                        let recorded = RecordedFolders {
                            tree,
                            destination,
                            mime_type,
                            delegate_config,
                            folder_ids,
                        };
                        recorded.go_on(k)
                    },
                    None => TransferStep::Failed(Error::DriveFolderMissingId),
                },
                TransferReply::GatewayFailed(text) => TransferStep::Failed(Error::Upload(text)),
                _ => TransferStep::Failed(unexpected_reply()),
            },
            Stage::Inspection(j) => match reply {
                TransferReply::Inspected { size } => {
                    let Transfer {
                        tree,
                        destination,
                        mime_type,
                        delegate_config,
                        folder_ids,
                        ..
                    } = self;
                    let file = tree.file(j).unwrap();
                    let sniffed = sniff_media_type(file.name.as_str());
                    let parent_id = remote_parent(&destination, &folder_ids, file.parent);
                    let info = FileInfo {
                        name: file.name.clone(),
                        mime_type: choose_media_type(&mime_type, &sniffed),
                        parents: Some(single(parent_id)),
                        size,
                    };
                    let request = TransferRequest::SendFile {
                        file: j,
                        path: tree.file_path(j).unwrap(),
                        request: upload_file(None, info, &delegate_config),
                    };
                    let next = Transfer {
                        tree,
                        destination,
                        mime_type,
                        delegate_config,
                        folder_ids,
                        stage: Stage::Content(j),
                    };
                    TransferStep::Pending(next, request)
                },
                TransferReply::LocalFailed(text) => {
                    let path = self.tree.file_path(j).unwrap();
                    TransferStep::Failed(Error::OpenFile(join_path(&path), text))
                },
                _ => TransferStep::Failed(unexpected_reply()),
            },
            Stage::Content(j) => match reply {
                TransferReply::Stored(_) => {
                    // The tree counts its files in a `usize`, so `j + 1` fits.
                    let _ = self.tree.file_count();
                    self.turn_to_file(j + 1)
                },
                TransferReply::GatewayFailed(text) => TransferStep::Failed(Error::Upload(text)),
                TransferReply::LocalFailed(text) => {
                    let path = self.tree.file_path(j).unwrap();
                    TransferStep::Failed(Error::OpenFile(join_path(&path), text))
                },
                _ => TransferStep::Failed(unexpected_reply()),
            },
        }
    }
}

/// A transfer between two requests for folders: the folder asked for last is
/// recorded, and it is not yet decided what is asked for next.
struct RecordedFolders {
    tree: LocalTree,
    destination: String,
    mime_type: Option<String>,
    delegate_config: UploadDelegateConfig,
    folder_ids: Vec<String>,
}

impl RecordedFolders {
    spec fn view(&self) -> TransferView {
        TransferView {
            tree: self.tree@,
            destination: self.destination@,
            mime_type: self.mime_type.deep_view(),
            chunk_size: self.delegate_config.chunk_size@,
            folder_ids: self.folder_ids.deep_view(),
            stage: StageView::Folder,
        }
    }

    fn go_on(self, k: usize) -> (step: TransferStep)
        requires
            k == self.view().folder_ids.len(),
            k <= self.view().tree.folders.len(),
            self.view().tree.wf(),
        ensures
            step@ == self.view().turn_to_folder(k as int),
    {
        let RecordedFolders { tree, destination, mime_type, delegate_config, folder_ids } = self;
        let ghost view = self.view();
        if k < tree.folder_count() {
            let folder = tree.folder(k).unwrap();
            let parent_id = match folder.parent {
                Some(p) => {
                    assert(view.tree.folders[k as int].parent == Some(p as int));
                    assert(folder_ids.deep_view()[p as int] == folder_ids[p as int]@);
                    folder_ids[p].clone()
                },
                None => destination.clone(),
            };
            assert(parent_id@ == view.remote_parent_of_folder(k as int));
            let info = FileInfo {
                name: folder.name.clone(),
                mime_type: folder_media_type(),
                parents: Some(single(parent_id)),
                size: 0,
            };
            let request = TransferRequest::CreateFolder(upload_file(None, info, &delegate_config));
            let next = Transfer {
                tree,
                destination,
                mime_type,
                delegate_config,
                folder_ids,
                stage: Stage::Folder,
            };
            TransferStep::Pending(next, request)
        } else if 0 < tree.file_count() {
            let waiting = Transfer {
                tree,
                destination,
                mime_type,
                delegate_config,
                folder_ids,
                stage: Stage::Inspection(0),
            };
            waiting.turn_to_file(0)
        } else {
            TransferStep::Done(tree.info())
        }
    }
}

/// Begins the transfer of `tree` into the remote folder that `config` names.
/// The root of the tree is created there as a folder of its own.
pub fn upload_directory(
    tree: LocalTree,
    config: &Config,
    delegate_config: UploadDelegateConfig,
) -> (step: TransferStep)
    ensures
        step@ == begin_transfer(tree@, config@, delegate_config.chunk_size@),
{
    proof {
        use_type_invariant(&tree);
    }
    match config.destination() {
        Some(destination) => {
            let recorded = RecordedFolders {
                tree,
                destination,
                mime_type: config.mime_type.clone(),
                delegate_config,
                folder_ids: Vec::new(),
            };
            assert(recorded.folder_ids.deep_view() =~= Seq::empty());
            recorded.go_on(0)
        },
        None => {
            let root = tree.folder(0).unwrap();
            let mut text = String::from_str("No parent specified for root directory ");
            text.append(root.name.as_str());
            TransferStep::Failed(Error::Other(text))
        },
    }
}

} // verus!

verus! {

/// The step that a transfer has reached when the first `n` of `replies` were
/// taken, each as the reply to the request of the step before. A transfer that
/// has ended stays where it ended.
pub open spec fn step_after(
    start: TransferStepView,
    replies: Seq<TransferReplyView>,
    n: nat,
) -> TransferStepView
    decreases n,
{
    if n == 0 {
        start
    } else {
        match step_after(start, replies, (n - 1) as nat) {
            TransferStepView::Pending(state, _) => state.advance(replies[n - 1]),
            ended => ended,
        }
    }
}

/// The identifier of the object that a reply returns, if it returns one with
/// an identifier.
pub open spec fn stored_id(reply: TransferReplyView) -> Option<Seq<char>> {
    match reply {
        TransferReplyView::Stored(object) => object.id,
        _ => None,
    }
}

/// While folders are created, the `i`-th request is the one for folder `i`,
/// and the identifiers recorded are those that the replies so far returned.
proof fn lemma_folder_phase(
    tree: LocalTreeView,
    config: ConfigView,
    chunk_size: u64,
    replies: Seq<TransferReplyView>,
    i: nat,
)
    requires
        tree.wf(),
        i <= tree.folders.len(),
        step_after(begin_transfer(tree, config, chunk_size), replies, i) is Pending,
    ensures
        config.destination() is Some,
        ({
            let step = step_after(begin_transfer(tree, config, chunk_size), replies, i);
            let state = step->Pending_0;
            &&& state.tree == tree
            &&& state.destination == config.destination()->0
            &&& state.mime_type == config.mime_type
            &&& state.chunk_size == chunk_size
            &&& state.folder_ids.len() == i
            &&& forall|m: int| 0 <= m < i ==> stored_id(replies[m]) == Some(#[trigger] state.folder_ids[m])
            &&& i < tree.folders.len() ==> state.stage == StageView::Folder && step->Pending_1
                == state.folder_request(i as int)
            &&& i == tree.folders.len() ==> state.stage == StageView::Inspection(0) && step->Pending_1
                == state.inspect_request(0)
        }),
    decreases i,
{
    let start = begin_transfer(tree, config, chunk_size);
    if i > 0 {
        let before = step_after(start, replies, (i - 1) as nat);
        assert(before is Pending);
        lemma_folder_phase(tree, config, chunk_size, replies, (i - 1) as nat);
        let state = before->Pending_0;
        let reply = replies[i - 1];
        let step = state.advance(reply);
        assert(step == step_after(start, replies, i));
        let id = stored_id(reply)->0;
        let recorded = TransferView { folder_ids: state.folder_ids.push(id), ..state };
        assert(step == recorded.turn_to_folder(i as int));
        assert forall|m: int| 0 <= m < i implies stored_id(replies[m]) == Some(
            #[trigger] recorded.folder_ids[m],
        ) by {
            if m < i - 1 {
                assert(recorded.folder_ids[m] == state.folder_ids[m]);
            }
        }
    }
}

/// The remote folder that a folder of the tree is created in was itself
/// created before: when the request for folder `k` of the tree is made, the
/// parent that it names is the destination for the root and, for any other
/// folder, the identifier that the store returned for the parent of `k`, in a
/// reply that was taken before the request for `k` was made.
pub proof fn lemma_parent_created_first(
    tree: LocalTreeView,
    config: ConfigView,
    chunk_size: u64,
    replies: Seq<TransferReplyView>,
    k: int,
)
    requires
        tree.wf(),
        0 <= k < tree.folders.len(),
        step_after(begin_transfer(tree, config, chunk_size), replies, k as nat) is Pending,
    ensures
        ({
            let step = step_after(begin_transfer(tree, config, chunk_size), replies, k as nat);
            &&& step->Pending_1 matches TransferRequestView::CreateFolder(request)
            &&& request.name == tree.folders[k].name
            &&& request.mime_type == folder_media_type_text()
            &&& request.size == 0
            &&& k == 0 ==> config.destination() is Some && request.parents == Some(
                seq![config.destination()->0],
            )
            &&& k > 0 ==> {
                let p = tree.folders[k].parent->0;
                &&& 0 <= p < k
                &&& stored_id(replies[p]) is Some
                &&& request.parents == Some(seq![stored_id(replies[p])->0])
            }
        }),
{
    lemma_folder_phase(tree, config, chunk_size, replies, k as nat);
    let step = step_after(begin_transfer(tree, config, chunk_size), replies, k as nat);
    let state = step->Pending_0;
    if k > 0 {
        let p = tree.folders[k].parent->0;
        assert(stored_id(replies[p]) == Some(state.folder_ids[p]));
    }
}

/// While files are sent, the two requests for file `j` of the tree come in
/// turn after those for all folders and all files before it, and nothing that
/// was recorded changes.
proof fn lemma_file_phase(
    tree: LocalTreeView,
    config: ConfigView,
    chunk_size: u64,
    replies: Seq<TransferReplyView>,
    n: nat,
)
    requires
        tree.wf(),
        tree.folders.len() <= n,
        n < tree.folders.len() + 2 * tree.files.len(),
        step_after(begin_transfer(tree, config, chunk_size), replies, n) is Pending,
    ensures
        config.destination() is Some,
        ({
            let step = step_after(begin_transfer(tree, config, chunk_size), replies, n);
            let state = step->Pending_0;
            let j = (n - tree.folders.len()) / 2;
            &&& state.tree == tree
            &&& state.destination == config.destination()->0
            &&& state.mime_type == config.mime_type
            &&& state.chunk_size == chunk_size
            &&& state.folder_ids.len() == tree.folders.len()
            &&& forall|m: int|
                0 <= m < tree.folders.len() ==> stored_id(replies[m]) == Some(
                    #[trigger] state.folder_ids[m],
                )
            &&& (n - tree.folders.len()) % 2 == 0 ==> state.stage == StageView::Inspection(j)
                && step->Pending_1 == state.inspect_request(j)
            &&& (n - tree.folders.len()) % 2 == 1 ==> state.stage == StageView::Content(j)
                && replies[n - 1] is Inspected && step->Pending_1 == state.send_request(
                j,
                replies[n - 1]->size,
            )
            &&& j < tree.files.len()
        }),
    decreases n,
{
    let start = begin_transfer(tree, config, chunk_size);
    if n == tree.folders.len() {
        lemma_folder_phase(tree, config, chunk_size, replies, n);
        let step = step_after(start, replies, n);
    } else {
        let before = step_after(start, replies, (n - 1) as nat);
        assert(before is Pending);
        lemma_file_phase(tree, config, chunk_size, replies, (n - 1) as nat);
        let state = before->Pending_0;
        let step = state.advance(replies[n - 1]);
        assert(step == step_after(start, replies, n));
    }
}

/// The identifier of the remote folder that what lies in folder `holder` of
/// the tree is sent into, when `replies` are the replies that the transfer
/// took: the destination for the root, else the identifier that the store
/// returned for the folder.
pub open spec fn remote_home(
    config: ConfigView,
    replies: Seq<TransferReplyView>,
    holder: int,
) -> Seq<char> {
    if holder == 0 {
        config.destination()->0
    } else {
        stored_id(replies[holder])->0
    }
}

/// No file is sent before the remote folder that it goes into is known: both
/// requests for file `j` of the tree are made after the replies to the
/// requests for all folders were taken. Both name as parent the destination
/// where the file lies directly in the root, and else the identifier that the
/// store returned for the folder of the tree that holds the file.
pub proof fn lemma_file_follows_folder(
    tree: LocalTreeView,
    config: ConfigView,
    chunk_size: u64,
    replies: Seq<TransferReplyView>,
    n: nat,
)
    requires
        tree.wf(),
        tree.folders.len() <= n < tree.folders.len() + 2 * tree.files.len(),
        step_after(begin_transfer(tree, config, chunk_size), replies, n) is Pending,
    ensures
        ({
            let step = step_after(begin_transfer(tree, config, chunk_size), replies, n);
            let j = (n - tree.folders.len()) / 2;
            let holder = tree.files[j].parent;
            &&& 0 <= holder < tree.folders.len()
            &&& config.destination() is Some
            &&& stored_id(replies[holder]) is Some
            &&& match step->Pending_1 {
                TransferRequestView::Inspect { file, path, parent_id } => {
                    &&& (n - tree.folders.len()) % 2 == 0
                    &&& file == j
                    &&& path == tree.file_path(j)
                    &&& parent_id == remote_home(config, replies, holder)
                },
                TransferRequestView::SendFile { file, path, request } => {
                    &&& (n - tree.folders.len()) % 2 == 1
                    &&& file == j
                    &&& path == tree.file_path(j)
                    &&& request.name == tree.files[j].name
                    &&& request.parents == Some(seq![remote_home(config, replies, holder)])
                },
                TransferRequestView::CreateFolder(_) => false,
            }
        }),
{
    lemma_file_phase(tree, config, chunk_size, replies, n);
    let step = step_after(begin_transfer(tree, config, chunk_size), replies, n);
    let state = step->Pending_0;
    let j = (n - tree.folders.len()) / 2;
    let holder = tree.files[j].parent;
    assert(stored_id(replies[holder]) == Some(state.folder_ids[holder]));
}

/// A transfer makes no request beyond one for each folder and two for each
/// file.
proof fn lemma_transfer_ends(
    tree: LocalTreeView,
    config: ConfigView,
    chunk_size: u64,
    replies: Seq<TransferReplyView>,
    n: nat,
)
    requires
        tree.wf(),
        n >= tree.folders.len() + 2 * tree.files.len(),
    ensures
        !(step_after(begin_transfer(tree, config, chunk_size), replies, n) is Pending),
    decreases n,
{
    let start = begin_transfer(tree, config, chunk_size);
    let total = tree.folders.len() + 2 * tree.files.len();
    let before = step_after(start, replies, (n - 1) as nat);
    if n > total {
        lemma_transfer_ends(tree, config, chunk_size, replies, (n - 1) as nat);
    } else if before is Pending {
        if tree.files.len() == 0 {
            lemma_folder_phase(tree, config, chunk_size, replies, (n - 1) as nat);
        } else {
            lemma_file_phase(tree, config, chunk_size, replies, (n - 1) as nat);
        }
    }
}

/// Every file is sent at most once, and once if the transfer gets that far:
/// the requests of a transfer are, in this order, one to create a folder for
/// each folder of the tree, and then for each file of the tree one to open it
/// and one to send it. So the `n`-th request sends a file if and only if it is
/// the second of the two for that file, and after the last of them there is no
/// request.
pub proof fn lemma_each_file_sent_once(
    tree: LocalTreeView,
    config: ConfigView,
    chunk_size: u64,
    replies: Seq<TransferReplyView>,
    n: nat,
)
    requires
        tree.wf(),
        step_after(begin_transfer(tree, config, chunk_size), replies, n) is Pending,
    ensures
        n < tree.folders.len() + 2 * tree.files.len(),
        ({
            let request = step_after(
                begin_transfer(tree, config, chunk_size),
                replies,
                n,
            )->Pending_1;
            let past = n - tree.folders.len();
            &&& request is CreateFolder <==> n < tree.folders.len()
            &&& request is Inspect <==> past >= 0 && past % 2 == 0
            &&& request is SendFile <==> past >= 0 && past % 2 == 1
            &&& request matches TransferRequestView::Inspect { file, .. } ==> file == past / 2
            &&& request matches TransferRequestView::SendFile { file, .. } ==> file == past / 2
        }),
{
    if n >= tree.folders.len() + 2 * tree.files.len() {
        lemma_transfer_ends(tree, config, chunk_size, replies, n);
    } else if n < tree.folders.len() {
        lemma_parent_created_first(tree, config, chunk_size, replies, n as int);
    } else {
        lemma_file_follows_folder(tree, config, chunk_size, replies, n);
    }
}

/// A transfer whose requests are all answered by the store with an object
/// that has an identifier, and by the file system with a length, ends after
/// one request for each folder and two for each file, and reports the counts
/// and the total size of the tree.
pub proof fn lemma_transfer_completes(
    tree: LocalTreeView,
    config: ConfigView,
    chunk_size: u64,
    replies: Seq<TransferReplyView>,
)
    requires
        tree.wf(),
        config.destination() is Some,
        replies.len() == tree.folders.len() + 2 * tree.files.len(),
        forall|m: int| 0 <= m < tree.folders.len() ==> stored_id(#[trigger] replies[m]) is Some,
        forall|j: int|
            0 <= j < tree.files.len() ==> (#[trigger] replies[tree.folders.len() + 2 * j])
                is Inspected,
        forall|j: int|
            0 <= j < tree.files.len() ==> (#[trigger] replies[tree.folders.len() + 2 * j + 1])
                is Stored,
    ensures
        forall|n: nat|
            n < replies.len() ==> #[trigger] step_after(
                begin_transfer(tree, config, chunk_size),
                replies,
                n,
            ) is Pending,
        step_after(begin_transfer(tree, config, chunk_size), replies, replies.len())
            == TransferStepView::Done(info_of(tree)),
{
    let start = begin_transfer(tree, config, chunk_size);
    assert forall|n: nat| n < replies.len() implies #[trigger] step_after(start, replies, n)
        is Pending by {
        lemma_stays_pending(tree, config, chunk_size, replies, n);
    }
    let last = (replies.len() - 1) as nat;
    lemma_stays_pending(tree, config, chunk_size, replies, last);
    let before = step_after(start, replies, last);
    let state = before->Pending_0;
    assert(step_after(start, replies, replies.len()) == state.advance(replies[last as int]));
    if tree.files.len() == 0 {
        lemma_folder_phase(tree, config, chunk_size, replies, last);
    } else {
        lemma_file_phase(tree, config, chunk_size, replies, last);
        let j = tree.files.len() - 1;
        assert(replies[tree.folders.len() + 2 * j + 1] is Stored);
    }
}

proof fn lemma_stays_pending(
    tree: LocalTreeView,
    config: ConfigView,
    chunk_size: u64,
    replies: Seq<TransferReplyView>,
    n: nat,
)
    requires
        tree.wf(),
        config.destination() is Some,
        replies.len() == tree.folders.len() + 2 * tree.files.len(),
        forall|m: int| 0 <= m < tree.folders.len() ==> stored_id(#[trigger] replies[m]) is Some,
        forall|j: int|
            0 <= j < tree.files.len() ==> (#[trigger] replies[tree.folders.len() + 2 * j])
                is Inspected,
        forall|j: int|
            0 <= j < tree.files.len() ==> (#[trigger] replies[tree.folders.len() + 2 * j + 1])
                is Stored,
        n < replies.len(),
    ensures
        step_after(begin_transfer(tree, config, chunk_size), replies, n) is Pending,
    decreases n,
{
    let start = begin_transfer(tree, config, chunk_size);
    if n > 0 {
        lemma_stays_pending(tree, config, chunk_size, replies, (n - 1) as nat);
        let before = step_after(start, replies, (n - 1) as nat);
        let state = before->Pending_0;
        if n - 1 < tree.folders.len() {
            lemma_folder_phase(tree, config, chunk_size, replies, (n - 1) as nat);
            assert(stored_id(replies[n - 1]) is Some);
        } else {
            lemma_file_phase(tree, config, chunk_size, replies, (n - 1) as nat);
            let j = (n - 1 - tree.folders.len()) / 2;
            if (n - 1 - tree.folders.len()) % 2 == 0 {
                assert(replies[tree.folders.len() + 2 * j] is Inspected);
            } else {
                assert(replies[tree.folders.len() + 2 * j + 1] is Stored);
            }
        }
    }
}

} // verus!
