//! What an upload is asked to do, and the request that one object is sent with.

use crate::delegate::{BackoffConfig, ChunkSize, UploadDelegateConfig};
use crate::error::{Error, ErrorView};
use crate::media_type::{
    choose_media_type,
    chosen_media_type,
    sniff_media_type,
    sniffed_media_type,
};
use crate::path::{file_name, path_segments};
use vstd::prelude::*;

verus! {

/// What the command line asks of an upload.
#[derive(Debug, PartialEq, Eq)]
pub struct Config {
    /// The local file or directory.
    pub file_path: String,
    /// The media type to send every file with, where one was asked for.
    pub mime_type: Option<String>,
    /// Identifiers of the remote folders to upload into; the first one counts.
    pub parents: Option<Vec<String>>,
    pub chunk_size: ChunkSize,
    pub print_chunk_errors: bool,
    pub print_chunk_info: bool,
    /// Whether a directory may be uploaded, with all that lies below it.
    pub upload_directories: bool,
    pub print_only_id: bool,
}

pub ghost struct ConfigView {
    pub file_path: Seq<char>,
    pub mime_type: Option<Seq<char>>,
    pub parents: Option<Seq<Seq<char>>>,
    pub chunk_size: u64,
    pub print_chunk_errors: bool,
    pub print_chunk_info: bool,
    pub upload_directories: bool,
    pub print_only_id: bool,
}

impl View for Config {
    type V = ConfigView;

    open spec fn view(&self) -> ConfigView {
        ConfigView {
            file_path: self.file_path@,
            mime_type: self.mime_type.deep_view(),
            parents: self.parents.deep_view(),
            chunk_size: self.chunk_size@,
            print_chunk_errors: self.print_chunk_errors,
            print_chunk_info: self.print_chunk_info,
            upload_directories: self.upload_directories,
            print_only_id: self.print_only_id,
        }
    }
}

impl ConfigView {
    /// The remote folder to upload into, where one is given.
    pub open spec fn destination(self) -> Option<Seq<char>> {
        match self.parents {
            Some(parents) => if parents.len() > 0 {
                Some(parents[0])
            } else {
                None
            },
            None => None,
        }
    }
}

impl Config {
    /// The same configuration with `remote_path` as its only parent, where one
    /// is given; unchanged where none is.
    pub fn with_remote_path(self, remote_path: Option<String>) -> (config: Config)
        ensures
            config@ == match remote_path {
                Some(parent) => ConfigView { parents: Some(seq![parent@]), ..self@ },
                None => self@,
            },
    {
        let mut config = self;
        if let Some(parent) = remote_path {
            let mut parents: Vec<String> = Vec::new();
            parents.push(parent);
            assert(parents.deep_view() =~= seq![parent@]);
            config.parents = Some(parents);
        }
        config
    }

    /// The remote folder to upload into, where one is given.
    pub fn destination(&self) -> (parent: Option<String>)
        ensures
            parent.deep_view() == self@.destination(),
    {
        match &self.parents {
            Some(parents) => {
                if parents.len() > 0 {
                    assert(parents.deep_view()[0] == parents[0]@);
                    Some(parents[0].clone())
                } else {
                    None
                }
            },
            None => None,
        }
    }

    /// How the transfers of this upload are carried out.
    pub fn delegate_config(&self) -> (delegate: UploadDelegateConfig)
        ensures
            delegate.chunk_size@ == self@.chunk_size,
            delegate.backoff_config == (BackoffConfig {
                max_retries: 100000,
                min_sleep: 1,
                max_sleep: 60,
            }),
            delegate.print_chunk_errors == self.print_chunk_errors,
            delegate.print_chunk_info == self.print_chunk_info,
    {
        UploadDelegateConfig {
            chunk_size: self.chunk_size.duplicate(),
            backoff_config: BackoffConfig::for_upload(),
            print_chunk_errors: self.print_chunk_errors,
            print_chunk_info: self.print_chunk_info,
        }
    }
}

/// What is known of one object before it is sent.
#[derive(Debug, Clone, PartialEq, Eq)]
pub struct FileInfo {
    pub name: String,
    pub mime_type: String,
    pub parents: Option<Vec<String>>,
    /// The number of bytes of content; 0 for a folder.
    pub size: u64,
}

pub ghost struct FileInfoView {
    pub name: Seq<char>,
    pub mime_type: Seq<char>,
    pub parents: Option<Seq<Seq<char>>>,
    pub size: u64,
}

impl View for FileInfo {
    type V = FileInfoView;

    open spec fn view(&self) -> FileInfoView {
        FileInfoView {
            name: self.name@,
            mime_type: self.mime_type@,
            parents: self.parents.deep_view(),
            size: self.size,
        }
    }
}

/// How the content of an object travels.
#[derive(Debug, Clone, Copy, PartialEq, Eq, Structural)]
pub enum UploadMode {
    /// In one piece.
    Simple,
    /// In chunks, so that a transfer that breaks off can go on from the last
    /// chunk that the store acknowledged.
    Resumable,
}

/// A content of at most one chunk travels in one piece, a longer one in chunks.
pub open spec fn upload_mode(size: u64, chunk_bytes: u64) -> UploadMode {
    if size > chunk_bytes {
        UploadMode::Resumable
    } else {
        UploadMode::Simple
    }
}

/// The request to create or update one object of the store.
#[derive(Debug, Clone, PartialEq, Eq)]
pub struct UploadRequest {
    /// The identifier of the object to update; `None` to create one.
    pub id: Option<String>,
    pub name: String,
    pub mime_type: String,
    pub parents: Option<Vec<String>>,
    /// The number of bytes of content.
    pub size: u64,
    pub mode: UploadMode,
    /// The number of bytes of one chunk.
    pub chunk_size: u64,
}

pub ghost struct UploadRequestView {
    pub id: Option<Seq<char>>,
    pub name: Seq<char>,
    pub mime_type: Seq<char>,
    pub parents: Option<Seq<Seq<char>>>,
    pub size: u64,
    pub mode: UploadMode,
    pub chunk_size: u64,
}

impl View for UploadRequest {
    type V = UploadRequestView;

    open spec fn view(&self) -> UploadRequestView {
        UploadRequestView {
            id: self.id.deep_view(),
            name: self.name@,
            mime_type: self.mime_type@,
            parents: self.parents.deep_view(),
            size: self.size,
            mode: self.mode,
            chunk_size: self.chunk_size,
        }
    }
}

/// The request that an object described by `info` is sent with.
pub open spec fn request_for(
    id: Option<Seq<char>>,
    info: FileInfoView,
    chunk_bytes: u64,
) -> UploadRequestView {
    UploadRequestView {
        id,
        name: info.name,
        mime_type: info.mime_type,
        parents: info.parents,
        size: info.size,
        mode: upload_mode(info.size, chunk_bytes),
        chunk_size: chunk_bytes,
    }
}

/// The request that creates the object described by `file_info`, or updates
/// the object `file_id` to it.
pub fn upload_file(
    file_id: Option<String>,
    file_info: FileInfo,
    delegate_config: &UploadDelegateConfig,
) -> (request: UploadRequest)
    ensures
        request@ == request_for(file_id.deep_view(), file_info@, delegate_config.chunk_size@),
{
    let chunk_size = delegate_config.chunk_size.in_bytes();
    let mode = if file_info.size > chunk_size {
        UploadMode::Resumable
    } else {
        UploadMode::Simple
    };
    UploadRequest {
        id: file_id,
        name: file_info.name,
        mime_type: file_info.mime_type,
        parents: file_info.parents,
        size: file_info.size,
        mode,
        chunk_size,
    }
}

/// Which of the two uploads a path calls for.
#[derive(Debug, Clone, Copy, PartialEq, Eq, Structural)]
pub enum UploadKind {
    /// One file.
    Regular,
    /// A directory with all that lies below it.
    Directory,
}

/// Decides what to upload. `is_directory` says whether the path of the
/// configuration leads to a directory. A directory is uploaded only where
/// directories were asked for.
pub fn upload(config: &Config, is_directory: bool) -> (plan: Result<
    (UploadKind, UploadDelegateConfig),
    Error,
>)
    ensures
        match plan {
            Ok((kind, delegate)) => {
                &&& kind == if is_directory {
                    UploadKind::Directory
                } else {
                    UploadKind::Regular
                }
                &&& is_directory ==> config.upload_directories
                &&& delegate.chunk_size@ == config@.chunk_size
                &&& delegate.backoff_config == (BackoffConfig {
                    max_retries: 100000,
                    min_sleep: 1,
                    max_sleep: 60,
                })
                &&& delegate.print_chunk_errors == config.print_chunk_errors
                &&& delegate.print_chunk_info == config.print_chunk_info
            },
            Err(e) => {
                &&& is_directory && !config.upload_directories
                &&& e@ == ErrorView::IsDirectory(config@.file_path)
            },
        },
{
    let delegate = config.delegate_config();
    match err_if_directory(config, is_directory) {
        Err(e) => Err(e),
        Ok(()) => {
            if is_directory {
                Ok((UploadKind::Directory, delegate))
            } else {
                Ok((UploadKind::Regular, delegate))
            }
        },
    }
}

/// Refuses a directory where directories were not asked for.
pub fn err_if_directory(config: &Config, is_directory: bool) -> (checked: Result<(), Error>)
    ensures
        checked is Err <==> is_directory && !config.upload_directories,
        checked is Err ==> checked->Err_0@ == ErrorView::IsDirectory(config@.file_path),
{
    if is_directory && !config.upload_directories {
        Err(Error::IsDirectory(config.file_path.clone()))
    } else {
        Ok(())
    }
}

/// What is known of the file of `config` once it was opened: the name is the
/// last segment of the path, the media type the one asked for, else the one
/// that the name suggests.
pub open spec fn regular_file_info(config: ConfigView, size: u64) -> FileInfoView {
    let name = path_segments(config.file_path).last();
    FileInfoView {
        name,
        mime_type: chosen_media_type(config.mime_type, sniffed_media_type(name)),
        parents: config.parents,
        size,
    }
}

/// The request that sends the single file of `config`. `size` is the length of
/// the file as found when it was opened. A path without a name gives no
/// request.
pub fn upload_regular(
    config: &Config,
    size: u64,
    delegate_config: &UploadDelegateConfig,
) -> (request: Result<UploadRequest, Error>)
    ensures
        match request {
            Ok(request) => {
                &&& path_segments(config@.file_path).len() > 0
                &&& request@ == request_for(
                    None,
                    regular_file_info(config@, size),
                    delegate_config.chunk_size@,
                )
            },
            Err(e) => {
                &&& path_segments(config@.file_path).len() == 0
                &&& e@ == ErrorView::FileInfo(config@.file_path)
            },
        },
{
    match file_name(config.file_path.as_str()) {
        Some(name) => {
            let parents = clone_parents(&config.parents);
            let sniffed = sniff_media_type(name.as_str());
            let file_info = FileInfo {
                name,
                mime_type: choose_media_type(&config.mime_type, &sniffed),
                parents,
                size,
            };
            Ok(upload_file(None, file_info, delegate_config))
        },
        None => Err(Error::FileInfo(config.file_path.clone())),
    }
}

/// A copy of a list of texts.
pub fn clone_texts(texts: &Vec<String>) -> (copy: Vec<String>)
    ensures
        copy.deep_view() == texts.deep_view(),
{
    let mut copy: Vec<String> = Vec::new();
    let mut i: usize = 0;
    while i < texts.len()
        invariant
            i <= texts.len(),
            copy.len() == i,
            forall|k: int| 0 <= k < i ==> copy[k]@ == texts[k]@,
        decreases texts.len() - i,
    {
        copy.push(texts[i].clone());
        i = i + 1;
    }
    assert(copy.deep_view() =~= texts.deep_view());
    copy
}

/// A copy of an optional list of texts.
pub fn clone_parents(parents: &Option<Vec<String>>) -> (copy: Option<Vec<String>>)
    ensures
        copy.deep_view() == parents.deep_view(),
{
    match parents {
        Some(texts) => Some(clone_texts(texts)),
        None => None,
    }
}

} // verus!
