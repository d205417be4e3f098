//! Error types, and the one-line text that each error is shown as.

use vstd::prelude::*;
use vstd::string::StringExecFns;

verus! {

/// Why a remote path could not be resolved.
#[derive(Debug, Clone, PartialEq, Eq)]
pub enum PathResolutionError {
    /// The path has no segment where one is needed.
    InvalidPath,
    /// The named segment does not exist under the object reached so far.
    NotFound(String),
    /// The store reported a failure; the text is the store's own.
    ApiError(String),
    /// The wildcard segment does not translate into a usable pattern.
    InvalidWildcard(String),
    /// No child matches the wildcard segment.
    NoMatchesFound(String),
    /// The store answered a request to create a folder with something else
    /// than the folder.
    CreateDirectoryError(String),
    /// The store created a folder and returned it without an identifier.
    MissingId,
}

/// [`PathResolutionError`] with its texts as sequences of characters.
pub ghost enum PathResolutionErrorView {
    InvalidPath,
    NotFound(Seq<char>),
    ApiError(Seq<char>),
    InvalidWildcard(Seq<char>),
    NoMatchesFound(Seq<char>),
    CreateDirectoryError(Seq<char>),
    MissingId,
}

impl View for PathResolutionError {
    type V = PathResolutionErrorView;

    open spec fn view(&self) -> PathResolutionErrorView {
        match *self {
            PathResolutionError::InvalidPath => PathResolutionErrorView::InvalidPath,
            PathResolutionError::NotFound(s) => PathResolutionErrorView::NotFound(s@),
            PathResolutionError::ApiError(s) => PathResolutionErrorView::ApiError(s@),
            PathResolutionError::InvalidWildcard(s) => PathResolutionErrorView::InvalidWildcard(s@),
            PathResolutionError::NoMatchesFound(s) => PathResolutionErrorView::NoMatchesFound(s@),
            PathResolutionError::CreateDirectoryError(s) => {
                PathResolutionErrorView::CreateDirectoryError(s@)
            },
            PathResolutionError::MissingId => PathResolutionErrorView::MissingId,
        }
    }
}

impl PathResolutionErrorView {
    /// The line that the error is shown as.
    pub open spec fn message(self) -> Seq<char> {
        match self {
            PathResolutionErrorView::InvalidPath => "Invalid path provided"@,
            PathResolutionErrorView::NotFound(part) => "Path component not found: "@ + part,
            PathResolutionErrorView::ApiError(e) => "API error: "@ + e,
            PathResolutionErrorView::InvalidWildcard(e) => "Invalid wildcard pattern: "@ + e,
            PathResolutionErrorView::NoMatchesFound(pattern) => "No files matching pattern: "@
                + pattern,
            PathResolutionErrorView::CreateDirectoryError(e) => "Failed to create directory: "@
                + e,
            PathResolutionErrorView::MissingId => "Created directory is missing ID"@,
        }
    }
}

/// `prefix` followed by `detail`.
pub fn prefixed(prefix: &str, detail: &str) -> (out: String)
    ensures
        out@ == prefix@ + detail@,
{
    let mut out = String::from_str(prefix);
    out.append(detail);
    out
}

impl PathResolutionError {
    /// The line that the error is shown as.
    pub fn message(&self) -> (text: String)
        ensures
            text@ == self@.message(),
    {
        match self {
            PathResolutionError::InvalidPath => String::from_str("Invalid path provided"),
            PathResolutionError::NotFound(part) => prefixed(
                "Path component not found: ",
                part.as_str(),
            ),
            PathResolutionError::ApiError(e) => prefixed("API error: ", e.as_str()),
            PathResolutionError::InvalidWildcard(e) => prefixed(
                "Invalid wildcard pattern: ",
                e.as_str(),
            ),
            PathResolutionError::NoMatchesFound(pattern) => prefixed(
                "No files matching pattern: ",
                pattern.as_str(),
            ),
            PathResolutionError::CreateDirectoryError(e) => prefixed(
                "Failed to create directory: ",
                e.as_str(),
            ),
            PathResolutionError::MissingId => String::from_str("Created directory is missing ID"),
        }
    }
}

/// Why an upload did not take place or did not finish.
#[derive(Debug, Clone, PartialEq, Eq)]
pub enum Error {
    /// No handle on the store could be had.
    Hub(String),
    FileHelper(String),
    /// The remote destination could not be resolved.
    ResolvePath(PathResolutionError),
    /// Size or type of a local file could not be determined.
    FileInfo(String),
    /// A local file could not be opened: its path, then the reason.
    OpenFile(String, String),
    /// The store refused or failed a transfer.
    Upload(String),
    /// The path is a directory and directories were not asked for.
    IsDirectory(String),
    /// The store created a folder and returned it without an identifier.
    DriveFolderMissingId,
    /// The local directory tree could not be read.
    CreateFileTree(String),
    Mkdir(String),
    /// A broken expectation, such as a reply that answers no request.
    Other(String),
}

/// [`Error`] with its texts as sequences of characters.
pub ghost enum ErrorView {
    Hub(Seq<char>),
    FileHelper(Seq<char>),
    ResolvePath(PathResolutionErrorView),
    FileInfo(Seq<char>),
    OpenFile(Seq<char>, Seq<char>),
    Upload(Seq<char>),
    IsDirectory(Seq<char>),
    DriveFolderMissingId,
    CreateFileTree(Seq<char>),
    Mkdir(Seq<char>),
    Other(Seq<char>),
}

impl View for Error {
    type V = ErrorView;

    open spec fn view(&self) -> ErrorView {
        match *self {
            Error::Hub(s) => ErrorView::Hub(s@),
            Error::FileHelper(s) => ErrorView::FileHelper(s@),
            Error::ResolvePath(e) => ErrorView::ResolvePath(e@),
            Error::FileInfo(s) => ErrorView::FileInfo(s@),
            Error::OpenFile(path, s) => ErrorView::OpenFile(path@, s@),
            Error::Upload(s) => ErrorView::Upload(s@),
            Error::IsDirectory(path) => ErrorView::IsDirectory(path@),
            Error::DriveFolderMissingId => ErrorView::DriveFolderMissingId,
            Error::CreateFileTree(s) => ErrorView::CreateFileTree(s@),
            Error::Mkdir(s) => ErrorView::Mkdir(s@),
            Error::Other(s) => ErrorView::Other(s@),
        }
    }
}

impl ErrorView {
    /// The line that the error is shown as.
    pub open spec fn message(self) -> Seq<char> {
        match self {
            ErrorView::Hub(e) => e,
            ErrorView::FileHelper(e) => e,
            ErrorView::ResolvePath(e) => e.message(),
            ErrorView::FileInfo(e) => e,
            ErrorView::OpenFile(path, e) => "Failed to open file '"@ + path + "': "@ + e,
            ErrorView::Upload(e) => "Failed to upload file: "@ + e,
            ErrorView::IsDirectory(path) => "'"@ + path
                + "' is a directory. Use --recursive to upload directories."@,
            ErrorView::DriveFolderMissingId => "Folder created on drive does not have an id"@,
            ErrorView::CreateFileTree(e) => "Failed to create file tree: "@ + e,
            ErrorView::Mkdir(e) => "Failed to create directory: "@ + e,
            ErrorView::Other(e) => e,
        }
    }

    /// The kind of the error in a few words, whatever its details.
    pub open spec fn description(self) -> Seq<char> {
        match self {
            ErrorView::Hub(_) => "Failed to get hub"@,
            ErrorView::FileHelper(_) => "File helper error"@,
            ErrorView::ResolvePath(_) => "Failed to resolve path"@,
            ErrorView::FileInfo(_) => "Failed to get file info"@,
            ErrorView::Mkdir(_) => "Failed to create directory"@,
            ErrorView::OpenFile(_, _) => "Failed to open file"@,
            ErrorView::Upload(_) => "Failed to upload file"@,
            ErrorView::IsDirectory(_) => "Is a directory"@,
            ErrorView::DriveFolderMissingId => "Drive folder missing id"@,
            ErrorView::CreateFileTree(_) => "Failed to create file tree"@,
            ErrorView::Other(_) => "Other error"@,
        }
    }
}

impl Error {
    /// The line that the error is shown as.
    pub fn message(&self) -> (text: String)
        ensures
            text@ == self@.message(),
    {
        match self {
            Error::Hub(e) => e.clone(),
            Error::FileHelper(e) => e.clone(),
            Error::ResolvePath(e) => e.message(),
            Error::FileInfo(e) => e.clone(),
            Error::OpenFile(path, e) => {
                let mut text = prefixed("Failed to open file '", path.as_str());
                text.append("': ");
                text.append(e.as_str());
                text
            },
            Error::Upload(e) => prefixed("Failed to upload file: ", e.as_str()),
            Error::IsDirectory(path) => {
                let mut text = prefixed("'", path.as_str());
                text.append("' is a directory. Use --recursive to upload directories.");
                text
            },
            Error::DriveFolderMissingId => String::from_str(
                "Folder created on drive does not have an id",
            ),
            Error::CreateFileTree(e) => prefixed("Failed to create file tree: ", e.as_str()),
            Error::Mkdir(e) => prefixed("Failed to create directory: ", e.as_str()),
            Error::Other(e) => e.clone(),
        }
    }

    /// The kind of the error in a few words, whatever its details.
    pub fn description(&self) -> (text: &'static str)
        ensures
            text@ == self@.description(),
    {
        match self {
            Error::Hub(_) => "Failed to get hub",
            Error::FileHelper(_) => "File helper error",
            Error::ResolvePath(_) => "Failed to resolve path",
            Error::FileInfo(_) => "Failed to get file info",
            Error::Mkdir(_) => "Failed to create directory",
            Error::OpenFile(_, _) => "Failed to open file",
            Error::Upload(_) => "Failed to upload file",
            Error::IsDirectory(_) => "Is a directory",
            Error::DriveFolderMissingId => "Drive folder missing id",
            Error::CreateFileTree(_) => "Failed to create file tree",
            Error::Other(_) => "Other error",
        }
    }
}

} // verus!
