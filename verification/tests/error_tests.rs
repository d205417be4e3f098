use gdrive::error::{Error, PathResolutionError};

#[test]
fn path_resolution_error_messages() {
    assert_eq!(PathResolutionError::InvalidPath.message(), "Invalid path provided");
    assert_eq!(
        PathResolutionError::NotFound("docs".to_string()).message(),
        "Path component not found: docs"
    );
    assert_eq!(PathResolutionError::ApiError("boom".to_string()).message(), "API error: boom");
    assert_eq!(
        PathResolutionError::InvalidWildcard("bad".to_string()).message(),
        "Invalid wildcard pattern: bad"
    );
    assert_eq!(
        PathResolutionError::NoMatchesFound("*.jpg".to_string()).message(),
        "No files matching pattern: *.jpg"
    );
    assert_eq!(
        PathResolutionError::CreateDirectoryError("no".to_string()).message(),
        "Failed to create directory: no"
    );
    assert_eq!(PathResolutionError::MissingId.message(), "Created directory is missing ID");
}

#[test]
fn upload_error_messages() {
    assert_eq!(Error::Hub("no hub".to_string()).message(), "no hub");
    assert_eq!(Error::FileHelper("helper".to_string()).message(), "helper");
    assert_eq!(
        Error::ResolvePath(PathResolutionError::NotFound("x".to_string())).message(),
        "Path component not found: x"
    );
    assert_eq!(Error::FileInfo("info".to_string()).message(), "info");
    assert_eq!(
        Error::OpenFile("dir/a.txt".to_string(), "denied".to_string()).message(),
        "Failed to open file 'dir/a.txt': denied"
    );
    assert_eq!(Error::Upload("quota".to_string()).message(), "Failed to upload file: quota");
    assert_eq!(
        Error::IsDirectory("photos".to_string()).message(),
        "'photos' is a directory. Use --recursive to upload directories."
    );
    assert_eq!(
        Error::DriveFolderMissingId.message(),
        "Folder created on drive does not have an id"
    );
    assert_eq!(
        Error::CreateFileTree("gone".to_string()).message(),
        "Failed to create file tree: gone"
    );
    assert_eq!(Error::Mkdir("no".to_string()).message(), "Failed to create directory: no");
    assert_eq!(Error::Other("other".to_string()).message(), "other");
}

#[test]
fn upload_error_descriptions() {
    assert_eq!(Error::Hub(String::new()).description(), "Failed to get hub");
    assert_eq!(Error::FileHelper(String::new()).description(), "File helper error");
    assert_eq!(
        Error::ResolvePath(PathResolutionError::InvalidPath).description(),
        "Failed to resolve path"
    );
    assert_eq!(Error::FileInfo(String::new()).description(), "Failed to get file info");
    assert_eq!(Error::Mkdir(String::new()).description(), "Failed to create directory");
    assert_eq!(
        Error::OpenFile(String::new(), String::new()).description(),
        "Failed to open file"
    );
    assert_eq!(Error::Upload(String::new()).description(), "Failed to upload file");
    assert_eq!(Error::IsDirectory(String::new()).description(), "Is a directory");
    assert_eq!(Error::DriveFolderMissingId.description(), "Drive folder missing id");
    assert_eq!(Error::CreateFileTree(String::new()).description(), "Failed to create file tree");
    assert_eq!(Error::Other(String::new()).description(), "Other error");
}
