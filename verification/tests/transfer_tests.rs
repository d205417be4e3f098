use gdrive::delegate::{ChunkSize, UploadDelegateConfig};
use gdrive::error::Error;
use gdrive::remote::{ObjectKind, RemoteObject};
use gdrive::transfer::{upload_directory, TransferReply, TransferRequest, TransferStep};
use gdrive::tree::{LocalTree, ScanEntry, TreeInfo};
use gdrive::upload::{Config, UploadMode, UploadRequest};

const FOLDER: &str = "application/vnd.google-apps.folder";

fn dir(parent: Option<usize>, name: &str) -> ScanEntry {
    ScanEntry { parent, name: name.to_string(), is_dir: true, size: 0 }
}

fn file(parent: Option<usize>, name: &str, size: u64) -> ScanEntry {
    ScanEntry { parent, name: name.to_string(), is_dir: false, size }
}

fn config(parents: Option<Vec<String>>, mime_type: Option<String>) -> Config {
    Config {
        file_path: "root".to_string(),
        mime_type,
        parents,
        chunk_size: ChunkSize::from_mb(1).unwrap(),
        print_chunk_errors: false,
        print_chunk_info: false,
        upload_directories: true,
        print_only_id: false,
    }
}

fn delegate(config: &Config) -> UploadDelegateConfig {
    config.delegate_config()
}

fn stored(id: Option<&str>, request: &UploadRequest) -> RemoteObject {
    RemoteObject {
        id: id.map(|s| s.to_string()),
        name: Some(request.name.clone()),
        kind: if request.mime_type == FOLDER { ObjectKind::Folder } else { ObjectKind::File },
        parents: request.parents.clone().unwrap_or_default(),
        trashed: false,
    }
}

/// What a store that takes everything has seen of a transfer.
struct Record {
    folders: Vec<UploadRequest>,
    files: Vec<(Vec<String>, UploadRequest)>,
    inspected: Vec<(usize, Vec<String>, String)>,
    order: Vec<String>,
}

fn run(mut step: TransferStep, sizes: &[u64]) -> (Result<TreeInfo, Error>, Record) {
    let mut record =
        Record { folders: Vec::new(), files: Vec::new(), inspected: Vec::new(), order: Vec::new() };
    let mut made = 0;
    loop {
        match step {
            TransferStep::Pending(transfer, request) => {
                let reply = match request {
                    TransferRequest::CreateFolder(request) => {
                        made += 1;
                        record.order.push(format!("folder {}", request.name));
                        let object = stored(Some(&format!("F{}", made)), &request);
                        record.folders.push(request);
                        TransferReply::Stored(object)
                    }
                    TransferRequest::Inspect { file, path, parent_id } => {
                        record.inspected.push((file, path, parent_id));
                        TransferReply::Inspected { size: sizes[file] }
                    }
                    TransferRequest::SendFile { file: _, path, request } => {
                        made += 1;
                        record.order.push(format!("file {}", request.name));
                        let object = stored(Some(&format!("f{}", made)), &request);
                        record.files.push((path, request));
                        TransferReply::Stored(object)
                    }
                };
                step = transfer.advance(reply);
            }
            TransferStep::Done(info) => return (Ok(info), record),
            TransferStep::Failed(e) => return (Err(e), record),
        }
    }
}

fn small_tree() -> LocalTree {
    // root/{a.txt (5 bytes), sub/{b.txt (10 bytes)}}
    let entries = vec![file(None, "a.txt", 5), dir(None, "sub"), file(Some(1), "b.txt", 10)];
    LocalTree::build("root".to_string(), &entries).unwrap()
}

#[test]
fn end_to_end_directory_transfer() {
    let tree = small_tree();
    let before = tree.info();
    assert_eq!(before, TreeInfo { file_count: 2, folder_count: 2, total_file_size: 15 });

    let config = config(Some(vec!["P".to_string()]), None);
    let (outcome, record) = run(upload_directory(tree, &config, delegate(&config)), &[5, 10]);

    // Two folders are asked for: the root of the tree in the destination, and
    // `sub` in the folder that the store returned for the root.
    assert_eq!(record.folders.len(), 2);
    assert_eq!(record.folders[0].name, "root");
    assert_eq!(record.folders[0].parents, Some(vec!["P".to_string()]));
    assert_eq!(record.folders[1].name, "sub");
    assert_eq!(record.folders[1].parents, Some(vec!["F1".to_string()]));
    for folder in &record.folders {
        assert_eq!(folder.mime_type, FOLDER);
        assert_eq!(folder.size, 0);
        assert_eq!(folder.id, None);
    }

    // Two files are sent: `a.txt`, which lies directly in the root, into the
    // destination, `b.txt` into the new folder `sub`.
    assert_eq!(record.files.len(), 2);
    assert_eq!(record.files[0].0, vec!["a.txt".to_string()]);
    assert_eq!(record.files[0].1.name, "a.txt");
    assert_eq!(record.files[0].1.parents, Some(vec!["P".to_string()]));
    assert_eq!(record.files[0].1.size, 5);
    assert_eq!(record.files[1].0, vec!["sub".to_string(), "b.txt".to_string()]);
    assert_eq!(record.files[1].1.name, "b.txt");
    assert_eq!(record.files[1].1.parents, Some(vec!["F2".to_string()]));
    assert_eq!(record.files[1].1.size, 10);

    // Folders come before files.
    assert_eq!(
        record.order,
        vec![
            "folder root".to_string(),
            "folder sub".to_string(),
            "file a.txt".to_string(),
            "file b.txt".to_string()
        ]
    );

    // The report after the transfer is the one from before it.
    assert_eq!(outcome, Ok(TreeInfo { file_count: 2, folder_count: 2, total_file_size: 15 }));
}

#[test]
fn every_folder_is_created_in_the_folder_made_for_its_parent() {
    // root/{a/{b/{c/}}, d/{e/}}
    let entries = vec![
        dir(None, "a"),
        dir(Some(0), "b"),
        dir(Some(1), "c"),
        dir(None, "d"),
        dir(Some(3), "e"),
    ];
    let tree = LocalTree::build("root".to_string(), &entries).unwrap();
    let config = config(Some(vec!["dest".to_string()]), None);
    let (outcome, record) = run(upload_directory(tree, &config, delegate(&config)), &[]);
    assert!(outcome.is_ok());
    let seen: Vec<(String, String)> = record
        .folders
        .iter()
        .map(|r| (r.name.clone(), r.parents.clone().unwrap()[0].clone()))
        .collect();
    assert_eq!(
        seen,
        vec![
            ("root".to_string(), "dest".to_string()),
            ("a".to_string(), "F1".to_string()),
            ("b".to_string(), "F2".to_string()),
            ("c".to_string(), "F3".to_string()),
            ("d".to_string(), "F1".to_string()),
            ("e".to_string(), "F5".to_string()),
        ]
    );
}

#[test]
fn an_empty_directory_gives_one_folder_and_no_file() {
    let tree = LocalTree::build("empty".to_string(), &Vec::new()).unwrap();
    let config = config(Some(vec!["P".to_string()]), None);
    let (outcome, record) = run(upload_directory(tree, &config, delegate(&config)), &[]);
    assert_eq!(outcome, Ok(TreeInfo { file_count: 0, folder_count: 1, total_file_size: 0 }));
    assert_eq!(record.folders.len(), 1);
    assert!(record.files.is_empty());
}

#[test]
fn files_are_inspected_before_they_are_sent() {
    let config = config(Some(vec!["P".to_string()]), None);
    let (_, record) = run(upload_directory(small_tree(), &config, delegate(&config)), &[5, 10]);
    assert_eq!(
        record.inspected,
        vec![
            (0, vec!["a.txt".to_string()], "P".to_string()),
            (1, vec!["sub".to_string(), "b.txt".to_string()], "F2".to_string()),
        ]
    );
}

#[test]
fn a_file_is_sent_with_the_size_found_when_it_was_opened() {
    let config = config(Some(vec!["P".to_string()]), None);
    // The files grew since the directory was walked.
    let (_, record) =
        run(upload_directory(small_tree(), &config, delegate(&config)), &[1048576, 1048577]);
    assert_eq!(record.files[0].1.size, 1048576);
    assert_eq!(record.files[0].1.mode, UploadMode::Simple);
    assert_eq!(record.files[1].1.size, 1048577);
    assert_eq!(record.files[1].1.mode, UploadMode::Resumable);
    assert_eq!(record.files[1].1.chunk_size, 1048576);
}

#[test]
fn a_file_is_sent_with_the_type_that_was_asked_for() {
    let config = config(Some(vec!["P".to_string()]), Some("text/plain".to_string()));
    let (_, record) = run(upload_directory(small_tree(), &config, delegate(&config)), &[5, 10]);
    assert_eq!(record.files[0].1.mime_type, "text/plain");
    assert_eq!(record.files[1].1.mime_type, "text/plain");
    // Folders keep the type of a folder.
    assert_eq!(record.folders[0].mime_type, FOLDER);
}

fn first_request(step: TransferStep) -> (gdrive::transfer::Transfer, TransferRequest) {
    match step {
        TransferStep::Pending(transfer, request) => (transfer, request),
        other => panic!("expected a request, got {:?}", other),
    }
}

#[test]
fn a_file_is_sent_with_the_type_that_its_name_suggests() {
    let entries = vec![file(None, "a.txt", 5)];
    let tree = LocalTree::build("root".to_string(), &entries).unwrap();
    let config = config(Some(vec!["P".to_string()]), None);
    let (transfer, request) = first_request(upload_directory(tree, &config, delegate(&config)));
    let root = match request {
        TransferRequest::CreateFolder(request) => stored(Some("R"), &request),
        other => panic!("expected a folder, got {:?}", other),
    };
    let (transfer, _) = first_request(transfer.advance(TransferReply::Stored(root)));
    let (_, request) = first_request(transfer.advance(TransferReply::Inspected { size: 5 }));
    match request {
        TransferRequest::SendFile { file, path, request } => {
            assert_eq!(file, 0);
            assert_eq!(path, vec!["a.txt".to_string()]);
            assert_eq!(request.mime_type, "text/plain");
            assert_eq!(request.parents, Some(vec!["P".to_string()]));
        }
        other => panic!("expected a file, got {:?}", other),
    }
}

#[test]
fn a_file_of_unknown_type_is_sent_as_arbitrary_bytes() {
    let entries = vec![file(None, "README", 5), file(None, "data.no-such-extension", 5)];
    let tree = LocalTree::build("root".to_string(), &entries).unwrap();
    let config = config(Some(vec!["P".to_string()]), None);
    let (_, record) = run(upload_directory(tree, &config, delegate(&config)), &[5, 5]);
    assert_eq!(record.files[0].1.mime_type, "application/octet-stream");
    assert_eq!(record.files[1].1.mime_type, "application/octet-stream");
}

#[test]
fn a_transfer_without_destination_fails_at_once() {
    for parents in [None, Some(Vec::new())] {
        let config = config(parents, None);
        match upload_directory(small_tree(), &config, delegate(&config)) {
            TransferStep::Failed(e) => assert_eq!(
                e,
                Error::Other("No parent specified for root directory root".to_string())
            ),
            other => panic!("expected a failure, got {:?}", other),
        }
    }
}

#[test]
fn a_folder_without_identifier_ends_the_transfer() {
    let config = config(Some(vec!["P".to_string()]), None);
    let (transfer, request) =
        first_request(upload_directory(small_tree(), &config, delegate(&config)));
    let nameless = match request {
        TransferRequest::CreateFolder(request) => stored(None, &request),
        other => panic!("expected a folder, got {:?}", other),
    };
    match transfer.advance(TransferReply::Stored(nameless)) {
        TransferStep::Failed(e) => assert_eq!(e, Error::DriveFolderMissingId),
        other => panic!("expected a failure, got {:?}", other),
    }
}

#[test]
fn a_failure_of_the_store_ends_the_transfer_before_any_file() {
    let config = config(Some(vec!["P".to_string()]), None);
    let (transfer, _) = first_request(upload_directory(small_tree(), &config, delegate(&config)));
    match transfer.advance(TransferReply::GatewayFailed("quota exceeded".to_string())) {
        TransferStep::Failed(e) => assert_eq!(e, Error::Upload("quota exceeded".to_string())),
        other => panic!("expected a failure, got {:?}", other),
    }
}

fn at_first_file() -> gdrive::transfer::Transfer {
    let config = config(Some(vec!["P".to_string()]), None);
    let mut step = upload_directory(small_tree(), &config, delegate(&config));
    let mut folders = 0;
    loop {
        match step {
            TransferStep::Pending(transfer, TransferRequest::CreateFolder(request)) => {
                folders += 1;
                let made = stored(Some(&format!("F{}", folders)), &request);
                step = transfer.advance(TransferReply::Stored(made));
            }
            TransferStep::Pending(transfer, TransferRequest::Inspect { .. }) => return transfer,
            other => panic!("expected a folder or an inspection, got {:?}", other),
        }
    }
}

#[test]
fn a_file_that_cannot_be_opened_ends_the_transfer() {
    let transfer = at_first_file();
    match transfer.advance(TransferReply::LocalFailed("No such file".to_string())) {
        TransferStep::Failed(e) => {
            assert_eq!(e, Error::OpenFile("a.txt".to_string(), "No such file".to_string()))
        }
        other => panic!("expected a failure, got {:?}", other),
    }
}

#[test]
fn a_file_that_the_store_refuses_ends_the_transfer() {
    let transfer = at_first_file();
    let (transfer, _) =
        first_request(transfer.advance(TransferReply::Inspected { size: 5 }));
    match transfer.advance(TransferReply::GatewayFailed("403".to_string())) {
        TransferStep::Failed(e) => assert_eq!(e, Error::Upload("403".to_string())),
        other => panic!("expected a failure, got {:?}", other),
    }
}

#[test]
fn a_reply_that_answers_another_request_ends_the_transfer() {
    let unexpected = Error::Other("Unexpected reply to a transfer request".to_string());
    let config = config(Some(vec!["P".to_string()]), None);
    let (transfer, _) = first_request(upload_directory(small_tree(), &config, delegate(&config)));
    match transfer.advance(TransferReply::Inspected { size: 1 }) {
        TransferStep::Failed(e) => assert_eq!(e, unexpected),
        other => panic!("expected a failure, got {:?}", other),
    }
    let transfer = at_first_file();
    let object = RemoteObject {
        id: Some("x".to_string()),
        name: None,
        kind: ObjectKind::File,
        parents: Vec::new(),
        trashed: false,
    };
    match transfer.advance(TransferReply::Stored(object)) {
        TransferStep::Failed(e) => assert_eq!(e, unexpected),
        other => panic!("expected a failure, got {:?}", other),
    }
    let transfer = at_first_file();
    let (transfer, _) =
        first_request(transfer.advance(TransferReply::Inspected { size: 5 }));
    match transfer.advance(TransferReply::Inspected { size: 5 }) {
        TransferStep::Failed(e) => assert_eq!(e, unexpected),
        other => panic!("expected a failure, got {:?}", other),
    }
}

#[test]
fn a_file_that_vanishes_before_it_is_sent_ends_the_transfer() {
    let transfer = at_first_file();
    let (transfer, _) =
        first_request(transfer.advance(TransferReply::Inspected { size: 5 }));
    match transfer.advance(TransferReply::LocalFailed("No such file".to_string())) {
        TransferStep::Failed(e) => {
            assert_eq!(e, Error::OpenFile("a.txt".to_string(), "No such file".to_string()))
        }
        other => panic!("expected a failure, got {:?}", other),
    }
}

#[test]
fn the_transfer_remembers_the_folders_it_made() {
    let transfer = at_first_file();
    assert_eq!(transfer.remote_folder(0), Some("F1".to_string()));
    assert_eq!(transfer.remote_folder(1), Some("F2".to_string()));
    assert_eq!(transfer.remote_folder(2), None);
    assert_eq!(transfer.tree().folder_count(), 2);
}

#[test]
fn every_file_is_sent_once_into_the_folder_of_its_holder() {
    // root/{top.txt, a/{in_a.txt, b/{in_b.txt}}, last.txt}
    let entries = vec![
        file(None, "top.txt", 1),
        dir(None, "a"),
        file(Some(1), "in_a.txt", 2),
        dir(Some(1), "b"),
        file(Some(3), "in_b.txt", 3),
        file(None, "last.txt", 4),
    ];
    let tree = LocalTree::build("root".to_string(), &entries).unwrap();
    let config = config(Some(vec!["dest".to_string()]), None);
    let (outcome, record) = run(upload_directory(tree, &config, delegate(&config)), &[1, 2, 3, 4]);
    assert_eq!(outcome, Ok(TreeInfo { file_count: 4, folder_count: 3, total_file_size: 10 }));
    let sent: Vec<(String, String, u64)> = record
        .files
        .iter()
        .map(|(_, r)| (r.name.clone(), r.parents.clone().unwrap()[0].clone(), r.size))
        .collect();
    assert_eq!(
        sent,
        vec![
            ("top.txt".to_string(), "dest".to_string(), 1),
            ("in_a.txt".to_string(), "F2".to_string(), 2),
            ("in_b.txt".to_string(), "F3".to_string(), 3),
            ("last.txt".to_string(), "dest".to_string(), 4),
        ]
    );
}
