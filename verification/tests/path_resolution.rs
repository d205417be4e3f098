use gdrive::error::PathResolutionError;
use gdrive::path::split_destination;
use gdrive::remote::{
    children_query, kind_of, name_query, ObjectKind, RemoteObject, Reply, Request,
};
use gdrive::resolve::{
    resolve_or_create_path, resolve_path, resolve_wildcard_path, PathWalk, SearchStep, WalkStep,
    Wildcard, WildcardSearch,
};
use gdrive::delegate::ChunkSize;
use gdrive::upload::{upload, upload_regular, Config, UploadKind};
use gdrive::wildcard::compile_wildcard;

/// A store held in memory that answers as the real one is described to.
struct FakeStore {
    objects: Vec<RemoteObject>,
    requests: Vec<Request>,
    created: usize,
    assign_ids: bool,
}

fn object(id: &str, name: &str, kind: ObjectKind, parent: &str) -> RemoteObject {
    RemoteObject {
        id: Some(id.to_string()),
        name: Some(name.to_string()),
        kind,
        parents: vec![parent.to_string()],
        trashed: false,
    }
}

fn folder(id: &str, name: &str, parent: &str) -> RemoteObject {
    object(id, name, ObjectKind::Folder, parent)
}

fn file(id: &str, name: &str, parent: &str) -> RemoteObject {
    object(id, name, ObjectKind::File, parent)
}

impl FakeStore {
    fn new(objects: Vec<RemoteObject>) -> FakeStore {
        FakeStore { objects, requests: Vec::new(), created: 0, assign_ids: true }
    }

    fn serve(&mut self, request: &Request) -> Reply {
        self.requests.push(request.clone());
        match request {
            Request::Find { parent_id, name_filter, limit } => {
                let mut found = Vec::new();
                for o in &self.objects {
                    let named = match name_filter {
                        Some(name) => o.name.as_ref() == Some(name),
                        None => true,
                    };
                    if found.len() < *limit && !o.trashed && o.parents.contains(parent_id) && named
                    {
                        found.push(o.clone());
                    }
                }
                Reply::Found(found)
            }
            Request::CreateFolder { name, parent_id } => {
                self.created += 1;
                let mut made = folder(&format!("new{}", self.created), name, parent_id);
                if !self.assign_ids {
                    made.id = None;
                }
                self.objects.push(made.clone());
                Reply::Created(made)
            }
        }
    }

    fn walk(&mut self, mut step: WalkStep) -> Result<RemoteObject, PathResolutionError> {
        loop {
            match step {
                WalkStep::Pending(walk, request) => {
                    let reply = self.serve(&request);
                    step = walk.advance(reply);
                }
                WalkStep::Resolved(object) => return Ok(object),
                WalkStep::Failed(e) => return Err(e),
            }
        }
    }

    fn search(&mut self, mut step: SearchStep) -> Result<Vec<RemoteObject>, PathResolutionError> {
        loop {
            match step {
                SearchStep::Pending(search, request) => {
                    let reply = self.serve(&request);
                    step = search.advance(reply);
                }
                SearchStep::Matched(objects) => return Ok(objects),
                SearchStep::Failed(e) => return Err(e),
            }
        }
    }
}

fn drive() -> FakeStore {
    FakeStore::new(vec![
        folder("d1", "My Drive", "root"),
        folder("x1", "x", "root"),
        folder("ph1", "photos", "d1"),
        file("f1", "a.jpg", "ph1"),
        file("f2", ".jpg", "ph1"),
        file("f3", "a.jpgx", "ph1"),
        file("f4", "a.txt", "ph1"),
        file("f5", "ab.txt", "ph1"),
        file("f6", ".txt", "ph1"),
        file("f7", "a+b.txt", "ph1"),
        file("f8", "aab.txt", "ph1"),
        file("f9", "(1).txt", "ph1"),
        file("f10", "axb", "ph1"),
        file("f11", "a.b", "ph1"),
    ])
}

fn names(objects: &[RemoteObject]) -> Vec<String> {
    objects.iter().map(|o| o.name.clone().unwrap_or_default()).collect()
}

#[test]
fn test_resolve_path() {
    let mut store = drive();

    // Test resolving root
    let root = store.walk(resolve_path("/")).unwrap();
    assert_eq!(root.id.unwrap(), "root");

    // Test resolving a path that should exist
    let result = store.walk(resolve_path("/My Drive"));
    assert!(result.is_ok(), "Should be able to resolve /My Drive");
}

#[test]
fn test_resolve_nonexistent_path() {
    let mut store = drive();

    // Test resolving a non-existent path
    let result = store.walk(resolve_path("/nonexistent/path"));
    assert!(matches!(result, Err(PathResolutionError::NotFound(_))));
}

#[test]
fn resolving_the_root_asks_the_store_nothing() {
    for path in ["", "/", "///"] {
        match resolve_path(path) {
            WalkStep::Resolved(root) => {
                assert_eq!(root.id, Some("root".to_string()));
                assert_eq!(root.kind, ObjectKind::Folder);
                assert!(root.parents.is_empty());
                assert!(!root.trashed);
            }
            other => panic!("expected the root at once, got {:?}", other),
        }
        match resolve_or_create_path(path) {
            WalkStep::Resolved(root) => assert_eq!(root.id, Some("root".to_string())),
            other => panic!("expected the root at once, got {:?}", other),
        }
    }
}

#[test]
fn resolve_follows_the_segments_from_the_root() {
    let mut store = drive();
    let found = store.walk(resolve_path("/My Drive/photos/a.jpg")).unwrap();
    assert_eq!(found.id, Some("f1".to_string()));
    assert_eq!(
        store.requests,
        vec![
            Request::Find {
                parent_id: "root".to_string(),
                name_filter: Some("My Drive".to_string()),
                limit: 1
            },
            Request::Find {
                parent_id: "d1".to_string(),
                name_filter: Some("photos".to_string()),
                limit: 1
            },
            Request::Find {
                parent_id: "ph1".to_string(),
                name_filter: Some("a.jpg".to_string()),
                limit: 1
            },
        ]
    );
}

#[test]
fn resolve_names_the_first_segment_that_is_missing() {
    let mut store = drive();
    let result = store.walk(resolve_path("/My Drive/nothing/here/at/all"));
    assert_eq!(result, Err(PathResolutionError::NotFound("nothing".to_string())));
    assert_eq!(store.requests.len(), 2);
}

#[test]
fn resolve_treats_wildcard_characters_as_plain_names() {
    let mut store = drive();
    let result = store.walk(resolve_path("/My Drive/photos/*.jpg"));
    assert_eq!(result, Err(PathResolutionError::NotFound("*.jpg".to_string())));
}

#[test]
fn resolve_takes_the_first_object_listed() {
    let step = resolve_path("/twice");
    let walk = match step {
        WalkStep::Pending(walk, _) => walk,
        other => panic!("expected a lookup, got {:?}", other),
    };
    let listed = vec![file("first", "twice", "root"), file("second", "twice", "root")];
    match walk.advance(Reply::Found(listed)) {
        WalkStep::Resolved(found) => assert_eq!(found.id, Some("first".to_string())),
        other => panic!("expected an object, got {:?}", other),
    }
}

#[test]
fn resolve_goes_on_under_the_empty_identifier_where_an_object_has_none() {
    let step = resolve_path("/a/b");
    let walk = match step {
        WalkStep::Pending(walk, _) => walk,
        other => panic!("expected a lookup, got {:?}", other),
    };
    let mut nameless = folder("", "a", "root");
    nameless.id = None;
    match walk.advance(Reply::Found(vec![nameless])) {
        WalkStep::Pending(_, request) => assert_eq!(
            request,
            Request::Find {
                parent_id: String::new(),
                name_filter: Some("b".to_string()),
                limit: 1
            }
        ),
        other => panic!("expected a lookup, got {:?}", other),
    }
}

#[test]
fn resolve_passes_a_failure_of_the_store_on() {
    let walk = match resolve_path("/a") {
        WalkStep::Pending(walk, _) => walk,
        other => panic!("expected a lookup, got {:?}", other),
    };
    match walk.advance(Reply::Failed("503 backend error".to_string())) {
        WalkStep::Failed(e) => {
            assert_eq!(e, PathResolutionError::ApiError("503 backend error".to_string()))
        }
        other => panic!("expected a failure, got {:?}", other),
    }
}

#[test]
fn resolve_refuses_a_reply_that_answers_no_lookup() {
    let walk = match resolve_path("/a") {
        WalkStep::Pending(walk, _) => walk,
        other => panic!("expected a lookup, got {:?}", other),
    };
    match walk.advance(Reply::Created(folder("n", "a", "root"))) {
        WalkStep::Failed(e) => assert_eq!(
            e,
            PathResolutionError::ApiError("Unexpected reply to a lookup".to_string())
        ),
        other => panic!("expected a failure, got {:?}", other),
    }
}

#[test]
fn resolve_or_create_makes_what_is_missing() {
    let mut store = drive();
    let made = store.walk(resolve_or_create_path("/x/y/z")).unwrap();
    assert_eq!(made.name, Some("z".to_string()));
    assert_eq!(store.created, 2);
    let y = store.objects.iter().find(|o| o.name.as_deref() == Some("y")).unwrap();
    assert_eq!(y.parents, vec!["x1".to_string()]);
    let z = store.objects.iter().find(|o| o.name.as_deref() == Some("z")).unwrap();
    assert_eq!(z.parents, vec![y.id.clone().unwrap()]);
    assert_eq!(made.id, z.id);
}

#[test]
fn resolve_or_create_reuses_what_exists() {
    let mut store = drive();
    let found = store.walk(resolve_or_create_path("/My Drive/photos")).unwrap();
    assert_eq!(found.id, Some("ph1".to_string()));
    assert_eq!(store.created, 0);
}

#[test]
fn resolve_or_create_converges() {
    let mut store = drive();
    let first = store.walk(resolve_or_create_path("/x/new/deeper/still")).unwrap();
    let objects_after_first = store.objects.len();
    let created_after_first = store.created;
    assert_eq!(created_after_first, 3);
    let second = store.walk(resolve_or_create_path("/x/new/deeper/still")).unwrap();
    assert_eq!(second.id, first.id);
    assert_eq!(store.created, created_after_first);
    assert_eq!(store.objects.len(), objects_after_first);
}

#[test]
fn resolve_or_create_fails_on_a_folder_without_identifier() {
    let mut store = drive();
    store.assign_ids = false;
    let result = store.walk(resolve_or_create_path("/x/y/z"));
    assert_eq!(result, Err(PathResolutionError::MissingId));
    assert_eq!(store.created, 1);
}

#[test]
fn resolve_or_create_passes_a_failed_creation_on() {
    let walk = match resolve_or_create_path("/a") {
        WalkStep::Pending(walk, _) => walk,
        other => panic!("expected a lookup, got {:?}", other),
    };
    let (walk, request) = match walk.advance(Reply::Found(Vec::new())) {
        WalkStep::Pending(walk, request) => (walk, request),
        other => panic!("expected a creation, got {:?}", other),
    };
    assert_eq!(
        request,
        Request::CreateFolder { name: "a".to_string(), parent_id: "root".to_string() }
    );
    match walk.advance(Reply::Failed("403 forbidden".to_string())) {
        WalkStep::Failed(e) => {
            assert_eq!(e, PathResolutionError::ApiError("403 forbidden".to_string()))
        }
        other => panic!("expected a failure, got {:?}", other),
    }
}

#[test]
fn resolve_or_create_refuses_a_listing_in_place_of_the_folder() {
    let walk = match resolve_or_create_path("/a") {
        WalkStep::Pending(walk, _) => walk,
        other => panic!("expected a lookup, got {:?}", other),
    };
    let walk = match walk.advance(Reply::Found(Vec::new())) {
        WalkStep::Pending(walk, _) => walk,
        other => panic!("expected a creation, got {:?}", other),
    };
    match walk.advance(Reply::Found(Vec::new())) {
        WalkStep::Failed(e) => assert_eq!(
            e,
            PathResolutionError::CreateDirectoryError(
                "The store did not return the folder".to_string()
            )
        ),
        other => panic!("expected a failure, got {:?}", other),
    }
}

#[test]
fn pushing_a_file_creates_the_one_missing_folder_first() {
    // `/x` exists, `/x/y` does not.
    let mut store = drive();
    let (folder_segments, name) = split_destination("/x/y/z.txt");
    assert_eq!(name, Some("z.txt".to_string()));
    let parent = store.walk(PathWalk::begin(folder_segments, true)).unwrap();
    assert_eq!(store.created, 1);
    assert_eq!(parent.name, Some("y".to_string()));
    assert_eq!(parent.parents, vec!["x1".to_string()]);
    let creations: Vec<&Request> = store
        .requests
        .iter()
        .filter(|r| matches!(r, Request::CreateFolder { .. }))
        .collect();
    assert_eq!(
        creations,
        vec![&Request::CreateFolder { name: "y".to_string(), parent_id: "x1".to_string() }]
    );

    // Only then is the file asked for, under the new folder and by its name.
    let config = Config {
        file_path: "/tmp/z.txt".to_string(),
        mime_type: None,
        parents: None,
        chunk_size: ChunkSize::default(),
        print_chunk_errors: false,
        print_chunk_info: false,
        upload_directories: false,
        print_only_id: false,
    }
    .with_remote_path(parent.id.clone());
    let (kind, delegate) = upload(&config, false).unwrap();
    assert_eq!(kind, UploadKind::Regular);
    let request = upload_regular(&config, 12, &delegate).unwrap();
    assert_eq!(request.name, "z.txt");
    assert_eq!(request.parents, Some(vec![parent.id.unwrap()]));
    assert_eq!(request.id, None);
    assert_eq!(request.mime_type, "text/plain");
}

#[test]
fn wildcard_star_matches_any_run_of_characters() {
    let mut store = drive();
    let matched = store.search(resolve_wildcard_path("/My Drive/photos/*.jpg")).unwrap();
    assert_eq!(names(&matched), vec!["a.jpg".to_string(), ".jpg".to_string()]);
}

#[test]
fn wildcard_question_mark_matches_exactly_one_character() {
    let mut store = drive();
    let matched = store.search(resolve_wildcard_path("/My Drive/photos/?.txt")).unwrap();
    assert_eq!(names(&matched), vec!["a.txt".to_string()]);
}

#[test]
fn wildcard_takes_special_characters_literally() {
    let mut store = drive();
    // `+` is no repetition: `aab.txt` does not match.
    let matched = store.search(resolve_wildcard_path("/My Drive/photos/a+b*")).unwrap();
    assert_eq!(names(&matched), vec!["a+b.txt".to_string()]);
    // `.` is no wildcard: `axb` does not match.
    let matched = store.search(resolve_wildcard_path("/My Drive/photos/a.b*")).unwrap();
    assert_eq!(names(&matched), vec!["a.b".to_string()]);
    // Parentheses group nothing.
    let matched = store.search(resolve_wildcard_path("/My Drive/photos/(1)*")).unwrap();
    assert_eq!(names(&matched), vec!["(1).txt".to_string()]);
}

#[test]
fn wildcard_lists_the_children_of_the_folder_before_it() {
    let mut store = drive();
    store.search(resolve_wildcard_path("/My Drive/photos/*")).unwrap();
    assert_eq!(
        store.requests.last(),
        Some(&Request::Find { parent_id: "ph1".to_string(), name_filter: None, limit: 1000 })
    );
}

#[test]
fn wildcard_at_the_top_lists_the_root() {
    let mut store = drive();
    let matched = store.search(resolve_wildcard_path("/?")).unwrap();
    assert_eq!(names(&matched), vec!["x".to_string()]);
    assert_eq!(
        store.requests,
        vec![Request::Find { parent_id: "root".to_string(), name_filter: None, limit: 1000 }]
    );
}

#[test]
fn wildcard_without_a_match_is_an_error() {
    let mut store = drive();
    let result = store.search(resolve_wildcard_path("/My Drive/photos/*.png"));
    assert_eq!(result, Err(PathResolutionError::NoMatchesFound("*.png".to_string())));
}

#[test]
fn wildcard_in_an_empty_folder_is_the_same_error() {
    let mut store = drive();
    let result = store.search(resolve_wildcard_path("/x/*"));
    assert_eq!(result, Err(PathResolutionError::NoMatchesFound("*".to_string())));
}

#[test]
fn wildcard_with_a_missing_folder_names_the_segment() {
    let mut store = drive();
    let result = store.search(resolve_wildcard_path("/My Drive/nothing/*.jpg"));
    assert_eq!(result, Err(PathResolutionError::NotFound("nothing".to_string())));
}

#[test]
fn wildcard_in_an_earlier_segment_is_a_plain_name() {
    let mut store = drive();
    let result = store.search(resolve_wildcard_path("/My*/photos/a.jpg"));
    assert_eq!(result, Err(PathResolutionError::NotFound("My*".to_string())));
}

#[test]
fn wildcard_path_without_wildcard_resolves_like_a_plain_path() {
    let mut store = drive();
    let matched = store.search(resolve_wildcard_path("/My Drive/photos/a.jpg")).unwrap();
    assert_eq!(matched.len(), 1);
    assert_eq!(matched[0].id, Some("f1".to_string()));
}

#[test]
fn wildcard_path_without_segments_is_invalid() {
    for path in ["", "/", "//"] {
        match resolve_wildcard_path(path) {
            SearchStep::Failed(e) => assert_eq!(e, PathResolutionError::InvalidPath),
            other => panic!("expected a failure, got {:?}", other),
        }
    }
}

#[test]
fn wildcard_skips_objects_without_a_name() {
    let mut store = drive();
    let mut nameless = file("f0", "", "ph1");
    nameless.name = None;
    store.objects.insert(0, nameless);
    let matched = store.search(resolve_wildcard_path("/My Drive/photos/*.jpg")).unwrap();
    assert_eq!(names(&matched), vec!["a.jpg".to_string(), ".jpg".to_string()]);
}

#[test]
fn wildcard_that_does_not_compile_fails_after_the_walk() {
    let wildcard = Wildcard {
        pattern: "*".to_string(),
        matcher: Err("regex parse error".to_string()),
    };
    let segments = vec!["x".to_string(), "*".to_string()];
    let step = WildcardSearch::begin(segments, Some(wildcard));
    let search = match step {
        SearchStep::Pending(search, request) => {
            assert_eq!(
                request,
                Request::Find {
                    parent_id: "root".to_string(),
                    name_filter: Some("x".to_string()),
                    limit: 1
                }
            );
            search
        }
        other => panic!("expected a lookup, got {:?}", other),
    };
    match search.advance(Reply::Found(vec![folder("x1", "x", "root")])) {
        SearchStep::Failed(e) => assert_eq!(
            e,
            PathResolutionError::InvalidWildcard("regex parse error".to_string())
        ),
        other => panic!("expected a failure, got {:?}", other),
    }
}

#[test]
fn wildcard_search_passes_a_failed_listing_on() {
    let wildcard = Wildcard { pattern: "*".to_string(), matcher: compile_wildcard("*") };
    let step = WildcardSearch::begin(vec!["*".to_string()], Some(wildcard));
    let search = match step {
        SearchStep::Pending(search, _) => search,
        other => panic!("expected a listing, got {:?}", other),
    };
    match search.advance(Reply::Failed("500".to_string())) {
        SearchStep::Failed(e) => assert_eq!(e, PathResolutionError::ApiError("500".to_string())),
        other => panic!("expected a failure, got {:?}", other),
    }
}

#[test]
fn wildcard_search_ends_with_what_matched() {
    let matched = vec![file("f1", "a.jpg", "ph1")];
    match WildcardSearch::conclude("*.jpg".to_string(), matched.clone()) {
        SearchStep::Matched(objects) => assert_eq!(objects, matched),
        other => panic!("expected matches, got {:?}", other),
    }
    match WildcardSearch::conclude("*.jpg".to_string(), Vec::new()) {
        SearchStep::Failed(e) => {
            assert_eq!(e, PathResolutionError::NoMatchesFound("*.jpg".to_string()))
        }
        other => panic!("expected a failure, got {:?}", other),
    }
}

#[test]
fn queries_are_written_as_the_store_reads_them() {
    assert_eq!(
        name_query("root", "My Drive"),
        "'root' in parents and name = 'My Drive' and trashed = false"
    );
    assert_eq!(children_query("ph1"), "'ph1' in parents and trashed = false");
    let find = Request::Find {
        parent_id: "ph1".to_string(),
        name_filter: Some("a.jpg".to_string()),
        limit: 1,
    };
    assert_eq!(
        find.query(),
        Some("'ph1' in parents and name = 'a.jpg' and trashed = false".to_string())
    );
    let list = Request::Find { parent_id: "ph1".to_string(), name_filter: None, limit: 1000 };
    assert_eq!(list.query(), Some("'ph1' in parents and trashed = false".to_string()));
    let create = Request::CreateFolder { name: "y".to_string(), parent_id: "x1".to_string() };
    assert_eq!(create.query(), None);
}

#[test]
fn the_kind_of_an_object_follows_its_media_type() {
    assert_eq!(kind_of(&Some("application/vnd.google-apps.folder".to_string())), ObjectKind::Folder);
    assert_eq!(
        kind_of(&Some("application/vnd.google-apps.document".to_string())),
        ObjectKind::Other
    );
    assert_eq!(kind_of(&Some("application/vnd.google-apps.".to_string())), ObjectKind::Other);
    assert_eq!(kind_of(&Some("application/vnd.google-apps".to_string())), ObjectKind::File);
    assert_eq!(kind_of(&Some("application/pdf".to_string())), ObjectKind::File);
    assert_eq!(kind_of(&Some(String::new())), ObjectKind::File);
    assert_eq!(kind_of(&None), ObjectKind::File);
}
