use prip::coordinator::Coordinator;
use prip::count::{CountPass, FileCount};
use prip::path::{destination_path, is_root, join_path};
use prip::protocol::{Action, Event, TransferError};
use prip::transfer::TransferPass;
use prip::traversal::Traversal;
use prip::tree::FolderContent;

/// A device held in memory: it answers from a tree, and writes down what it
/// was asked to do.
struct Device {
    tree: FolderContent,
    failing_listing: Option<String>,
    failing_download: Option<String>,
    failing_delete: bool,
    asked: Vec<Action>,
    downloads: Vec<(String, String, String)>,
    deletes: Vec<(String, String)>,
    reports: Vec<(u64, u64)>,
}

fn device(tree: FolderContent) -> Device {
    Device {
        tree,
        failing_listing: None,
        failing_download: None,
        failing_delete: false,
        asked: Vec::new(),
        downloads: Vec::new(),
        deletes: Vec::new(),
        reports: Vec::new(),
    }
}

fn lookup<'a>(tree: &'a FolderContent, path: &str) -> Option<&'a FolderContent> {
    let mut here = tree;
    for part in path.split('/') {
        if part.is_empty() {
            continue;
        }
        here = here.folder(&part.to_string())?;
    }
    Some(here)
}

fn answer(device: &mut Device, action: Action) -> Event {
    let event = match &action {
        Action::ListFolders { path } => {
            if device.failing_listing.as_deref() == Some(path.as_str()) {
                Event::Failed
            } else {
                match lookup(&device.tree, path) {
                    Some(folder) => Event::Folders {
                        names: folder.folders().iter().map(|entry| entry.name().clone()).collect(),
                    },
                    None => Event::Failed,
                }
            }
        }
        Action::ListFiles { path } => {
            if device.failing_listing.as_deref() == Some(path.as_str()) {
                Event::Failed
            } else {
                match lookup(&device.tree, path) {
                    Some(folder) => Event::Files { names: folder.files().clone() },
                    None => Event::Failed,
                }
            }
        }
        Action::Download { folder, file, destination } => {
            if device.failing_download.as_deref() == Some(file.as_str()) {
                Event::Failed
            } else {
                device.downloads.push((folder.clone(), file.clone(), destination.clone()));
                Event::Downloaded
            }
        }
        Action::Delete { folder, file } => {
            if device.failing_delete {
                Event::Failed
            } else {
                device.deletes.push((folder.clone(), file.clone()));
                Event::Deleted
            }
        }
        Action::Report { processed, total } => {
            device.reports.push((*processed, *total));
            Event::Reported
        }
        Action::Finish { .. } => panic!("a finished engine was asked to go on"),
    };
    device.asked.push(action);
    event
}

fn run_count(device: &mut Device, root: &str) -> (Result<(), TransferError>, CountPass) {
    let mut pass = CountPass::new(root);
    let mut event = Event::Started;
    loop {
        let (next, action) = pass.step(event);
        pass = next;
        if let Action::Finish { result } = action {
            return (result, pass);
        }
        event = answer(device, action);
    }
}

fn run_traversal(device: &mut Device, root: &str) -> (Result<(), TransferError>, Traversal) {
    let mut pass = Traversal::new(root);
    let mut event = Event::Started;
    loop {
        let (next, action) = pass.step(event);
        pass = next;
        if let Action::Finish { result } = action {
            return (result, pass);
        }
        event = answer(device, action);
    }
}

fn run_transfer(
    device: &mut Device,
    pass: TransferPass,
) -> (Result<(), TransferError>, TransferPass) {
    let mut pass = pass;
    let mut event = Event::Started;
    loop {
        let (next, action) = pass.step(event);
        pass = next;
        if let Action::Finish { result } = action {
            return (result, pass);
        }
        event = answer(device, action);
    }
}

fn run_move(
    device: &mut Device,
    coordinator: Coordinator,
) -> (Result<(), TransferError>, Coordinator) {
    let mut coordinator = coordinator;
    let mut event = Event::Started;
    loop {
        let (next, action) = coordinator.step(event);
        coordinator = next;
        if let Action::Finish { result } = action {
            return (result, coordinator);
        }
        event = answer(device, action);
    }
}

fn folder_of(files: &[&str]) -> FolderContent {
    let mut folder = FolderContent::new();
    for file in files {
        folder.push_file(file.to_string());
    }
    folder
}

/// Two files in the root, and one in the folder `DCIM`.
fn small_tree() -> FolderContent {
    let mut root = folder_of(&["a.jpg", "b.jpg"]);
    root.insert_folder("DCIM".to_string(), folder_of(&["c.jpg"]));
    root
}

/// Seven files over three levels, with an empty folder among them.
fn deep_tree() -> FolderContent {
    let mut camera = folder_of(&["x1.raw", "x2.raw"]);
    camera.insert_folder("thumbs".to_string(), folder_of(&["t1.png"]));
    let mut dcim = folder_of(&["c.jpg"]);
    dcim.insert_folder("100CANON".to_string(), camera);
    dcim.insert_folder("EMPTY".to_string(), FolderContent::new());
    let mut root = folder_of(&["a.jpg", "b.jpg"]);
    root.insert_folder("DCIM".to_string(), dcim);
    root.insert_folder("MISC".to_string(), folder_of(&["m.txt"]));
    root
}

fn triple(folder: &str, file: &str, destination: &str) -> (String, String, String) {
    (folder.to_string(), file.to_string(), destination.to_string())
}

fn pair(folder: &str, file: &str) -> (String, String) {
    (folder.to_string(), file.to_string())
}

#[test]
fn root_is_a_single_separator() {
    assert!(is_root("/"));
    assert!(!is_root(""));
    assert!(!is_root("//"));
    assert!(!is_root("/DCIM"));
    assert!(!is_root("a"));
}

#[test]
fn join_below_the_root_writes_no_second_separator() {
    assert_eq!(join_path("/", "DCIM"), "/DCIM");
    assert_eq!(join_path("/", ""), "/");
}

#[test]
fn join_below_a_folder_writes_one_separator() {
    assert_eq!(join_path("/DCIM", "100CANON"), "/DCIM/100CANON");
    assert_eq!(join_path("/DCIM/100CANON", "x1.raw"), "/DCIM/100CANON/x1.raw");
    assert_eq!(join_path("", "a"), "/a");
}

#[test]
fn destination_mirrors_the_folders_of_the_device() {
    assert_eq!(destination_path("out", "/", "a.jpg"), "out/a.jpg");
    assert_eq!(destination_path("out", "/DCIM", "c.jpg"), "out/DCIM/c.jpg");
    assert_eq!(
        destination_path("/tmp/out", "/DCIM/100CANON", "x1.raw"),
        "/tmp/out/DCIM/100CANON/x1.raw"
    );
}

#[test]
fn destination_root_with_a_separator_gets_no_second_one() {
    assert_eq!(destination_path("out/", "/", "a.jpg"), "out/a.jpg");
    assert_eq!(destination_path("/", "/DCIM", "c.jpg"), "/DCIM/c.jpg");
}

#[test]
fn empty_destination_root_is_the_current_directory() {
    assert_eq!(destination_path("", "/", "a.jpg"), "a.jpg");
    assert_eq!(destination_path("", "/DCIM", "c.jpg"), "DCIM/c.jpg");
}

#[test]
fn destination_keeps_files_of_one_name_apart() {
    let first = destination_path("out", "/A", "same.jpg");
    let second = destination_path("out", "/B", "same.jpg");
    let third = destination_path("out", "/", "same.jpg");
    assert_ne!(first, second);
    assert_ne!(first, third);
    assert_ne!(second, third);
}

#[test]
fn destination_is_the_same_each_time() {
    assert_eq!(
        destination_path("out", "/DCIM", "c.jpg"),
        destination_path("out", "/DCIM", "c.jpg")
    );
}

#[test]
fn new_folder_holds_nothing() {
    let folder = FolderContent::new();
    assert!(folder.files().is_empty());
    assert!(folder.folders().is_empty());
    assert_eq!(folder.render(), "");
}

#[test]
fn files_keep_their_order() {
    let folder = folder_of(&["b", "a", "c", "a"]);
    assert_eq!(
        folder.files().clone(),
        vec!["b".to_string(), "a".to_string(), "c".to_string(), "a".to_string()]
    );
}

#[test]
fn set_files_replaces_the_files() {
    let mut folder = folder_of(&["old"]);
    folder.insert_folder("sub".to_string(), folder_of(&["kept"]));
    folder.set_files(vec!["x".to_string(), "y".to_string()]);
    assert_eq!(folder.files().clone(), vec!["x".to_string(), "y".to_string()]);
    assert_eq!(folder.folders().len(), 1);
    assert_eq!(folder.folder(&"sub".to_string()), Some(&folder_of(&["kept"])));
}

#[test]
fn sub_folders_are_found_by_name() {
    let tree = small_tree();
    assert_eq!(tree.folder(&"DCIM".to_string()), Some(&folder_of(&["c.jpg"])));
    assert_eq!(tree.folder(&"dcim".to_string()), None);
    assert_eq!(tree.folder(&"a.jpg".to_string()), None);
    assert_eq!(tree.folders()[0].name(), "DCIM");
    assert_eq!(tree.folders()[0].content(), &folder_of(&["c.jpg"]));
}

#[test]
fn sub_folders_keep_their_order() {
    let mut folder = FolderContent::new();
    folder.insert_folder("z".to_string(), FolderContent::new());
    folder.insert_folder("a".to_string(), FolderContent::new());
    folder.insert_folder("m".to_string(), FolderContent::new());
    let names: Vec<String> = folder.folders().iter().map(|entry| entry.name().clone()).collect();
    assert_eq!(names, vec!["z".to_string(), "a".to_string(), "m".to_string()]);
}

#[test]
fn inserting_a_name_twice_keeps_one_sub_folder() {
    let mut folder = FolderContent::new();
    folder.insert_folder("one".to_string(), folder_of(&["first"]));
    folder.insert_folder("two".to_string(), folder_of(&["other"]));
    folder.insert_folder("one".to_string(), folder_of(&["second"]));
    assert_eq!(folder.folders().len(), 2);
    assert_eq!(folder.folders()[0].name(), "one");
    assert_eq!(folder.folders()[1].name(), "two");
    assert_eq!(folder.folder(&"one".to_string()), Some(&folder_of(&["second"])));
    assert_eq!(folder.folder(&"two".to_string()), Some(&folder_of(&["other"])));
}

#[test]
fn a_folder_never_lists_the_files_below_it() {
    let tree = deep_tree();
    assert_eq!(tree.files().clone(), vec!["a.jpg".to_string(), "b.jpg".to_string()]);
    let dcim = tree.folder(&"DCIM".to_string()).unwrap();
    assert_eq!(dcim.files().clone(), vec!["c.jpg".to_string()]);
}

#[test]
fn render_small_tree() {
    assert_eq!(small_tree().render(), "DCIM/\n- c.jpg\n- a.jpg\n- b.jpg\n");
}

#[test]
fn render_deep_tree() {
    assert_eq!(
        deep_tree().render(),
        "DCIM/\n100CANON/\nthumbs/\n- t1.png\n- x1.raw\n- x2.raw\nEMPTY/\n- c.jpg\nMISC/\n- m.txt\n- a.jpg\n- b.jpg\n"
    );
}

#[test]
fn render_files_only() {
    assert_eq!(folder_of(&["one", "two"]).render(), "- one\n- two\n");
}

#[test]
fn count_small_tree() {
    let mut camera = device(small_tree());
    let (result, pass) = run_count(&mut camera, "/");
    assert_eq!(result, Ok(()));
    assert_eq!(pass.file_count(), Some(FileCount { total_files: 3 }));
    assert_eq!(pass.result(), Some(Ok(())));
}

#[test]
fn count_is_the_number_of_files_whatever_the_nesting() {
    let mut camera = device(deep_tree());
    let (result, pass) = run_count(&mut camera, "/");
    assert_eq!(result, Ok(()));
    assert_eq!(pass.file_count(), Some(FileCount { total_files: 7 }));

    let mut flat = device(folder_of(&["1", "2", "3", "4", "5", "6", "7"]));
    let (result, pass) = run_count(&mut flat, "/");
    assert_eq!(result, Ok(()));
    assert_eq!(pass.file_count(), Some(FileCount { total_files: 7 }));
}

#[test]
fn count_from_a_folder_below_the_root() {
    let mut camera = device(deep_tree());
    let (result, pass) = run_count(&mut camera, "/DCIM");
    assert_eq!(result, Ok(()));
    assert_eq!(pass.file_count(), Some(FileCount { total_files: 4 }));
}

#[test]
fn count_of_an_empty_root_is_zero() {
    let mut camera = device(FolderContent::new());
    let (result, pass) = run_count(&mut camera, "/");
    assert_eq!(result, Ok(()));
    assert_eq!(pass.file_count(), Some(FileCount { total_files: 0 }));
}

#[test]
fn count_lists_files_then_folders_of_each_folder() {
    let mut camera = device(small_tree());
    let (result, _) = run_count(&mut camera, "/");
    assert_eq!(result, Ok(()));
    assert_eq!(
        camera.asked,
        vec![
            Action::ListFiles { path: "/".to_string() },
            Action::ListFolders { path: "/".to_string() },
            Action::ListFiles { path: "/DCIM".to_string() },
            Action::ListFolders { path: "/DCIM".to_string() },
        ]
    );
}

#[test]
fn count_only_lists() {
    let mut camera = device(deep_tree());
    let (result, _) = run_count(&mut camera, "/");
    assert_eq!(result, Ok(()));
    assert!(camera.downloads.is_empty());
    assert!(camera.deletes.is_empty());
    assert!(camera.reports.is_empty());
    assert_eq!(camera.asked.len(), 12);
}

#[test]
fn count_stops_at_a_failed_listing() {
    let mut camera = device(deep_tree());
    camera.failing_listing = Some("/DCIM".to_string());
    let (result, pass) = run_count(&mut camera, "/");
    assert_eq!(result, Err(TransferError::ListingError));
    assert_eq!(pass.result(), Some(Err(TransferError::ListingError)));
    assert_eq!(pass.file_count(), None);
}

#[test]
fn count_of_a_folder_that_is_not_there_fails() {
    let mut camera = device(small_tree());
    let (result, _) = run_count(&mut camera, "/NOPE");
    assert_eq!(result, Err(TransferError::ListingError));
}

#[test]
fn count_honours_a_stop_between_folders() {
    let pass = CountPass::new("/");
    let (pass, action) = pass.step(Event::Started);
    assert_eq!(action, Action::ListFiles { path: "/".to_string() });
    let (mut pass, action) = pass.step(Event::Files { names: vec!["a".to_string()] });
    assert_eq!(action, Action::ListFolders { path: "/".to_string() });
    pass.request_cancel();
    let (pass, action) = pass.step(Event::Folders { names: vec!["DCIM".to_string()] });
    assert_eq!(action, Action::Finish { result: Err(TransferError::CancellationRequested) });
    assert_eq!(pass.file_count(), None);
}

#[test]
fn count_hands_out_nothing_before_it_is_over() {
    let pass = CountPass::new("/");
    assert_eq!(pass.file_count(), None);
    assert_eq!(pass.result(), None);
    let (pass, _) = pass.step(Event::Started);
    let (pass, _) = pass.step(Event::Files { names: vec!["a".to_string()] });
    assert_eq!(pass.file_count(), None);
    assert_eq!(pass.result(), None);
}

#[test]
fn count_rejects_an_event_that_answers_nothing() {
    let pass = CountPass::new("/");
    let (pass, action) = pass.step(Event::Downloaded);
    assert_eq!(action, Action::Finish { result: Err(TransferError::UnexpectedEvent) });
    let (_, action) = pass.step(Event::Started);
    assert_eq!(action, Action::Finish { result: Err(TransferError::UnexpectedEvent) });
}

#[test]
fn traversal_reads_the_tree() {
    let mut camera = device(small_tree());
    let (result, pass) = run_traversal(&mut camera, "/");
    assert_eq!(result, Ok(()));
    assert_eq!(pass.result(), Some(Ok(())));
    assert_eq!(pass.into_content(), Some(small_tree()));
}

#[test]
fn traversal_reads_a_deep_tree() {
    let mut camera = device(deep_tree());
    let (result, pass) = run_traversal(&mut camera, "/");
    assert_eq!(result, Ok(()));
    assert_eq!(pass.into_content(), Some(deep_tree()));
}

#[test]
fn traversal_from_a_folder_below_the_root() {
    let mut camera = device(deep_tree());
    let (result, pass) = run_traversal(&mut camera, "/DCIM/100CANON");
    assert_eq!(result, Ok(()));
    let mut expected = folder_of(&["x1.raw", "x2.raw"]);
    expected.insert_folder("thumbs".to_string(), folder_of(&["t1.png"]));
    assert_eq!(pass.into_content(), Some(expected));
}

#[test]
fn traversal_lists_folders_before_files() {
    let mut camera = device(small_tree());
    let (result, _) = run_traversal(&mut camera, "/");
    assert_eq!(result, Ok(()));
    assert_eq!(
        camera.asked,
        vec![
            Action::ListFolders { path: "/".to_string() },
            Action::ListFolders { path: "/DCIM".to_string() },
            Action::ListFiles { path: "/DCIM".to_string() },
            Action::ListFiles { path: "/".to_string() },
        ]
    );
}

#[test]
fn traversal_of_an_empty_root() {
    let mut camera = device(FolderContent::new());
    let (result, pass) = run_traversal(&mut camera, "/");
    assert_eq!(result, Ok(()));
    assert_eq!(pass.into_content(), Some(FolderContent::new()));
}

#[test]
fn traversal_hands_out_nothing_after_a_failed_listing() {
    let mut camera = device(deep_tree());
    camera.failing_listing = Some("/MISC".to_string());
    let (result, pass) = run_traversal(&mut camera, "/");
    assert_eq!(result, Err(TransferError::ListingError));
    assert_eq!(pass.into_content(), None);
}

#[test]
fn traversal_hands_out_nothing_before_it_is_over() {
    let pass = Traversal::new("/");
    let (pass, _) = pass.step(Event::Started);
    assert_eq!(pass.result(), None);
    assert_eq!(pass.into_content(), None);
}

#[test]
fn traversal_fails_when_a_listed_folder_is_gone() {
    let pass = Traversal::new("/");
    let (pass, _) = pass.step(Event::Started);
    let (pass, action) = pass.step(Event::Folders { names: vec!["GONE".to_string()] });
    assert_eq!(action, Action::ListFolders { path: "/GONE".to_string() });
    let (pass, action) = pass.step(Event::Failed);
    assert_eq!(action, Action::Finish { result: Err(TransferError::ListingError) });
    assert_eq!(pass.into_content(), None);
}

#[test]
fn traversal_keeps_one_folder_for_a_name_listed_twice() {
    let pass = Traversal::new("/");
    let (pass, _) = pass.step(Event::Started);
    let (pass, _) = pass.step(Event::Folders { names: vec!["X".to_string(), "X".to_string()] });
    let (pass, _) = pass.step(Event::Folders { names: vec![] });
    let (pass, _) = pass.step(Event::Files { names: vec!["first".to_string()] });
    let (pass, _) = pass.step(Event::Folders { names: vec![] });
    let (pass, action) = pass.step(Event::Files { names: vec!["second".to_string()] });
    assert_eq!(action, Action::ListFiles { path: "/".to_string() });
    let (pass, action) = pass.step(Event::Files { names: vec![] });
    assert_eq!(action, Action::Finish { result: Ok(()) });
    let mut expected = FolderContent::new();
    expected.insert_folder("X".to_string(), folder_of(&["second"]));
    assert_eq!(pass.into_content(), Some(expected));
}

#[test]
fn traversal_honours_a_stop_between_folders() {
    let pass = Traversal::new("/");
    let (pass, _) = pass.step(Event::Started);
    let (pass, _) = pass.step(Event::Folders { names: vec!["A".to_string(), "B".to_string()] });
    let (mut pass, action) = pass.step(Event::Folders { names: vec![] });
    assert_eq!(action, Action::ListFiles { path: "/A".to_string() });
    pass.request_cancel();
    let (pass, action) = pass.step(Event::Files { names: vec!["a".to_string()] });
    assert_eq!(action, Action::Finish { result: Err(TransferError::CancellationRequested) });
    assert_eq!(pass.into_content(), None);
}

#[test]
fn traversal_rejects_an_event_that_answers_nothing() {
    let pass = Traversal::new("/");
    let (pass, _) = pass.step(Event::Started);
    let (_, action) = pass.step(Event::Files { names: vec![] });
    assert_eq!(action, Action::Finish { result: Err(TransferError::UnexpectedEvent) });
}

#[test]
fn transfer_scenario_three_files() {
    let mut camera = device(small_tree());
    let (result, counted) = run_count(&mut camera, "/");
    assert_eq!(result, Ok(()));
    assert_eq!(counted.file_count(), Some(FileCount { total_files: 3 }));

    let mut camera = device(small_tree());
    let pass = TransferPass::new("/", "dest", false, Some(3));
    let (result, pass) = run_transfer(&mut camera, pass);
    assert_eq!(result, Ok(()));
    assert_eq!(pass.processed_files(), 3);
    assert_eq!(camera.reports, vec![(1, 3), (2, 3), (3, 3)]);
    assert_eq!(
        camera.downloads,
        vec![
            triple("/DCIM", "c.jpg", "dest/DCIM/c.jpg"),
            triple("/", "a.jpg", "dest/a.jpg"),
            triple("/", "b.jpg", "dest/b.jpg"),
        ]
    );
    assert!(camera.deletes.is_empty());
}

#[test]
fn transfer_walks_children_first() {
    let mut camera = device(small_tree());
    let (result, _) = run_transfer(&mut camera, TransferPass::new("/", "dest", true, Some(3)));
    assert_eq!(result, Ok(()));
    assert_eq!(
        camera.asked,
        vec![
            Action::ListFolders { path: "/".to_string() },
            Action::ListFolders { path: "/DCIM".to_string() },
            Action::ListFiles { path: "/DCIM".to_string() },
            Action::Download {
                folder: "/DCIM".to_string(),
                file: "c.jpg".to_string(),
                destination: "dest/DCIM/c.jpg".to_string(),
            },
            Action::Delete { folder: "/DCIM".to_string(), file: "c.jpg".to_string() },
            Action::Report { processed: 1, total: 3 },
            Action::ListFiles { path: "/".to_string() },
            Action::Download {
                folder: "/".to_string(),
                file: "a.jpg".to_string(),
                destination: "dest/a.jpg".to_string(),
            },
            Action::Delete { folder: "/".to_string(), file: "a.jpg".to_string() },
            Action::Report { processed: 2, total: 3 },
            Action::Download {
                folder: "/".to_string(),
                file: "b.jpg".to_string(),
                destination: "dest/b.jpg".to_string(),
            },
            Action::Delete { folder: "/".to_string(), file: "b.jpg".to_string() },
            Action::Report { processed: 3, total: 3 },
        ]
    );
}

#[test]
fn transfer_visits_what_traversal_finds() {
    let mut camera = device(deep_tree());
    let (result, pass) = run_traversal(&mut camera, "/");
    assert_eq!(result, Ok(()));
    let found = pass.into_content().unwrap();

    fn visits(folder: &FolderContent, path: &str, into: &mut Vec<(String, String)>) {
        for entry in folder.folders() {
            visits(entry.content(), &join_path(path, entry.name()), into);
        }
        for file in folder.files() {
            into.push((path.to_string(), file.clone()));
        }
    }
    let mut expected = Vec::new();
    visits(&found, "/", &mut expected);

    let mut camera = device(deep_tree());
    let (result, _) = run_transfer(&mut camera, TransferPass::new("/", "out", false, None));
    assert_eq!(result, Ok(()));
    let copied: Vec<(String, String)> =
        camera.downloads.iter().map(|(folder, file, _)| (folder.clone(), file.clone())).collect();
    assert_eq!(copied, expected);
    assert_eq!(
        copied,
        vec![
            pair("/DCIM/100CANON/thumbs", "t1.png"),
            pair("/DCIM/100CANON", "x1.raw"),
            pair("/DCIM/100CANON", "x2.raw"),
            pair("/DCIM", "c.jpg"),
            pair("/MISC", "m.txt"),
            pair("/", "a.jpg"),
            pair("/", "b.jpg"),
        ]
    );
}

#[test]
fn transfer_reports_each_file_once_counting_up() {
    let mut camera = device(deep_tree());
    let (result, pass) = run_transfer(&mut camera, TransferPass::new("/", "out", false, Some(7)));
    assert_eq!(result, Ok(()));
    assert_eq!(pass.processed_files(), 7);
    assert_eq!(camera.reports, vec![(1, 7), (2, 7), (3, 7), (4, 7), (5, 7), (6, 7), (7, 7)]);
}

#[test]
fn transfer_without_a_total_reports_nothing() {
    let mut camera = device(deep_tree());
    let (result, pass) = run_transfer(&mut camera, TransferPass::new("/", "out", true, None));
    assert_eq!(result, Ok(()));
    assert_eq!(pass.total(), None);
    assert_eq!(pass.processed_files(), 7);
    assert!(camera.reports.is_empty());
    assert_eq!(camera.downloads.len(), 7);
    assert_eq!(camera.deletes.len(), 7);
}

#[test]
fn transfer_deletes_each_file_after_its_copy() {
    let mut camera = device(small_tree());
    let (result, _) = run_transfer(&mut camera, TransferPass::new("/", "out", true, None));
    assert_eq!(result, Ok(()));
    assert_eq!(camera.deletes, vec![pair("/DCIM", "c.jpg"), pair("/", "a.jpg"), pair("/", "b.jpg")]);
    for (at, action) in camera.asked.iter().enumerate() {
        if let Action::Delete { folder, file } = action {
            match &camera.asked[at - 1] {
                Action::Download { folder: copied_folder, file: copied_file, .. } => {
                    assert_eq!(copied_folder, folder);
                    assert_eq!(copied_file, file);
                }
                other => panic!("a deletion follows {:?}", other),
            }
        }
    }
}

#[test]
fn transfer_without_delete_deletes_nothing() {
    let mut camera = device(deep_tree());
    let (result, _) = run_transfer(&mut camera, TransferPass::new("/", "out", false, Some(7)));
    assert_eq!(result, Ok(()));
    assert!(camera.deletes.is_empty());
}

#[test]
fn failed_download_is_never_followed_by_a_delete() {
    let mut camera = device(small_tree());
    camera.failing_download = Some("a.jpg".to_string());
    let (result, pass) = run_transfer(&mut camera, TransferPass::new("/", "out", true, Some(3)));
    assert_eq!(result, Err(TransferError::DownloadError));
    assert_eq!(pass.result(), Some(Err(TransferError::DownloadError)));
    assert_eq!(pass.processed_files(), 1);
    assert_eq!(camera.deletes, vec![pair("/DCIM", "c.jpg")]);
    assert_eq!(camera.reports, vec![(1, 3)]);
    assert!(!camera.deletes.contains(&pair("/", "a.jpg")));
    assert!(!camera.downloads.contains(&triple("/", "b.jpg", "out/b.jpg")));
}

#[test]
fn failed_download_of_the_first_file_deletes_nothing() {
    let mut camera = device(small_tree());
    camera.failing_download = Some("c.jpg".to_string());
    let (result, pass) = run_transfer(&mut camera, TransferPass::new("/", "out", true, None));
    assert_eq!(result, Err(TransferError::DownloadError));
    assert_eq!(pass.processed_files(), 0);
    assert!(camera.deletes.is_empty());
    assert!(camera.downloads.is_empty());
}

#[test]
fn transfer_stays_over_once_it_is_over() {
    let pass = TransferPass::new("/", "out", true, None);
    let (pass, _) = pass.step(Event::Started);
    let (pass, _) = pass.step(Event::Folders { names: vec![] });
    let (pass, _) = pass.step(Event::Files { names: vec!["a".to_string()] });
    let (pass, action) = pass.step(Event::Failed);
    assert_eq!(action, Action::Finish { result: Err(TransferError::DownloadError) });
    let (pass, action) = pass.step(Event::Downloaded);
    assert_eq!(action, Action::Finish { result: Err(TransferError::DownloadError) });
    let (pass, action) = pass.step(Event::Started);
    assert_eq!(action, Action::Finish { result: Err(TransferError::DownloadError) });
    assert_eq!(pass.processed_files(), 0);
}

#[test]
fn failing_delete_is_reported_as_a_delete_error() {
    let mut camera = device(small_tree());
    camera.failing_delete = true;
    let (result, pass) = run_transfer(&mut camera, TransferPass::new("/", "out", true, Some(3)));
    assert_eq!(result, Err(TransferError::DeleteError));
    assert_eq!(camera.downloads, vec![triple("/DCIM", "c.jpg", "out/DCIM/c.jpg")]);
    assert!(camera.deletes.is_empty());
    assert!(camera.reports.is_empty());
    assert_eq!(pass.processed_files(), 0);
}

#[test]
fn empty_root_transfers_nothing() {
    let mut camera = device(FolderContent::new());
    let (result, coordinator) = run_move(&mut camera, Coordinator::reporting("/", "out", true));
    assert_eq!(result, Ok(()));
    assert_eq!(coordinator.file_count(), Some(FileCount { total_files: 0 }));
    assert_eq!(coordinator.processed_files(), 0);
    assert!(camera.reports.is_empty());
    assert!(camera.downloads.is_empty());
    assert!(camera.deletes.is_empty());
}

#[test]
fn transfer_stops_at_a_failed_listing() {
    let mut camera = device(deep_tree());
    camera.failing_listing = Some("/MISC".to_string());
    let (result, pass) = run_transfer(&mut camera, TransferPass::new("/", "out", false, None));
    assert_eq!(result, Err(TransferError::ListingError));
    assert_eq!(pass.processed_files(), 4);
    assert_eq!(camera.downloads.len(), 4);
}

#[test]
fn transfer_honours_a_stop_after_the_file_in_hand() {
    let pass = TransferPass::new("/", "out", true, Some(2));
    let (pass, _) = pass.step(Event::Started);
    let (pass, _) = pass.step(Event::Folders { names: vec![] });
    let (mut pass, action) =
        pass.step(Event::Files { names: vec!["a".to_string(), "b".to_string()] });
    assert_eq!(
        action,
        Action::Download {
            folder: "/".to_string(),
            file: "a".to_string(),
            destination: "out/a".to_string()
        }
    );
    pass.request_cancel();
    let (pass, action) = pass.step(Event::Downloaded);
    assert_eq!(action, Action::Delete { folder: "/".to_string(), file: "a".to_string() });
    let (pass, action) = pass.step(Event::Deleted);
    assert_eq!(action, Action::Report { processed: 1, total: 2 });
    let (pass, action) = pass.step(Event::Reported);
    assert_eq!(action, Action::Finish { result: Err(TransferError::CancellationRequested) });
    assert_eq!(pass.processed_files(), 1);
    assert_eq!(pass.result(), Some(Err(TransferError::CancellationRequested)));
}

#[test]
fn silent_transfer_honours_a_stop_after_the_file_in_hand() {
    let pass = TransferPass::new("/", "out", false, None);
    let (pass, _) = pass.step(Event::Started);
    let (pass, _) = pass.step(Event::Folders { names: vec![] });
    let (mut pass, _) = pass.step(Event::Files { names: vec!["a".to_string(), "b".to_string()] });
    pass.request_cancel();
    let (pass, action) = pass.step(Event::Downloaded);
    assert_eq!(action, Action::Finish { result: Err(TransferError::CancellationRequested) });
    assert_eq!(pass.processed_files(), 1);
}

#[test]
fn transfer_rejects_an_event_that_answers_nothing() {
    let pass = TransferPass::new("/", "out", true, None);
    let (pass, _) = pass.step(Event::Started);
    let (pass, action) = pass.step(Event::Deleted);
    assert_eq!(action, Action::Finish { result: Err(TransferError::UnexpectedEvent) });
    assert_eq!(pass.result(), Some(Err(TransferError::UnexpectedEvent)));

    let pass = TransferPass::new("/", "out", true, None);
    let (pass, _) = pass.step(Event::Started);
    let (pass, _) = pass.step(Event::Folders { names: vec![] });
    let (pass, _) = pass.step(Event::Files { names: vec!["a".to_string()] });
    let (_, action) = pass.step(Event::Deleted);
    assert_eq!(action, Action::Finish { result: Err(TransferError::UnexpectedEvent) });
}

#[test]
fn transfer_is_not_over_while_it_waits() {
    let pass = TransferPass::new("/", "out", true, Some(9));
    assert_eq!(pass.result(), None);
    assert_eq!(pass.total(), Some(9));
    assert_eq!(pass.processed_files(), 0);
    let (pass, action) = pass.step(Event::Started);
    assert_eq!(action, Action::ListFolders { path: "/".to_string() });
    assert_eq!(pass.result(), None);
}

#[test]
fn running_twice_gives_the_same_destinations() {
    let mut first = device(deep_tree());
    let (result, _) = run_transfer(&mut first, TransferPass::new("/", "out", false, None));
    assert_eq!(result, Ok(()));
    let mut second = device(deep_tree());
    let (result, _) = run_transfer(&mut second, TransferPass::new("/", "out", false, None));
    assert_eq!(result, Ok(()));
    assert_eq!(first.downloads, second.downloads);
    let mut destinations: Vec<String> =
        first.downloads.iter().map(|(_, _, destination)| destination.clone()).collect();
    destinations.sort();
    destinations.dedup();
    assert_eq!(destinations.len(), 7);
}

#[test]
fn move_with_progress_counts_first() {
    let mut camera = device(small_tree());
    let (result, coordinator) = run_move(&mut camera, Coordinator::reporting("/", "dest", false));
    assert_eq!(result, Ok(()));
    assert_eq!(coordinator.file_count(), Some(FileCount { total_files: 3 }));
    assert_eq!(coordinator.processed_files(), 3);
    assert_eq!(camera.reports, vec![(1, 3), (2, 3), (3, 3)]);
    let expected = vec![
        Action::ListFiles { path: "/".to_string() },
        Action::ListFolders { path: "/".to_string() },
        Action::ListFiles { path: "/DCIM".to_string() },
        Action::ListFolders { path: "/DCIM".to_string() },
        Action::ListFolders { path: "/".to_string() },
    ];
    assert_eq!(&camera.asked[..5], &expected[..]);
    assert_eq!(
        camera.downloads,
        vec![
            triple("/DCIM", "c.jpg", "dest/DCIM/c.jpg"),
            triple("/", "a.jpg", "dest/a.jpg"),
            triple("/", "b.jpg", "dest/b.jpg"),
        ]
    );
}

#[test]
fn move_with_progress_reaches_the_total_on_the_last_report_only() {
    let mut camera = device(deep_tree());
    let (result, _) = run_move(&mut camera, Coordinator::reporting("/", "dest", true));
    assert_eq!(result, Ok(()));
    assert_eq!(camera.reports.len(), 7);
    for (at, (processed, total)) in camera.reports.iter().enumerate() {
        assert_eq!(*processed, at as u64 + 1);
        assert_eq!(*total, 7);
    }
    assert_eq!(camera.deletes.len(), 7);
}

#[test]
fn move_without_progress_walks_once() {
    let mut camera = device(small_tree());
    let (result, coordinator) = run_move(&mut camera, Coordinator::silent("/", "dest", false));
    assert_eq!(result, Ok(()));
    assert_eq!(coordinator.file_count(), None);
    assert_eq!(coordinator.processed_files(), 3);
    assert!(camera.reports.is_empty());
    assert_eq!(camera.downloads.len(), 3);
    assert_eq!(camera.asked.len(), 7);
}

#[test]
fn move_ends_when_the_count_fails() {
    let mut camera = device(deep_tree());
    camera.failing_listing = Some("/DCIM/100CANON".to_string());
    let (result, coordinator) = run_move(&mut camera, Coordinator::reporting("/", "dest", true));
    assert_eq!(result, Err(TransferError::ListingError));
    assert_eq!(coordinator.file_count(), None);
    assert_eq!(coordinator.processed_files(), 0);
    assert!(camera.downloads.is_empty());
    assert!(camera.deletes.is_empty());
}

#[test]
fn move_tells_delete_failure_from_download_failure() {
    let mut camera = device(small_tree());
    camera.failing_delete = true;
    let (result, coordinator) = run_move(&mut camera, Coordinator::reporting("/", "dest", true));
    assert_eq!(result, Err(TransferError::DeleteError));
    assert_eq!(coordinator.processed_files(), 0);
    assert_eq!(camera.downloads.len(), 1);

    let mut camera = device(small_tree());
    camera.failing_download = Some("c.jpg".to_string());
    let (result, _) = run_move(&mut camera, Coordinator::reporting("/", "dest", true));
    assert_eq!(result, Err(TransferError::DownloadError));
    assert!(camera.deletes.is_empty());
}

#[test]
fn move_honours_a_stop_while_it_counts() {
    let coordinator = Coordinator::reporting("/", "dest", false);
    let (coordinator, _) = coordinator.step(Event::Started);
    let (mut coordinator, _) = coordinator.step(Event::Files { names: vec!["a".to_string()] });
    coordinator.request_cancel();
    assert!(coordinator.stop_requested());
    let (coordinator, action) =
        coordinator.step(Event::Folders { names: vec!["DCIM".to_string()] });
    assert_eq!(action, Action::Finish { result: Err(TransferError::CancellationRequested) });
    assert_eq!(coordinator.file_count(), None);
    assert_eq!(coordinator.processed_files(), 0);
}

#[test]
fn move_remembers_a_stop_from_the_end_of_the_count() {
    let coordinator = Coordinator::reporting("/", "dest", false);
    let (coordinator, _) = coordinator.step(Event::Started);
    let (mut coordinator, _) = coordinator.step(Event::Files { names: vec!["a".to_string()] });
    coordinator.request_cancel();
    let (coordinator, action) = coordinator.step(Event::Folders { names: vec![] });
    assert_eq!(action, Action::Finish { result: Err(TransferError::CancellationRequested) });
    assert_eq!(coordinator.file_count(), Some(FileCount { total_files: 1 }));
    assert_eq!(coordinator.processed_files(), 0);
    assert!(coordinator.stop_requested());
}

#[test]
fn move_honours_a_stop_while_it_transfers() {
    let coordinator = Coordinator::reporting("/", "dest", false);
    let (coordinator, _) = coordinator.step(Event::Started);
    let (coordinator, _) = coordinator.step(Event::Files { names: vec!["a".to_string(), "b".to_string()] });
    let (coordinator, action) = coordinator.step(Event::Folders { names: vec![] });
    assert_eq!(action, Action::ListFolders { path: "/".to_string() });
    let (coordinator, _) = coordinator.step(Event::Folders { names: vec![] });
    let (mut coordinator, _) =
        coordinator.step(Event::Files { names: vec!["a".to_string(), "b".to_string()] });
    coordinator.request_cancel();
    let (coordinator, action) = coordinator.step(Event::Downloaded);
    assert_eq!(action, Action::Report { processed: 1, total: 2 });
    let (coordinator, action) = coordinator.step(Event::Reported);
    assert_eq!(action, Action::Finish { result: Err(TransferError::CancellationRequested) });
    assert_eq!(coordinator.processed_files(), 1);
}

#[test]
fn stop_before_the_start_stops_at_once() {
    let mut pass = TransferPass::new("/", "out", true, None);
    assert!(!pass.stop_requested());
    pass.request_cancel();
    assert!(pass.stop_requested());
    let (pass, action) = pass.step(Event::Started);
    assert_eq!(action, Action::Finish { result: Err(TransferError::CancellationRequested) });
    assert_eq!(pass.processed_files(), 0);

    let mut count = CountPass::new("/");
    count.request_cancel();
    assert!(count.stop_requested());
    let (_, action) = count.step(Event::Started);
    assert_eq!(action, Action::Finish { result: Err(TransferError::CancellationRequested) });

    let mut traversal = Traversal::new("/");
    traversal.request_cancel();
    assert!(traversal.stop_requested());
    let (_, action) = traversal.step(Event::Started);
    assert_eq!(action, Action::Finish { result: Err(TransferError::CancellationRequested) });
}

#[test]
fn stop_with_nothing_left_ends_in_success() {
    let pass = TransferPass::new("/", "out", true, Some(1));
    let (pass, _) = pass.step(Event::Started);
    let (pass, _) = pass.step(Event::Folders { names: vec![] });
    let (mut pass, _) = pass.step(Event::Files { names: vec!["a".to_string()] });
    pass.request_cancel();
    let (pass, _) = pass.step(Event::Downloaded);
    let (pass, action) = pass.step(Event::Deleted);
    assert_eq!(action, Action::Report { processed: 1, total: 1 });
    let (pass, action) = pass.step(Event::Reported);
    assert_eq!(action, Action::Finish { result: Ok(()) });
    assert_eq!(pass.processed_files(), 1);

    let count = CountPass::new("/");
    let (count, _) = count.step(Event::Started);
    let (mut count, _) = count.step(Event::Files { names: vec!["a".to_string()] });
    count.request_cancel();
    let (count, action) = count.step(Event::Folders { names: vec![] });
    assert_eq!(action, Action::Finish { result: Ok(()) });
    assert_eq!(count.file_count(), Some(FileCount { total_files: 1 }));
}

#[test]
fn transfer_honours_a_stop_between_folders() {
    let pass = TransferPass::new("/", "out", false, None);
    let (pass, _) = pass.step(Event::Started);
    let (mut pass, action) =
        pass.step(Event::Folders { names: vec!["A".to_string(), "B".to_string()] });
    assert_eq!(action, Action::ListFolders { path: "/A".to_string() });
    pass.request_cancel();
    let (pass, action) = pass.step(Event::Folders { names: vec![] });
    assert_eq!(action, Action::Finish { result: Err(TransferError::CancellationRequested) });
    assert_eq!(pass.processed_files(), 0);
}

#[test]
fn stop_never_comes_between_a_copy_and_its_deletion() {
    let pass = TransferPass::new("/", "out", true, Some(2));
    let (pass, _) = pass.step(Event::Started);
    let (pass, _) = pass.step(Event::Folders { names: vec![] });
    let (mut pass, _) = pass.step(Event::Files { names: vec!["a".to_string(), "b".to_string()] });
    pass.request_cancel();
    let (pass, action) = pass.step(Event::Downloaded);
    assert_eq!(action, Action::Delete { folder: "/".to_string(), file: "a".to_string() });
    let (_, action) = pass.step(Event::Deleted);
    assert_eq!(action, Action::Report { processed: 1, total: 2 });
}
