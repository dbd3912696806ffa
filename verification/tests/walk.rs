use std::collections::BTreeMap;

use gdown::checksum::Integrity;
use gdown::downloader::{
    announce, announce_folder, conclude, destination_of, download_folder, parent_of, summarize,
    Download, Event, Folder, Notice, Options, Outcome, Phase, Request, Summary, Task, Walk,
};
use gdown::google_drive::{GoogleItem, GooglePage, FOLDER_MIME};

const EMPTY_MD5: &str = "d41d8cd98f00b204e9800998ecf8427e";

fn leaf(id: &str, title: &str, dir: &str, checksum: Option<&str>) -> GoogleItem {
    GoogleItem {
        id: String::from(id),
        title: String::from(title),
        mimeType: String::from("application/octet-stream"),
        md5Checksum: checksum.map(String::from),
        downloadUrl: None,
        fileSize: None,
        children: None,
        path: Some(String::from(dir)),
    }
}

fn folder(id: &str, title: &str, dir: &str, children: Vec<GoogleItem>) -> GoogleItem {
    GoogleItem {
        id: String::from(id),
        title: String::from(title),
        mimeType: String::from(FOLDER_MIME),
        md5Checksum: None,
        downloadUrl: None,
        fileSize: None,
        children: Some(children),
        path: Some(String::from(dir)),
    }
}

fn options(force: bool, verify_checksum: bool, verbose: bool, dry_run: bool) -> Options {
    Options { force, verify_checksum, verbose, dry_run }
}

/// What one transfer brings: the bytes that reach the file, and whether the stream ended well.
#[derive(Clone)]
struct Delivery {
    written: Option<Vec<u8>>,
    complete: bool,
}

fn whole(bytes: &[u8]) -> Delivery {
    Delivery { written: Some(bytes.to_vec()), complete: true }
}

/// A destination and a remote service, held in memory.
struct World {
    files: BTreeMap<String, Vec<u8>>,
    dirs: Vec<String>,
    /// For each identifier what its transfers bring, one after the other;
    /// the last delivery is repeated.
    remote: BTreeMap<String, Vec<Delivery>>,
    /// The identifiers that were transferred, in order.
    transfers: Vec<String>,
    removed: Vec<String>,
    requests: Vec<String>,
    told: Vec<Notice>,
}

impl World {
    fn new() -> World {
        World {
            files: BTreeMap::new(),
            dirs: Vec::new(),
            remote: BTreeMap::new(),
            transfers: Vec::new(),
            removed: Vec::new(),
            requests: Vec::new(),
            told: Vec::new(),
        }
    }

    fn serving(mut self, id: &str, deliveries: Vec<Delivery>) -> World {
        self.remote.insert(String::from(id), deliveries);
        self
    }

    fn ensure_dir(&mut self, path: &str) -> Folder {
        if self.dirs.iter().any(|d| d == path) {
            Folder::Existed
        } else {
            self.dirs.push(String::from(path));
            Folder::Created
        }
    }

    fn transfer(&mut self, id: &str, dir: &str, dest: &str) -> bool {
        self.ensure_dir(dir);
        let made = self.transfers.iter().filter(|t| t.as_str() == id).count();
        self.transfers.push(String::from(id));
        let delivery = match self.remote.get(id) {
            Some(list) if !list.is_empty() => list[made.min(list.len() - 1)].clone(),
            _ => Delivery { written: None, complete: false },
        };
        if let Some(bytes) = delivery.written {
            self.files.insert(String::from(dest), bytes);
        }
        delivery.complete
    }

    fn serve(&mut self, request: Request) -> Option<Event> {
        match request {
            Request::CreateDir { path } => {
                self.requests.push(format!("mkdir {}", path));
                Some(Event::Ready(self.ensure_dir(&path)))
            },
            Request::Probe { dest } => {
                self.requests.push(format!("probe {}", dest));
                Some(Event::Exists(self.files.contains_key(&dest)))
            },
            Request::Transfer { id, dir, dest } => {
                self.requests.push(format!("transfer {} {}", id, dest));
                Some(Event::Transferred(self.transfer(&id, &dir, &dest)))
            },
            Request::Retry { id, dir, dest } => {
                self.requests.push(format!("retry {} {}", id, dest));
                self.files.remove(&dest);
                self.removed.push(dest.clone());
                Some(Event::Transferred(self.transfer(&id, &dir, &dest)))
            },
            Request::ReadBack { dest } => {
                self.requests.push(format!("read {}", dest));
                Some(Event::Content(self.files.get(&dest).cloned().unwrap_or_default()))
            },
            Request::Finished => None,
        }
    }

    /// Takes a walk to its end; a walk that does not end within 1000 demands is broken.
    fn run(&mut self, walk: &mut Walk) {
        for _ in 0..1000 {
            match self.serve(walk.request()) {
                Some(event) => {
                    let told = walk.advance(event);
                    self.told.extend(told);
                },
                None => return,
            }
        }
        panic!("the walk does not end");
    }
}

fn photos() -> GooglePage {
    GooglePage {
        items: vec![folder("ph", "Photos", "out", vec![leaf("f1", "a.jpg", "out/Photos", Some(EMPTY_MD5))])],
    }
}

fn mixed() -> GooglePage {
    GooglePage {
        items: vec![
            leaf("f1", "top.txt", "out", None),
            folder(
                "d1",
                "A",
                "out",
                vec![
                    leaf("f2", "in_a.txt", "out/A", None),
                    folder("d2", "B", "out/A", vec![leaf("f3", "in_b.txt", "out/A/B", None)]),
                    folder("d3", "Empty", "out/A", vec![]),
                ],
            ),
            leaf("f4", "last.txt", "out", None),
        ],
    }
}

fn mixed_world() -> World {
    World::new()
        .serving("f1", vec![whole(b"1")])
        .serving("f2", vec![whole(b"22")])
        .serving("f3", vec![whole(b"333")])
        .serving("f4", vec![whole(b"4444")])
}

#[test]
fn photos_scenario_is_written_and_verified() {
    let mut world = World::new().serving("f1", vec![whole(b"")]);
    let mut walk = download_folder(&photos(), false, true, true, false, false);
    world.run(&mut walk);
    assert!(walk.is_finished());
    assert!(world.dirs.iter().any(|d| d == "out/Photos"));
    assert_eq!(world.files.get("out/Photos/a.jpg"), Some(&Vec::new()));
    assert_eq!(walk.outcomes(), &vec![Outcome::Verified]);
    assert_eq!(world.transfers, vec!["f1"]);
    assert_eq!(
        world.requests,
        vec![
            "mkdir out/Photos",
            "probe out/Photos/a.jpg",
            "transfer f1 out/Photos/a.jpg",
            "read out/Photos/a.jpg",
        ]
    );
    assert_eq!(walk.planned().len(), 0);
}

#[test]
fn walk_is_depth_first_in_listing_order() {
    let mut world = mixed_world();
    let mut walk = download_folder(&mixed(), false, true, false, false, false);
    world.run(&mut walk);
    assert_eq!(
        world.requests,
        vec![
            "probe out/top.txt",
            "transfer f1 out/top.txt",
            "mkdir out/A",
            "probe out/A/in_a.txt",
            "transfer f2 out/A/in_a.txt",
            "mkdir out/A/B",
            "probe out/A/B/in_b.txt",
            "transfer f3 out/A/B/in_b.txt",
            "mkdir out/A/Empty",
            "probe out/last.txt",
            "transfer f4 out/last.txt",
        ]
    );
    assert_eq!(walk.outcomes(), &vec![Outcome::Transferred; 4]);
    assert_eq!(world.files.get("out/A/B/in_b.txt"), Some(&b"333".to_vec()));
}

#[test]
fn walk_without_recursion_stays_on_top() {
    let mut world = mixed_world();
    let mut walk = download_folder(&mixed(), false, false, false, false, false);
    world.run(&mut walk);
    assert_eq!(
        world.requests,
        vec![
            "probe out/top.txt",
            "transfer f1 out/top.txt",
            "probe out/last.txt",
            "transfer f4 out/last.txt",
        ]
    );
    assert!(!world.requests.iter().any(|r| r.starts_with("mkdir")));
    assert_eq!(world.transfers, vec!["f1", "f4"]);
    assert_eq!(walk.outcomes().len(), 2);
}

#[test]
fn walk_without_recursion_over_containers_only_does_nothing() {
    let mut world = World::new();
    let mut walk = download_folder(&photos(), false, false, true, true, false);
    assert!(walk.is_finished());
    assert!(matches!(walk.request(), Request::Finished));
    world.run(&mut walk);
    assert!(world.requests.is_empty());
    assert!(walk.outcomes().is_empty());
}

#[test]
fn dry_run_collects_and_writes_nothing() {
    let mut world = mixed_world();
    let mut walk = download_folder(&mixed(), false, true, true, true, true);
    world.run(&mut walk);
    assert!(world.files.is_empty());
    assert!(world.dirs.is_empty());
    assert!(world.transfers.is_empty());
    assert_eq!(
        world.requests,
        vec![
            "probe out/top.txt",
            "probe out/A/in_a.txt",
            "probe out/A/B/in_b.txt",
            "probe out/last.txt",
        ]
    );
    assert_eq!(walk.outcomes(), &vec![Outcome::Planned; 4]);
    assert_eq!(walk.planned().len(), 4);
    assert_eq!(walk.planned().to_text(), "[top.txt, in_a.txt, in_b.txt, last.txt]");
    assert_eq!(walk.planned().items[2].id, "f3");
    assert!(world.told.is_empty());
}

#[test]
fn dry_run_reports_what_a_run_on_an_empty_destination_writes() {
    for recursive in [true, false] {
        for force in [true, false] {
            let mut dry_world = mixed_world();
            let mut dry = download_folder(&mixed(), force, recursive, false, false, true);
            dry_world.run(&mut dry);
            let mut wet_world = mixed_world();
            let mut wet = download_folder(&mixed(), force, recursive, false, false, false);
            wet_world.run(&mut wet);
            let reported: Vec<String> = dry.planned().items.iter().map(|i| i.id.clone()).collect();
            assert_eq!(reported, wet_world.transfers);
        }
    }
}

#[test]
fn dry_run_leaves_out_what_is_there() {
    let mut world = mixed_world();
    world.files.insert(String::from("out/A/in_a.txt"), b"old".to_vec());
    let mut walk = download_folder(&mixed(), false, true, false, false, true);
    world.run(&mut walk);
    assert_eq!(walk.planned().to_text(), "[top.txt, in_b.txt, last.txt]");
    assert_eq!(
        walk.outcomes(),
        &vec![Outcome::Planned, Outcome::Skipped(None), Outcome::Planned, Outcome::Planned]
    );
    // With force the file that is there counts as to be transferred.
    let mut forced = download_folder(&mixed(), true, true, false, false, true);
    world.run(&mut forced);
    assert_eq!(forced.planned().len(), 4);
    assert_eq!(world.files.get("out/A/in_a.txt"), Some(&b"old".to_vec()));
}

#[test]
fn second_run_skips_every_leaf() {
    let mut world = mixed_world();
    let mut first = download_folder(&mixed(), false, true, false, true, false);
    world.run(&mut first);
    assert_eq!(world.transfers.len(), 4);
    let files = world.files.clone();
    let mut second = download_folder(&mixed(), false, true, false, true, false);
    world.run(&mut second);
    assert_eq!(world.transfers.len(), 4);
    assert_eq!(world.files, files);
    assert_eq!(second.outcomes(), &vec![Outcome::Skipped(None); 4]);
    assert_eq!(
        second.summary(),
        Summary { planned: 0, skipped: 4, failed: 0, stored: 0, mismatched: 0 }
    );
}

#[test]
fn forced_run_overwrites_what_is_there() {
    let mut world = mixed_world();
    world.files.insert(String::from("out/top.txt"), b"old".to_vec());
    let mut walk = download_folder(&mixed(), true, false, false, false, false);
    world.run(&mut walk);
    assert_eq!(world.files.get("out/top.txt"), Some(&b"1".to_vec()));
    assert_eq!(walk.outcomes(), &vec![Outcome::Transferred, Outcome::Transferred]);
}

#[test]
fn mismatch_is_retried_once_with_force() {
    let page = GooglePage { items: vec![leaf("f1", "a.bin", "out", Some(EMPTY_MD5))] };
    let mut world = World::new().serving("f1", vec![whole(b"bad"), whole(b"worse")]);
    let mut walk = download_folder(&page, true, true, true, false, false);
    world.run(&mut walk);
    assert_eq!(world.transfers, vec!["f1", "f1"]);
    assert_eq!(world.removed, vec!["out/a.bin"]);
    assert_eq!(walk.outcomes(), &vec![Outcome::TerminalMismatch]);
    assert_eq!(
        world.requests,
        vec![
            "probe out/a.bin",
            "transfer f1 out/a.bin",
            "read out/a.bin",
            "retry f1 out/a.bin",
            "read out/a.bin",
        ]
    );
    assert_eq!(world.files.get("out/a.bin"), Some(&b"worse".to_vec()));
    assert_eq!(world.told, vec![Notice::Started, Notice::Retrying, Notice::ChecksumMismatch]);
}

#[test]
fn retry_that_matches_is_verified() {
    let page = GooglePage { items: vec![leaf("f1", "a.bin", "out", Some(EMPTY_MD5))] };
    let mut world = World::new().serving("f1", vec![whole(b"bad"), whole(b"")]);
    let mut walk = download_folder(&page, true, true, true, true, false);
    world.run(&mut walk);
    assert_eq!(world.transfers.len(), 2);
    assert_eq!(walk.outcomes(), &vec![Outcome::Verified]);
    assert_eq!(world.told, vec![Notice::Started, Notice::Retrying, Notice::ChecksumMatches]);
}

#[test]
fn retry_that_fails_ends_the_leaf() {
    let page = GooglePage { items: vec![leaf("f1", "a.bin", "out", Some(EMPTY_MD5))] };
    let broken = Delivery { written: None, complete: false };
    let mut world = World::new().serving("f1", vec![whole(b"bad"), broken]);
    let mut walk = download_folder(&page, true, true, true, false, false);
    world.run(&mut walk);
    assert_eq!(walk.outcomes(), &vec![Outcome::TransferFailed]);
    assert!(!world.files.contains_key("out/a.bin"));
}

#[test]
fn mismatch_without_force_is_final_and_the_file_stays() {
    let page = GooglePage { items: vec![leaf("f1", "a.bin", "out", Some(EMPTY_MD5))] };
    let mut world = World::new().serving("f1", vec![whole(b"bad"), whole(b"")]);
    let mut walk = download_folder(&page, false, true, true, false, false);
    world.run(&mut walk);
    assert_eq!(world.transfers, vec!["f1"]);
    assert!(world.removed.is_empty());
    assert_eq!(walk.outcomes(), &vec![Outcome::TerminalMismatch]);
    assert_eq!(world.files.get("out/a.bin"), Some(&b"bad".to_vec()));
    assert_eq!(world.told, vec![Notice::Started, Notice::ChecksumMismatch]);
}

#[test]
fn leaf_without_checksum_is_unverifiable() {
    let page = GooglePage { items: vec![leaf("f1", "doc", "out", None)] };
    let mut world = World::new().serving("f1", vec![whole(b"text")]);
    let mut walk = download_folder(&page, false, true, true, false, false);
    world.run(&mut walk);
    assert_eq!(walk.outcomes(), &vec![Outcome::Unverifiable]);
    assert_eq!(world.requests, vec!["probe out/doc", "transfer f1 out/doc"]);
    assert_eq!(world.told, vec![Notice::Started, Notice::ChecksumUnknown]);
}

#[test]
fn failed_transfer_leaves_the_part_and_the_walk_goes_on() {
    let partial = Delivery { written: Some(b"par".to_vec()), complete: false };
    let mut world = mixed_world().serving("f2", vec![partial]);
    let mut walk = download_folder(&mixed(), false, true, true, false, false);
    world.run(&mut walk);
    assert_eq!(
        walk.outcomes(),
        &vec![
            Outcome::Unverifiable,
            Outcome::TransferFailed,
            Outcome::Unverifiable,
            Outcome::Unverifiable,
        ]
    );
    assert_eq!(world.files.get("out/A/in_a.txt"), Some(&b"par".to_vec()));
    assert_eq!(world.transfers, vec!["f1", "f2", "f3", "f4"]);
    assert_eq!(
        walk.summary(),
        Summary { planned: 0, skipped: 0, failed: 1, stored: 3, mismatched: 0 }
    );
}

#[test]
fn skipped_file_is_inspected_where_checksums_are_verified() {
    let page = GooglePage {
        items: vec![
            leaf("f1", "good", "out", Some(EMPTY_MD5)),
            leaf("f2", "bad", "out", Some(EMPTY_MD5)),
            leaf("f3", "unknown", "out", None),
        ],
    };
    let mut world = World::new();
    world.files.insert(String::from("out/good"), Vec::new());
    world.files.insert(String::from("out/bad"), b"x".to_vec());
    world.files.insert(String::from("out/unknown"), b"y".to_vec());
    let mut walk = download_folder(&page, false, true, true, true, false);
    world.run(&mut walk);
    assert!(world.transfers.is_empty());
    assert!(world.removed.is_empty());
    assert_eq!(
        walk.outcomes(),
        &vec![
            Outcome::Skipped(Some(Integrity::Verified)),
            Outcome::Skipped(Some(Integrity::Mismatch)),
            Outcome::Skipped(Some(Integrity::Unverifiable)),
        ]
    );
    assert_eq!(
        world.requests,
        vec!["probe out/good", "read out/good", "probe out/bad", "read out/bad", "probe out/unknown"]
    );
    assert_eq!(
        world.told,
        vec![
            Notice::AlreadyExists,
            Notice::ChecksumMatches,
            Notice::AlreadyExists,
            Notice::ChecksumMismatch,
            Notice::AlreadyExists,
            Notice::ChecksumUnknown,
        ]
    );
}

#[test]
fn walk_ignores_what_it_did_not_ask_for() {
    let mut walk = download_folder(&photos(), false, true, true, true, false);
    assert!(matches!(walk.request(), Request::CreateDir { .. }));
    assert!(walk.advance(Event::Exists(false)).is_empty());
    assert!(walk.advance(Event::Content(Vec::new())).is_empty());
    assert!(matches!(walk.request(), Request::CreateDir { .. }));
    assert_eq!(walk.advance(Event::Ready(Folder::Existed)), vec![Notice::FolderExists]);
    assert!(matches!(walk.request(), Request::Probe { .. }));
    assert!(walk.advance(Event::Transferred(true)).is_empty());
    assert!(walk.advance(Event::Ready(Folder::Created)).is_empty());
    assert!(matches!(walk.request(), Request::Probe { .. }));
    assert_eq!(walk.advance(Event::Exists(false)), vec![Notice::Started]);
    match walk.request() {
        Request::Transfer { id, dir, dest } => {
            assert_eq!(id, "f1");
            assert_eq!(dir, "out/Photos");
            assert_eq!(dest, "out/Photos/a.jpg");
        },
        _ => panic!("a transfer should be asked for"),
    }
    assert!(walk.advance(Event::Exists(true)).is_empty());
    assert!(matches!(walk.request(), Request::Transfer { .. }));
    walk.advance(Event::Transferred(true));
    assert!(matches!(walk.request(), Request::ReadBack { .. }));
    assert_eq!(walk.advance(Event::Content(Vec::new())), vec![Notice::ChecksumMatches]);
    assert!(walk.is_finished());
    assert!(walk.advance(Event::Exists(false)).is_empty());
    assert_eq!(walk.outcomes(), &vec![Outcome::Verified]);
}

#[test]
fn plan_of_an_entry_lists_directories_before_their_content() {
    let tree = mixed();
    let mut steps: Vec<Task> = Vec::new();
    tree.items[1].download_content(false, &mut steps);
    let shown: Vec<String> = steps
        .iter()
        .map(|t| match t {
            Task::Directory(path) => format!("dir {}", path),
            Task::File(item) => format!("file {}", item.title),
        })
        .collect();
    assert_eq!(
        shown,
        vec!["dir out/A", "file in_a.txt", "dir out/A/B", "file in_b.txt", "dir out/A/Empty"]
    );
    let mut dry: Vec<Task> = Vec::new();
    tree.items[1].download_content(true, &mut dry);
    assert_eq!(dry.len(), 2);
    assert!(dry.iter().all(|t| matches!(t, Task::File(_))));
}

#[test]
fn unlisted_container_is_a_directory_and_nothing_more() {
    let mut item = folder("d", "D", "out", vec![]);
    item.children = None;
    let mut steps: Vec<Task> = Vec::new();
    item.download_content(false, &mut steps);
    assert_eq!(steps.len(), 1);
    assert!(matches!(&steps[0], Task::Directory(path) if path == "out/D"));
}

#[test]
fn directory_of_an_entry() {
    let f = folder("d", "D", "out", vec![]);
    let l = leaf("f", "F", "out/D", None);
    assert_eq!(f.create_path(), "out/D");
    assert_eq!(l.create_path(), "out/D");
    assert_eq!(parent_of(&l), "out/D");
    assert_eq!(destination_of(&l), "out/D/F");
}

#[test]
fn entry_judges_content_against_its_checksum() {
    let good = leaf("f", "F", "out", Some(EMPTY_MD5));
    assert_eq!(good.check_hash(b""), Integrity::Verified);
    assert_eq!(good.check_hash(b"x"), Integrity::Mismatch);
    assert_eq!(leaf("f", "F", "out", None).check_hash(b""), Integrity::Unverifiable);
}

#[test]
fn leaf_goes_through_its_phases() {
    let item = leaf("f", "F", "out", Some(EMPTY_MD5));
    let o = options(true, true, false, false);
    let probed = item.download_file(o, Phase::Pending, &Event::Exists(true));
    assert_eq!(probed, Phase::Transferring);
    let fetched = item.download_file(o, probed, &Event::Transferred(true));
    assert_eq!(fetched, Phase::Transferred);
    let judged = item.download_file(o, fetched, &Event::Content(b"bad".to_vec()));
    assert_eq!(judged, Phase::RetriedOnce);
    let refetched = item.download_file(o, judged, &Event::Transferred(true));
    assert_eq!(refetched, Phase::Retransferred);
    let rejudged = item.download_file(o, refetched, &Event::Content(b"bad".to_vec()));
    assert_eq!(rejudged, Phase::Settled(Outcome::TerminalMismatch));
    let after = item.download_file(o, rejudged, &Event::Exists(false));
    assert_eq!(after, rejudged);
}

#[test]
fn leaf_settles_from_the_probe() {
    let item = leaf("f", "F", "out", Some(EMPTY_MD5));
    let bare = leaf("f", "F", "out", None);
    let probe = |item: &GoogleItem, o: Options, found: bool| {
        item.download_file(o, Phase::Pending, &Event::Exists(found))
    };
    assert_eq!(probe(&item, options(false, false, false, false), false), Phase::Transferring);
    assert_eq!(
        probe(&item, options(false, false, false, false), true),
        Phase::Settled(Outcome::Skipped(None))
    );
    assert_eq!(probe(&item, options(false, true, false, false), true), Phase::Inspecting);
    assert_eq!(
        probe(&bare, options(false, true, false, false), true),
        Phase::Settled(Outcome::Skipped(Some(Integrity::Unverifiable)))
    );
    assert_eq!(
        probe(&item, options(false, true, false, true), false),
        Phase::Settled(Outcome::Planned)
    );
    assert_eq!(
        probe(&item, options(true, true, false, true), true),
        Phase::Settled(Outcome::Planned)
    );
    assert_eq!(probe(&item, options(false, true, false, true), true), Phase::Inspecting);
}

#[test]
fn leaf_settles_after_the_transfer() {
    let item = leaf("f", "F", "out", Some(EMPTY_MD5));
    let bare = leaf("f", "F", "out", None);
    let o = options(false, false, false, false);
    let checked = options(false, true, false, false);
    assert_eq!(
        item.download_file(o, Phase::Transferring, &Event::Transferred(false)),
        Phase::Settled(Outcome::TransferFailed)
    );
    assert_eq!(
        item.download_file(o, Phase::Transferring, &Event::Transferred(true)),
        Phase::Settled(Outcome::Transferred)
    );
    assert_eq!(
        item.download_file(checked, Phase::Transferring, &Event::Transferred(true)),
        Phase::Transferred
    );
    assert_eq!(
        bare.download_file(checked, Phase::Transferring, &Event::Transferred(true)),
        Phase::Settled(Outcome::Unverifiable)
    );
    assert_eq!(
        item.download_file(checked, Phase::RetriedOnce, &Event::Transferred(false)),
        Phase::Settled(Outcome::TransferFailed)
    );
    assert_eq!(
        item.download_file(checked, Phase::Inspecting, &Event::Content(Vec::new())),
        Phase::Settled(Outcome::Skipped(Some(Integrity::Verified)))
    );
}

#[test]
fn judged_transfer_is_concluded() {
    let forcing = options(true, true, false, false);
    let gentle = options(false, true, false, false);
    let dry = options(true, true, false, true);
    assert_eq!(conclude(forcing, Integrity::Verified, true), Phase::Settled(Outcome::Verified));
    assert_eq!(
        conclude(forcing, Integrity::Unverifiable, true),
        Phase::Settled(Outcome::Unverifiable)
    );
    assert_eq!(conclude(forcing, Integrity::Mismatch, true), Phase::RetriedOnce);
    assert_eq!(
        conclude(forcing, Integrity::Mismatch, false),
        Phase::Settled(Outcome::TerminalMismatch)
    );
    assert_eq!(
        conclude(gentle, Integrity::Mismatch, true),
        Phase::Settled(Outcome::TerminalMismatch)
    );
    assert_eq!(conclude(dry, Integrity::Mismatch, true), Phase::Settled(Outcome::TerminalMismatch));
}

#[test]
fn directories_are_told_of() {
    let quiet = options(false, false, false, false);
    let verbose = options(false, false, true, false);
    assert_eq!(announce_folder(quiet, Folder::Created), vec![Notice::FolderCreated]);
    assert_eq!(announce_folder(verbose, Folder::Created), vec![Notice::FolderCreated]);
    assert!(announce_folder(quiet, Folder::Existed).is_empty());
    assert_eq!(announce_folder(verbose, Folder::Existed), vec![Notice::FolderExists]);
    assert!(announce_folder(verbose, Folder::Failed).is_empty());
}

#[test]
fn phases_are_told_of() {
    let quiet = options(false, true, false, false);
    let verbose = options(false, true, true, false);
    assert_eq!(announce(quiet, Phase::Pending, Phase::Transferring), vec![Notice::Started]);
    assert!(announce(quiet, Phase::Pending, Phase::Inspecting).is_empty());
    assert_eq!(announce(verbose, Phase::Pending, Phase::Inspecting), vec![Notice::AlreadyExists]);
    assert_eq!(
        announce(quiet, Phase::Pending, Phase::Settled(Outcome::Skipped(Some(Integrity::Unverifiable)))),
        vec![Notice::ChecksumUnknown]
    );
    assert_eq!(
        announce(quiet, Phase::Transferring, Phase::Settled(Outcome::TransferFailed)),
        vec![Notice::TransferFailed]
    );
    assert!(announce(quiet, Phase::Transferred, Phase::Settled(Outcome::Verified)).is_empty());
    assert_eq!(
        announce(verbose, Phase::Retransferred, Phase::Settled(Outcome::Verified)),
        vec![Notice::ChecksumMatches]
    );
    assert!(announce(verbose, Phase::Pending, Phase::Pending).is_empty());
    assert!(announce(verbose, Phase::Pending, Phase::Settled(Outcome::Planned)).is_empty());
    assert!(announce(verbose, Phase::Transferring, Phase::Settled(Outcome::Transferred)).is_empty());
}

#[test]
fn outcomes_are_counted() {
    let outcomes = vec![
        Outcome::Planned,
        Outcome::Skipped(None),
        Outcome::Skipped(Some(Integrity::Mismatch)),
        Outcome::TransferFailed,
        Outcome::Transferred,
        Outcome::Verified,
        Outcome::Unverifiable,
        Outcome::TerminalMismatch,
    ];
    assert_eq!(
        summarize(&outcomes),
        Summary { planned: 1, skipped: 2, failed: 1, stored: 3, mismatched: 1 }
    );
    assert_eq!(
        summarize(&Vec::new()),
        Summary { planned: 0, skipped: 0, failed: 0, stored: 0, mismatched: 0 }
    );
}

#[test]
fn two_leaves_with_one_destination() {
    // Without force the second leaf finds the file of the first and is
    // skipped, while a dry run notes both.
    let page = GooglePage {
        items: vec![leaf("f1", "same", "out", None), leaf("f2", "same", "out", None)],
    };
    let mut world = World::new().serving("f1", vec![whole(b"1")]).serving("f2", vec![whole(b"2")]);
    let mut wet = download_folder(&page, false, true, false, false, false);
    world.run(&mut wet);
    assert_eq!(wet.outcomes(), &vec![Outcome::Transferred, Outcome::Skipped(None)]);
    let mut dry_world = World::new();
    let mut dry = download_folder(&page, false, true, false, false, true);
    dry_world.run(&mut dry);
    assert_eq!(dry.planned().len(), 2);
}
