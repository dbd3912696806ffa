use gdown::google_drive::{join_path, GoogleItem, GooglePage, FOLDER_MIME};
use gdown::resolver::{
    process_folder_id, ResolutionError, ResolveEvent, ResolveRequest, Resolver,
};
use gdown::web::{folder_page_url, listing_request};

fn leaf(id: &str, title: &str, checksum: Option<&str>) -> GoogleItem {
    GoogleItem {
        id: String::from(id),
        title: String::from(title),
        mimeType: String::from("image/jpeg"),
        md5Checksum: checksum.map(String::from),
        downloadUrl: None,
        fileSize: Some(String::from("0")),
        children: None,
        path: None,
    }
}

fn folder(id: &str, title: &str) -> GoogleItem {
    GoogleItem {
        id: String::from(id),
        title: String::from(title),
        mimeType: String::from(FOLDER_MIME),
        md5Checksum: None,
        downloadUrl: None,
        fileSize: None,
        children: None,
        path: None,
    }
}

fn page(items: Vec<GoogleItem>) -> GooglePage {
    GooglePage { items }
}

fn key() -> String {
    "k".repeat(39)
}

fn html() -> String {
    format!("window.__initData = ['{}', '{}']", "0".repeat(39), key())
}

/// Takes a fresh resolver past the page, so that it asks for the root's listing.
fn past_the_page(id: &str, folder_name: &str) -> Resolver {
    let mut resolver = process_folder_id(id, &String::from(folder_name));
    resolver.advance(ResolveEvent::Html(html()));
    resolver
}

fn asked_listing(resolver: &Resolver) -> String {
    match resolver.request() {
        ResolveRequest::Listing { url: _, body } => body,
        _ => panic!("a listing should be asked for"),
    }
}

#[test]
fn resolution_begins_with_the_page() {
    let resolver = process_folder_id("ROOT", &String::from("out"));
    assert!(!resolver.is_finished());
    match resolver.request() {
        ResolveRequest::Page { url } => assert_eq!(url, folder_page_url("ROOT")),
        _ => panic!("the page should be asked for"),
    }
}

#[test]
fn root_listing_is_asked_with_the_key_of_the_page() {
    let resolver = past_the_page("ROOT", "out");
    match resolver.request() {
        ResolveRequest::Listing { url, body } => {
            let expected = listing_request("ROOT", &key());
            assert_eq!(url, expected.url);
            assert_eq!(body, expected.body);
        },
        _ => panic!("a listing should be asked for"),
    }
}

#[test]
fn page_without_key_fails_the_resolution() {
    let mut resolver = process_folder_id("ROOT", &String::from("out"));
    resolver.advance(ResolveEvent::Html(String::from("<html></html>")));
    assert!(resolver.is_finished());
    assert!(matches!(resolver.request(), ResolveRequest::Nothing));
    assert!(matches!(resolver.finish(), Some(Err(ResolutionError::KeyMissing))));
}

#[test]
fn remote_error_on_the_page_fails_the_resolution() {
    let mut resolver = process_folder_id("ROOT", &String::from("out"));
    resolver.advance(ResolveEvent::RemoteError);
    assert!(matches!(resolver.finish(), Some(Err(ResolutionError::Remote))));
}

#[test]
fn remote_error_below_the_root_leaves_no_tree() {
    let mut resolver = past_the_page("ROOT", "out");
    resolver.advance(ResolveEvent::Listing(page(vec![leaf("f1", "a.txt", None), folder("d1", "Docs")])));
    assert_eq!(asked_listing(&resolver), listing_request("d1", &key()).body);
    resolver.advance(ResolveEvent::RemoteError);
    assert!(resolver.is_finished());
    assert!(matches!(resolver.finish(), Some(Err(ResolutionError::Remote))));
}

#[test]
fn unfinished_resolution_has_no_result() {
    let resolver = past_the_page("ROOT", "out");
    assert!(!resolver.is_finished());
    assert!(resolver.finish().is_none());
}

#[test]
fn resolver_ignores_what_it_did_not_ask_for() {
    let mut resolver = process_folder_id("ROOT", &String::from("out"));
    resolver.advance(ResolveEvent::Listing(page(vec![leaf("f1", "a.txt", None)])));
    assert!(matches!(resolver.request(), ResolveRequest::Page { .. }));
    resolver.advance(ResolveEvent::Html(html()));
    resolver.advance(ResolveEvent::Html(String::from("no key in here")));
    assert!(matches!(resolver.request(), ResolveRequest::Listing { .. }));
    resolver.advance(ResolveEvent::Listing(page(vec![])));
    assert!(resolver.is_finished());
    resolver.advance(ResolveEvent::RemoteError);
    let ended = resolver.finish();
    assert!(matches!(ended, Some(Ok(_))));
}

#[test]
fn empty_root_resolves_to_an_empty_collection() {
    let mut resolver = past_the_page("ROOT", "out");
    resolver.advance(ResolveEvent::Listing(page(vec![])));
    match resolver.finish() {
        Some(Ok(tree)) => assert_eq!(tree.len(), 0),
        _ => panic!("the resolution should be done"),
    }
}

#[test]
fn photos_scenario_resolves_with_paths() {
    let mut resolver = past_the_page("ROOT", "out");
    resolver.advance(ResolveEvent::Listing(page(vec![folder("ph", "Photos")])));
    assert_eq!(asked_listing(&resolver), listing_request("ph", &key()).body);
    resolver.advance(ResolveEvent::Listing(page(vec![leaf(
        "f1",
        "a.jpg",
        Some("d41d8cd98f00b204e9800998ecf8427e"),
    )])));
    assert!(resolver.is_finished());
    let tree = match resolver.finish() {
        Some(Ok(tree)) => tree,
        _ => panic!("the resolution should be done"),
    };
    assert_eq!(tree.items.len(), 1);
    let photos = &tree.items[0];
    assert_eq!(photos.title, "Photos");
    assert_eq!(photos.path, Some(String::from("out")));
    let children = photos.children.as_ref().expect("a container has its children listed");
    assert_eq!(children.len(), 1);
    assert_eq!(children[0].title, "a.jpg");
    assert_eq!(children[0].path, Some(String::from("out/Photos")));
    assert_eq!(children[0].md5Checksum, Some(String::from("d41d8cd98f00b204e9800998ecf8427e")));
    assert!(children[0].children.is_none());
}

#[test]
fn containers_are_listed_depth_first_and_order_is_kept() {
    let mut resolver = past_the_page("ROOT", "out");
    resolver.advance(ResolveEvent::Listing(page(vec![
        leaf("f1", "one", None),
        folder("d1", "A"),
        leaf("f2", "two", None),
        folder("d2", "B"),
    ])));
    // The first container is asked for before the entries after it are looked at.
    assert_eq!(asked_listing(&resolver), listing_request("d1", &key()).body);
    resolver.advance(ResolveEvent::Listing(page(vec![folder("d3", "Deep"), leaf("f3", "three", None)])));
    assert_eq!(asked_listing(&resolver), listing_request("d3", &key()).body);
    resolver.advance(ResolveEvent::Listing(page(vec![leaf("f4", "four", None)])));
    assert_eq!(asked_listing(&resolver), listing_request("d2", &key()).body);
    resolver.advance(ResolveEvent::Listing(page(vec![])));
    let tree = match resolver.finish() {
        Some(Ok(tree)) => tree,
        _ => panic!("the resolution should be done"),
    };
    let titles: Vec<&str> = tree.items.iter().map(|i| i.title.as_str()).collect();
    assert_eq!(titles, vec!["one", "A", "two", "B"]);
    for item in &tree.items {
        assert_eq!(item.path, Some(String::from("out")));
    }
    let a = tree.items[1].children.as_ref().unwrap();
    assert_eq!(a.len(), 2);
    assert_eq!(a[0].title, "Deep");
    assert_eq!(a[0].path, Some(String::from("out/A")));
    assert_eq!(a[1].title, "three");
    assert_eq!(a[1].path, Some(String::from("out/A")));
    let deep = a[0].children.as_ref().unwrap();
    assert_eq!(deep.len(), 1);
    assert_eq!(deep[0].title, "four");
    assert_eq!(deep[0].path, Some(String::from("out/A/Deep")));
    let b = tree.items[3].children.as_ref().unwrap();
    assert!(b.is_empty());
    assert!(tree.items[0].children.is_none());
}

#[test]
fn path_that_came_with_the_listing_is_replaced() {
    let mut stale = leaf("f1", "a.txt", None);
    stale.path = Some(String::from("elsewhere"));
    let mut resolver = past_the_page("ROOT", "target");
    resolver.advance(ResolveEvent::Listing(page(vec![stale])));
    let tree = match resolver.finish() {
        Some(Ok(tree)) => tree,
        _ => panic!("the resolution should be done"),
    };
    assert_eq!(tree.items[0].path, Some(String::from("target")));
}

#[test]
fn paths_are_joined_with_a_slash() {
    assert_eq!(join_path("out", "Photos"), "out/Photos");
    assert_eq!(join_path("", "x"), "/x");
    assert_eq!(join_path("a/b", ""), "a/b/");
}

#[test]
fn container_is_told_by_its_type() {
    assert!(folder("d", "D").is_folder());
    assert!(!leaf("f", "F", None).is_folder());
    let mut odd = folder("d", "D");
    odd.mimeType = String::from("application/vnd.google-apps.document");
    assert!(!odd.is_folder());
}

#[test]
fn copy_keeps_the_whole_tree() {
    let mut top = folder("d", "D");
    let mut inner = folder("e", "E");
    inner.children = Some(vec![leaf("f", "F", Some("00"))]);
    inner.path = Some(String::from("out/D"));
    top.children = Some(vec![inner, leaf("g", "G", None)]);
    top.path = Some(String::from("out"));
    let copy = top.duplicate();
    assert_eq!(copy.id, "d");
    assert_eq!(copy.title, "D");
    assert_eq!(copy.mimeType, FOLDER_MIME);
    assert_eq!(copy.path, Some(String::from("out")));
    let below = copy.children.as_ref().unwrap();
    assert_eq!(below.len(), 2);
    assert_eq!(below[0].path, Some(String::from("out/D")));
    assert_eq!(below[1].title, "G");
    assert_eq!(below[1].fileSize, Some(String::from("0")));
    let deepest = below[0].children.as_ref().unwrap();
    assert_eq!(deepest[0].md5Checksum, Some(String::from("00")));
}

#[test]
fn collection_is_shown_as_bracketed_titles() {
    assert_eq!(page(vec![]).to_text(), "[]");
    assert_eq!(page(vec![leaf("1", "a.jpg", None)]).to_text(), "[a.jpg]");
    assert_eq!(
        page(vec![leaf("1", "a.jpg", None), folder("2", "Docs"), leaf("3", "c, d", None)]).to_text(),
        "[a.jpg, Docs, c, d]"
    );
}
