use vstd::prelude::*;

use crate::google_drive::{
    children_shown, entries_of, join_path, text_of, Entry, GoogleItem, GooglePage,
};
use crate::web::{
    batch_body, batch_url, extract_key, folder_page_url, folder_url, listing_request,
    regex_capture, KEY_PATTERN,
};

verus! {

/// Why a resolution came to nothing.
#[derive(Clone, Copy, Debug, PartialEq, Eq, Structural)]
pub enum ResolutionError {
    /// The remote service failed, or what it sent could not be read.
    Remote,
    /// The folder's page held no access key.
    KeyMissing,
}

/// What a resolution waits for, or how it ended.
#[derive(Clone, Copy, Debug, PartialEq, Eq)]
pub enum Stage {
    /// The folder's page has been asked for.
    AwaitingPage,
    /// A listing has been asked for: the root's, or a container's.
    AwaitingListing,
    /// The whole tree is resolved.
    Done,
    /// The resolution was given up; there is no partial tree.
    Failed(ResolutionError),
}

/// One listing that is being worked through, as a model.
pub ghost struct Level {
    /// The container that was listed; none for the root.
    pub owner: Option<Entry>,
    /// The local path of the listed entries.
    pub dir: Seq<char>,
    /// The listed entries that have not been looked at, in listing order.
    pub waiting: Seq<Entry>,
    /// The listed entries that are resolved, in listing order.
    pub done: Seq<Entry>,
}

/// The state of a resolution, as a model.
pub ghost struct Resolution {
    /// The identifier of the shared folder.
    pub root: Seq<char>,
    /// The name of the directory the tree goes into.
    pub folder: Seq<char>,
    /// The access key, once the page has given it.
    pub key: Seq<char>,
    pub stage: Stage,
    /// The listings being worked through, the root's first.
    pub levels: Seq<Level>,
    /// The container whose listing has been asked for.
    pub awaited: Option<Entry>,
    /// The resolved collection, once the resolution is done.
    pub result: Seq<Entry>,
}

/// What the resolution hears from its surroundings, as a model.
pub ghost enum ResolveSignal {
    /// The text of the folder's page.
    Html(Seq<char>),
    /// The listing that was asked for.
    Listing(Seq<Entry>),
    /// The remote service failed.
    RemoteError,
}

/// What the resolution hears from its surroundings.
#[derive(Debug)]
pub enum ResolveEvent {
    /// The text of the folder's page.
    Html(String),
    /// The listing that was asked for.
    Listing(GooglePage),
    /// The remote service failed.
    RemoteError,
}

impl View for ResolveEvent {
    type V = ResolveSignal;

    open spec fn view(&self) -> ResolveSignal {
        match self {
            ResolveEvent::Html(text) => ResolveSignal::Html(text@),
            ResolveEvent::Listing(page) => ResolveSignal::Listing(page@),
            ResolveEvent::RemoteError => ResolveSignal::RemoteError,
        }
    }
}

/// What the resolution asks of its surroundings, as a model.
pub ghost enum ResolveDemand {
    /// Get the page at `url`.
    Page { url: Seq<char> },
    /// Post `body` to `url` and read the listing out of the answer.
    Listing { url: Seq<char>, body: Seq<char> },
    /// Nothing: the resolution is over.
    Nothing,
}

/// What the resolution asks of its surroundings.
#[derive(Debug)]
pub enum ResolveRequest {
    /// Get the page at `url`.
    Page { url: String },
    /// Post `body` to `url` and read the listing out of the answer.
    Listing { url: String, body: String },
    /// Nothing: the resolution is over.
    Nothing,
}

impl View for ResolveRequest {
    type V = ResolveDemand;

    open spec fn view(&self) -> ResolveDemand {
        match self {
            ResolveRequest::Page { url } => ResolveDemand::Page { url: url@ },
            ResolveRequest::Listing { url, body } => ResolveDemand::Listing {
                url: url@,
                body: body@,
            },
            ResolveRequest::Nothing => ResolveDemand::Nothing,
        }
    }
}

impl Resolution {
    /// A resolution of the folder `root` into the directory `folder` that
    /// has not heard anything yet.
    pub open spec fn start(root: Seq<char>, folder: Seq<char>) -> Resolution {
        Resolution {
            root,
            folder,
            key: Seq::empty(),
            stage: Stage::AwaitingPage,
            levels: Seq::empty(),
            awaited: None,
            result: Seq::empty(),
        }
    }

    /// The level `k` fits the one above it, and what it holds as done is
    /// resolved below its directory.
    pub open spec fn level_ok(self, k: int) -> bool {
        let level = self.levels[k];
        &&& k == 0 ==> level.owner is None && level.dir == self.folder
        &&& k > 0 ==> {
            &&& level.owner is Some
            &&& level.owner->0.is_folder()
            &&& level.owner->0.path == Some(self.levels[k - 1].dir)
            &&& level.dir == level.owner->0.destination()
        }
        &&& forall|i: int|
            0 <= i < level.done.len() ==> (#[trigger] level.done[i]).resolved_in(level.dir)
    }

    /// Every level fits the one above it.
    pub open spec fn levels_ok(self) -> bool {
        forall|k: int| 0 <= k < self.levels.len() ==> #[trigger] self.level_ok(k)
    }

    /// The levels fit, a container is awaited exactly while listings are
    /// being worked through, and a result, once there, is resolved below the
    /// folder.
    pub open spec fn wf(self) -> bool {
        &&& self.levels_ok()
        &&& match self.awaited {
            Some(a) => {
                &&& self.stage is AwaitingListing
                &&& self.levels.len() > 0
                &&& a.is_folder()
                &&& a.path == Some(self.levels.last().dir)
            },
            None => self.levels.len() == 0,
        }
        &&& self.stage is Done ==> forall|i: int|
            0 <= i < self.result.len() ==> (#[trigger] self.result[i]).resolved_in(self.folder)
    }

    /// The identifier whose listing is asked for.
    pub open spec fn target(self) -> Seq<char> {
        match self.awaited {
            Some(a) => a.id,
            None => self.root,
        }
    }

    /// What the resolution waits for.
    pub open spec fn demand(self) -> ResolveDemand {
        match self.stage {
            Stage::AwaitingPage => ResolveDemand::Page { url: folder_url(self.root) },
            Stage::AwaitingListing => ResolveDemand::Listing {
                url: batch_url(),
                body: batch_body(self.target(), self.key),
            },
            _ => ResolveDemand::Nothing,
        }
    }

    /// Works through what is listed until a container's listing is needed
    /// or nothing is left. Each entry gets the directory of its level as its
    /// local path. A leaf is done with that; a container is awaited. A level
    /// with nothing waiting is closed: its entries become the children of
    /// its owner, which is then done one level up; the root's level becomes
    /// the result.
    pub open spec fn settle(self) -> Resolution
        decreases self.levels.len(), self.levels.last().waiting.len(),
    {
        if self.levels.len() == 0 {
            self
        } else {
            let top = self.levels.last();
            let below = self.levels.drop_last();
            if top.waiting.len() > 0 {
                let item = top.waiting.first().put_in(top.dir);
                let rest = Level { waiting: top.waiting.drop_first(), ..top };
                if item.is_folder() {
                    Resolution { levels: below.push(rest), awaited: Some(item), ..self }
                } else {
                    Resolution {
                        levels: below.push(Level { done: rest.done.push(item), ..rest }),
                        ..self
                    }.settle()
                }
            } else if below.len() == 0 {
                Resolution { levels: below, stage: Stage::Done, result: top.done, ..self }
            } else {
                let parent = below.last();
                let grown = Level {
                    done: parent.done.push(top.owner->0.holding(top.done)),
                    ..parent
                };
                Resolution { levels: below.drop_last().push(grown), ..self }.settle()
            }
        }
    }

    /// The resolution after the page's key was looked for.
    pub open spec fn with_key(self, key: Option<Seq<char>>) -> Resolution {
        match key {
            Some(key) => Resolution { key, stage: Stage::AwaitingListing, ..self },
            None => Resolution { stage: Stage::Failed(ResolutionError::KeyMissing), ..self },
        }
    }

    /// The resolution after a listing came in: a new level holds it, below
    /// the destination of the container it belongs to, or in the folder
    /// itself for the root; then the resolution works on.
    pub open spec fn with_listing(self, listing: Seq<Entry>) -> Resolution {
        Resolution {
            levels: self.levels.push(
                Level {
                    owner: self.awaited,
                    dir: match self.awaited {
                        Some(a) => a.destination(),
                        None => self.folder,
                    },
                    waiting: listing,
                    done: Seq::empty(),
                },
            ),
            awaited: None,
            ..self
        }.settle()
    }

    /// The resolution after `signal`. A failure of the remote service ends
    /// it and leaves no tree. A signal that does not answer what the
    /// resolution waits for changes nothing.
    pub open spec fn advance(self, signal: ResolveSignal) -> Resolution {
        match (self.stage, signal) {
            (Stage::AwaitingPage, ResolveSignal::Html(text)) => self.with_key(
                regex_capture(KEY_PATTERN@, text, 1),
            ),
            (Stage::AwaitingListing, ResolveSignal::Listing(listing)) => self.with_listing(
                listing,
            ),
            (Stage::AwaitingPage, ResolveSignal::RemoteError)
            | (Stage::AwaitingListing, ResolveSignal::RemoteError) => Resolution {
                stage: Stage::Failed(ResolutionError::Remote),
                levels: Seq::empty(),
                awaited: None,
                ..self
            },
            _ => self,
        }
    }

    /// How the resolution ended, if it has.
    pub open spec fn outcome(self) -> Option<Result<Seq<Entry>, ResolutionError>> {
        match self.stage {
            Stage::Done => Some(Ok(self.result)),
            Stage::Failed(why) => Some(Err(why)),
            _ => None,
        }
    }
}

/// What an entry can do towards its own resolution.
pub trait RetrieveChildren: View<V = Entry> {
    /// Gives the entry its local path and says whether its children must be
    /// listed: they must for a container.
    fn retrieve_children(&mut self, path: String) -> (container: bool)
        ensures
            final(self)@ == old(self)@.put_in(path@),
            container == old(self)@.is_folder(),
    ;

    /// Lists `children` below the entry.
    fn adopt(&mut self, children: Vec<GoogleItem>)
        ensures
            final(self)@ == old(self)@.holding(entries_of(children@)),
    ;
}

impl RetrieveChildren for GoogleItem {
    fn retrieve_children(&mut self, path: String) -> (container: bool) {
        proof {
            children_shown(*self);
        }
        self.path = Some(path);
        proof {
            children_shown(*self);
        }
        self.is_folder()
    }

    fn adopt(&mut self, children: Vec<GoogleItem>) {
        proof {
            children_shown(*self);
        }
        self.children = Some(children);
        proof {
            children_shown(*self);
        }
    }
}

/// One listing that is being worked through.
struct Frame {
    owner: Option<GoogleItem>,
    dir: String,
    waiting: Vec<GoogleItem>,
    done: Vec<GoogleItem>,
}

/// The model of an entry that may be missing.
pub open spec fn entry_of(item: Option<GoogleItem>) -> Option<Entry> {
    match item {
        Some(i) => Some(i@),
        None => None,
    }
}

impl View for Frame {
    type V = Level;

    closed spec fn view(&self) -> Level {
        Level {
            owner: entry_of(self.owner),
            dir: self.dir@,
            waiting: entries_of(self.waiting@),
            done: entries_of(self.done@),
        }
    }
}

/// The resolution of a shared folder into a tree with local paths: it says
/// what it needs next, takes what the surroundings report, and ends with the
/// whole tree or with none.
pub struct Resolver {
    root: String,
    folder: String,
    key: String,
    stage: Stage,
    frames: Vec<Frame>,
    awaited: Option<GoogleItem>,
    result: GooglePage,
}

impl View for Resolver {
    type V = Resolution;

    closed spec fn view(&self) -> Resolution {
        Resolution {
            root: self.root@,
            folder: self.folder@,
            key: self.key@,
            stage: self.stage,
            levels: self.frames@.map_values(|f: Frame| f@),
            awaited: entry_of(self.awaited),
            result: self.result@,
        }
    }
}

/// Begins the resolution of the shared folder `id` into the directory
/// `output_folder`.
pub fn process_folder_id(id: &str, output_folder: &String) -> (resolver: Resolver)
    ensures
        resolver@ == Resolution::start(id@, output_folder@),
        resolver@.wf(),
{
    let resolver = Resolver {
        root: String::from_str(id),
        folder: output_folder.clone(),
        key: String::new(),
        stage: Stage::AwaitingPage,
        frames: Vec::new(),
        awaited: None,
        result: GooglePage { items: Vec::new() },
    };
    proof {
        assert(resolver@.levels =~= Seq::empty());
        assert(resolver@.result =~= Seq::empty());
    }
    resolver
}

impl Resolver {
    /// Whether the resolution is over, with a tree or without.
    pub fn is_finished(&self) -> (over: bool)
        ensures
            over == self@.outcome() is Some,
    {
        match self.stage {
            Stage::Done => true,
            Stage::Failed(_) => true,
            _ => false,
        }
    }

    /// What the resolution needs next from its surroundings.
    pub fn request(&self) -> (wanted: ResolveRequest)
        ensures
            wanted@ == self@.demand(),
    {
        match self.stage {
            Stage::AwaitingPage => ResolveRequest::Page {
                url: folder_page_url(self.root.as_str()),
            },
            Stage::AwaitingListing => {
                let post = match &self.awaited {
                    Some(a) => {
                        proof {
                            children_shown(*a);
                        }
                        listing_request(a.id.as_str(), self.key.as_str())
                    },
                    None => listing_request(self.root.as_str(), self.key.as_str()),
                };
                ResolveRequest::Listing { url: post.url, body: post.body }
            },
            _ => ResolveRequest::Nothing,
        }
    }

    /// Takes in the key that was looked for in the folder's page. Without a
    /// key the resolution fails.
    pub fn take_key(&mut self, key: Option<String>)
        requires
            old(self)@.wf(),
            old(self)@.stage is AwaitingPage,
        ensures
            final(self)@ == old(self)@.with_key(text_of(key)),
            final(self)@.wf(),
    {
        match key {
            Some(key) => {
                self.key = key;
                self.stage = Stage::AwaitingListing;
            },
            None => {
                self.stage = Stage::Failed(ResolutionError::KeyMissing);
            },
        }
    }

    /// Works through what is listed until a listing is needed or all is done.
    fn settle(&mut self)
        requires
            old(self)@.levels_ok(),
            old(self)@.levels.len() > 0,
            old(self)@.awaited is None,
            old(self)@.stage is AwaitingListing,
        ensures
            final(self)@ == old(self)@.settle(),
            final(self)@.wf(),
    {
        let mut moving = true;
        while moving
            invariant
                self@.levels_ok(),
                moving ==> {
                    &&& self@.levels.len() > 0
                    &&& self@.awaited is None
                    &&& self@.stage is AwaitingListing
                    &&& self@.settle() == old(self)@.settle()
                },
                !moving ==> self@ == old(self)@.settle() && self@.wf(),
            decreases
                    (if moving {
                        1int
                    } else {
                        0int
                    }),
                    self.frames@.len(),
                    (if self.frames@.len() > 0 {
                        self.frames@.last().waiting@.len()
                    } else {
                        0
                    }),
        {
            let ghost before = self@;
            let ghost top_level = before.levels.last();
            let ghost below = before.levels.drop_last();
            let mut top = self.frames.pop().unwrap();
            proof {
                assert(top@ == top_level);
                assert(self@.levels =~= below);
                assert(before.level_ok(before.levels.len() - 1));
            }
            if top.waiting.len() > 0 {
                let mut item = top.waiting.remove(0);
                let container = item.retrieve_children(top.dir.clone());
                let ghost placed = top_level.waiting.first().put_in(top_level.dir);
                let ghost rest = Level { waiting: top_level.waiting.drop_first(), ..top_level };
                proof {
                    assert(item@ == placed);
                    assert(entries_of(top.waiting@) =~= top_level.waiting.drop_first());
                    assert(top@ == rest);
                }
                if container {
                    self.frames.push(top);
                    self.awaited = Some(item);
                    moving = false;
                    proof {
                        assert(self@.levels =~= below.push(rest));
                        assert(self@ == before.settle());
                        assert forall|k: int| 0 <= k < self@.levels.len() implies #[trigger] self@.level_ok(
                            k,
                        ) by {
                            assert(before.level_ok(k));
                        }
                    }
                } else {
                    top.done.push(item);
                    let ghost fuller = Level { done: rest.done.push(placed), ..rest };
                    proof {
                        assert(entries_of(top.done@) =~= rest.done.push(placed));
                        assert(top@ == fuller);
                    }
                    self.frames.push(top);
                    proof {
                        assert(self@.levels =~= below.push(fuller));
                        assert(self@.settle() == before.settle());
                        assert forall|k: int| 0 <= k < self@.levels.len() implies #[trigger] self@.level_ok(
                            k,
                        ) by {
                            assert(before.level_ok(k));
                        }
                    }
                }
            } else if self.frames.len() == 0 {
                self.result = GooglePage { items: top.done };
                self.stage = Stage::Done;
                moving = false;
                proof {
                    assert(self@.levels =~= below);
                    assert(self@ == before.settle());
                }
            } else {
                let mut parent = self.frames.pop().unwrap();
                let ghost parent_level = below.last();
                proof {
                    assert(parent@ == parent_level);
                    assert(before.level_ok(before.levels.len() - 2));
                }
                match top.owner {
                    Some(mut owner) => {
                        let ghost grown = Level {
                            done: parent_level.done.push(top_level.owner->0.holding(top_level.done)),
                            ..parent_level
                        };
                        owner.adopt(top.done);
                        parent.done.push(owner);
                        proof {
                            assert(entries_of(parent.done@) =~= grown.done);
                            assert(parent@ == grown);
                        }
                        self.frames.push(parent);
                        proof {
                            assert(self@.levels =~= below.drop_last().push(grown));
                            assert(self@.settle() == before.settle());
                            assert forall|k: int| 0 <= k < self@.levels.len() implies #[trigger] self@.level_ok(
                                k,
                            ) by {
                                assert(before.level_ok(k));
                            }
                        }
                    },
                    None => {
                        self.frames.push(parent);
                    },
                }
            }
        }
    }

    /// Takes in the listing that was asked for, and works through it and
    /// what else is listed until another listing is needed or all is done.
    pub fn take_listing(&mut self, listing: GooglePage)
        requires
            old(self)@.wf(),
            old(self)@.stage is AwaitingListing,
        ensures
            final(self)@ == old(self)@.with_listing(listing@),
            final(self)@.wf(),
    {
        let ghost before = self@;
        let owner = self.awaited.take();
        let dir = match &owner {
            Some(a) => {
                proof {
                    children_shown(*a);
                }
                match &a.path {
                    Some(path) => join_path(path.as_str(), a.title.as_str()),
                    None => String::new(),
                }
            },
            None => self.folder.clone(),
        };
        let frame = Frame { owner, dir, waiting: listing.items, done: Vec::new() };
        let ghost level = Level {
            owner: before.awaited,
            dir: match before.awaited {
                Some(a) => a.destination(),
                None => before.folder,
            },
            waiting: listing@,
            done: Seq::empty(),
        };
        proof {
            assert(frame@.done =~= level.done);
            assert(frame@ == level);
        }
        self.frames.push(frame);
        proof {
            assert(self@.levels =~= before.levels.push(level));
            assert forall|k: int| 0 <= k < self@.levels.len() implies #[trigger] self@.level_ok(
                k,
            ) by {
                if k < before.levels.len() {
                    assert(before.level_ok(k));
                }
            }
        }
        self.settle();
    }

    /// Takes in what the surroundings report and moves the resolution on.
    pub fn advance(&mut self, event: ResolveEvent)
        requires
            old(self)@.wf(),
        ensures
            final(self)@ == old(self)@.advance(event@),
            final(self)@.wf(),
    {
        match (self.stage, event) {
            (Stage::AwaitingPage, ResolveEvent::Html(text)) => {
                let key = extract_key(text.as_str());
                self.take_key(key);
            },
            (Stage::AwaitingListing, ResolveEvent::Listing(listing)) => {
                self.take_listing(listing);
            },
            (Stage::AwaitingPage, ResolveEvent::RemoteError)
            | (Stage::AwaitingListing, ResolveEvent::RemoteError) => {
                self.stage = Stage::Failed(ResolutionError::Remote);
                self.frames = Vec::new();
                self.awaited = None;
                proof {
                    assert(self@.levels =~= Seq::empty());
                }
            },
            _ => {},
        }
    }

    /// How the resolution ended, if it has: with the resolved collection, or
    /// with the reason why there is none.
    pub fn finish(self) -> (ended: Option<Result<GooglePage, ResolutionError>>)
        requires
            self@.wf(),
        ensures
            ended matches Some(Ok(page)) ==> forall|i: int|
                0 <= i < page@.len() ==> (#[trigger] page@[i]).resolved_in(self@.folder),
            ended is Some == self@.outcome() is Some,
            ended matches Some(Ok(page)) ==> self@.outcome() == Some(
                Ok::<Seq<Entry>, ResolutionError>(page@),
            ),
            ended matches Some(Err(why)) ==> self@.outcome() == Some(
                Err::<Seq<Entry>, ResolutionError>(why),
            ),
    {
        match self.stage {
            Stage::Done => Some(Ok(self.result)),
            Stage::Failed(why) => Some(Err(why)),
            _ => None,
        }
    }
}

} // verus!
